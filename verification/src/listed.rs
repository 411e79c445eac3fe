use vstd::prelude::*;
use crate::text::str_eq;

verus! {

/// Whether `i` is the last position at which `name` occurs in `names`.
pub open spec fn last_position(names: Seq<Seq<char>>, name: Seq<char>, i: int) -> bool {
    &&& 0 <= i < names.len()
    &&& names[i] == name
    &&& forall|j: int| i < j < names.len() ==> names[j] != name
}

/// Law: a name occurs last at one position only, so a lookup's answer is
/// determined by the names.
pub proof fn lemma_last_position_unique(names: Seq<Seq<char>>, name: Seq<char>, i: int, j: int)
    requires
        last_position(names, name, i),
        last_position(names, name, j),
    ensures
        i == j,
{
}

/// A list of assets, each under a name. Looking a name up finds the last
/// asset listed under it.
pub struct Listed<T> {
    list: Vec<T>,
    names: Vec<String>,
}

impl<T> Listed<T> {
    /// The listed assets, in list order.
    pub closed spec fn items(&self) -> Seq<T> {
        self.list@
    }

    /// The name of each listed asset, in list order.
    pub closed spec fn names(&self) -> Seq<Seq<char>> {
        self.names@.map_values(|s: String| s@)
    }

    /// Every asset has a name.
    #[verifier::type_invariant]
    spec fn wf(self) -> bool {
        self.list@.len() == self.names@.len()
    }

    /// Builds the list from the names of the assets and the assets, loaded in
    /// the same order.
    pub fn from_list(names: Vec<String>, list: Vec<T>) -> (l: Listed<T>)
        requires
            names.len() == list.len(),
        ensures
            l.items() == list@,
            l.names() == names@.map_values(|s: String| s@),
    {
        Listed { list, names }
    }

    /// The position of the asset that `name` finds, if any.
    pub fn index(&self, name: &str) -> (r: Option<usize>)
        ensures
            self.items().len() == self.names().len(),
            r matches Some(i) ==> last_position(self.names(), name@, i as int),
            r matches Some(i) ==> i < self.items().len(),
            r is None <==> !self.names().contains(name@),
    {
        proof {
            use_type_invariant(self);
        }
        let mut i = self.names.len();
        while i > 0
            invariant
                0 <= i <= self.names@.len(),
                self.names@.len() == self.names().len(),
                self.list@.len() == self.names@.len(),
                forall|j: int| i <= j < self.names().len() ==> self.names()[j] != name@,
            decreases i,
        {
            let found = str_eq(self.names[i - 1].as_str(), name);
            if found {
                assert(self.names()[i - 1] == name@);
                return Some(i - 1);
            }
            i = i - 1;
        }
        proof {
            if self.names().contains(name@) {
                let j = choose|j: int| 0 <= j < self.names().len() && self.names()[j] == name@;
            }
        }
        None
    }

    /// The asset that `name` finds, if any.
    pub fn get(&self, name: &str) -> (r: Option<&T>)
        ensures
            self.items().len() == self.names().len(),
            r matches Some(x) ==> exists|i: int|
                last_position(self.names(), name@, i) && *x == self.items()[i],
            r is None <==> !self.names().contains(name@),
    {
        proof {
            use_type_invariant(self);
        }
        match self.index(name) {
            Some(i) => {
                assert(last_position(self.names(), name@, i as int) && self.list@[i as int]
                    == self.items()[i as int]);
                Some(&self.list[i])
            },
            None => None,
        }
    }

    /// Every name under which an asset is listed, each once.
    pub fn keys(&self) -> (keys: Vec<&str>)
        ensures
            self.items().len() == self.names().len(),
            forall|a: int, b: int| 0 <= a < b < keys@.len() ==> keys@[a]@ != keys@[b]@,
            forall|n: Seq<char>|
                self.names().contains(n) <==> exists|a: int|
                    0 <= a < keys@.len() && (#[trigger] keys@[a])@ == n,
    {
        proof {
            use_type_invariant(self);
        }
        let mut keys: Vec<&str> = Vec::new();
        let mut i: usize = 0;
        while i < self.names.len()
            invariant
                0 <= i <= self.names@.len(),
                self.names@.len() == self.names().len(),
                forall|a: int, b: int| 0 <= a < b < keys@.len() ==> keys@[a]@ != keys@[b]@,
                forall|n: Seq<char>|
                    self.names().take(i as int).contains(n) <==> exists|a: int|
                        0 <= a < keys@.len() && (#[trigger] keys@[a])@ == n,
            decreases self.names@.len() - i,
        {
            let name = self.names[i].as_str();
            let mut seen = false;
            let mut k: usize = 0;
            while k < keys.len()
                invariant
                    0 <= k <= keys@.len(),
                    seen <==> exists|a: int| 0 <= a < k && (#[trigger] keys@[a])@ == name@,
                decreases keys@.len() - k,
            {
                if str_eq(keys[k], name) {
                    seen = true;
                }
                k = k + 1;
            }
            let ghost before = keys@;
            if !seen {
                keys.push(name);
            }
            proof {
                let prefix = self.names().take(i as int);
                let next = self.names().take(i + 1);
                assert(next == prefix.push(name@));
                assert forall|n: Seq<char>|
                    next.contains(n) <==> exists|a: int|
                        0 <= a < keys@.len() && (#[trigger] keys@[a])@ == n by {
                    if next.contains(n) {
                        let w = choose|w: int| 0 <= w < next.len() && next[w] == n;
                        if w < prefix.len() {
                            assert(prefix[w] == n);
                            assert(prefix.contains(n));
                            let a = choose|a: int| 0 <= a < before.len() && (#[trigger] before[a])@ == n;
                            assert(keys@[a] == before[a]);
                        } else if seen {
                            let a = choose|a: int| 0 <= a < before.len() && (#[trigger] before[a])@ == name@;
                            assert(keys@[a] == before[a]);
                        } else {
                            assert(keys@[before.len() as int]@ == n);
                        }
                    }
                    if exists|a: int| 0 <= a < keys@.len() && (#[trigger] keys@[a])@ == n {
                        let a = choose|a: int| 0 <= a < keys@.len() && (#[trigger] keys@[a])@ == n;
                        if a < before.len() {
                            assert(before[a]@ == n);
                            assert(prefix.contains(n));
                            let w = choose|w: int| 0 <= w < prefix.len() && prefix[w] == n;
                            assert(next[w] == n);
                        } else {
                            assert(next[i as int] == n);
                        }
                    }
                }
            }
            i = i + 1;
        }
        proof {
            assert(self.names().take(self.names().len() as int) == self.names());
        }
        keys
    }
}

} // verus!
