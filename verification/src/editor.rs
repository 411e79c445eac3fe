use vstd::prelude::*;
use crate::text::str_eq;

verus! {

/// The settings of the endpoint tool, which places the spawn and the
/// finish: it has none.
pub struct EndpointToolConfig {}

/// The tool selected after the tool-switch key: the next one, wrapping
/// around.
pub fn next_tool(selected: usize, count: usize) -> (next: usize)
    requires
        count > 0,
        selected < usize::MAX,
    ensures
        next == (selected + 1) % (count as int),
        next < count,
{
    (selected + 1) % count
}

/// The position of the first option with the given name, if any.
pub open spec fn first_position(options: Seq<Seq<char>>, name: Seq<char>, i: int) -> bool {
    &&& 0 <= i < options.len()
    &&& options[i] == name
    &&& forall|j: int| 0 <= j < i ==> options[j] != name
}

/// The names of the options.
pub open spec fn option_names(options: Seq<String>) -> Seq<Seq<char>> {
    options.map_values(|s: String| s@)
}

/// The option that the cycle key selects among the options (sorted by the
/// caller): the one after the first option named like the selected one, or
/// the second one (wrapping around) when the selected one is not among them.
pub fn next_option(options: &Vec<String>, selected: &str) -> (next: usize)
    requires
        options@.len() > 0,
    ensures
        next < options@.len(),
        (exists|i: int|
            #[trigger] first_position(option_names(options@), selected@, i) && next == (i + 1) % (
            options@.len() as int)) || (!option_names(options@).contains(selected@) && next == 1int
            % (options@.len() as int)),
{
    let ghost names = option_names(options@);
    let mut i: usize = 0;
    while i < options.len()
        invariant
            0 <= i <= options@.len(),
            names == option_names(options@),
            forall|j: int| 0 <= j < i ==> names[j] != selected@,
        decreases options@.len() - i,
    {
        if str_eq(options[i].as_str(), selected) {
            assert(first_position(names, selected@, i as int));
            return (i + 1) % options.len();
        }
        i = i + 1;
    }
    proof {
        if names.contains(selected@) {
            let j = choose|j: int| 0 <= j < names.len() && names[j] == selected@;
        }
    }
    1 % options.len()
}

/// The segment that the video editor's "next" button selects: the next one,
/// or the last one when it is already there.
pub fn next_segment(current: usize, count: usize) -> (next: usize)
    requires
        count > 0,
        current < usize::MAX,
    ensures
        next == if current + 1 < count - 1 {
            current + 1
        } else {
            count - 1
        },
{
    let after = current + 1;
    if after < count - 1 {
        after
    } else {
        count - 1
    }
}

/// The segment that the video editor's "prev" button selects: the previous
/// one, or the first one when it is already there.
pub fn prev_segment(current: usize) -> (prev: usize)
    ensures
        prev == if current > 1 {
            current - 1
        } else {
            0
        },
{
    let at_least_one = if current > 1 {
        current
    } else {
        1
    };
    at_least_one - 1
}

/// The expected path of a level as the progress tool edits it: pieces of
/// path, each a list of points, none of them empty.
pub open spec fn no_empty_piece<P>(paths: Seq<Vec<P>>) -> bool {
    forall|i: int| 0 <= i < paths.len() ==> (#[trigger] paths[i])@.len() > 0
}

/// Adds a point to the expected path: to a new piece when there is none yet
/// or `new_piece` is asked for, else to the end of the last piece.
pub fn add_path_point<P>(paths: &mut Vec<Vec<P>>, point: P, new_piece: bool)
    ensures
        old(paths)@.len() == 0 || new_piece ==> {
            &&& final(paths)@.len() == old(paths)@.len() + 1
            &&& final(paths)@.last()@ == seq![point]
            &&& forall|i: int|
                0 <= i < old(paths)@.len() ==> #[trigger] final(paths)@[i] == old(paths)@[i]
        },
        !(old(paths)@.len() == 0 || new_piece) ==> {
            &&& final(paths)@.len() == old(paths)@.len()
            &&& final(paths)@.last()@ == old(paths)@.last()@.push(point)
            &&& forall|i: int|
                0 <= i < old(paths)@.len() - 1 ==> #[trigger] final(paths)@[i] == old(paths)@[i]
        },
        no_empty_piece(old(paths)@) ==> no_empty_piece(final(paths)@),
{
    if paths.len() == 0 || new_piece {
        let mut piece: Vec<P> = Vec::new();
        piece.push(point);
        paths.push(piece);
        proof {
            assert(piece@ == seq![point]);
        }
    } else {
        let last = paths.len() - 1;
        let mut piece = paths.remove(last);
        piece.push(point);
        paths.push(piece);
    }
}

/// Removes point `j` of piece `i` of the expected path, and the piece itself
/// once it has no point left.
pub fn remove_path_point<P>(paths: &mut Vec<Vec<P>>, i: usize, j: usize)
    requires
        i < old(paths)@.len(),
        j < old(paths)@[i as int]@.len(),
    ensures
        old(paths)@[i as int]@.len() == 1 ==> final(paths)@ == old(paths)@.remove(i as int),
        old(paths)@[i as int]@.len() > 1 ==> {
            &&& final(paths)@.len() == old(paths)@.len()
            &&& final(paths)@[i as int]@ == old(paths)@[i as int]@.remove(j as int)
            &&& forall|k: int|
                0 <= k < old(paths)@.len() && k != i ==> #[trigger] final(paths)@[k] == old(
                    paths,
                )@[k]
        },
        no_empty_piece(old(paths)@) ==> no_empty_piece(final(paths)@),
{
    let mut piece = paths.remove(i);
    piece.remove(j);
    if piece.len() > 0 {
        paths.insert(i, piece);
    }
}


/// Whether text `a` comes no later than text `b` in the order of `str`'s
/// `Ord`: character by character, a prefix first.
pub open spec fn text_le(a: Seq<char>, b: Seq<char>) -> bool
    decreases a.len(),
{
    if a.len() == 0 {
        true
    } else if b.len() == 0 {
        false
    } else if a[0] != b[0] {
        (a[0] as int) < (b[0] as int)
    } else {
        text_le(a.drop_first(), b.drop_first())
    }
}

proof fn lemma_text_le_total(a: Seq<char>, b: Seq<char>)
    ensures
        text_le(a, b) || text_le(b, a),
    decreases a.len(),
{
    if a.len() > 0 && b.len() > 0 && a[0] == b[0] {
        lemma_text_le_total(a.drop_first(), b.drop_first());
    }
}

proof fn lemma_text_le_transitive(a: Seq<char>, b: Seq<char>, c: Seq<char>)
    requires
        text_le(a, b),
        text_le(b, c),
    ensures
        text_le(a, c),
    decreases a.len(),
{
    if a.len() > 0 && b.len() > 0 && c.len() > 0 && a[0] == b[0] && b[0] == c[0] {
        lemma_text_le_transitive(a.drop_first(), b.drop_first(), c.drop_first());
    }
}

/// Whether text `a` comes no later than text `b`.
fn text_le_exec(a: &str, b: &str) -> (le: bool)
    ensures
        le == text_le(a@, b@),
{
    let n = a.unicode_len();
    let m = b.unicode_len();
    let mut i: usize = 0;
    assert(a@.skip(0) =~= a@);
    assert(b@.skip(0) =~= b@);
    while i < n && i < m
        invariant
            n == a@.len(),
            m == b@.len(),
            0 <= i <= n,
            i <= m,
            forall|k: int| 0 <= k < i ==> a@[k] == b@[k],
            text_le(a@, b@) == text_le(a@.skip(i as int), b@.skip(i as int)),
        decreases n - i,
    {
        let x = a.get_char(i);
        let y = b.get_char(i);
        proof {
            assert(a@.skip(i as int)[0] == x);
            assert(b@.skip(i as int)[0] == y);
            assert(a@.skip(i as int).drop_first() =~= a@.skip(i + 1));
            assert(b@.skip(i as int).drop_first() =~= b@.skip(i + 1));
        }
        if x != y {
            return (x as u32) < (y as u32);
        }
        i = i + 1;
    }
    i == n
}

/// Puts the names in the order of `str`'s `Ord`.
pub fn sort_names(names: &mut Vec<&str>)
    ensures
        final(names)@.to_multiset() == old(names)@.to_multiset(),
        forall|a: int, b: int|
            0 <= a < b < final(names)@.len() ==> text_le(final(names)@[a]@, final(names)@[b]@),
{
    broadcast use vstd::seq_lib::group_to_multiset_ensures;
    broadcast use vstd::multiset::group_multiset_axioms;
    let ghost original = names@.to_multiset();
    let n = names.len();
    let mut i: usize = 1;
    while i < n
        invariant
            n == names@.len(),
            1 <= i || n == 0,
            i <= n || n == 0,
            names@.to_multiset() == original,
            forall|a: int, b: int| 0 <= a < b < i && b < n ==> text_le(names@[a]@, names@[b]@),
        decreases n - i,
    {
        let mut j: usize = i;
        while j > 0 && !text_le_exec(names[j - 1], names[j])
            invariant
                n == names@.len(),
                1 <= i < n,
                0 <= j <= i,
                names@.to_multiset() == original,
                forall|a: int, b: int|
                    0 <= a < b <= i && a != j && b != j ==> text_le(names@[a]@, names@[b]@),
                forall|b: int| j < b <= i ==> text_le(names@[j as int]@, names@[b]@),
            decreases j,
        {
            let x = names[j - 1];
            let y = names[j];
            proof {
                lemma_text_le_total(x@, y@);
            }
            let ghost before = names@;
            names.set(j - 1, y);
            names.set(j, x);
            proof {
                broadcast use vstd::multiset::group_multiset_properties;
                assert(names@.to_multiset() == before.to_multiset()) by {
                    let mid = before.update(j - 1, y);
                    vstd::seq_lib::to_multiset_update(before, j - 1, y);
                    assert(names@ == mid.update(j as int, x));
                    vstd::seq_lib::to_multiset_update(mid, j as int, x);
                    let ms = before.to_multiset();
                    assert(before[j - 1] == x);
                    assert(before.contains(x));
                    vstd::seq_lib::to_multiset_contains(before, x);
                    assert(ms.count(x) > 0);
                    let m4 = ms.insert(y).remove(x).insert(x).remove(y);
                    assert forall|v: &str| m4.count(v) == ms.count(v) by {}
                    assert(m4 =~= ms);
                }
                assert forall|b: int| j - 1 < b <= i implies text_le(
                    names@[j - 1]@,
                    (#[trigger] names@[b])@,
                ) by {
                    if b > j {
                        lemma_text_le_transitive(y@, x@, names@[b]@);
                    }
                }
            }
            j = j - 1;
        }
        proof {
            assert forall|a: int, b: int| 0 <= a < b <= i implies text_le(
                names@[a]@,
                names@[b]@,
            ) by {
                if a < j {
                    if a < j - 1 {
                        lemma_text_le_transitive(names@[a]@, names@[j - 1]@, names@[j as int]@);
                    }
                    if j < b {
                        lemma_text_le_transitive(names@[a]@, names@[j as int]@, names@[b]@);
                    }
                }
            }
        }
        i = i + 1;
    }
}

} // verus!
