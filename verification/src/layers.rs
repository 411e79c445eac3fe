use vstd::prelude::*;
use crate::text::str_eq;

verus! {

/// How a layer of a character drawing reacts to what the character does.
#[derive(Debug, Clone, Copy, PartialEq, Eq, Hash, Structural)]
pub enum GuyRenderLayerMode {
    Body,
    ForceFart,
    Idle,
    Growl,
    Cheeks,
}

/// The name by which a drawing selects a layer mode.
pub open spec fn mode_name(mode: GuyRenderLayerMode) -> Seq<char> {
    match mode {
        GuyRenderLayerMode::Body => "body"@,
        GuyRenderLayerMode::ForceFart => "force-fart"@,
        GuyRenderLayerMode::Idle => "idle"@,
        GuyRenderLayerMode::Growl => "growl"@,
        GuyRenderLayerMode::Cheeks => "cheeks"@,
    }
}

/// A mode name that names no layer mode.
#[derive(Debug)]
pub struct UnknownLayerMode {
    pub text: String,
}

/// The text `str`'s `Debug` writes for a string: the string in double
/// quotes, with the characters that need it escaped.
pub uninterp spec fn debug_text(s: Seq<char>) -> Seq<char>;

/// `format!("{:?}", s)`, `Debug` of `str`. What is claimed: the result is
/// the named value `debug_text` of the string's characters. How characters
/// are escaped is not stated.
#[verifier::external_body]
fn debug_quoted(s: &str) -> (r: String)
    ensures
        r@ == debug_text(s@),
{
    format!("{:?}", s)
}

impl UnknownLayerMode {
    /// The message of the error: the name in `Debug` quotes, then
    /// ` is unknown mode`.
    pub fn message(&self) -> (m: String)
        ensures
            m@ == debug_text(self.text@) + " is unknown mode"@,
    {
        debug_quoted(self.text.as_str()).concat(" is unknown mode")
    }
}

impl GuyRenderLayerMode {
    /// Reads a layer mode from its name.
    pub fn from_str(s: &str) -> (r: Result<GuyRenderLayerMode, UnknownLayerMode>)
        ensures
            r matches Ok(mode) ==> s@ == mode_name(mode),
            r matches Err(e) ==> e.text@ == s@,
            r is Err <==> (forall|mode: GuyRenderLayerMode| s@ != #[trigger] mode_name(mode)),
    {
        if str_eq(s, "body") {
            assert(s@ == mode_name(GuyRenderLayerMode::Body));
            Ok(GuyRenderLayerMode::Body)
        } else if str_eq(s, "force-fart") {
            assert(s@ == mode_name(GuyRenderLayerMode::ForceFart));
            Ok(GuyRenderLayerMode::ForceFart)
        } else if str_eq(s, "idle") {
            assert(s@ == mode_name(GuyRenderLayerMode::Idle));
            Ok(GuyRenderLayerMode::Idle)
        } else if str_eq(s, "growl") {
            assert(s@ == mode_name(GuyRenderLayerMode::Growl));
            Ok(GuyRenderLayerMode::Growl)
        } else if str_eq(s, "cheeks") {
            assert(s@ == mode_name(GuyRenderLayerMode::Cheeks));
            Ok(GuyRenderLayerMode::Cheeks)
        } else {
            proof {
                assert forall|mode: GuyRenderLayerMode| s@ != #[trigger] mode_name(mode) by {
                    match mode {
                        GuyRenderLayerMode::Body => {},
                        GuyRenderLayerMode::ForceFart => {},
                        GuyRenderLayerMode::Idle => {},
                        GuyRenderLayerMode::Growl => {},
                        GuyRenderLayerMode::Cheeks => {},
                    }
                }
            }
            Err(UnknownLayerMode { text: s.to_owned() })
        }
    }
}

/// Law: different layer modes have different names, so a name read back by
/// `GuyRenderLayerMode::from_str` gives the mode it names.
pub proof fn lemma_mode_names_distinct(a: GuyRenderLayerMode, b: GuyRenderLayerMode)
    ensures
        mode_name(a) == mode_name(b) ==> a == b,
{
    reveal_strlit("body");
    reveal_strlit("force-fart");
    reveal_strlit("idle");
    reveal_strlit("growl");
    reveal_strlit("cheeks");
    assert("body"@[0] == 'b');
    assert("force-fart"@[0] == 'f');
    assert("idle"@[0] == 'i');
    assert("growl"@[0] == 'g');
    assert("cheeks"@[0] == 'c');
}

/// Whether a group asks to be rendered as a whole, from its `render-full`
/// attribute: absent means no.
pub fn render_full_flag(attribute: Option<&str>) -> (full: bool)
    requires
        attribute matches Some(v) ==> (v@ == "true"@ || v@ == "false"@),
    ensures
        full == (attribute matches Some(v) && v@ == "true"@),
{
    match attribute {
        Some(v) => str_eq(v, "true"),
        None => false,
    }
}

/// One step of a depth-first walk over the groups of a character drawing:
/// entering a group (which says whether it is to be rendered as a whole) or
/// leaving the group that was entered last.
#[derive(Debug, Clone, Copy, PartialEq, Eq, Structural)]
pub enum LayerEdge {
    Start { render_full: bool },
    End,
}

/// Whether the edge at `i` enters a group that is rendered as a whole.
pub open spec fn renders_full(edges: Seq<LayerEdge>, i: int) -> bool {
    match edges[i] {
        LayerEdge::Start { render_full } => render_full,
        LayerEdge::End => false,
    }
}

/// The positions of the `Start` edges of the groups that are open after the
/// first `k` edges of the walk, outermost first.
pub open spec fn open_groups(edges: Seq<LayerEdge>, k: int) -> Seq<int>
    decreases k,
{
    if k <= 0 {
        Seq::empty()
    } else {
        let before = open_groups(edges, k - 1);
        match edges[k - 1] {
            LayerEdge::Start { .. } => before.push(k - 1),
            LayerEdge::End => before.drop_last(),
        }
    }
}

/// Every `End` closes a group that is open.
pub open spec fn well_nested(edges: Seq<LayerEdge>) -> bool {
    forall|k: int|
        0 <= k < edges.len() && #[trigger] edges[k] == LayerEdge::End ==> open_groups(edges, k).len()
            > 0
}

/// The `End` edge at `j` closes a group that becomes a layer of its own: none
/// of the groups around it renders as a whole, and it either renders as a
/// whole itself or holds no group (it is closed right after it was opened).
pub open spec fn emits_layer(edges: Seq<LayerEdge>, j: int) -> bool {
    &&& 0 <= j < edges.len()
    &&& edges[j] == LayerEdge::End
    &&& {
        let open = open_groups(edges, j);
        let start = open.last();
        &&& forall|m: int| 0 <= m < open.len() - 1 ==> !renders_full(edges, #[trigger] open[m])
        &&& (renders_full(edges, start) || start == j - 1)
    }
}

/// How many of the given open groups render as a whole.
pub open spec fn full_count(edges: Seq<LayerEdge>, open: Seq<int>) -> nat
    decreases open.len(),
{
    if open.len() == 0 {
        0
    } else {
        full_count(edges, open.drop_last()) + if renders_full(edges, open.last()) {
            1nat
        } else {
            0nat
        }
    }
}

proof fn lemma_full_count_zero(edges: Seq<LayerEdge>, open: Seq<int>)
    ensures
        (full_count(edges, open) == 0) <==> (forall|m: int|
            0 <= m < open.len() ==> !renders_full(edges, #[trigger] open[m])),
        full_count(edges, open) <= open.len(),
    decreases open.len(),
{
    if open.len() > 0 {
        lemma_full_count_zero(edges, open.drop_last());
        if full_count(edges, open) == 0 {
            assert forall|m: int| 0 <= m < open.len() implies !renders_full(
                edges,
                #[trigger] open[m],
            ) by {
                if m < open.len() - 1 {
                    assert(open.drop_last()[m] == open[m]);
                }
            }
        }
        if forall|m: int| 0 <= m < open.len() ==> !renders_full(edges, #[trigger] open[m]) {
            assert forall|m: int| 0 <= m < open.drop_last().len() implies !renders_full(
                edges,
                #[trigger] open.drop_last()[m],
            ) by {
                assert(open.drop_last()[m] == open[m]);
            }
        }
    }
}

proof fn lemma_open_groups_shape(edges: Seq<LayerEdge>, k: int)
    requires
        0 <= k <= edges.len(),
        well_nested(edges),
    ensures
        forall|m: int|
            0 <= m < open_groups(edges, k).len() ==> 0 <= #[trigger] open_groups(edges, k)[m]
                < k,
        forall|m: int|
            0 <= m < open_groups(edges, k).len() ==> (edges[#[trigger] open_groups(
                edges,
                k,
            )[m]] is Start),
        forall|a: int, b: int|
            0 <= a < b < open_groups(edges, k).len() ==> #[trigger] open_groups(edges, k)[a]
                < #[trigger] open_groups(edges, k)[b],
        open_groups(edges, k).len() <= k,
    decreases k,
{
    if k > 0 {
        lemma_open_groups_shape(edges, k - 1);
        let before = open_groups(edges, k - 1);
        match edges[k - 1] {
            LayerEdge::Start { .. } => {
                assert(open_groups(edges, k) == before.push(k - 1));
            },
            LayerEdge::End => {
                assert(open_groups(edges, k) == before.drop_last());
            },
        }
    }
}

/// Picks, from a depth-first walk over the groups of a character drawing,
/// the `End` edges of the groups that become layers, in the order of the walk.
pub fn select_layers(edges: &Vec<LayerEdge>) -> (ends: Vec<usize>)
    requires
        well_nested(edges@),
    ensures
        forall|a: int, b: int| 0 <= a < b < ends@.len() ==> ends@[a] < ends@[b],
        forall|a: int| 0 <= a < ends@.len() ==> emits_layer(edges@, #[trigger] ends@[a] as int),
        forall|j: int| emits_layer(edges@, j) ==> ends@.contains(j as usize),
{
    let ghost e = edges@;
    let mut layers: Vec<usize> = Vec::new();
    let mut t: usize = 0;
    let mut ts: Vec<usize> = Vec::new();
    ts.push(0);
    let mut ignore: usize = 0;
    let mut ignore_stack: Vec<usize> = Vec::new();
    let mut k: usize = 0;
    while k < edges.len()
        invariant
            e == edges@,
            well_nested(e),
            0 <= k <= e.len(),
            t <= k,
            ignore_stack@.len() == open_groups(e, k as int).len(),
            forall|m: int|
                0 <= m < ignore_stack@.len() ==> #[trigger] ignore_stack@[m] == if renders_full(
                    e,
                    open_groups(e, k as int)[m],
                ) {
                    1usize
                } else {
                    0usize
                },
            ignore == full_count(e, open_groups(e, k as int)),
            1 <= ts@.len() <= open_groups(e, k as int).len() + 1,
            forall|m: int|
                0 <= m < open_groups(e, k as int).len() ==> (m < ts@.len() - 1 <==> full_count(
                    e,
                    #[trigger] open_groups(e, k as int).take(m),
                ) == 0),
            forall|a: int, b: int| 0 <= a < b < ts@.len() ==> ts@[a] < ts@[b],
            ts@.last() <= t,
            ts@.len() > 1 ==> ((t == ts@.last()) <==> (renders_full(
                e,
                open_groups(e, k as int)[ts@.len() - 2],
            ) || k == open_groups(e, k as int)[ts@.len() - 2] + 1)),
            forall|a: int, b: int| 0 <= a < b < layers@.len() ==> layers@[a] < layers@[b],
            forall|a: int| 0 <= a < layers@.len() ==> layers@[a] < k,
            forall|a: int|
                0 <= a < layers@.len() ==> emits_layer(e, #[trigger] layers@[a] as int),
            forall|j: int| 0 <= j < k && emits_layer(e, j) ==> layers@.contains(j as usize),
        decreases e.len() - k,
    {
        proof {
            lemma_open_groups_shape(e, k as int);
            lemma_full_count_zero(e, open_groups(e, k as int));
        }
        let ghost open = open_groups(e, k as int);
        match edges[k] {
            LayerEdge::Start { render_full } => {
                let ghost next = open.push(k as int);
                assert(open_groups(e, k + 1) == next);
                if ignore == 0 {
                    t = t + 1;
                    ts.push(t);
                }
                let ignore_value: usize = if render_full {
                    1
                } else {
                    0
                };
                ignore_stack.push(ignore_value);
                ignore = ignore + ignore_value;
                proof {
                    assert(next.drop_last() == open);
                    assert(next.last() == k as int);
                    assert forall|m: int| 0 <= m < next.len() implies (m < ts@.len() - 1
                        <==> full_count(e, #[trigger] next.take(m)) == 0) by {
                        if m < open.len() {
                            assert(next.take(m) == open.take(m));
                        } else {
                            assert(next.take(m) == open);
                        }
                    }
                }
            },
            LayerEdge::End => {
                assert(e[k as int] == LayerEdge::End);
                let ghost next = open.drop_last();
                assert(open_groups(e, k + 1) == next);
                let ignore_value = ignore_stack.pop().unwrap();
                ignore = ignore - ignore_value;
                let ghost old_layers = layers@;
                proof {
                    assert(open.drop_last().push(open.last()) == open);
                    lemma_full_count_zero(e, next);
                    assert forall|m: int| 0 <= m < next.len() implies #[trigger] next.take(m)
                        == open.take(m) by {}
                }
                if ignore == 0 {
                    proof {
                        assert(open.take(open.len() - 1) == next);
                        assert(full_count(e, open.take(open.len() - 1)) == 0);
                        assert(ts@.len() == open.len() + 1);
                    }
                    let top = ts.pop();
                    if top == Some(t) {
                        layers.push(k);
                    }
                    t = t + 1;
                }
                proof {
                    assert forall|j: int| 0 <= j < k + 1 && emits_layer(e, j) implies layers@.contains(
                        j as usize,
                    ) by {
                        if j < k {
                            assert(old_layers.contains(j as usize));
                            let w = choose|w: int| 0 <= w < old_layers.len() && old_layers[w] == j as usize;
                            assert(layers@[w] == j as usize);
                        }
                        if j == k {
                            assert(forall|m: int|
                                0 <= m < next.len() ==> !renders_full(e, #[trigger] next[m])) by {
                                assert forall|m: int| 0 <= m < next.len() implies !renders_full(
                                    e,
                                    #[trigger] next[m],
                                ) by {
                                    assert(next[m] == open[m]);
                                }
                            }
                            assert(ignore == 0);
                            assert(renders_full(e, open.last()) || open.last() == k - 1);
                            assert(layers@.last() == k);
                        }
                    }
                }
            },
        }
        k = k + 1;
    }
    layers
}

} // verus!
