use vstd::prelude::*;
use crate::layers::{emits_layer, open_groups, select_layers, well_nested, LayerEdge};
use crate::text::str_eq;

verus! {

/// The characters of a string.
fn chars_of(s: &str) -> (v: Vec<char>)
    ensures
        v@ == s@,
{
    broadcast use vstd::string::group_string_axioms;
    let mut v: Vec<char> = Vec::new();
    for c in it: s.chars()
        invariant
            v@ == it.seq().take(it.index() as int),
    {
        v.push(c);
    }
    v
}

/// The text with every occurrence of `pattern` taken out, scanning from the
/// left and taking out occurrences that do not overlap.
pub open spec fn strip_all(text: Seq<char>, pattern: Seq<char>) -> Seq<char>
    decreases text.len(),
{
    if pattern.len() == 0 || text.len() == 0 {
        text
    } else if text.len() >= pattern.len() && text.take(pattern.len() as int) == pattern {
        strip_all(text.skip(pattern.len() as int), pattern)
    } else {
        seq![text[0]] + strip_all(text.skip(1), pattern)
    }
}

/// Whether `pattern` occurs somewhere in `text`.
pub open spec fn occurs_in(text: Seq<char>, pattern: Seq<char>) -> bool {
    exists|i: int|
        0 <= i && i + pattern.len() <= text.len() && #[trigger] text.subrange(
            i,
            i + pattern.len(),
        ) == pattern
}

/// Law: a text in which the pattern does not occur is left as it is.
pub proof fn lemma_strip_without_pattern(text: Seq<char>, pattern: Seq<char>)
    requires
        !occurs_in(text, pattern),
    ensures
        strip_all(text, pattern) == text,
    decreases text.len(),
{
    if pattern.len() > 0 && text.len() > 0 {
        if text.len() >= pattern.len() {
            assert(text.subrange(0int, 0int + pattern.len()) != pattern);
            assert(text.subrange(0int, 0int + pattern.len()) =~= text.take(pattern.len() as int));
        }
        let rest = text.skip(1);
        assert(!occurs_in(rest, pattern)) by {
            if occurs_in(rest, pattern) {
                let i = choose|i: int|
                    0 <= i && i + pattern.len() <= rest.len() && #[trigger] rest.subrange(
                        i,
                        i + pattern.len(),
                    ) == pattern;
                assert(text.subrange(i + 1, i + 1 + pattern.len()) =~= rest.subrange(
                    i,
                    i + pattern.len(),
                ));
            }
        }
        lemma_strip_without_pattern(rest, pattern);
        assert(seq![text[0]] + rest =~= text);
    }
}

/// Law: an occurrence of the pattern at the start is taken out and the
/// stripping goes on with the rest: every occurrence goes, not only the
/// first.
pub proof fn lemma_strip_leading_pattern(text: Seq<char>, pattern: Seq<char>)
    requires
        pattern.len() > 0,
    ensures
        strip_all(pattern + text, pattern) == strip_all(text, pattern),
{
    let whole = pattern + text;
    assert(whole.take(pattern.len() as int) =~= pattern);
    assert(whole.skip(pattern.len() as int) =~= text);
}

/// Law: the pattern on its own strips to nothing, and so does any number of
/// copies of it.
pub proof fn lemma_strip_repeated_pattern(pattern: Seq<char>, copies: nat)
    requires
        pattern.len() > 0,
    ensures
        strip_all(pattern.add(repeat(pattern, copies)), pattern) == Seq::<char>::empty(),
    decreases copies,
{
    lemma_strip_leading_pattern(repeat(pattern, copies), pattern);
    if copies == 0 {
        assert(repeat(pattern, 0) == Seq::<char>::empty());
    } else {
        lemma_strip_repeated_pattern(pattern, (copies - 1) as nat);
    }
}

/// `copies` copies of `pattern`, one after another.
pub open spec fn repeat(pattern: Seq<char>, copies: nat) -> Seq<char>
    decreases copies,
{
    if copies == 0 {
        Seq::empty()
    } else {
        pattern + repeat(pattern, (copies - 1) as nat)
    }
}

/// Whether `pattern` occurs in `text` at position `i`.
fn occurs_at(text: &Vec<char>, pattern: &Vec<char>, i: usize) -> (found: bool)
    requires
        i <= text@.len(),
    ensures
        found == (text@.len() - i >= pattern@.len() && text@.skip(i as int).take(
            pattern@.len() as int,
        ) == pattern@),
{
    if text.len() - i < pattern.len() {
        return false;
    }
    let mut k: usize = 0;
    while k < pattern.len()
        invariant
            i <= text@.len(),
            text@.len() <= usize::MAX,
            text@.len() - i >= pattern@.len(),
            0 <= k <= pattern@.len(),
            forall|a: int| 0 <= a < k ==> text@[i + a] == pattern@[a],
        decreases pattern@.len() - k,
    {
        if text[i + k] != pattern[k] {
            assert(text@.skip(i as int).take(pattern@.len() as int)[k as int] != pattern@[k as int]);
            return false;
        }
        k = k + 1;
    }
    assert(text@.skip(i as int).take(pattern@.len() as int) =~= pattern@);
    true
}

/// Takes every occurrence of `pattern` out of `text`, as `str::replace` with
/// an empty replacement does.
fn strip(text: &Vec<char>, pattern: &Vec<char>) -> (out: Vec<char>)
    ensures
        out@ == strip_all(text@, pattern@),
{
    let mut out: Vec<char> = Vec::new();
    if pattern.len() == 0 {
        let mut k: usize = 0;
        while k < text.len()
            invariant
                0 <= k <= text@.len(),
                out@ == text@.take(k as int),
            decreases text@.len() - k,
        {
            out.push(text[k]);
            k = k + 1;
        }
        assert(out@ =~= text@);
        return out;
    }
    let mut i: usize = 0;
    assert(text@.skip(0) =~= text@);
    assert(out@ + strip_all(text@, pattern@) =~= strip_all(text@, pattern@));
    while i < text.len()
        invariant
            pattern@.len() > 0,
            0 <= i <= text@.len(),
            out@ + strip_all(text@.skip(i as int), pattern@) == strip_all(text@, pattern@),
        decreases text@.len() - i,
    {
        let ghost rest = text@.skip(i as int);
        if occurs_at(text, pattern, i) {
            assert(rest.skip(pattern@.len() as int) =~= text@.skip(i + pattern@.len()));
            i = i + pattern.len();
        } else {
            assert(rest.skip(1) =~= text@.skip(i + 1));
            assert(rest[0] == text@[i as int]);
            let ghost before = out@;
            out.push(text[i]);
            assert(out@ + strip_all(text@.skip(i + 1), pattern@) =~= before + (seq![rest[0]]
                + strip_all(rest.skip(1), pattern@)));
            i = i + 1;
        }
    }
    assert(text@.skip(i as int) =~= Seq::<char>::empty());
    assert(out@ + Seq::<char>::empty() =~= out@);
    out
}


/// An attribute of an XML element: its namespace, if any, its local name and
/// its value.
pub struct XmlAttribute {
    pub namespace: Option<String>,
    pub name: String,
    pub value: String,
}

/// A node of an XML document, as the parser lists them in document order:
/// the position of its parent in that list, its tag name (empty for a node
/// that is no element) and its attributes in document order.
pub struct XmlNode {
    pub parent: Option<usize>,
    pub name: String,
    pub attributes: Vec<XmlAttribute>,
}

/// An attribute as plain values.
pub open spec fn attribute_view(a: XmlAttribute) -> (Option<Seq<char>>, Seq<char>, Seq<char>) {
    (
        match a.namespace {
            Some(n) => Some(n@),
            None => None,
        },
        a.name@,
        a.value@,
    )
}

/// A node as plain values.
pub open spec fn node_view(n: XmlNode) -> (
    Option<usize>,
    Seq<char>,
    Seq<(Option<Seq<char>>, Seq<char>, Seq<char>)>,
) {
    (n.parent, n.name@, n.attributes@.map_values(|a: XmlAttribute| attribute_view(a)))
}

/// The nodes as plain values.
pub open spec fn nodes_view(nodes: Seq<XmlNode>) -> Seq<
    (Option<usize>, Seq<char>, Seq<(Option<Seq<char>>, Seq<char>, Seq<char>)>),
> {
    nodes.map_values(|n: XmlNode| node_view(n))
}

/// The nodes of the XML document written in `text`, in document order (the
/// document node first), as `roxmltree` reads them; `None` where it refuses
/// the text.
pub uninterp spec fn xml_nodes(text: Seq<char>) -> Option<
    Seq<(Option<usize>, Seq<char>, Seq<(Option<Seq<char>>, Seq<char>, Seq<char>)>)>,
>;

/// `roxmltree::Document::parse`, then the document's nodes in document order
/// (`Document::descendants`), each with the position of its parent
/// (`Node::parent`, `NodeId::get_usize`), its tag name (`Node::tag_name`) and
/// its attributes (`Node::attributes`). What is claimed: the result is the
/// named value `xml_nodes` of the text, `None` exactly where the parse
/// fails. What the parser accepts and reads is not stated.
#[verifier::external_body]
fn parse_xml(text: &Vec<char>) -> (nodes: Option<Vec<XmlNode>>)
    ensures
        match nodes {
            Some(v) => xml_nodes(text@) == Some(nodes_view(v@)),
            None => xml_nodes(text@) is None,
        },
{
    let text: String = text.iter().collect();
    let doc = roxmltree::Document::parse(&text).ok()?;
    Some(doc.descendants().map(|node| XmlNode {
        parent: node.parent().map(|p| p.id().get_usize()),
        name: node.tag_name().name().to_string(),
        attributes: node.attributes().map(|a| XmlAttribute {
            namespace: a.namespace().map(|n| n.to_string()),
            name: a.name().to_string(),
            value: a.value().to_string(),
        }).collect(),
    }).collect())
}


/// The value of the first attribute whose local name is `name`, whatever
/// its namespace, as `roxmltree::Node::attribute` finds it for a name given
/// without namespace.
pub open spec fn attribute_of(
    attributes: Seq<(Option<Seq<char>>, Seq<char>, Seq<char>)>,
    name: Seq<char>,
) -> Option<Seq<char>>
    decreases attributes.len(),
{
    if attributes.len() == 0 {
        None
    } else if attributes[0].1 == name {
        Some(attributes[0].2)
    } else {
        attribute_of(attributes.skip(1), name)
    }
}

/// The position of the first attribute whose local name is `name`.
fn find_attribute(attributes: &Vec<XmlAttribute>, name: &str) -> (r: Option<usize>)
    ensures
        match r {
            Some(i) => i < attributes@.len() && attribute_of(
                attributes@.map_values(|a: XmlAttribute| attribute_view(a)),
                name@,
            ) == Some(attributes@[i as int].value@),
            None => attribute_of(
                attributes@.map_values(|a: XmlAttribute| attribute_view(a)),
                name@,
            ) is None,
        },
{
    let ghost all = attributes@.map_values(|a: XmlAttribute| attribute_view(a));
    let mut i: usize = 0;
    assert(all.skip(0) =~= all);
    while i < attributes.len()
        invariant
            0 <= i <= attributes@.len(),
            all == attributes@.map_values(|a: XmlAttribute| attribute_view(a)),
            attribute_of(all, name@) == attribute_of(all.skip(i as int), name@),
        decreases attributes@.len() - i,
    {
        let a = &attributes[i];
        let ghost rest = all.skip(i as int);
        assert(rest[0] == attribute_view(*a));
        if str_eq(a.name.as_str(), name) {
            return Some(i);
        }
        assert(rest.skip(1) =~= all.skip(i + 1));
        i = i + 1;
    }
    assert(all.skip(i as int) =~= Seq::<(Option<Seq<char>>, Seq<char>, Seq<char>)>::empty());
    None
}

impl XmlNode {
    /// The value of the node's first attribute whose local name is `name`,
    /// whatever its namespace, if any.
    pub fn attribute(&self, name: &str) -> (r: Option<&str>)
        ensures
            match r {
                Some(v) => attribute_of(node_view(*self).2, name@) == Some(v@),
                None => attribute_of(node_view(*self).2, name@) is None,
            },
    {
        match find_attribute(&self.attributes, name) {
            Some(i) => Some(self.attributes[i].value.as_str()),
            None => None,
        }
    }
}

/// A node of a drawing that is a group of its own: a `g` element with an
/// `id`.
pub open spec fn is_group(
    node: (Option<usize>, Seq<char>, Seq<(Option<Seq<char>>, Seq<char>, Seq<char>)>),
) -> bool {
    node.1 == "g"@ && attribute_of(node.2, "id"@) is Some
}

/// Whether a node is a group of its own.
fn node_is_group(node: &XmlNode) -> (g: bool)
    ensures
        g == is_group(node_view(*node)),
{
    str_eq(node.name.as_str(), "g") && find_attribute(&node.attributes, "id").is_some()
}


/// How many of the open nodes `stack` are groups.
pub open spec fn open_group_count(nodes: Seq<(Option<usize>, Seq<char>, Seq<(Option<Seq<char>>, Seq<char>, Seq<char>)>)>, stack: Seq<usize>) -> nat
    decreases stack.len(),
{
    if stack.len() == 0 {
        0
    } else {
        open_group_count(nodes, stack.drop_last()) + if is_group(nodes[stack.last() as int]) {
            1nat
        } else {
            0nat
        }
    }
}

/// Leaves the open nodes `stack`, innermost first, until the innermost one
/// is `parent` (or none is open), noting each group left in `walk`.
pub open spec fn close_to(
    nodes: Seq<(Option<usize>, Seq<char>, Seq<(Option<Seq<char>>, Seq<char>, Seq<char>)>)>,
    stack: Seq<usize>,
    walk: Seq<(bool, usize)>,
    parent: Option<usize>,
) -> (Seq<usize>, Seq<(bool, usize)>)
    decreases stack.len(),
{
    if stack.len() == 0 || parent == Some(stack.last()) {
        (stack, walk)
    } else {
        let top = stack.last();
        close_to(
            nodes,
            stack.drop_last(),
            if is_group(nodes[top as int]) {
                walk.push((false, top))
            } else {
                walk
            },
            parent,
        )
    }
}

/// The open nodes and the steps of the walk after the first `i` nodes in
/// document order: each node is entered after leaving the nodes that are
/// not its ancestors.
pub open spec fn walk_upto(nodes: Seq<(Option<usize>, Seq<char>, Seq<(Option<Seq<char>>, Seq<char>, Seq<char>)>)>, i: nat) -> (Seq<usize>, Seq<(bool, usize)>)
    decreases i,
{
    if i == 0 {
        (Seq::empty(), Seq::empty())
    } else {
        let prev = walk_upto(nodes, (i - 1) as nat);
        let node = nodes[i - 1];
        let closed = close_to(nodes, prev.0, prev.1, node.0);
        (
            closed.0.push((i - 1) as usize),
            if is_group(node) {
                closed.1.push((true, (i - 1) as usize))
            } else {
                closed.1
            },
        )
    }
}

/// Entering (`true`) and leaving (`false`) each group of a drawing, with
/// the group's position among the nodes, in document order.
pub open spec fn group_walk(nodes: Seq<(Option<usize>, Seq<char>, Seq<(Option<Seq<char>>, Seq<char>, Seq<char>)>)>) -> Seq<(bool, usize)> {
    let all = walk_upto(nodes, nodes.len());
    close_to(nodes, all.0, all.1, None).1
}

/// Whether a group asks to be rendered as a whole.
pub open spec fn render_full_of(node: (Option<usize>, Seq<char>, Seq<(Option<Seq<char>>, Seq<char>, Seq<char>)>)) -> bool {
    attribute_of(node.2, "render-full"@) == Some("true"@)
}

/// Whether a group's `render-full` attribute, if any, reads as a boolean.
pub open spec fn render_full_valid(node: (Option<usize>, Seq<char>, Seq<(Option<Seq<char>>, Seq<char>, Seq<char>)>)) -> bool {
    match attribute_of(node.2, "render-full"@) {
        None => true,
        Some(v) => v == "true"@ || v == "false"@,
    }
}

/// Some group's `render-full` attribute reads as no boolean.
pub open spec fn bad_render_full(nodes: Seq<(Option<usize>, Seq<char>, Seq<(Option<Seq<char>>, Seq<char>, Seq<char>)>)>) -> bool {
    exists|j: int| 0 <= j < nodes.len() && is_group(#[trigger] nodes[j]) && !render_full_valid(nodes[j])
}

/// The layer edge of a step of the walk.
pub open spec fn layer_edge(nodes: Seq<(Option<usize>, Seq<char>, Seq<(Option<Seq<char>>, Seq<char>, Seq<char>)>)>, step: (bool, usize)) -> LayerEdge {
    if step.0 {
        LayerEdge::Start { render_full: render_full_of(nodes[step.1 as int]) }
    } else {
        LayerEdge::End
    }
}

/// The layer edges of the steps of a walk.
pub open spec fn layer_edges(nodes: Seq<(Option<usize>, Seq<char>, Seq<(Option<Seq<char>>, Seq<char>, Seq<char>)>)>, walk: Seq<(bool, usize)>) -> Seq<LayerEdge> {
    walk.map_values(|s: (bool, usize)| layer_edge(nodes, s))
}

/// What holds of the walk's state between its steps.
spec fn walk_ok(
    nodes: Seq<(Option<usize>, Seq<char>, Seq<(Option<Seq<char>>, Seq<char>, Seq<char>)>)>,
    stack: Seq<usize>,
    walk: Seq<(bool, usize)>,
    edges: Seq<LayerEdge>,
) -> bool {
    &&& forall|a: int| 0 <= a < stack.len() ==> (#[trigger] stack[a] as int) < nodes.len()
    &&& forall|a: int| 0 <= a < walk.len() ==> ((#[trigger] walk[a]).1 as int) < nodes.len()
    &&& edges == layer_edges(nodes, walk)
    &&& well_nested(edges)
    &&& open_groups(edges, edges.len() as int).len() == open_group_count(nodes, stack)
}

proof fn lemma_open_groups_prefix(e: Seq<LayerEdge>, x: LayerEdge, k: int)
    requires
        0 <= k <= e.len(),
    ensures
        open_groups(e.push(x), k) == open_groups(e, k),
    decreases k,
{
    if k > 0 {
        lemma_open_groups_prefix(e, x, k - 1);
        assert(e.push(x)[k - 1] == e[k - 1]);
    }
}

/// Adding an edge keeps the walk well nested where an `End` closes an open
/// group, and opens or closes one group.
proof fn lemma_push_edge(e: Seq<LayerEdge>, x: LayerEdge)
    requires
        well_nested(e),
        x == LayerEdge::End ==> open_groups(e, e.len() as int).len() > 0,
    ensures
        well_nested(e.push(x)),
        open_groups(e.push(x), e.len() + 1int) == match x {
            LayerEdge::Start { .. } => open_groups(e, e.len() as int).push(e.len() as int),
            LayerEdge::End => open_groups(e, e.len() as int).drop_last(),
        },
{
    let f = e.push(x);
    lemma_open_groups_prefix(e, x, e.len() as int);
    assert(f[e.len() as int] == x);
    assert forall|k: int|
        0 <= k < f.len() && #[trigger] f[k] == LayerEdge::End implies open_groups(f, k).len()
        > 0 by {
        lemma_open_groups_prefix(e, x, k);
        if k < e.len() {
            assert(f[k] == e[k]);
        }
    }
}

/// Leaves open nodes until the innermost one is `parent`, noting the groups
/// left.
fn close_nodes(
    nodes: &Vec<XmlNode>,
    stack: &mut Vec<usize>,
    walk: &mut Vec<(bool, usize)>,
    edges: &mut Vec<LayerEdge>,
    parent: Option<usize>,
)
    requires
        walk_ok(nodes_view(nodes@), old(stack)@, old(walk)@, old(edges)@),
    ensures
        walk_ok(nodes_view(nodes@), final(stack)@, final(walk)@, final(edges)@),
        (final(stack)@, final(walk)@) == close_to(
            nodes_view(nodes@),
            old(stack)@,
            old(walk)@,
            parent,
        ),
{
    let ghost nv = nodes_view(nodes@);
    let ghost target = close_to(nv, stack@, walk@, parent);
    loop
        invariant
            nv == nodes_view(nodes@),
            nv.len() == nodes@.len(),
            walk_ok(nv, stack@, walk@, edges@),
            close_to(nv, stack@, walk@, parent) == target,
        ensures
            walk_ok(nv, stack@, walk@, edges@),
            (stack@, walk@) == target,
        decreases stack@.len(),
    {
        if stack.len() == 0 {
            break;
        }
        let top = stack[stack.len() - 1];
        let stop = match parent {
            Some(p) => top == p,
            None => false,
        };
        if stop {
            break;
        }
        let ghost s0 = stack@;
        let ghost w0 = walk@;
        let ghost e0 = edges@;
        assert(s0[s0.len() - 1] == top);
        stack.pop();
        assert(stack@ == s0.drop_last());
        let group = node_is_group(&nodes[top]);
        assert(nv[top as int] == node_view(nodes@[top as int]));
        if group {
            walk.push((false, top));
            edges.push(LayerEdge::End);
            proof {
                lemma_push_edge(e0, LayerEdge::End);
                assert(edges@ =~= layer_edges(nv, walk@));
                assert forall|a: int| 0 <= a < walk@.len() implies ((#[trigger] walk@[a]).1 as int)
                    < nv.len() by {
                    if a < w0.len() {
                        assert(walk@[a] == w0[a]);
                    }
                }
            }
        }
        proof {
            assert forall|a: int| 0 <= a < stack@.len() implies (#[trigger] stack@[a] as int)
                < nv.len() by {
                assert(stack@[a] == s0[a]);
            }
        }
    }
}

/// Walks the nodes of a drawing in document order, entering and leaving its
/// groups; `None` where a group's `render-full` attribute does not read as
/// a boolean.
pub fn walk_groups(nodes: &Vec<XmlNode>) -> (r: Option<(Vec<(bool, usize)>, Vec<LayerEdge>)>)
    ensures
        r is None <==> bad_render_full(nodes_view(nodes@)),
        r matches Some(out) ==> {
            &&& out.0@ == group_walk(nodes_view(nodes@))
            &&& out.1@ == layer_edges(nodes_view(nodes@), out.0@)
            &&& well_nested(out.1@)
        },
{
    let ghost nv = nodes_view(nodes@);
    let mut stack: Vec<usize> = Vec::new();
    let mut walk: Vec<(bool, usize)> = Vec::new();
    let mut edges: Vec<LayerEdge> = Vec::new();
    proof {
        assert(edges@ =~= layer_edges(nv, walk@));
        assert(well_nested(edges@));
    }
    let mut i: usize = 0;
    while i < nodes.len()
        invariant
            nv == nodes_view(nodes@),
            nv.len() == nodes@.len(),
            0 <= i <= nodes@.len(),
            walk_ok(nv, stack@, walk@, edges@),
            (stack@, walk@) == walk_upto(nv, i as nat),
            forall|j: int| 0 <= j < i && is_group(#[trigger] nv[j]) ==> render_full_valid(nv[j]),
        decreases nodes@.len() - i,
    {
        let ghost prev = (stack@, walk@);
        close_nodes(nodes, &mut stack, &mut walk, &mut edges, nodes[i].parent);
        assert(nv[i as int] == node_view(nodes@[i as int]));
        let ghost closed = (stack@, walk@);
        let ghost s1 = stack@;
        let ghost w1 = walk@;
        let ghost e1 = edges@;
        if node_is_group(&nodes[i]) {
            let full = match find_attribute(&nodes[i].attributes, "render-full") {
                Some(k) => {
                    let v = nodes[i].attributes[k].value.as_str();
                    if str_eq(v, "true") {
                        true
                    } else if str_eq(v, "false") {
                        false
                    } else {
                        proof {
                            assert(is_group(nv[i as int]) && !render_full_valid(nv[i as int]));
                        }
                        return None;
                    }
                },
                None => false,
            };
            walk.push((true, i));
            edges.push(LayerEdge::Start { render_full: full });
            proof {
                lemma_push_edge(e1, LayerEdge::Start { render_full: full });
                assert(edges@ =~= layer_edges(nv, walk@));
                assert forall|a: int| 0 <= a < walk@.len() implies ((#[trigger] walk@[a]).1 as int)
                    < nv.len() by {
                    if a < w1.len() {
                        assert(walk@[a] == w1[a]);
                    }
                }
            }
        }
        stack.push(i);
        proof {
            assert(stack@.drop_last() == s1);
            assert forall|a: int| 0 <= a < stack@.len() implies (#[trigger] stack@[a] as int)
                < nv.len() by {
                if a < s1.len() {
                    assert(stack@[a] == s1[a]);
                }
            }
            assert(((i + 1) - 1) as nat == i as nat);
        }
        i = i + 1;
    }
    close_nodes(nodes, &mut stack, &mut walk, &mut edges, None);
    Some((walk, edges))
}


/// Why a character drawing could not be read into layers.
#[derive(Debug, Clone, Copy, PartialEq, Eq, Structural)]
pub enum DrawingError {
    /// The drawing is no XML document that the parser accepts.
    Xml,
    /// A group's `render-full` attribute reads as no boolean.
    RenderFull,
}

/// A character drawing read into render layers: its nodes, the walk over
/// its groups (entering or leaving, and the group's position among the
/// nodes), the layer edges of that walk, and the positions of the `End`
/// edges of the groups that become layers, in drawing order.
pub struct DrawingLayers {
    pub nodes: Vec<XmlNode>,
    pub steps: Vec<(bool, usize)>,
    pub edges: Vec<LayerEdge>,
    pub layers: Vec<usize>,
}

/// Reads a character drawing (an SVG document) into render layers: hidden
/// parts are shown (`display:none` is taken out of the text), the text is
/// parsed, the groups are walked in document order, and the groups that
/// become layers are picked.
pub fn drawing_layers(svg: &str) -> (r: Result<DrawingLayers, DrawingError>)
    ensures
        match xml_nodes(strip_all(svg@, "display:none"@)) {
            None => r == Err::<DrawingLayers, DrawingError>(DrawingError::Xml),
            Some(nodes) => if bad_render_full(nodes) {
                r == Err::<DrawingLayers, DrawingError>(DrawingError::RenderFull)
            } else {
                r matches Ok(d) && {
                    &&& nodes_view(d.nodes@) == nodes
                    &&& d.steps@ == group_walk(nodes)
                    &&& d.edges@ == layer_edges(nodes, d.steps@)
                    &&& forall|a: int, b: int|
                        0 <= a < b < d.layers@.len() ==> d.layers@[a] < d.layers@[b]
                    &&& forall|a: int|
                        0 <= a < d.layers@.len() ==> emits_layer(
                            d.edges@,
                            #[trigger] d.layers@[a] as int,
                        )
                    &&& forall|j: int| emits_layer(d.edges@, j) ==> d.layers@.contains(j as usize)
                }
            },
        },
{
    let text = chars_of(svg);
    let hidden = chars_of("display:none");
    let shown = strip(&text, &hidden);
    let nodes = match parse_xml(&shown) {
        Some(nodes) => nodes,
        None => return Err(DrawingError::Xml),
    };
    match walk_groups(&nodes) {
        None => Err(DrawingError::RenderFull),
        Some((steps, edges)) => {
            let layers = select_layers(&edges);
            Ok(DrawingLayers { nodes, steps, edges, layers })
        },
    }
}

} // verus!
