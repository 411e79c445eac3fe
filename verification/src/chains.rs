use vstd::prelude::*;

verus! {

/// How a surface of a level meets another surface of the same kind: which end
/// of the first touches which end of the second.
#[derive(Debug, Clone, Copy, PartialEq, Eq, Structural)]
pub enum Joint {
    StartToStart,
    StartToEnd,
    EndToStart,
    EndToEnd,
}

/// A meeting of a surface with the surface at position `to`.
#[derive(Debug, Clone, Copy, PartialEq, Eq, Structural)]
pub struct Link {
    pub to: usize,
    pub joint: Joint,
}

/// How the surfaces of a layer were walked to lay their textures end to end:
/// the passes of the walk, each in the order its surfaces were reached, and
/// for each surface the surface and link (its position in that surface's
/// links) by which it was reached; `None` for the first of a pass.
pub struct Chains {
    pub passes: Vec<Vec<usize>>,
    pub found_by: Vec<Option<(usize, usize)>>,
}

/// The passes as sequences.
pub open spec fn pass_views(passes: Seq<Vec<usize>>) -> Seq<Seq<usize>> {
    passes.map_values(|p: Vec<usize>| p@)
}

/// The links of each surface as sequences.
pub open spec fn link_views(links: Seq<Vec<Link>>) -> Seq<Seq<Link>> {
    links.map_values(|l: Vec<Link>| l@)
}

/// Surface `x` belongs to pass `k`.
pub open spec fn placed(passes: Seq<Seq<usize>>, x: usize, k: int) -> bool {
    0 <= k < passes.len() && passes[k].contains(x)
}

/// Surface `x` belongs to some pass.
pub open spec fn placed_somewhere(passes: Seq<Seq<usize>>, x: usize) -> bool {
    exists|k: int| #[trigger] placed(passes, x, k)
}

/// Surface `x` belongs to one of the passes before pass `k`.
pub open spec fn placed_before(passes: Seq<Seq<usize>>, x: usize, k: int) -> bool {
    exists|k2: int| 0 <= k2 < k && #[trigger] placed(passes, x, k2)
}

/// Every link leads to a surface of the layer.
pub open spec fn links_in_range(links: Seq<Seq<Link>>) -> bool {
    forall|a: int, b: int|
        0 <= a < links.len() && 0 <= b < links[a].len() ==> (#[trigger] links[a][b]).to
            < links.len()
}

/// The passes split the surfaces `0 .. n`: each surface is in exactly one
/// place of one pass, and no pass is empty.
pub open spec fn splits(passes: Seq<Seq<usize>>, n: int) -> bool {
    &&& forall|x: usize| x < n ==> #[trigger] placed_somewhere(passes, x)
    &&& forall|k: int, j: int|
        0 <= k < passes.len() && 0 <= j < passes[k].len() ==> #[trigger] passes[k][j] < n
    &&& forall|k1: int, j1: int, k2: int, j2: int|
        0 <= k1 < passes.len() && 0 <= j1 < passes[k1].len() && 0 <= k2 < passes.len() && 0
            <= j2 < passes[k2].len() && #[trigger] passes[k1][j1] == #[trigger] passes[k2][j2]
            ==> k1 == k2 && j1 == j2
    &&& forall|k: int| 0 <= k < passes.len() ==> (#[trigger] passes[k]).len() > 0
}

/// Each pass starts at the first surface that no earlier pass holds.
pub open spec fn starts_first_free(passes: Seq<Seq<usize>>) -> bool {
    forall|k: int, y: usize|
        0 <= k < passes.len() && y < passes[k][0] ==> #[trigger] placed_before(passes, y, k)
}

/// Each surface after the first of its pass was reached by a link from a
/// surface earlier in the same pass, and the first of a pass by none.
pub open spec fn reached_by_links(
    passes: Seq<Seq<usize>>,
    found_by: Seq<Option<(usize, usize)>>,
    links: Seq<Seq<Link>>,
) -> bool {
    &&& forall|k: int| 0 <= k < passes.len() ==> found_by[(#[trigger] passes[k])[0] as int] is None
    &&& forall|k: int, j: int|
        0 <= k < passes.len() && 0 < j < passes[k].len() ==> {
            let x = #[trigger] passes[k][j];
            &&& found_by[x as int] is Some
            &&& {
                let (p, l) = found_by[x as int].unwrap();
                &&& exists|j2: int| 0 <= j2 < j && passes[k][j2] == p
                &&& l < links[p as int].len()
                &&& links[p as int][l as int].to == x
            }
        }
}

/// Every link of a surface of pass `k` leads into pass `k` or an earlier one:
/// a pass holds everything its surfaces lead to that no earlier pass took.
pub open spec fn closed_under_links(passes: Seq<Seq<usize>>, links: Seq<Seq<Link>>) -> bool {
    forall|k: int, j: int, l: int|
        0 <= k < passes.len() && 0 <= j < passes[k].len() && 0 <= l < links[passes[k][j] as int].len()
            ==> placed_before(passes, (#[trigger] links[passes[k][j] as int][l]).to, k + 1)
}

/// The number of entries that are `false`.
pub open spec fn count_false(s: Seq<bool>) -> nat
    decreases s.len(),
{
    if s.len() == 0 {
        0
    } else {
        count_false(s.drop_last()) + if s.last() {
            0nat
        } else {
            1nat
        }
    }
}

proof fn lemma_count_false_set(s: Seq<bool>, i: int)
    requires
        0 <= i < s.len(),
        !s[i],
    ensures
        count_false(s.update(i, true)) + 1 == count_false(s),
    decreases s.len(),
{
    let t = s.update(i, true);
    if i == s.len() - 1 {
        assert(t.drop_last() == s.drop_last());
    } else {
        lemma_count_false_set(s.drop_last(), i);
        assert(t.drop_last() == s.drop_last().update(i, true));
    }
}

/// The surface by which surface `x` was reached.
pub open spec fn finder(found_by: Seq<Option<(usize, usize)>>, x: usize) -> usize {
    found_by[x as int].unwrap().0
}

/// The position, among the links of the surface that reached `x`, of the
/// link that reached it.
pub open spec fn finder_link(found_by: Seq<Option<(usize, usize)>>, x: usize) -> usize {
    found_by[x as int].unwrap().1
}

/// Within a pass, each surface after the first was reached by the first
/// link, in the order the walk tries them, that leads to it: no link of a
/// surface earlier in the pass than the one that reached it, and no earlier
/// link of that surface, leads to it.
#[verifier::opaque]
pub open spec fn first_links_win(
    pass: Seq<usize>,
    found_by: Seq<Option<(usize, usize)>>,
    links: Seq<Seq<Link>>,
) -> bool {
    forall|j: int, q: int|
        #![trigger pass[j], pass[q]]
        0 < j < pass.len() && 0 <= q < pass.len() && pass[q] == finder(found_by, pass[j]) ==> {
            &&& forall|j3: int, l2: int|
                0 <= j3 < q && 0 <= l2 < links[pass[j3] as int].len() ==> (
                #[trigger] links[pass[j3] as int][l2]).to != pass[j]
            &&& forall|l2: int|
                0 <= l2 < finder_link(found_by, pass[j]) ==> (
                #[trigger] links[pass[q] as int][l2]).to != pass[j]
        }
}

/// Within a pass, the surfaces come in the order of the links that reached
/// them: by the position in the pass of the surface that reached them, then
/// by the position of the link among that surface's links.
#[verifier::opaque]
pub open spec fn queued_in_link_order(
    pass: Seq<usize>,
    found_by: Seq<Option<(usize, usize)>>,
) -> bool {
    forall|j1: int, j2: int, q1: int, q2: int|
        #![trigger pass[j1], pass[j2], pass[q1], pass[q2]]
        0 < j1 < j2 < pass.len() && 0 <= q1 < pass.len() && 0 <= q2 < pass.len() && pass[q1]
            == finder(found_by, pass[j1]) && pass[q2] == finder(found_by, pass[j2]) ==> q1 < q2 || (
        q1 == q2 && finder_link(found_by, pass[j1]) < finder_link(found_by, pass[j2]))
}

/// Every pass was walked breadth first, trying the links of each surface in
/// order.
pub open spec fn walked_breadth_first(
    passes: Seq<Seq<usize>>,
    found_by: Seq<Option<(usize, usize)>>,
    links: Seq<Seq<Link>>,
) -> bool {
    forall|k: int|
        0 <= k < passes.len() ==> first_links_win(#[trigger] passes[k], found_by, links)
            && queued_in_link_order(passes[k], found_by)
}

/// Every surface after the first of the pass so far was reached by a link of
/// a surface before position `q_limit`, or by a link before `l_limit` of the
/// surface at `q_limit`.
#[verifier::opaque]
spec fn reached_before(
    pass: Seq<usize>,
    found_by: Seq<Option<(usize, usize)>>,
    q_limit: int,
    l_limit: int,
) -> bool {
    forall|j: int, q: int|
        #![trigger pass[j], pass[q]]
        0 < j < pass.len() && 0 <= q < pass.len() && pass[q] == finder(found_by, pass[j]) ==> q
            < q_limit || (q == q_limit && finder_link(found_by, pass[j]) < l_limit)
}

/// The walk's facts about a pass hold whatever the record says of surfaces
/// outside it.
proof fn lemma_walk_frame(
    pass: Seq<usize>,
    fb1: Seq<Option<(usize, usize)>>,
    fb2: Seq<Option<(usize, usize)>>,
    links: Seq<Seq<Link>>,
)
    requires
        forall|j: int| 0 <= j < pass.len() ==> fb1[#[trigger] pass[j] as int] == fb2[pass[j] as int],
        first_links_win(pass, fb1, links),
        queued_in_link_order(pass, fb1),
    ensures
        first_links_win(pass, fb2, links),
        queued_in_link_order(pass, fb2),
{
    reveal(first_links_win);
    reveal(queued_in_link_order);
    assert forall|j: int, q: int|
        0 < j < pass.len() && 0 <= q < pass.len() && #[trigger] pass[q] == finder(
            fb2,
            #[trigger] pass[j],
        ) implies {
        &&& forall|j3: int, l2: int|
            0 <= j3 < q && 0 <= l2 < links[pass[j3] as int].len() ==> (
            #[trigger] links[pass[j3] as int][l2]).to != pass[j]
        &&& forall|l2: int|
            0 <= l2 < finder_link(fb2, pass[j]) ==> (#[trigger] links[pass[q] as int][l2]).to
                != pass[j]
    } by {
        assert(fb1[pass[j] as int] == fb2[pass[j] as int]);
    }
    assert forall|j1: int, j2: int, q1: int, q2: int|
        0 < j1 < j2 < pass.len() && 0 <= q1 < pass.len() && 0 <= q2 < pass.len() && #[trigger] pass[q1]
            == finder(fb2, #[trigger] pass[j1]) && #[trigger] pass[q2] == finder(
            fb2,
            #[trigger] pass[j2],
        ) implies q1 < q2 || (q1 == q2 && finder_link(fb2, pass[j1]) < finder_link(
        fb2,
        pass[j2],
    )) by {
        assert(fb1[pass[j1] as int] == fb2[pass[j1] as int]);
        assert(fb1[pass[j2] as int] == fb2[pass[j2] as int]);
    }
}

/// The frontier of the walk holds whatever the record says of surfaces
/// outside the pass.
proof fn lemma_reached_before_frame(
    pass: Seq<usize>,
    fb1: Seq<Option<(usize, usize)>>,
    fb2: Seq<Option<(usize, usize)>>,
    q_limit: int,
    l_limit: int,
)
    requires
        forall|j: int| 0 <= j < pass.len() ==> fb1[#[trigger] pass[j] as int] == fb2[pass[j] as int],
        reached_before(pass, fb1, q_limit, l_limit),
    ensures
        reached_before(pass, fb2, q_limit, l_limit),
{
    reveal(reached_before);
    assert forall|j: int, q: int|
        0 < j < pass.len() && 0 <= q < pass.len() && #[trigger] pass[q] == finder(
            fb2,
            #[trigger] pass[j],
        ) implies q < q_limit || (q == q_limit && finder_link(fb2, pass[j]) < l_limit) by {
        assert(fb1[pass[j] as int] == fb2[pass[j] as int]);
    }
}

/// Queuing surface `t`, reached by link `l` of the surface at position `hb`,
/// keeps the walk's facts about the pass.
proof fn lemma_walk_push(
    pass: Seq<usize>,
    found_by: Seq<Option<(usize, usize)>>,
    links: Seq<Seq<Link>>,
    t: usize,
    hb: int,
    l: usize,
)
    requires
        first_links_win(pass, found_by, links),
        queued_in_link_order(pass, found_by),
        reached_before(pass, found_by, hb, l as int),
        forall|j1: int, j2: int|
            0 <= j1 < j2 < pass.len() ==> #[trigger] pass[j1] != #[trigger] pass[j2],
        !pass.contains(t),
        forall|j: int| 0 < j < pass.len() ==> finder(found_by, #[trigger] pass[j]) != t,
        0 <= hb < pass.len(),
        found_by[t as int] == Some((pass[hb], l)),
        forall|j3: int, l2: int|
            0 <= j3 < hb && 0 <= l2 < links[pass[j3] as int].len() ==> (
            #[trigger] links[pass[j3] as int][l2]).to != t,
        forall|l2: int| 0 <= l2 < l ==> (#[trigger] links[pass[hb] as int][l2]).to != t,
    ensures
        first_links_win(pass.push(t), found_by, links),
        queued_in_link_order(pass.push(t), found_by),
        reached_before(pass.push(t), found_by, hb, l + 1),
{
    reveal(first_links_win);
    reveal(queued_in_link_order);
    reveal(reached_before);
    let np = pass.push(t);
    let n = pass.len() as int;
    assert(np[n] == t);
    assert(finder(found_by, t) == pass[hb]);
    assert(finder_link(found_by, t) == l);
    assert forall|q: int| 0 <= q < np.len() && np[q] == pass[hb] implies q == hb by {
        if q == n {
            assert(pass.contains(t));
        } else if q < hb {
            assert(np[q] == pass[q]);
        } else if q > hb {
            assert(np[q] == pass[q]);
        }
    }
    assert forall|j: int, q: int|
        0 < j < np.len() && 0 <= q < np.len() && #[trigger] np[q] == finder(
            found_by,
            #[trigger] np[j],
        ) implies {
        &&& forall|j3: int, l2: int|
            0 <= j3 < q && 0 <= l2 < links[np[j3] as int].len() ==> (
            #[trigger] links[np[j3] as int][l2]).to != np[j]
        &&& forall|l2: int|
            0 <= l2 < finder_link(found_by, np[j]) ==> (#[trigger] links[np[q] as int][l2]).to
                != np[j]
    } by {
        if j == n {
            assert(q == hb);
            assert forall|j3: int, l2: int|
                0 <= j3 < q && 0 <= l2 < links[np[j3] as int].len() implies (
                #[trigger] links[np[j3] as int][l2]).to != np[j] by {
                assert(np[j3] == pass[j3]);
            }
        } else {
            assert(np[j] == pass[j]);
            assert(q != n);
            assert(np[q] == pass[q]);
            assert(pass[q] == finder(found_by, pass[j]));
            assert forall|j3: int, l2: int|
                0 <= j3 < q && 0 <= l2 < links[np[j3] as int].len() implies (
                #[trigger] links[np[j3] as int][l2]).to != np[j] by {
                assert(np[j3] == pass[j3]);
            }
        }
    }
    assert forall|j1: int, j2: int, q1: int, q2: int|
        0 < j1 < j2 < np.len() && 0 <= q1 < np.len() && 0 <= q2 < np.len() && #[trigger] np[q1]
            == finder(found_by, #[trigger] np[j1]) && #[trigger] np[q2] == finder(
            found_by,
            #[trigger] np[j2],
        ) implies q1 < q2 || (q1 == q2 && finder_link(found_by, np[j1]) < finder_link(
        found_by,
        np[j2],
    )) by {
        assert(np[j1] == pass[j1]);
        assert(q1 != n);
        assert(np[q1] == pass[q1]);
        assert(pass[q1] == finder(found_by, pass[j1]));
        if j2 == n {
            assert(q2 == hb);
        } else {
            assert(np[j2] == pass[j2]);
            assert(q2 != n);
            assert(np[q2] == pass[q2]);
            assert(pass[q2] == finder(found_by, pass[j2]));
        }
    }
    assert forall|j: int, q: int|
        0 < j < np.len() && 0 <= q < np.len() && #[trigger] np[q] == finder(
            found_by,
            #[trigger] np[j],
        ) implies q < hb || (q == hb && finder_link(found_by, np[j]) < l + 1) by {
        if j == n {
            assert(q == hb);
        } else {
            assert(np[j] == pass[j]);
            assert(q != n);
            assert(np[q] == pass[q]);
            assert(pass[q] == finder(found_by, pass[j]));
        }
    }
}

/// A pass of one surface holds the walk's facts.
proof fn lemma_walk_start(pass: Seq<usize>, found_by: Seq<Option<(usize, usize)>>, links: Seq<Seq<Link>>)
    requires
        pass.len() == 1,
    ensures
        first_links_win(pass, found_by, links),
        queued_in_link_order(pass, found_by),
        reached_before(pass, found_by, 0, 0),
{
    reveal(first_links_win);
    reveal(queued_in_link_order);
    reveal(reached_before);
}

/// A later frontier of the walk bounds the pass as well.
proof fn lemma_reached_before_weaken(
    pass: Seq<usize>,
    found_by: Seq<Option<(usize, usize)>>,
    q1: int,
    l1: int,
    q2: int,
    l2: int,
)
    requires
        reached_before(pass, found_by, q1, l1),
        q1 < q2 || (q1 == q2 && l1 <= l2),
    ensures
        reached_before(pass, found_by, q2, l2),
{
    reveal(reached_before);
}

/// Walks the surfaces of a layer breadth first along their links, trying the
/// links of each surface in order and starting a new pass at the first
/// surface not reached yet, as the layer's surface textures are laid out.
pub fn chain_surfaces(links: &Vec<Vec<Link>>) -> (out: Chains)
    requires
        links_in_range(link_views(links@)),
    ensures
        out.found_by@.len() == links@.len(),
        splits(pass_views(out.passes@), links@.len() as int),
        starts_first_free(pass_views(out.passes@)),
        reached_by_links(pass_views(out.passes@), out.found_by@, link_views(links@)),
        closed_under_links(pass_views(out.passes@), link_views(links@)),
        walked_breadth_first(pass_views(out.passes@), out.found_by@, link_views(links@)),
{
    let n = links.len();
    let ghost lk = link_views(links@);
    let mut seen: Vec<bool> = Vec::new();
    let mut found_by: Vec<Option<(usize, usize)>> = Vec::new();
    let mut i: usize = 0;
    while i < n
        invariant
            0 <= i <= n,
            seen@.len() == i,
            found_by@.len() == i,
            forall|x: int| 0 <= x < i ==> !seen@[x] && found_by@[x] is None,
        decreases n - i,
    {
        seen.push(false);
        found_by.push(None);
        i = i + 1;
    }
    let mut passes: Vec<Vec<usize>> = Vec::new();
    let ghost mut owner: Seq<int> = Seq::new(n as nat, |x: int| 0int);
    let mut key: usize = 0;
    while key < n
        invariant
            n == links@.len(),
            lk == link_views(links@),
            links_in_range(lk),
            0 <= key <= n,
            seen@.len() == n,
            found_by@.len() == n,
            owner.len() == n,
            forall|x: int|
                0 <= x < n ==> (seen@[x] <==> (0 <= #[trigger] owner[x] < passes@.len()
                    && pass_views(passes@)[owner[x]].contains(x as usize))),
            forall|x: usize, k: int|
                x < n && 0 <= k < passes@.len() && #[trigger] pass_views(passes@)[k].contains(x)
                    ==> seen@[x as int] && owner[x as int] == k,
            forall|x: int| 0 <= x < n && !seen@[x] ==> #[trigger] found_by@[x] is None,
            forall|x: int| 0 <= x < key ==> #[trigger] seen@[x],
            forall|k: int, j: int|
                0 <= k < passes@.len() && 0 <= j < pass_views(passes@)[k].len()
                    ==> #[trigger] pass_views(passes@)[k][j] < n,
            forall|k: int, j1: int, j2: int|
                0 <= k < passes@.len() && 0 <= j1 < j2 < pass_views(passes@)[k].len()
                    ==> #[trigger] pass_views(passes@)[k][j1] != #[trigger] pass_views(
                    passes@,
                )[k][j2],
            forall|k: int| 0 <= k < passes@.len() ==> (#[trigger] pass_views(passes@)[k]).len() > 0,
            starts_first_free(pass_views(passes@)),
            reached_by_links(pass_views(passes@), found_by@, lk),
            closed_under_links(pass_views(passes@), lk),
            walked_breadth_first(pass_views(passes@), found_by@, lk),
        decreases n - key,
    {
        if !seen[key] {
            let ghost ps = pass_views(passes@);
            let ghost big_k = passes@.len() as int;
            let root = key;
            seen.set(root, true);
            proof {
                owner = owner.update(root as int, big_k);
            }
            let mut order: Vec<usize> = Vec::new();
            order.push(root);
            proof {
                assert(order@[0] == root);
                assert(order@.contains(root));
                lemma_walk_start(order@, found_by@, lk);
            }
            let mut head: usize = 0;
            while head < order.len()
                invariant
                    n == links@.len(),
                    lk == link_views(links@),
                    links_in_range(lk),
                    0 <= key < n,
                    root == key,
                    ps == pass_views(passes@),
                    big_k == passes@.len(),
                    seen@.len() == n,
                    found_by@.len() == n,
                    owner.len() == n,
                    0 <= head <= order@.len(),
                    order@.len() > 0,
                    order@[0] == root,
                    found_by@[root as int] is None,
                    forall|j: int| 0 <= j < order@.len() ==> #[trigger] order@[j] < n,
                    forall|j1: int, j2: int|
                        0 <= j1 < j2 < order@.len() ==> #[trigger] order@[j1] != #[trigger] order@[j2],
                    forall|x: int|
                        0 <= x < n ==> (seen@[x] <==> ((0 <= #[trigger] owner[x] < big_k
                            && ps[owner[x]].contains(x as usize)) || (owner[x] == big_k
                            && order@.contains(x as usize)))),
                    forall|x: usize, k: int|
                        x < n && 0 <= k < big_k && #[trigger] ps[k].contains(x)
                            ==> seen@[x as int] && owner[x as int] == k,
                    forall|x: int| 0 <= x < key ==> #[trigger] owner[x] < big_k,
                    forall|j: int|
                        0 <= j < order@.len() ==> seen@[#[trigger] order@[j] as int] && owner[order@[j] as int]
                            == big_k,
                    forall|x: int| 0 <= x < n && !seen@[x] ==> #[trigger] found_by@[x] is None,
                    forall|x: int| 0 <= x < key ==> #[trigger] seen@[x],
                    forall|j: int|
                        0 < j < order@.len() ==> {
                            let x = #[trigger] order@[j];
                            &&& found_by@[x as int] is Some
                            &&& {
                                let (p, l) = found_by@[x as int].unwrap();
                                &&& exists|j2: int| 0 <= j2 < j && order@[j2] == p
                                &&& l < lk[p as int].len()
                                &&& lk[p as int][l as int].to == x
                            }
                        },
                    forall|j: int, l: int|
                        0 <= j < head && 0 <= l < lk[order@[j] as int].len() ==> seen@[(
                        #[trigger] lk[order@[j] as int][l]).to as int],
                    forall|k: int, j: int|
                        0 <= k < big_k && 0 <= j < ps[k].len() ==> #[trigger] ps[k][j] < n,
                    forall|k: int, j1: int, j2: int|
                        0 <= k < big_k && 0 <= j1 < j2 < ps[k].len() ==> #[trigger] ps[k][j1]
                            != #[trigger] ps[k][j2],
                    forall|k: int| 0 <= k < big_k ==> (#[trigger] ps[k]).len() > 0,
                    starts_first_free(ps),
                    reached_by_links(ps, found_by@, lk),
                    closed_under_links(ps, lk),
                    walked_breadth_first(ps, found_by@, lk),
                    first_links_win(order@, found_by@, lk),
                    queued_in_link_order(order@, found_by@),
                    reached_before(order@, found_by@, head as int, 0),
                decreases 2 * count_false(seen@) + order@.len() - head,
            {
                let m = order[head];
                head = head + 1;
                let ghost start_measure = 2 * count_false(seen@) + order@.len();
                let ghost head_before = head - 1;
                let mut l: usize = 0;
                let count = links[m].len();
                proof {
                    assert(lk[m as int] == links@[m as int]@);
                }
                while l < count
                    invariant
                        n == links@.len(),
                        lk == link_views(links@),
                        links_in_range(lk),
                        0 <= key < n,
                        root == key,
                        ps == pass_views(passes@),
                        big_k == passes@.len(),
                        seen@.len() == n,
                        found_by@.len() == n,
                        owner.len() == n,
                        m < n,
                        count == lk[m as int].len(),
                        0 <= l <= count,
                        head == head_before + 1,
                        0 <= head_before < order@.len(),
                        order@[head_before as int] == m,
                        2 * count_false(seen@) + order@.len() <= start_measure,
                        order@.len() > 0,
                        order@[0] == root,
                        found_by@[root as int] is None,
                        forall|j: int| 0 <= j < order@.len() ==> #[trigger] order@[j] < n,
                        forall|j1: int, j2: int|
                            0 <= j1 < j2 < order@.len() ==> #[trigger] order@[j1]
                                != #[trigger] order@[j2],
                        forall|x: int|
                            0 <= x < n ==> (seen@[x] <==> ((0 <= #[trigger] owner[x] < big_k
                                && ps[owner[x]].contains(x as usize)) || (owner[x] == big_k
                                && order@.contains(x as usize)))),
                        forall|x: usize, k: int|
                            x < n && 0 <= k < big_k && #[trigger] ps[k].contains(x)
                                ==> seen@[x as int] && owner[x as int] == k,
                        forall|x: int| 0 <= x < key ==> #[trigger] owner[x] < big_k,
                        forall|j: int|
                            0 <= j < order@.len() ==> seen@[#[trigger] order@[j] as int]
                                && owner[order@[j] as int] == big_k,
                        forall|x: int| 0 <= x < n && !seen@[x] ==> #[trigger] found_by@[x] is None,
                        forall|x: int| 0 <= x < key ==> #[trigger] seen@[x],
                        forall|j: int|
                            0 < j < order@.len() ==> {
                                let x = #[trigger] order@[j];
                                &&& found_by@[x as int] is Some
                                &&& {
                                    let (p, l) = found_by@[x as int].unwrap();
                                    &&& exists|j2: int| 0 <= j2 < j && order@[j2] == p
                                    &&& l < lk[p as int].len()
                                    &&& lk[p as int][l as int].to == x
                                }
                            },
                        forall|j: int, l2: int|
                            0 <= j < head_before && 0 <= l2 < lk[order@[j] as int].len()
                                ==> seen@[(#[trigger] lk[order@[j] as int][l2]).to as int],
                        forall|l2: int| 0 <= l2 < l ==> seen@[(#[trigger] lk[m as int][l2]).to as int],
                        forall|k: int, j: int|
                            0 <= k < big_k && 0 <= j < ps[k].len() ==> #[trigger] ps[k][j] < n,
                        forall|k: int, j1: int, j2: int|
                            0 <= k < big_k && 0 <= j1 < j2 < ps[k].len() ==> #[trigger] ps[k][j1]
                                != #[trigger] ps[k][j2],
                        forall|k: int| 0 <= k < big_k ==> (#[trigger] ps[k]).len() > 0,
                        starts_first_free(ps),
                        reached_by_links(ps, found_by@, lk),
                        closed_under_links(ps, lk),
                        walked_breadth_first(ps, found_by@, lk),
                        first_links_win(order@, found_by@, lk),
                        queued_in_link_order(order@, found_by@),
                        reached_before(order@, found_by@, head_before as int, l as int),
                    decreases count - l,
                {
                    let link = links[m][l];
                    let t = link.to;
                    proof {
                        assert(lk[m as int][l as int] == link);
                    }
                    if !seen[t] {
                        proof {
                            lemma_count_false_set(seen@, t as int);
                        }
                        let ghost old_order = order@;
                        let ghost old_found = found_by@;
                        let ghost old_seen = seen@;
                        seen.set(t, true);
                        found_by.set(t, Some((m, l)));
                        order.push(t);
                        proof {
                            owner = owner.update(t as int, big_k);
                            assert(order@[order@.len() - 1] == t);
                            assert forall|x: int|
                                0 <= x < n implies (seen@[x] <==> ((0 <= #[trigger] owner[x] < big_k
                                    && ps[owner[x]].contains(x as usize)) || (owner[x] == big_k
                                    && order@.contains(x as usize)))) by {
                                if x != t as int && old_order.contains(x as usize) {
                                    let w = choose|w: int| 0 <= w < old_order.len() && old_order[w] == x as usize;
                                    assert(order@[w] == x as usize);
                                }
                                if x != t as int && order@.contains(x as usize) {
                                    let w = choose|w: int| 0 <= w < order@.len() && order@[w] == x as usize;
                                    assert(old_order[w] == x as usize);
                                }
                            }
                            assert forall|j: int|
                                0 < j < order@.len() implies {
                                    let x = #[trigger] order@[j];
                                    &&& found_by@[x as int] is Some
                                    &&& {
                                        let (p, l) = found_by@[x as int].unwrap();
                                        &&& exists|j2: int| 0 <= j2 < j && order@[j2] == p
                                        &&& l < lk[p as int].len()
                                        &&& lk[p as int][l as int].to == x
                                    }
                                } by {
                                if j < old_order.len() {
                                    assert(order@[j] == old_order[j]);
                                    assert(old_order[j] != t);
                                    let (p, l) = old_found[old_order[j] as int].unwrap();
                                    let j2 = choose|j2: int| 0 <= j2 < j && old_order[j2] == p;
                                    assert(order@[j2] == p);
                                } else {
                                    assert(order@[head_before as int] == m);
                                }
                            }
                            assert(reached_by_links(ps, found_by@, lk)) by {
                                assert forall|k: int| 0 <= k < ps.len() implies found_by@[(#[trigger] ps[k])[0] as int] is None by {
                                    assert(ps[k].contains(ps[k][0]));
                                    assert(old_seen[ps[k][0] as int]);
                                    assert(ps[k][0] != t);
                                }
                                assert forall|k: int, j: int|
                                    0 <= k < ps.len() && 0 < j < ps[k].len() implies {
                                        let x = #[trigger] ps[k][j];
                                        &&& found_by@[x as int] is Some
                                        &&& {
                                            let (p, l) = found_by@[x as int].unwrap();
                                            &&& exists|j2: int| 0 <= j2 < j && ps[k][j2] == p
                                            &&& l < lk[p as int].len()
                                            &&& lk[p as int][l as int].to == x
                                        }
                                    } by {
                                    assert(ps[k].contains(ps[k][j]));
                                    assert(old_seen[ps[k][j] as int]);
                                    assert(ps[k][j] != t);
                                }
                            }
                            assert forall|k: int| 0 <= k < ps.len() implies first_links_win(
                                #[trigger] ps[k],
                                found_by@,
                                lk,
                            ) && queued_in_link_order(ps[k], found_by@) by {
                                assert forall|j: int| 0 <= j < ps[k].len() implies old_found[
                                    #[trigger] ps[k][j] as int] == found_by@[ps[k][j] as int] by {
                                    assert(ps[k].contains(ps[k][j]));
                                    assert(old_seen[ps[k][j] as int]);
                                }
                                lemma_walk_frame(ps[k], old_found, found_by@, lk);
                            }
                            assert forall|j: int| 0 <= j < old_order.len() implies old_found[
                                #[trigger] old_order[j] as int] == found_by@[old_order[j] as int] by {
                                assert(old_seen[old_order[j] as int]);
                            }
                            lemma_walk_frame(old_order, old_found, found_by@, lk);
                            lemma_reached_before_frame(
                                old_order,
                                old_found,
                                found_by@,
                                head_before as int,
                                l as int,
                            );
                            assert(!old_order.contains(t)) by {
                                if old_order.contains(t) {
                                    let w = choose|w: int| 0 <= w < old_order.len() && old_order[w] == t;
                                    assert(old_seen[old_order[w] as int]);
                                }
                            }
                            assert forall|j: int| 0 < j < old_order.len() implies finder(
                                found_by@,
                                #[trigger] old_order[j],
                            ) != t by {
                                assert(old_seen[old_order[j] as int]);
                                let (p, l2) = old_found[old_order[j] as int].unwrap();
                                let j2 = choose|j2: int| 0 <= j2 < j && old_order[j2] == p;
                                assert(old_seen[old_order[j2] as int]);
                            }
                            assert forall|j3: int, l2: int|
                                0 <= j3 < head_before && 0 <= l2 < lk[old_order[j3] as int].len()
                                    implies (#[trigger] lk[old_order[j3] as int][l2]).to != t by {
                                assert(old_seen[lk[old_order[j3] as int][l2].to as int]);
                            }
                            assert forall|l2: int| 0 <= l2 < l implies (
                            #[trigger] lk[old_order[head_before as int] as int][l2]).to != t by {
                                assert(old_seen[lk[m as int][l2].to as int]);
                            }
                            lemma_walk_push(old_order, found_by@, lk, t, head_before as int, l);
                        }
                    } else {
                        proof {
                            lemma_reached_before_weaken(
                                order@,
                                found_by@,
                                head_before as int,
                                l as int,
                                head_before as int,
                                l + 1,
                            );
                        }
                    }
                    l = l + 1;
                }
                proof {
                    lemma_reached_before_weaken(
                        order@,
                        found_by@,
                        head_before as int,
                        l as int,
                        head as int,
                        0,
                    );
                }
            }
            proof {
                assert(order@.contains(root));
            }
            let ghost ord = order@;
            passes.push(order);
            proof {
                let ps2 = pass_views(passes@);
                assert(ps2 == ps.push(ord));
                assert forall|x: int|
                    0 <= x < n implies (seen@[x] <==> (0 <= #[trigger] owner[x] < passes@.len()
                        && ps2[owner[x]].contains(x as usize))) by {}
                assert forall|x: usize, k: int|
                    x < n && 0 <= k < passes@.len() && #[trigger] ps2[k].contains(x)
                        implies seen@[x as int] && owner[x as int] == k by {
                    if k == big_k {
                        let w = choose|w: int| 0 <= w < ord.len() && ord[w] == x;
                    } else {
                        assert(ps2[k] == ps[k]);
                    }
                }
                assert(starts_first_free(ps2)) by {
                    assert forall|k: int, y: usize|
                        0 <= k < ps2.len() && y < ps2[k][0] implies #[trigger] placed_before(ps2, y, k) by {
                        if k < big_k {
                            assert(ps2[k] == ps[k]);
                            assert(placed_before(ps, y, k));
                            let k2 = choose|k2: int| 0 <= k2 < k && #[trigger] placed(ps, y, k2);
                            assert(ps2[k2] == ps[k2]);
                            assert(placed(ps2, y, k2));
                        } else {
                            assert(seen@[y as int]);
                            assert(owner[y as int] < big_k);
                            assert(ps2[owner[y as int]] == ps[owner[y as int]]);
                            assert(placed(ps2, y, owner[y as int]));
                        }
                    }
                }
                assert(reached_by_links(ps2, found_by@, lk)) by {
                    assert forall|k: int, j: int|
                        0 <= k < ps2.len() && 0 < j < ps2[k].len() implies {
                            let x = #[trigger] ps2[k][j];
                            &&& found_by@[x as int] is Some
                            &&& {
                                let (p, l) = found_by@[x as int].unwrap();
                                &&& exists|j2: int| 0 <= j2 < j && ps2[k][j2] == p
                                &&& l < lk[p as int].len()
                                &&& lk[p as int][l as int].to == x
                            }
                        } by {
                        if k < big_k {
                            let x = ps[k][j];
                            let (p, l) = found_by@[x as int].unwrap();
                            let j2 = choose|j2: int| 0 <= j2 < j && ps[k][j2] == p;
                            assert(ps2[k][j2] == p);
                        } else {
                            let x = ord[j];
                            let (p, l) = found_by@[x as int].unwrap();
                            let j2 = choose|j2: int| 0 <= j2 < j && ord[j2] == p;
                            assert(ps2[k][j2] == p);
                        }
                    }
                }
                assert(closed_under_links(ps2, lk)) by {
                    assert forall|k: int, j: int, l: int|
                        0 <= k < ps2.len() && 0 <= j < ps2[k].len() && 0 <= l < lk[ps2[k][j] as int].len()
                            implies placed_before(ps2, (#[trigger] lk[ps2[k][j] as int][l]).to, k + 1) by {
                        let t = lk[ps2[k][j] as int][l].to;
                        if k < big_k {
                            let k2 = choose|k2: int| 0 <= k2 < k + 1 && #[trigger] placed(ps, t, k2);
                            assert(placed(ps2, t, k2));
                        } else {
                            assert(ps2[k][j] == ord[j]);
                            assert(seen@[t as int]);
                            assert(placed(ps2, t, owner[t as int]));
                        }
                    }
                }
            }
        }
        key = key + 1;
    }
    proof {
        let ps = pass_views(passes@);
        assert forall|x: usize| x < n implies #[trigger] placed_somewhere(ps, x) by {
            assert(seen@[x as int]);
            assert(placed(ps, x, owner[x as int]));
        }
        assert forall|k1: int, j1: int, k2: int, j2: int|
            0 <= k1 < ps.len() && 0 <= j1 < ps[k1].len() && 0 <= k2 < ps.len() && 0 <= j2
                < ps[k2].len() && #[trigger] ps[k1][j1] == #[trigger] ps[k2][j2] implies k1 == k2
                && j1 == j2 by {
            let x = ps[k1][j1];
            assert(x < n);
            assert(ps[k1].contains(x));
            assert(ps[k2].contains(x));
            assert(owner[x as int] == k1);
            assert(owner[x as int] == k2);
            if j1 < j2 {
                assert(ps[k1][j1] != ps[k1][j2]);
            } else if j2 < j1 {
                assert(ps[k1][j2] != ps[k1][j1]);
            }
        }
    }
    Chains { passes, found_by }
}

/// Links go both ways: whenever a surface meets another, the other has a
/// link back to it.
pub open spec fn links_mutual(links: Seq<Seq<Link>>) -> bool {
    forall|a: int, b: int|
        0 <= a < links.len() && 0 <= b < links[a].len() ==> exists|c: int|
            0 <= c < links[(#[trigger] links[a][b]).to as int].len() && links[links[a][b].to as int][c].to
                == a
}

/// Law: when links go both ways (as meetings of surface ends do), every link
/// of a surface leads into the surface's own pass, so each pass is a whole
/// connected group of surfaces.
#[verifier::rlimit(40)]
pub proof fn lemma_mutual_links_stay_in_pass(
    passes: Seq<Seq<usize>>,
    links: Seq<Seq<Link>>,
    k: int,
    j: int,
    l: int,
)
    requires
        links_mutual(links),
        links_in_range(links),
        splits(passes, links.len() as int),
        closed_under_links(passes, links),
        0 <= k < passes.len(),
        0 <= j < passes[k].len(),
        0 <= l < links[passes[k][j] as int].len(),
    ensures
        placed(passes, links[passes[k][j] as int][l].to, k),
{
    let m = passes[k][j];
    let t = links[m as int][l].to;
    assert(placed_before(passes, t, k + 1));
    let k2 = choose|k2: int| 0 <= k2 < k + 1 && #[trigger] placed(passes, t, k2);
    if k2 != k {
        let j2 = choose|j2: int| 0 <= j2 < passes[k2].len() && passes[k2][j2] == t;
        let c = choose|c: int| 0 <= c < links[t as int].len() && links[t as int][c].to == m;
        assert(links[passes[k2][j2] as int][c].to == m);
        assert(placed_before(passes, links[passes[k2][j2] as int][c].to, k2 + 1));
        let k3 = choose|k3: int| 0 <= k3 < k2 + 1 && #[trigger] placed(passes, m, k3);
        let j3 = choose|j3: int| 0 <= j3 < passes[k3].len() && passes[k3][j3] == m;
        assert(passes[k3][j3] == passes[k][j]);
    }
}

} // verus!
