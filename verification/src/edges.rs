//! Which tracts are joined, and the joining of all that are.

use vstd::prelude::*;
use vstd::seq_lib::lemma_no_dup_in_concat;
use crate::node::{texts, Node, NodeView};
use crate::node_map::{distinct_tracts, has_tract, joined, node_views, well_formed, NodeMap};
use crate::tract::{tract_number, tract_number_of};

verus! {

/// How far apart the numbers of two tracts may lie for the tracts to count
/// as adjacent.
pub const ADJACENT_WITHIN: i64 = 10;

/// Whether the tracts `a` and `b` both carry a number and the two numbers lie
/// no more than ten apart.
pub open spec fn adjacent(a: Seq<char>, b: Seq<char>) -> bool {
    match (tract_number(a), tract_number(b)) {
        (Some(x), Some(y)) => -ADJACENT_WITHIN <= x - y <= ADJACENT_WITHIN,
        _ => false,
    }
}

/// Whether two nodes are to be joined: they are different tracts, and they
/// either lie in the same county and class or are adjacent by number.
pub open spec fn connects(a: NodeView, b: NodeView) -> bool {
    &&& a.census_tract != b.census_tract
    &&& (a.county == b.county && a.urban == b.urban) || adjacent(a.census_tract, b.census_tract)
}

/// Of the first `n` nodes of `m`, the tracts that the node at `i` is to be
/// joined to and does not name yet, in the mapping's order.
pub open spec fn new_neighbors(m: Seq<NodeView>, i: int, n: nat) -> Seq<Seq<char>>
    decreases n,
{
    if n == 0 {
        Seq::empty()
    } else {
        let earlier = new_neighbors(m, i, (n - 1) as nat);
        let other = m[n - 1];
        if connects(m[i], other) && !m[i].edges.contains(other.census_tract) {
            earlier.push(other.census_tract)
        } else {
            earlier
        }
    }
}

/// The mapping `m` with every two of its nodes joined that are to be: each
/// node keeps the edges it had and names after them, in the mapping's order,
/// the tracts it is newly joined to.
pub open spec fn inferred(m: Seq<NodeView>) -> Seq<NodeView> {
    Seq::new(m.len(), |i: int| m[i].with_edges(m[i].edges + new_neighbors(m, i, m.len())))
}

/// Whether two nodes are joined does not depend on which is named first.
pub proof fn lemma_connects_symmetric(a: NodeView, b: NodeView)
    ensures
        connects(a, b) == connects(b, a),
{
}

/// What the newly named tracts of a node are: the tracts among the first `n`
/// that it is to be joined to and did not name.
proof fn lemma_new_neighbors_contains(m: Seq<NodeView>, i: int, n: nat, id: Seq<char>)
    requires
        0 <= i < m.len(),
        n <= m.len(),
    ensures
        new_neighbors(m, i, n).contains(id) <==> !m[i].edges.contains(id) && exists|k: int|
            0 <= k < n && (#[trigger] m[k]).census_tract == id && connects(m[i], m[k]),
    decreases n,
{
    if n > 0 {
        let earlier = new_neighbors(m, i, (n - 1) as nat);
        let other = m[n - 1];
        lemma_new_neighbors_contains(m, i, (n - 1) as nat, id);
        if connects(m[i], other) && !m[i].edges.contains(other.census_tract) {
            assert(new_neighbors(m, i, n) == earlier.push(other.census_tract));
            if earlier.push(other.census_tract).contains(id) {
                let w = choose|w: int|
                    0 <= w < earlier.push(other.census_tract).len() && earlier.push(
                        other.census_tract,
                    )[w] == id;
                if w < earlier.len() {
                    assert(earlier[w] == id);
                    assert(earlier.contains(id));
                } else {
                    assert(m[n - 1].census_tract == id);
                }
            }
            if earlier.contains(id) {
                let w = choose|w: int| 0 <= w < earlier.len() && earlier[w] == id;
                assert(earlier.push(other.census_tract)[w] == id);
            }
            if other.census_tract == id {
                assert(earlier.push(other.census_tract)[earlier.len() as int] == id);
            }
        }
    }
}

/// A node names no tract twice among those it newly names.
proof fn lemma_new_neighbors_no_duplicates(m: Seq<NodeView>, i: int, n: nat)
    requires
        distinct_tracts(m),
        0 <= i < m.len(),
        n <= m.len(),
    ensures
        new_neighbors(m, i, n).no_duplicates(),
    decreases n,
{
    if n > 0 {
        let earlier = new_neighbors(m, i, (n - 1) as nat);
        let other = m[n - 1];
        lemma_new_neighbors_no_duplicates(m, i, (n - 1) as nat);
        lemma_new_neighbors_contains(m, i, (n - 1) as nat, other.census_tract);
        assert(!earlier.contains(other.census_tract));
    }
}

/// After the joining a node names a tract exactly if it named it before or
/// is to be joined to the node of that tract.
pub proof fn lemma_inferred_edges(m: Seq<NodeView>, i: int, id: Seq<char>)
    requires
        0 <= i < m.len(),
    ensures
        inferred(m)[i].edges.contains(id) <==> m[i].edges.contains(id) || exists|k: int|
            0 <= k < m.len() && (#[trigger] m[k]).census_tract == id && connects(m[i], m[k]),
{
    let old_edges = m[i].edges;
    let added = new_neighbors(m, i, m.len());
    lemma_new_neighbors_contains(m, i, m.len(), id);
    assert(inferred(m)[i].edges == old_edges + added);
    if (old_edges + added).contains(id) {
        let w = choose|w: int| 0 <= w < (old_edges + added).len() && (old_edges + added)[w] == id;
        if w < old_edges.len() {
            assert(old_edges[w] == id);
        } else {
            assert(added[w - old_edges.len()] == id);
        }
    }
    if old_edges.contains(id) {
        let w = choose|w: int| 0 <= w < old_edges.len() && old_edges[w] == id;
        assert((old_edges + added)[w] == id);
    }
    if added.contains(id) {
        let w = choose|w: int| 0 <= w < added.len() && added[w] == id;
        assert((old_edges + added)[old_edges.len() + w] == id);
    }
}

/// After the joining two nodes are joined exactly if they were before or are
/// to be.
pub proof fn lemma_inferred_joined(m: Seq<NodeView>, i: int, j: int)
    requires
        distinct_tracts(m),
        0 <= i < m.len(),
        0 <= j < m.len(),
    ensures
        joined(inferred(m), i, j) == (joined(m, i, j) || connects(m[i], m[j])),
{
    lemma_inferred_edges(m, i, m[j].census_tract);
    if exists|k: int|
        0 <= k < m.len() && (#[trigger] m[k]).census_tract == m[j].census_tract && connects(
            m[i],
            m[k],
        ) {
        let k = choose|k: int|
            0 <= k < m.len() && (#[trigger] m[k]).census_tract == m[j].census_tract && connects(
                m[i],
                m[k],
            );
        assert(k == j);
    }
}

/// The joining keeps a mapping well formed: afterwards, too, no node names
/// itself, and of two nodes each names the other or neither does.
pub proof fn lemma_inferred_well_formed(m: Seq<NodeView>)
    requires
        well_formed(m),
    ensures
        well_formed(inferred(m)),
{
    let r = inferred(m);
    assert forall|i: int| 0 <= i < r.len() implies (#[trigger] r[i]).edges.no_duplicates() by {
        let added = new_neighbors(m, i, m.len());
        lemma_new_neighbors_no_duplicates(m, i, m.len());
        assert forall|a: int, b: int| 0 <= a < m[i].edges.len() && 0 <= b < added.len() implies m[i].edges[a]
            != added[b] by {
            lemma_new_neighbors_contains(m, i, m.len(), added[b]);
            assert(added.contains(added[b]));
            if m[i].edges[a] == added[b] {
                assert(m[i].edges.contains(added[b]));
            }
        }
        lemma_no_dup_in_concat(m[i].edges, added);
    }
    assert forall|i: int| 0 <= i < r.len() implies !#[trigger] joined(r, i, i) by {
        lemma_inferred_joined(m, i, i);
        assert(!joined(m, i, i));
    }
    assert forall|i: int, e: Seq<char>|
        0 <= i < r.len() && #[trigger] r[i].edges.contains(e) implies has_tract(r, e) by {
        lemma_inferred_edges(m, i, e);
        if m[i].edges.contains(e) {
            assert(has_tract(m, e));
        }
        let k = choose|k: int| 0 <= k < m.len() && (#[trigger] m[k]).census_tract == e;
        assert(r[k].census_tract == e);
    }
    assert forall|i: int, j: int| 0 <= i < r.len() && 0 <= j < r.len() implies #[trigger] joined(
        r,
        i,
        j,
    ) == joined(r, j, i) by {
        lemma_inferred_joined(m, i, j);
        lemma_inferred_joined(m, j, i);
        lemma_connects_symmetric(m[i], m[j]);
        assert(joined(m, i, j) == joined(m, j, i));
    }
    assert(distinct_tracts(r));
}

/// Once every two nodes are joined that are to be, no node newly names a
/// tract.
proof fn lemma_nothing_new_after_inferred(m: Seq<NodeView>, i: int, n: nat)
    requires
        distinct_tracts(m),
        0 <= i < m.len(),
        n <= m.len(),
    ensures
        new_neighbors(inferred(m), i, n) == Seq::<Seq<char>>::empty(),
    decreases n,
{
    if n > 0 {
        let r = inferred(m);
        lemma_nothing_new_after_inferred(m, i, (n - 1) as nat);
        lemma_inferred_joined(m, i, n - 1);
        assert(connects(r[i], r[n - 1]) == connects(m[i], m[n - 1]));
    }
}

/// Joining a second time changes nothing: no node names a tract twice for
/// it, and every node keeps exactly the edges that the first joining gave.
pub proof fn lemma_inferred_idempotent(m: Seq<NodeView>)
    requires
        well_formed(m),
    ensures
        inferred(inferred(m)) == inferred(m),
{
    let r = inferred(m);
    assert forall|i: int| 0 <= i < r.len() implies inferred(r)[i] == r[i] by {
        lemma_nothing_new_after_inferred(m, i, m.len());
        assert(r[i].edges + Seq::<Seq<char>>::empty() =~= r[i].edges);
    }
    assert(inferred(r) =~= r);
}

/// Whether `node` and `other_node` are to be joined. Two nodes of one tract
/// never are. Two tracts are joined where county and class agree, and also
/// where both identifiers end in a number and the two numbers lie no more
/// than ten apart.
pub fn should_add_edge(node: &Node, other_node: &Node) -> (add: bool)
    ensures
        add == connects(node@, other_node@),
{
    if node.census_tract == other_node.census_tract {
        return false;
    }
    if node.county == other_node.county && node.urban == other_node.urban {
        return true;
    }
    let node_id: Option<i32> = tract_number_of(node.census_tract.as_str());
    let other_node_id: Option<i32> = tract_number_of(other_node.census_tract.as_str());
    match (node_id, other_node_id) {
        (Some(a), Some(b)) => {
            let gap: i64 = a as i64 - b as i64;
            -ADJACENT_WITHIN <= gap && gap <= ADJACENT_WITHIN
        },
        _ => false,
    }
}

/// Whether `id` is one of `edges`.
fn names(edges: &Vec<String>, id: &String) -> (found: bool)
    ensures
        found == texts(edges@).contains(id@),
{
    let mut k: usize = 0;
    while k < edges.len()
        invariant
            k <= edges@.len(),
            forall|w: int| 0 <= w < k ==> texts(edges@)[w] != id@,
        decreases edges@.len() - k,
    {
        if edges[k] == *id {
            assert(texts(edges@)[k as int] == id@);
            return true;
        }
        k = k + 1;
    }
    false
}

/// How many of the nodes of a mapping of `len` nodes, from the first on, the
/// node at `k` has been held against once every pair before `(i, j)` is done.
spec fn held_against(len: nat, i: int, j: int, k: int) -> nat {
    if k < i {
        len
    } else if k == i {
        j as nat
    } else if k < j {
        (i + 1) as nat
    } else {
        i as nat
    }
}

/// The mapping `m` once every pair before `(i, j)` is done.
spec fn inferred_until(m: Seq<NodeView>, i: int, j: int) -> Seq<NodeView> {
    Seq::new(
        m.len(),
        |k: int| m[k].with_edges(m[k].edges + new_neighbors(m, k, held_against(m.len(), i, j, k))),
    )
}

/// A node is never joined to itself, so holding it against itself adds
/// nothing.
proof fn lemma_new_neighbors_skip_self(m: Seq<NodeView>, k: int)
    requires
        0 <= k < m.len(),
    ensures
        new_neighbors(m, k, (k + 1) as nat) == new_neighbors(m, k, k as nat),
{
}

/// Joins every two nodes of `nodes` that are to be joined. Each pair is
/// decided once, on what the two nodes held before the call, and each of the
/// two then names the other, unless it did already.
pub fn create_edges(nodes: &mut NodeMap)
    requires
        old(nodes).wf(),
    ensures
        final(nodes)@ == inferred(old(nodes)@),
        final(nodes).wf(),
        forall|i: int, j: int|
            0 <= i < old(nodes)@.len() && 0 <= j < old(nodes)@.len() ==> #[trigger] joined(
                final(nodes)@,
                i,
                j,
            ) == (joined(old(nodes)@, i, j) || connects(old(nodes)@[i], old(nodes)@[j])),
        forall|i: int, j: int|
            0 <= i < final(nodes)@.len() && 0 <= j < final(nodes)@.len() ==> #[trigger] joined(
                final(nodes)@,
                i,
                j,
            ) == joined(final(nodes)@, j, i),
        forall|i: int| 0 <= i < final(nodes)@.len() ==> !#[trigger] joined(final(nodes)@, i, i),
{
    let ghost m = nodes@;
    let n: usize = nodes.len();
    proof {
        assert forall|k: int| 0 <= k < m.len() implies (#[trigger] inferred_until(m, 0, 1)[k])
            == m[k] by {
            if k == 0 {
                lemma_new_neighbors_skip_self(m, 0);
            }
            assert(m[k].edges + Seq::<Seq<char>>::empty() =~= m[k].edges);
        }
        assert(inferred_until(m, 0, 1) =~= m);
    }
    let mut i: usize = 0;
    while i < n
        invariant
            n == m.len(),
            i <= n,
            well_formed(m),
            nodes@ == inferred_until(m, i as int, i + 1),
        decreases n - i,
    {
        let mut j: usize = i + 1;
        while j < n
            invariant
                n == m.len(),
                i < n,
                i < j <= n,
                well_formed(m),
                nodes@ == inferred_until(m, i as int, j as int),
            decreases n - j,
        {
            let ghost before = nodes@;
            let ghost after = inferred_until(m, i as int, j + 1);
            let all: &Vec<Node> = nodes.nodes();
            assert(node_views(all@).len() == all@.len());
            let add: bool = should_add_edge(&all[i], &all[j]);
            let mut pair: Option<(String, String)> = None;
            proof {
                assert(before[i as int] == all@[i as int]@);
                assert(before[j as int] == all@[j as int]@);
                assert(add == connects(m[i as int], m[j as int]));
                lemma_connects_symmetric(m[i as int], m[j as int]);
                assert(joined(m, i as int, j as int) == joined(m, j as int, i as int));
                lemma_new_neighbors_contains(m, i as int, j as nat, m[j as int].census_tract);
                assert forall|k: int| 0 <= k < m.len() && k != i && k != j implies after[k]
                    == before[k] by {}
            }
            if add {
                let other_id: String = all[j].census_tract.clone();
                let known: bool = names(&all[i].edges, &other_id);
                proof {
                    let old_edges = m[i as int].edges;
                    let added = new_neighbors(m, i as int, j as nat);
                    assert(texts(all@[i as int].edges@) == old_edges + added);
                    if (old_edges + added).contains(other_id@) {
                        let w = choose|w: int|
                            0 <= w < (old_edges + added).len() && (old_edges + added)[w]
                                == other_id@;
                        if w < old_edges.len() {
                            assert(old_edges[w] == other_id@);
                        } else {
                            assert(added[w - old_edges.len()] == other_id@);
                            assert(added.contains(other_id@));
                        }
                    }
                    if old_edges.contains(other_id@) {
                        let w = choose|w: int| 0 <= w < old_edges.len() && old_edges[w] == other_id@;
                        assert((old_edges + added)[w] == other_id@);
                    }
                    assert(known == joined(m, i as int, j as int));
                }
                if !known {
                    pair = Some((all[i].census_tract.clone(), other_id));
                }
            }
            assert(pair is Some == (connects(m[i as int], m[j as int]) && !joined(
                m,
                i as int,
                j as int,
            )));
            if let Some((id, other_id)) = pair {
                assert(id@ == m[i as int].census_tract);
                assert(other_id@ == m[j as int].census_tract);
                nodes.join(i, other_id);
                nodes.join(j, id);
            }
            proof {
                assert(nodes@[i as int].edges =~= after[i as int].edges);
                assert(nodes@[j as int].edges =~= after[j as int].edges);
                assert(nodes@ =~= after);
            }
            j = j + 1;
        }
        proof {
            let done = inferred_until(m, i as int, n as int);
            let next = inferred_until(m, i + 1, i + 2);
            assert forall|k: int| 0 <= k < m.len() implies done[k] == next[k] by {
                if k == i + 1 {
                    lemma_new_neighbors_skip_self(m, k);
                }
            }
            assert(done =~= next);
        }
        i = i + 1;
    }
    proof {
        assert(inferred_until(m, n as int, n + 1) =~= inferred(m));
        lemma_inferred_well_formed(m);
        assert forall|i: int, j: int| 0 <= i < m.len() && 0 <= j < m.len() implies #[trigger] joined(
            inferred(m),
            i,
            j,
        ) == (joined(m, i, j) || connects(m[i], m[j])) by {
            lemma_inferred_joined(m, i, j);
        }
    }
}

} // verus!
