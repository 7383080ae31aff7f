//! The most critical tract: highest score, then most neighbours.

use vstd::prelude::*;
use vstd::set_lib::lemma_len_subset;
use crate::edges::inferred;
use crate::node::{texts, Node, NodeView, Score};
use crate::node_map::{has_tract, joined, node_views, well_formed, NodeMap};
use crate::record::{built, RecordView};

verus! {

/// Why a mapping cannot be ranked.
#[derive(Clone, Copy, Debug, PartialEq, Eq, Structural)]
pub enum RankError {
    /// The mapping holds no node.
    EmptyGraph,
    /// Fewer than two records were counted, so that no tract could have a
    /// neighbour.
    InsufficientData,
}

/// A degree centrality as a fraction: the number of a node's neighbours over
/// the number of tracts that it could be joined to.
#[derive(Clone, Copy, Debug, PartialEq, Eq, Structural)]
pub struct Centrality {
    pub degree: usize,
    pub out_of: usize,
}

impl Centrality {
    /// Whether the fraction lies between nought and one.
    pub open spec fn in_unit_interval(self) -> bool {
        0 <= self.degree <= self.out_of && self.out_of > 0
    }
}

/// The most critical tract of a mapping.
#[derive(Clone, Debug)]
pub struct RankedResult {
    pub id: String,
    pub region: String,
    pub composite_score: Score,
    pub degree_centrality: Centrality,
}

/// What a [`RankedResult`] holds, as mathematical values.
pub ghost struct RankedView {
    pub id: Seq<char>,
    pub region: Seq<char>,
    pub composite_score: int,
    pub degree: nat,
    pub out_of: int,
}

impl View for RankedResult {
    type V = RankedView;

    open spec fn view(&self) -> RankedView {
        RankedView {
            id: self.id@,
            region: self.region@,
            composite_score: self.composite_score.ordinal as int,
            degree: self.degree_centrality.degree as nat,
            out_of: self.degree_centrality.out_of as int,
        }
    }
}

/// Whether the degree centrality of `a` exceeds that of `b` when `count`
/// records were read. A node's degree centrality is the number of its
/// neighbours over `count - 1`; the two fractions are compared by what each
/// comes to when multiplied by the other's denominator.
pub open spec fn more_central(a: NodeView, b: NodeView, count: int) -> bool {
    a.degree() * (count - 1) > b.degree() * (count - 1)
}

/// Whether `a` is more critical than `b`: its score is higher, or the scores
/// are equal and its degree centrality is higher.
pub open spec fn outranks(a: NodeView, b: NodeView, count: int) -> bool {
    a.food_insecurity_score > b.food_insecurity_score || (a.food_insecurity_score
        == b.food_insecurity_score && more_central(a, b, count))
}

/// Where the running best stands once the first `n` nodes of `m` have been
/// looked at in order: a node takes the lead only from one that it outranks.
pub open spec fn leader(m: Seq<NodeView>, n: nat, count: int) -> int
    decreases n,
{
    if n <= 1 {
        0
    } else {
        let best = leader(m, (n - 1) as nat, count);
        if outranks(m[n - 1], m[best], count) {
            n - 1
        } else {
            best
        }
    }
}

/// Whether the node at `k` is the most critical of `m`: none outranks it,
/// and it outranks every node before it.
pub open spec fn is_most_critical(m: Seq<NodeView>, k: int, count: int) -> bool {
    &&& 0 <= k < m.len()
    &&& forall|j: int| 0 <= j < m.len() ==> !outranks(#[trigger] m[j], m[k], count)
    &&& forall|j: int| 0 <= j < k ==> outranks(m[k], #[trigger] m[j], count)
}

/// What is reported of the most critical node of `m` when `count` records
/// were read.
pub open spec fn ranked(m: Seq<NodeView>, count: int) -> RankedView {
    let best = m[leader(m, m.len(), count)];
    RankedView {
        id: best.census_tract,
        region: best.county,
        composite_score: best.food_insecurity_score,
        degree: best.degree(),
        out_of: count - 1,
    }
}

/// Against one count of records, the node with more neighbours has the
/// higher degree centrality.
pub proof fn lemma_more_central(a: NodeView, b: NodeView, count: int)
    requires
        count > 1,
    ensures
        more_central(a, b, count) == (a.degree() > b.degree()),
{
    let x = a.degree() as int;
    let y = b.degree() as int;
    let d = count - 1;
    assert((x * d > y * d) == (x > y)) by (nonlinear_arith)
        requires
            d > 0,
    ;
}

/// The running best of the first `n` nodes is outranked by none of them and
/// outranks each of them that stands before it.
pub proof fn lemma_leader_leads(m: Seq<NodeView>, n: nat, count: int)
    requires
        1 <= n <= m.len(),
        count > 1,
    ensures
        0 <= leader(m, n, count) < n,
        forall|j: int| 0 <= j < n ==> !outranks(#[trigger] m[j], m[leader(m, n, count)], count),
        forall|j: int|
            0 <= j < leader(m, n, count) ==> outranks(m[leader(m, n, count)], #[trigger] m[j], count),
    decreases n,
{
    if n > 1 {
        lemma_leader_leads(m, (n - 1) as nat, count);
        let before = leader(m, (n - 1) as nat, count);
        let now = leader(m, n, count);
        lemma_more_central(m[n - 1], m[before], count);
        lemma_more_central(m[before], m[n - 1], count);
        lemma_more_central(m[n - 1], m[n - 1], count);
        assert forall|j: int| 0 <= j < n implies !outranks(#[trigger] m[j], m[now], count) by {
            lemma_more_central(m[j], m[before], count);
            lemma_more_central(m[j], m[n - 1], count);
        }
        assert forall|j: int| 0 <= j < now implies outranks(m[now], #[trigger] m[j], count) by {
            lemma_more_central(m[j], m[before], count);
            lemma_more_central(m[before], m[j], count);
            lemma_more_central(m[n - 1], m[j], count);
        }
    } else {
        lemma_more_central(m[0], m[0], count);
    }
}

/// The running best of all nodes is the most critical node.
pub proof fn lemma_leader_is_most_critical(m: Seq<NodeView>, count: int)
    requires
        m.len() > 0,
        count > 1,
    ensures
        is_most_critical(m, leader(m, m.len(), count), count),
{
    lemma_leader_leads(m, m.len(), count);
}

/// A mapping has one most critical node only.
pub proof fn lemma_most_critical_unique(m: Seq<NodeView>, a: int, b: int, count: int)
    requires
        is_most_critical(m, a, count),
        is_most_critical(m, b, count),
    ensures
        a == b,
{
    if a < b {
        assert(outranks(m[b], m[a], count));
        assert(!outranks(m[b], m[a], count));
    } else if b < a {
        assert(outranks(m[a], m[b], count));
        assert(!outranks(m[a], m[b], count));
    }
}

/// A node of a well-formed mapping has fewer neighbours than the mapping
/// has nodes.
pub proof fn lemma_degree_bounded(m: Seq<NodeView>, i: int)
    requires
        well_formed(m),
        0 <= i < m.len(),
    ensures
        m[i].degree() <= m.len() - 1,
{
    let ids = m.map_values(|n: NodeView| n.census_tract);
    assert(ids.no_duplicates()) by {
        assert forall|a: int, b: int| 0 <= a < ids.len() && 0 <= b < ids.len() && a != b implies ids[a]
            != ids[b] by {
            assert(m[a].census_tract != m[b].census_tract);
        }
    }
    ids.unique_seq_to_set();
    m[i].edges.unique_seq_to_set();
    vstd::seq_lib::seq_to_set_is_finite(ids);
    let others = ids.to_set().remove(m[i].census_tract);
    assert(ids.to_set().contains(m[i].census_tract)) by {
        assert(ids[i] == m[i].census_tract);
    }
    assert(m[i].edges.to_set().subset_of(others)) by {
        assert forall|e: Seq<char>| m[i].edges.to_set().contains(e) implies others.contains(e) by {
            assert(m[i].edges.contains(e));
            assert(has_tract(m, e));
            let k = choose|k: int| 0 <= k < m.len() && (#[trigger] m[k]).census_tract == e;
            assert(ids[k] == e);
            assert(!joined(m, i, i));
        }
    }
    lemma_len_subset(m[i].edges.to_set(), others);
}

/// Where no fewer records were counted than the mapping has nodes, and two
/// at least, the degree centrality of every node lies between nought and
/// one.
pub proof fn lemma_centrality_bounds(m: Seq<NodeView>, count: int, i: int)
    requires
        well_formed(m),
        0 <= i < m.len(),
        count > 1,
        count >= m.len(),
    ensures
        0 <= m[i].degree() <= count - 1,
        count - 1 > 0,
{
    lemma_degree_bounded(m, i);
}

/// The result is a function of the records and their count alone: the same
/// records, loaded, joined and ranked against the same count, give the same
/// tract with the same score and centrality.
pub proof fn lemma_same_records_same_result(
    first: Seq<RecordView>,
    second: Seq<RecordView>,
    count: int,
)
    requires
        first == second,
    ensures
        ranked(inferred(built(first, first.len())), count) == ranked(
            inferred(built(second, second.len())),
            count,
        ),
{
}

/// The most critical tract of `nodes`, where `num_vertices` records were
/// read. The nodes are looked at in the mapping's order. The one with the
/// highest score is chosen and, among those, the one with the highest degree
/// centrality, which is a node's number of neighbours over `num_vertices - 1`;
/// among nodes equal in both, the first. The centrality is given as that
/// fraction.
///
/// A mapping without nodes gives `EmptyGraph`; otherwise a count below two
/// gives `InsufficientData`.
pub fn calculate_degree_centrality(nodes: &NodeMap, num_vertices: usize) -> (result: Result<
    RankedResult,
    RankError,
>)
    requires
        nodes.wf(),
    ensures
        match result {
            Ok(best) => {
                &&& nodes@.len() > 0
                &&& num_vertices > 1
                &&& best@ == ranked(nodes@, num_vertices as int)
                &&& is_most_critical(
                    nodes@,
                    leader(nodes@, nodes@.len(), num_vertices as int),
                    num_vertices as int,
                )
                &&& num_vertices >= nodes@.len() ==> best.degree_centrality.in_unit_interval()
            },
            Err(RankError::EmptyGraph) => nodes@.len() == 0,
            Err(RankError::InsufficientData) => nodes@.len() > 0 && num_vertices <= 1,
        },
{
    let all: &Vec<Node> = nodes.nodes();
    let ghost m = nodes@;
    assert(node_views(all@).len() == all@.len());
    if all.len() == 0 {
        return Err(RankError::EmptyGraph);
    }
    if num_vertices <= 1 {
        return Err(RankError::InsufficientData);
    }
    let mut best: usize = 0;
    let mut k: usize = 1;
    while k < all.len()
        invariant
            1 <= k <= all@.len(),
            m == node_views(all@),
            num_vertices > 1,
            best == leader(m, k as nat, num_vertices as int),
            0 <= best < k,
        decreases all@.len() - k,
    {
        let node: &Node = &all[k];
        let top: &Node = &all[best];
        assert(m[k as int] == node@);
        assert(m[best as int] == top@);
        assert(texts(node.edges@).len() == node.edges@.len());
        assert(texts(top.edges@).len() == top.edges@.len());
        proof {
            lemma_more_central(node@, top@, num_vertices as int);
        }
        if node.food_insecurity_score.ordinal > top.food_insecurity_score.ordinal || (
        node.food_insecurity_score.ordinal == top.food_insecurity_score.ordinal && node.edges.len()
            > top.edges.len()) {
            best = k;
        }
        k = k + 1;
    }
    let node: &Node = &all[best];
    proof {
        assert(m[best as int] == node@);
        assert(texts(node.edges@).len() == node.edges@.len());
        lemma_leader_is_most_critical(m, num_vertices as int);
        lemma_degree_bounded(m, best as int);
    }
    Ok(
        RankedResult {
            id: node.census_tract.clone(),
            region: node.county.clone(),
            composite_score: node.food_insecurity_score,
            degree_centrality: Centrality { degree: node.edges.len(), out_of: num_vertices - 1 },
        },
    )
}

} // verus!
