//! The mapping from a tract's identifier to its node.

use vstd::prelude::*;
use crate::node::{Node, NodeView};

verus! {

/// What each of a sequence of nodes holds.
pub open spec fn node_views(nodes: Seq<Node>) -> Seq<NodeView> {
    nodes.map_values(|n: Node| n@)
}

/// Whether one of the nodes of `m` is the tract `id`.
pub open spec fn has_tract(m: Seq<NodeView>, id: Seq<char>) -> bool {
    exists|k: int| 0 <= k < m.len() && (#[trigger] m[k]).census_tract == id
}

/// Where the tract `id` stands in `m`, if it is there.
pub open spec fn index_of(m: Seq<NodeView>, id: Seq<char>) -> int {
    choose|k: int| 0 <= k < m.len() && (#[trigger] m[k]).census_tract == id
}

/// Whether the node at `i` names the node at `j` among its edges.
pub open spec fn joined(m: Seq<NodeView>, i: int, j: int) -> bool {
    m[i].edges.contains(m[j].census_tract)
}

/// No two nodes of `m` are the same tract.
pub open spec fn distinct_tracts(m: Seq<NodeView>) -> bool {
    forall|i: int, j: int|
        0 <= i < m.len() && 0 <= j < m.len() && i != j ==> (#[trigger] m[i]).census_tract != (
        #[trigger] m[j]).census_tract
}

/// The nodes of `m` are distinct tracts, and their edges form an undirected
/// graph on them: a node names a neighbour once, never itself, only tracts of
/// `m`, and is named by each neighbour in turn.
pub open spec fn well_formed(m: Seq<NodeView>) -> bool {
    &&& distinct_tracts(m)
    &&& forall|i: int| 0 <= i < m.len() ==> (#[trigger] m[i]).edges.no_duplicates()
    &&& forall|i: int| 0 <= i < m.len() ==> !#[trigger] joined(m, i, i)
    &&& forall|i: int, e: Seq<char>|
        0 <= i < m.len() && #[trigger] m[i].edges.contains(e) ==> has_tract(m, e)
    &&& forall|i: int, j: int|
        0 <= i < m.len() && 0 <= j < m.len() ==> #[trigger] joined(m, i, j) == joined(m, j, i)
}

/// `m` after the node `n` has entered it. Where `m` holds the tract already,
/// `n` takes that node's place and its edges; otherwise `n` comes last, with
/// no edge.
pub open spec fn inserted(m: Seq<NodeView>, n: NodeView) -> Seq<NodeView> {
    if has_tract(m, n.census_tract) {
        let k = index_of(m, n.census_tract);
        m.update(k, n.with_edges(m[k].edges))
    } else {
        m.push(n.with_edges(Seq::empty()))
    }
}

/// Entering a node keeps a mapping well formed.
pub proof fn lemma_inserted_well_formed(m: Seq<NodeView>, n: NodeView)
    requires
        well_formed(m),
    ensures
        well_formed(inserted(m, n)),
{
    let r = inserted(m, n);
    if has_tract(m, n.census_tract) {
        let k = index_of(m, n.census_tract);
        assert forall|i: int| 0 <= i < r.len() implies (#[trigger] r[i]).census_tract
            == m[i].census_tract && r[i].edges == m[i].edges by {}
        assert forall|i: int, e: Seq<char>|
            0 <= i < r.len() && #[trigger] r[i].edges.contains(e) implies has_tract(r, e) by {
            assert(m[i].edges.contains(e));
            let w = index_of(m, e);
            assert(r[w].census_tract == e);
        }
        assert forall|i: int, j: int| 0 <= i < r.len() && 0 <= j < r.len() implies #[trigger] joined(
            r,
            i,
            j,
        ) == joined(r, j, i) by {
            assert(joined(r, i, j) == joined(m, i, j));
            assert(joined(r, j, i) == joined(m, j, i));
        }
        assert forall|i: int| 0 <= i < r.len() implies !#[trigger] joined(r, i, i) by {
            assert(joined(r, i, i) == joined(m, i, i));
        }
    } else {
        let last = m.len() as int;
        assert forall|i: int| 0 <= i < m.len() implies !(#[trigger] m[i]).edges.contains(
            n.census_tract,
        ) by {
            if m[i].edges.contains(n.census_tract) {
                assert(has_tract(m, n.census_tract));
            }
        }
        assert forall|i: int, e: Seq<char>|
            0 <= i < r.len() && #[trigger] r[i].edges.contains(e) implies has_tract(r, e) by {
            assert(i < last);
            assert(m[i].edges.contains(e));
            let w = index_of(m, e);
            assert(r[w].census_tract == e);
        }
        assert forall|i: int, j: int| 0 <= i < r.len() && 0 <= j < r.len() implies #[trigger] joined(
            r,
            i,
            j,
        ) == joined(r, j, i) by {
            if i < last && j < last {
                assert(joined(r, i, j) == joined(m, i, j));
                assert(joined(r, j, i) == joined(m, j, i));
            } else if i < last {
                assert(r[i] == m[i]);
            } else if j < last {
                assert(r[j] == m[j]);
            }
        }
        assert forall|i: int| 0 <= i < r.len() implies !#[trigger] joined(r, i, i) by {
            if i < last {
                assert(joined(r, i, i) == joined(m, i, i));
            }
        }
        assert forall|i: int| 0 <= i < r.len() implies (#[trigger] r[i]).edges.no_duplicates() by {
            if i < last {
                assert(r[i] == m[i]);
            }
        }
    }
}

/// The nodes of a graph, each under its tract's identifier, in the order in
/// which the tracts first entered.
pub struct NodeMap {
    nodes: Vec<Node>,
}

impl View for NodeMap {
    type V = Seq<NodeView>;

    closed spec fn view(&self) -> Seq<NodeView> {
        node_views(self.nodes@)
    }
}

impl NodeMap {
    /// Whether the mapping is well formed; every mapping that the library
    /// hands out is.
    pub open spec fn wf(&self) -> bool {
        well_formed(self@)
    }

    /// A mapping without nodes.
    pub fn new() -> (map: NodeMap)
        ensures
            map@ == Seq::<NodeView>::empty(),
            map.wf(),
    {
        let map = NodeMap { nodes: Vec::new() };
        assert(map@ =~= Seq::<NodeView>::empty());
        map
    }

    /// The number of nodes.
    pub fn len(&self) -> (n: usize)
        ensures
            n == self@.len(),
    {
        self.nodes.len()
    }

    /// The nodes, in the mapping's order.
    pub fn nodes(&self) -> (nodes: &Vec<Node>)
        ensures
            node_views(nodes@) == self@,
    {
        &self.nodes
    }

    /// The node of the tract `id`, if the mapping holds it.
    pub fn get(&self, id: &str) -> (found: Option<&Node>)
        ensures
            match found {
                Some(node) => node@.census_tract == id@ && self@.contains(node@),
                None => !has_tract(self@, id@),
            },
    {
        let key: String = id.to_owned();
        let mut i: usize = 0;
        while i < self.nodes.len()
            invariant
                i <= self.nodes.len(),
                key@ == id@,
                forall|k: int| 0 <= k < i ==> (#[trigger] self@[k]).census_tract != id@,
            decreases self.nodes.len() - i,
        {
            if self.nodes[i].census_tract == key {
                assert(self@[i as int] == self.nodes[i as int]@);
                return Some(&self.nodes[i]);
            }
            assert(self@[i as int] == self.nodes[i as int]@);
            i = i + 1;
        }
        None
    }

    /// Names the tract `id` last among the edges of the node at `i`.
    pub(crate) fn join(&mut self, i: usize, id: String)
        requires
            i < old(self)@.len(),
        ensures
            final(self)@ == old(self)@.update(
                i as int,
                old(self)@[i as int].with_edges(old(self)@[i as int].edges.push(id@)),
            ),
    {
        let ghost before = self.nodes@;
        self.nodes[i].edges.push(id);
        assert(self.nodes@[i as int].edges@.map_values(|s: String| s@)
            =~= before[i as int].edges@.map_values(|s: String| s@).push(id@));
        assert(self@ =~= old(self)@.update(
            i as int,
            old(self)@[i as int].with_edges(old(self)@[i as int].edges.push(id@)),
        ));
    }

    /// Enters `node` under its tract's identifier and says whether the
    /// mapping held that tract already. A new tract comes last and has no
    /// edge, whatever `node` carried; a tract that was there keeps its place
    /// and its edges and takes everything else from `node`.
    pub fn insert(&mut self, node: Node) -> (replaced: bool)
        requires
            old(self).wf(),
        ensures
            final(self)@ == inserted(old(self)@, node@),
            final(self).wf(),
            replaced == has_tract(old(self)@, node@.census_tract),
    {
        let ghost before = self@;
        let ghost entering = node@;
        let mut incoming = node;
        proof {
            lemma_inserted_well_formed(before, entering);
        }
        let mut i: usize = 0;
        while i < self.nodes.len()
            invariant
                i <= self.nodes.len(),
                before == old(self)@,
                entering == node@,
                self@ == before,
                incoming@ == entering,
                well_formed(before),
                well_formed(inserted(before, entering)),
                forall|k: int|
                    0 <= k < i ==> (#[trigger] before[k]).census_tract != entering.census_tract,
            decreases self.nodes.len() - i,
        {
            assert(self@[i as int] == self.nodes[i as int]@);
            if self.nodes[i].census_tract == incoming.census_tract {
                assert(before[i as int].census_tract == entering.census_tract);
                assert(has_tract(before, entering.census_tract));
                let ghost k = index_of(before, entering.census_tract);
                assert(before[k].census_tract == entering.census_tract);
                assert(k == i);
                std::mem::swap(&mut incoming.edges, &mut self.nodes[i].edges);
                self.nodes[i] = incoming;
                assert(self@ =~= inserted(before, entering));
                return true;
            }
            i = i + 1;
        }
        incoming.edges = Vec::new();
        self.nodes.push(incoming);
        assert(incoming@.edges =~= Seq::<Seq<char>>::empty());
        assert(self@ =~= inserted(before, entering));
        false
    }
}

} // verus!
