use vstd::prelude::*;
use std::collections::HashMap;

use crate::provide::{Direction, NodeId};
use crate::storage::adj_map::AdjMap;

verus! {

broadcast use vstd::std_specs::hash::group_hash_axioms;

/// Numbers the nodes of a graph from 0 ("virtual" ids) and maps each node ("real" id) to its
/// number and back.
pub trait IdMap: Sized {
    /// The nodes, at their virtual ids.
    spec fn spec_virt_to_real(&self) -> Seq<NodeId>;

    /// The numbering is consistent.
    spec fn spec_wf(&self) -> bool;

    /// # Returns
    /// The numbering of the nodes of `graph`, in the order the graph keeps them.
    fn new<Dir: Direction>(graph: &AdjMap<Dir>) -> (m: Self)
        requires
            graph.wf(),
        ensures
            m.spec_wf(),
            m.spec_virt_to_real() == graph.spec_node_seq().map_values(|k: usize| NodeId(k)),
    ;

    /// # Returns
    /// The virtual id of `node`, a node of the graph the map was made from.
    fn virt_id(&self, node: NodeId) -> (i: usize)
        requires
            self.spec_wf(),
            self.spec_virt_to_real().contains(node),
        ensures
            i < self.spec_virt_to_real().len(),
            self.spec_virt_to_real()[i as int] == node,
    ;

    /// # Returns
    /// The node at virtual id `virt`, which must be below the number of nodes.
    fn node_at(&self, virt: usize) -> (n: NodeId)
        requires
            virt < self.spec_virt_to_real().len(),
        ensures
            n == self.spec_virt_to_real()[virt as int],
    ;
}

/// The numbering of `IdMap`, with the map from node to number kept in a `HashMap`.
pub struct DefaultIdMap {
    real_to_virt: HashMap<usize, usize>,
    virt_to_real: Vec<NodeId>,
}

impl DefaultIdMap {
    /// The virtual id of each real id.
    pub closed spec fn spec_real_to_virt(&self) -> Map<usize, usize> {
        self.real_to_virt@
    }

    /// The two directions agree: nodes are numbered once each, and each node maps to its
    /// number.
    pub closed spec fn wf(&self) -> bool {
        let v2r = self.virt_to_real@;
        let r2v = self.spec_real_to_virt();
        &&& forall|i: int, j: int| 0 <= i < j < v2r.len() ==> v2r[i] != v2r[j]
        &&& forall|k: usize| #[trigger] r2v.contains_key(k) <==> v2r.contains(NodeId(k))
        &&& forall|i: int| 0 <= i < v2r.len() ==> r2v[#[trigger] v2r[i].0] == i
    }

}

impl IdMap for DefaultIdMap {
    closed spec fn spec_virt_to_real(&self) -> Seq<NodeId> {
        self.virt_to_real@
    }

    open spec fn spec_wf(&self) -> bool {
        self.wf()
    }

    fn new<Dir: Direction>(graph: &AdjMap<Dir>) -> (m: Self) {
        let virt_to_real = graph.nodes();
        let ghost v2r = virt_to_real@;
        proof {
            assert forall|i: int, j: int| 0 <= i < j < v2r.len() implies v2r[i] != v2r[j] by {
                assert(graph.spec_node_seq()[i] != graph.spec_node_seq()[j]);
            }
        }
        let mut real_to_virt: HashMap<usize, usize> = HashMap::new();
        let mut i: usize = 0;
        while i < virt_to_real.len()
            invariant
                i <= v2r.len(),
                virt_to_real@ == v2r,
                forall|a: int, b: int| 0 <= a < b < v2r.len() ==> v2r[a] != v2r[b],
                forall|k: usize| #[trigger] real_to_virt@.contains_key(k) <==> v2r.take(i as int).contains(NodeId(k)),
                forall|a: int| 0 <= a < i ==> real_to_virt@[#[trigger] v2r[a].0] == a,
            decreases v2r.len() - i,
        {
            let node = virt_to_real[i];
            real_to_virt.insert(node.0, i);
            proof {
                assert forall|k: usize| #[trigger] real_to_virt@.contains_key(k) <==> v2r.take(i + 1).contains(NodeId(k)) by {
                    if v2r.take(i + 1).contains(NodeId(k)) {
                        let a = choose|a: int| 0 <= a < i + 1 && #[trigger] v2r.take(i + 1)[a] == NodeId(k);
                        if a < i {
                            assert(v2r.take(i as int)[a] == NodeId(k));
                        }
                    }
                    if v2r.take(i as int).contains(NodeId(k)) {
                        let a = choose|a: int| 0 <= a < i && #[trigger] v2r.take(i as int)[a] == NodeId(k);
                        assert(v2r.take(i + 1)[a] == NodeId(k));
                    }
                    if k == node.0 {
                        assert(v2r.take(i + 1)[i as int] == NodeId(k));
                    }
                }
                assert forall|a: int| 0 <= a < i + 1 implies real_to_virt@[#[trigger] v2r[a].0] == a by {
                    if a < i {
                        assert(v2r[a] != v2r[i as int]);
                    }
                }
            }
            i = i + 1;
        }
        proof {
            assert(v2r.take(i as int) =~= v2r);
        }
        DefaultIdMap { real_to_virt, virt_to_real }
    }

    fn virt_id(&self, node: NodeId) -> (i: usize) {
        proof {
            let a = choose|a: int| 0 <= a < self.spec_virt_to_real().len() && self.spec_virt_to_real()[a] == node;
            assert(self.spec_real_to_virt()[self.spec_virt_to_real()[a].0] == a);
        }
        *self.real_to_virt.get(&node.0).unwrap()
    }

    fn node_at(&self, virt: usize) -> (n: NodeId) {
        self.virt_to_real[virt]
    }
}

/// The numbering is a bijection: the node at a node's virtual id is the node, and the virtual
/// id of the node at a virtual id is that id.
pub proof fn lemma_id_map_round_trip(m: &DefaultIdMap)
    requires
        m.wf(),
    ensures
        forall|i: int| 0 <= i < m.spec_virt_to_real().len() ==>
            m.spec_real_to_virt()[(#[trigger] m.spec_virt_to_real()[i]).0] == i,
        forall|k: usize| #[trigger] m.spec_real_to_virt().contains_key(k) ==>
            m.spec_virt_to_real()[m.spec_real_to_virt()[k] as int] == NodeId(k),
{
    let v2r = m.spec_virt_to_real();
    let r2v = m.spec_real_to_virt();
    assert forall|k: usize| #[trigger] r2v.contains_key(k) implies v2r[r2v[k] as int] == NodeId(k) by {
        let a = choose|a: int| 0 <= a < v2r.len() && v2r[a] == NodeId(k);
        assert(r2v[v2r[a].0] == a);
    }
}

} // verus!
