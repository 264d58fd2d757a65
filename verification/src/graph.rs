//! The call-graph snapshot the audit engine traverses.
//!
//! Nodes are owned, denormalized snapshots; edges are kept backward: for
//! each node, the internal indices of its callers, in insertion order. The
//! order in which callers are stored determines result ordering downstream
//! and is part of the contract.

use crate::symbols::NodeKind;
use crate::text::str_eq;
use vstd::prelude::*;

verus! {

/// Mathematical model of a [`NodeInfo`].
pub ghost struct NodeModel {
    pub id: Seq<char>,
    pub name: Seq<char>,
    pub file: Seq<char>,
    pub kind: NodeKind,
    pub line_start: int,
    pub line_end: int,
}

/// An owned, denormalized copy of a graph node, valid independent of
/// subsequent graph mutation.
#[derive(Debug)]
pub struct NodeInfo {
    /// Qualified id of the symbol.
    pub id: String,
    /// Display name of the symbol.
    pub name: String,
    /// Path of the source unit holding the symbol.
    pub file: String,
    /// What kind of definition the symbol is.
    pub kind: NodeKind,
    /// First line of the definition, 1-based.
    pub line_start: usize,
    /// Last line of the definition, 1-based.
    pub line_end: usize,
}

impl View for NodeInfo {
    type V = NodeModel;

    open spec fn view(&self) -> NodeModel {
        NodeModel {
            id: self.id@,
            name: self.name@,
            file: self.file@,
            kind: self.kind,
            line_start: self.line_start as int,
            line_end: self.line_end as int,
        }
    }
}

impl Clone for NodeInfo {
    fn clone(&self) -> (r: Self)
        ensures
            r@ == self@,
    {
        NodeInfo {
            id: self.id.clone(),
            name: self.name.clone(),
            file: self.file.clone(),
            kind: self.kind,
            line_start: self.line_start,
            line_end: self.line_end,
        }
    }
}

/// Mathematical model of a [`CallGraph`].
pub ghost struct GraphModel {
    pub nodes: Seq<NodeModel>,
    pub callers: Seq<Seq<usize>>,
}

/// The node snapshots of a sequence of records.
pub open spec fn node_views(s: Seq<NodeInfo>) -> Seq<NodeModel> {
    s.map_values(|n: NodeInfo| n@)
}

/// A read-only call-graph snapshot: node snapshots plus, per node, the
/// internal indices of its callers in insertion order.
pub struct CallGraph {
    nodes: Vec<NodeInfo>,
    callers: Vec<Vec<usize>>,
}

impl View for CallGraph {
    type V = GraphModel;

    closed spec fn view(&self) -> GraphModel {
        GraphModel {
            nodes: node_views(self.nodes@),
            callers: self.callers@.map_values(|v: Vec<usize>| v@),
        }
    }
}

/// A graph model is well formed when every node has a caller list and
/// every caller index is in range.
pub open spec fn graph_wf(g: GraphModel) -> bool {
    &&& g.callers.len() == g.nodes.len()
    &&& forall|i: int, j: int|
        0 <= i < g.callers.len() && 0 <= j < g.callers[i].len() ==> #[trigger] g.callers[i][j]
            < g.nodes.len()
}

/// The nodes whose name equals `name`, in index order.
pub open spec fn spec_find_by_name(nodes: Seq<NodeModel>, name: Seq<char>) -> Seq<NodeModel>
    decreases nodes.len(),
{
    if nodes.len() == 0 {
        Seq::empty()
    } else {
        spec_find_by_name(nodes.drop_last(), name) + (if nodes.last().name == name {
            seq![nodes.last()]
        } else {
            Seq::empty()
        })
    }
}

impl CallGraph {
    /// Whether the snapshot is well formed; construction keeps it so.
    pub open spec fn wf(&self) -> bool {
        graph_wf(self@)
    }

    /// An empty graph.
    pub fn new() -> (g: CallGraph)
        ensures
            g.wf(),
            g@.nodes.len() == 0,
    {
        let g = CallGraph { nodes: Vec::new(), callers: Vec::new() };
        proof {
            assert(g@.nodes =~= Seq::<NodeModel>::empty());
            assert(g@.callers =~= Seq::<Seq<usize>>::empty());
        }
        g
    }

    /// The number of nodes.
    pub fn len(&self) -> (n: usize)
        ensures
            n == self@.nodes.len(),
    {
        self.nodes.len()
    }

    /// Append a node with no callers yet; returns its internal index.
    pub fn add_node(&mut self, info: NodeInfo) -> (i: usize)
        requires
            old(self).wf(),
        ensures
            final(self).wf(),
            i == old(self)@.nodes.len(),
            final(self)@.nodes == old(self)@.nodes.push(info@),
            final(self)@.callers == old(self)@.callers.push(Seq::<usize>::empty()),
    {
        let i = self.nodes.len();
        self.nodes.push(info);
        self.callers.push(Vec::new());
        proof {
            assert(self@.nodes =~= old(self)@.nodes.push(self.nodes@.last()@));
            assert(self@.callers =~= old(self)@.callers.push(Seq::<usize>::empty()));
        }
        i
    }

    /// Record that node `caller` calls node `callee`. Returns false, and
    /// changes nothing, when either index is out of range.
    pub fn add_edge(&mut self, caller: usize, callee: usize) -> (ok: bool)
        requires
            old(self).wf(),
        ensures
            final(self).wf(),
            ok == (caller < old(self)@.nodes.len() && callee < old(self)@.nodes.len()),
            final(self)@.nodes == old(self)@.nodes,
            ok ==> final(self)@.callers == old(self)@.callers.update(
                callee as int,
                old(self)@.callers[callee as int].push(caller),
            ),
            !ok ==> final(self)@.callers == old(self)@.callers,
    {
        if caller < self.nodes.len() && callee < self.nodes.len() {
            let row = &mut self.callers[callee];
            row.push(caller);
            proof {
                assert(self@.nodes =~= old(self)@.nodes);
                assert(self@.callers =~= old(self)@.callers.update(
                    callee as int,
                    old(self)@.callers[callee as int].push(caller),
                ));
            }
            true
        } else {
            false
        }
    }

    /// Borrow the snapshot of node `i`.
    pub fn node_at(&self, i: usize) -> (n: &NodeInfo)
        requires
            i < self@.nodes.len(),
        ensures
            n@ == self@.nodes[i as int],
    {
        &self.nodes[i]
    }

    /// All nodes with the given name, as owned snapshots in index order.
    pub fn find_by_name(&self, name: &str) -> (r: Vec<NodeInfo>)
        ensures
            node_views(r@) == spec_find_by_name(self@.nodes, name@),
    {
        let mut out: Vec<NodeInfo> = Vec::new();
        let mut i: usize = 0;
        proof {
            assert(self@.nodes.take(0) =~= Seq::<NodeModel>::empty());
            assert(node_views(out@) =~= Seq::<NodeModel>::empty());
        }
        while i < self.nodes.len()
            invariant
                i <= self.nodes@.len(),
                self@.nodes.len() == self.nodes@.len(),
                node_views(out@) == spec_find_by_name(self@.nodes.take(i as int), name@),
            decreases self.nodes@.len() - i,
        {
            proof {
                assert(self@.nodes.take(i + 1).drop_last() =~= self@.nodes.take(i as int));
                assert(self@.nodes.take(i + 1).last() == self.nodes@[i as int]@);
            }
            if str_eq(self.nodes[i].name.as_str(), name) {
                out.push(self.nodes[i].clone());
                proof {
                    assert(node_views(out@) =~= spec_find_by_name(
                        self@.nodes.take(i + 1),
                        name@,
                    ));
                }
            } else {
                proof {
                    assert(node_views(out@) =~= spec_find_by_name(
                        self@.nodes.take(i + 1),
                        name@,
                    ));
                }
            }
            i += 1;
        }
        proof {
            assert(self@.nodes.take(self.nodes@.len() as int) =~= self@.nodes);
        }
        out
    }

    /// The internal index of the first node with the given id, if any.
    pub fn get_index(&self, id: &str) -> (r: Option<usize>)
        ensures
            match r {
                Some(i) => i < self@.nodes.len() && self@.nodes[i as int].id == id@ && forall|
                    j: int,
                |
                    0 <= j < i ==> (#[trigger] self@.nodes[j]).id != id@,
                None => forall|j: int|
                    0 <= j < self@.nodes.len() ==> (#[trigger] self@.nodes[j]).id != id@,
            },
    {
        let mut i: usize = 0;
        while i < self.nodes.len()
            invariant
                i <= self.nodes@.len(),
                self@.nodes.len() == self.nodes@.len(),
                forall|j: int| 0 <= j < i ==> (#[trigger] self@.nodes[j]).id != id@,
            decreases self.nodes@.len() - i,
        {
            if str_eq(self.nodes[i].id.as_str(), id) {
                return Some(i);
            }
            i += 1;
        }
        None
    }

    /// Borrow the caller indices of node `i`, in insertion order.
    pub fn callers_of(&self, i: usize) -> (r: &Vec<usize>)
        requires
            self.wf(),
            i < self@.nodes.len(),
        ensures
            r@ == self@.callers[i as int],
    {
        &self.callers[i]
    }
}

} // verus!
