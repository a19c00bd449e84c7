//! The shape of a package graph: its nodes and which depends on which.

use crate::name::{NameView, NodeView};
use crate::reach;
use vstd::prelude::*;

verus! {

/// The nodes of a package graph, and its edges, each from a node to one that it depends on.
#[verifier::ext_equal]
pub struct Topology {
    pub nodes: Set<NodeView>,
    pub edges: Set<(NodeView, NodeView)>,
}

impl Topology {
    /// Whether every edge joins nodes of the graph.
    pub open spec fn valid(self) -> bool {
        forall|from: NodeView, to: NodeView| #[trigger]
            self.edges.contains((from, to)) ==> self.nodes.contains(from) && self.nodes.contains(to)
    }

    /// The graph with its edges turned round.
    pub open spec fn reversed(self) -> Topology {
        Topology { nodes: self.nodes, edges: reach::reversed(self.edges) }
    }

    /// What is reached by following dependencies from those of `starts` that are in the graph.
    /// They reach themselves.
    pub open spec fn closure(self, starts: Set<NodeView>) -> Set<NodeView> {
        reach::reachable(self.edges, starts.intersect(self.nodes))
    }

    /// What `node` depends on, directly or not, without `node` itself.
    pub open spec fn dependencies(self, node: NodeView) -> Set<NodeView> {
        self.closure(set![node]).remove(node)
    }

    /// What depends on `node`, directly or not, without `node` itself.
    pub open spec fn ancestors(self, node: NodeView) -> Set<NodeView> {
        self.reversed().closure(set![node]).remove(node)
    }

    /// What `node` depends on directly.
    pub open spec fn immediate_dependencies(self, node: NodeView) -> Set<NodeView> {
        Set::new(|other: NodeView| self.edges.contains((node, other)))
    }

    /// What depends directly on `node`.
    pub open spec fn immediate_ancestors(self, node: NodeView) -> Set<NodeView> {
        Set::new(|other: NodeView| self.edges.contains((other, node)))
    }

    /// The graph with those edges only that lead to the root node.
    pub open spec fn without_workspace_dependencies(self) -> Topology {
        Topology {
            nodes: self.nodes,
            edges: Set::new(
                |edge: (NodeView, NodeView)| self.edges.contains(edge) && edge.1 == NodeView::Root,
            ),
        }
    }

    /// Whether two different nodes depend on each other, directly or not.
    pub open spec fn entangled(self, a: NodeView, b: NodeView) -> bool {
        a != b && reach::reaches(self.edges, a, b) && reach::reaches(self.edges, b, a)
    }

    /// Whether the graph has a cycle through more than one node.
    pub open spec fn has_cycle(self) -> bool {
        exists|a: NodeView, b: NodeView| self.entangled(a, b)
    }

    /// Whether `node` depends directly on itself.
    pub open spec fn depends_on_itself(self, node: NodeView) -> bool {
        self.edges.contains((node, node))
    }
}

/// The nodes of a package graph in order: the root node, then the workspaces.
pub open spec fn node_order(order: Seq<NameView>) -> Seq<NodeView> {
    seq![NodeView::Root] + order.map_values(|name: NameView| NodeView::Workspace(name))
}

/// The edge from the root workspace to the root node.
pub open spec fn root_edge() -> (NodeView, NodeView) {
    (NodeView::Workspace(NameView::Root), NodeView::Root)
}

/// Where no workspace occurs twice, no node does.
pub proof fn node_order_distinct(order: Seq<NameView>)
    requires
        order.no_duplicates(),
    ensures
        node_order(order).no_duplicates(),
{
    let nodes = node_order(order);
    assert forall|i: int, j: int|
        0 <= i < nodes.len() && 0 <= j < nodes.len() && i != j implies nodes[i] != nodes[j] by {
        if i > 0 && j > 0 {
            assert(order[i - 1] != order[j - 1]);
        }
    }
}

} // verus!
