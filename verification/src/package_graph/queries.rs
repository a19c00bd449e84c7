//! What depends on what.

use super::{PackageGraph, WorkspaceNode};
use crate::name::NodeView;
use crate::collections;
use crate::collections::VecSet;
use crate::dependency_graph;
use crate::reach;
use vstd::prelude::*;

verus! {

impl<PackageJson, PackageManager, L> PackageGraph<PackageJson, PackageManager, L> {
    /// Removes every dependency between workspaces: only the edges to the root node stay.
    pub fn remove_workspace_dependencies(&mut self)
        requires
            old(self).wf(),
        ensures
            final(self).wf(),
            final(self)@.topology == old(self)@.topology.without_workspace_dependencies(),
            final(self)@.workspaces == old(self)@.workspaces,
            final(self)@.order == old(self)@.order,
            final(self)@.package_manager == old(self)@.package_manager,
            final(self)@.lockfile == old(self)@.lockfile,
    {
        let root_node = WorkspaceNode::Root;
        proof {
            self.lemma_has_root();
        }
        let root_index = *self.node_lookup.get(&root_node).expect(
            "graph should have root workspace node",
        );
        dependency_graph::graph_retain_edges(&mut self.workspace_graph, root_index);
        proof {
            let kept = self.edges();
            let all = old(self).edges();
            assert forall|i: usize, j: usize| #[trigger]
                kept.contains((i, j)) <==> all.contains((i, j)) && j == root_index by {
                assert(dependency_graph::leads_to(Some((i, j)), root_index) <==> j == root_index);
                assert(dependency_graph::graph_edges(self.workspace_graph).count((i, j)) >= 0);
            }
            self.lemma_kept(*old(self), root_index);
        }
    }

    proof fn lemma_has_root(self)
        requires
            self.wf(),
        ensures
            self.node_lookup@.contains_key(NodeView::Root),
    {
        assert(self.nodes()[0] == NodeView::Root);
        assert(self.nodes().to_set().contains(NodeView::Root));
    }

    proof fn lemma_kept(self, before: Self, root: usize)
        requires
            before.wf(),
            self.nodes() == before.nodes(),
            root < self.nodes().len(),
            self.nodes()[root as int] == NodeView::Root,
            forall|i: usize, j: usize| #[trigger]
                self.edges().contains((i, j)) <==> before.edges().contains((i, j)) && j == root,
        ensures
            self@.topology == before@.topology.without_workspace_dependencies(),
    {
        let kept = reach::edges_between(self.nodes(), self.edges());
        let expected = before@.topology.without_workspace_dependencies();
        assert forall|edge: (NodeView, NodeView)|
            kept.contains(edge) implies expected.edges.contains(edge) by {
            let (i, j) = choose|i: usize, j: usize| #[trigger]
                self.edges().contains((i, j)) && self.nodes()[i as int] == edge.0
                    && self.nodes()[j as int] == edge.1;
            assert(before.edges().contains((i, j)));
        }
        assert forall|edge: (NodeView, NodeView)|
            expected.edges.contains(edge) implies kept.contains(edge) by {
            let (i, j) = choose|i: usize, j: usize| #[trigger]
                before.edges().contains((i, j)) && before.nodes()[i as int] == edge.0
                    && before.nodes()[j as int] == edge.1;
            assert(self.edges().contains((i, j)));
        }
        assert(self@.topology =~= expected);
    }

    fn neighbors<'a>(
        &'a self,
        workspace: &WorkspaceNode,
        direction: petgraph::Direction,
    ) -> (neighbors: Option<VecSet<&'a WorkspaceNode>>)
        requires
            self.wf(),
        ensures
            neighbors is Some <==> self@.topology.nodes.contains(workspace@),
            neighbors matches Some(found) ==> found@ == match direction {
                petgraph::Direction::Outgoing => self@.topology.immediate_dependencies(workspace@),
                petgraph::Direction::Incoming => self@.topology.immediate_ancestors(workspace@),
            },
    {
        let index = match self.node_lookup.get(workspace) {
            Some(index) => *index,
            None => {
                return None;
            },
        };
        let indices = dependency_graph::graph_neighbors_directed(
            &self.workspace_graph,
            index,
            direction,
        );
        let ghost edges = match direction {
            petgraph::Direction::Outgoing => self.edges(),
            petgraph::Direction::Incoming => reach::reversed(self.edges()),
        };
        proof {
            broadcast use vstd::seq_lib::group_to_multiset_ensures;

            assert forall|other: usize| indices@.contains(other) <==> #[trigger] edges.contains(
                (index, other),
            ) by {
                assert(indices@.to_multiset().count(other) >= 0);
            }
            assert forall|other: usize| indices@.contains(other) implies other
                < self.nodes().len() by {
                assert(edges.contains((index, other)));
                match direction {
                    petgraph::Direction::Outgoing => assert(self.edges().contains((index, other))),
                    petgraph::Direction::Incoming => assert(self.edges().contains((other, index))),
                }
            }
        }
        let mut found: VecSet<&'a WorkspaceNode> = VecSet::new();
        let mut i: usize = 0;
        while i < indices.len()
            invariant
                self.wf(),
                i <= indices@.len(),
                forall|other: usize|
                    indices@.contains(other) ==> other < self.nodes().len(),
                forall|node: NodeView| #[trigger]
                    found@.contains(node) <==> exists|k: int|
                        0 <= k < i && self.nodes()[#[trigger] indices@[k] as int] == node,
            decreases indices@.len() - i,
        {
            let ghost before = found@;
            assert(indices@.contains(indices@[i as int]));
            let node = dependency_graph::graph_node_weight(&self.workspace_graph, indices[i]).expect(
                "node index from neighbors should be present",
            );
            found.insert(node);
            proof {
                assert forall|node: NodeView| #[trigger]
                    found@.contains(node) implies exists|k: int|
                    0 <= k < i + 1 && self.nodes()[#[trigger] indices@[k] as int] == node by {
                    if before.contains(node) {
                    } else {
                        assert(self.nodes()[indices@[i as int] as int] == node);
                    }
                }
            }
            i = i + 1;
        }
        proof {
            let expected = match direction {
                petgraph::Direction::Outgoing => self@.topology.immediate_dependencies(workspace@),
                petgraph::Direction::Incoming => self@.topology.immediate_ancestors(workspace@),
            };
            assert forall|node: NodeView| found@.contains(
                node,
            ) implies expected.contains(node) by {
                let k = choose|k: int|
                    0 <= k < indices@.len() && self.nodes()[#[trigger] indices@[k] as int] == node;
                assert(indices@.contains(indices@[k]));
                assert(edges.contains((index, indices@[k])));
                if direction == petgraph::Direction::Outgoing {
                    assert(self.edges().contains((index, indices@[k])));
                } else {
                    assert(self.edges().contains((indices@[k], index)));
                }
            }
            assert forall|node: NodeView| expected.contains(
                node,
            ) implies found@.contains(node) by {
                let (a, b) = match direction {
                    petgraph::Direction::Outgoing => (workspace@, node),
                    petgraph::Direction::Incoming => (node, workspace@),
                };
                let (x, y) = choose|x: usize, y: usize| #[trigger]
                    self.edges().contains((x, y)) && self.nodes()[x as int] == a
                        && self.nodes()[y as int] == b;
                let other = match direction {
                    petgraph::Direction::Outgoing => y,
                    petgraph::Direction::Incoming => x,
                };
                assert(edges.contains((index, other)));
                assert(indices@.contains(other));
                let k = choose|k: int| 0 <= k < indices@.len() && indices@[k] == other;
                assert(self.nodes()[indices@[k] as int] == node);
            }
            assert(found@ =~= expected);
        }
        Some(found)
    }

    /// Gets all the nodes that this one directly depends on, that is to say those to which
    /// `workspace` has an edge. There is no answer for a node that is not in the graph.
    ///
    /// Example:
    ///
    /// a -> b -> c
    ///
    /// immediate_dependencies(a) -> {b}
    pub fn immediate_dependencies<'a>(
        &'a self,
        workspace: &WorkspaceNode,
    ) -> (dependencies: Option<VecSet<&'a WorkspaceNode>>)
        requires
            self.wf(),
        ensures
            dependencies is Some <==> self@.topology.nodes.contains(workspace@),
            dependencies matches Some(found) ==> found@ == self@.topology.immediate_dependencies(
                workspace@,
            ),
    {
        self.neighbors(workspace, petgraph::Direction::Outgoing)
    }

    /// Gets all the nodes that directly depend on this one, that is to say have an edge to
    /// `workspace`. There is no answer for a node that is not in the graph.
    ///
    /// Example:
    ///
    /// a -> b -> c
    ///
    /// immediate_ancestors(c) -> {b}
    pub fn immediate_ancestors<'a>(
        &'a self,
        workspace: &WorkspaceNode,
    ) -> (ancestors: Option<VecSet<&'a WorkspaceNode>>)
        requires
            self.wf(),
        ensures
            ancestors is Some <==> self@.topology.nodes.contains(workspace@),
            ancestors matches Some(found) ==> found@ == self@.topology.immediate_ancestors(
                workspace@,
            ),
    {
        self.neighbors(workspace, petgraph::Direction::Incoming)
    }

    /// For a given workspace in the repo, returns the set of workspaces that this one depends on,
    /// excluding those that are unresolved.
    ///
    /// Example:
    ///
    /// a -> b -> c (external)
    ///
    /// dependencies(a) = {b, c}
    pub fn dependencies<'a>(&'a self, node: &WorkspaceNode) -> (dependencies: VecSet<
        &'a WorkspaceNode,
    >)
        requires
            self.wf(),
        ensures
            dependencies@ == self@.topology.dependencies(node@),
    {
        let mut dependencies = self.transitive_closure_inner(
            &[node],
            petgraph::Direction::Outgoing,
        );
        proof {
            collections::view_set_singleton(seq![node]);
        }
        dependencies.remove_ref(node);
        dependencies
    }

    /// For a given workspace in the repo, returns the set of workspaces that depend on this one,
    /// excluding those that are unresolved.
    ///
    /// Example:
    ///
    /// a -> b -> c (external)
    ///
    /// ancestors(c) = {a, b}
    pub fn ancestors<'a>(&'a self, node: &WorkspaceNode) -> (ancestors: VecSet<&'a WorkspaceNode>)
        requires
            self.wf(),
        ensures
            ancestors@ == self@.topology.ancestors(node@),
    {
        let mut dependents = self.transitive_closure_inner(&[node], petgraph::Direction::Incoming);
        proof {
            collections::view_set_singleton(seq![node]);
        }
        dependents.remove_ref(node);
        dependents
    }

    /// Returns the transitive closure of the given nodes in the workspace graph. Note that this
    /// includes the nodes themselves. If you want just the dependencies, or the dependents, use
    /// `dependencies` or `ancestors`. Alternatively, if you need just direct dependents, use
    /// `immediate_ancestors`.
    pub fn transitive_closure<'a>(&'a self, nodes: &[&WorkspaceNode]) -> (closure: VecSet<
        &'a WorkspaceNode,
    >)
        requires
            self.wf(),
        ensures
            closure@ == self@.topology.closure(collections::view_set(nodes@)),
    {
        self.transitive_closure_inner(nodes, petgraph::Direction::Outgoing)
    }
}

} // verus!
