//! Whether a package graph can be ordered.

use super::builder::Error;
use super::topology;
use super::topology::Topology;
use super::{PackageGraph, WorkspaceNode};
use crate::dependency_graph;
use crate::name::NodeView;
use crate::reach;
use vstd::prelude::*;

verus! {

/// What keeps the nodes of a graph from being put in order.
#[derive(Debug, PartialEq, Eq)]
pub enum GraphError {
    /// Groups of more than one node in which every node depends on every other, directly or not.
    CyclicDependencies(Vec<Vec<WorkspaceNode>>),
    /// A node that depends directly on itself.
    SelfDependency(WorkspaceNode),
}

/// The nodes of a group.
pub open spec fn group_view(group: Seq<WorkspaceNode>) -> Seq<NodeView> {
    group.map_values(|node: WorkspaceNode| node@)
}

/// Whether a group holds `node` and whatever is entangled with it, nothing else, and nothing twice.
pub open spec fn is_group(topology: Topology, group: Seq<NodeView>, node: NodeView) -> bool {
    &&& group.no_duplicates()
    &&& forall|other: NodeView| #[trigger]
        group.contains(other) <==> other == node || topology.entangled(node, other)
}

/// Whether the groups are those of the entangled nodes: each group is that of any of its nodes, and
/// has more than one, and each entangled node has just one group.
pub open spec fn are_cycles(topology: Topology, groups: Seq<Vec<WorkspaceNode>>) -> bool {
    &&& forall|g: int| 0 <= g < groups.len() ==> (#[trigger] groups[g])@.len() > 1
    &&& forall|g: int, node: NodeView|
        0 <= g < groups.len() && #[trigger] group_view(groups[g]@).contains(node) ==> is_group(
            topology,
            group_view(groups[g]@),
            node,
        )
    &&& forall|a: NodeView, b: NodeView| #[trigger]
        topology.entangled(a, b) ==> exists|g: int|
            0 <= g < groups.len() && #[trigger] group_view(groups[g]@).contains(a)
    &&& forall|g: int, h: int, node: NodeView|
        0 <= g < groups.len() && 0 <= h < groups.len() && #[trigger] group_view(
            groups[g]@,
        ).contains(node) && #[trigger] group_view(groups[h]@).contains(node) ==> g == h
}

impl<PackageJson, PackageManager, L> PackageGraph<PackageJson, PackageManager, L> {
    /// Checks that no workspace depends on itself, directly or not. Cycles through more than one
    /// workspace are reported first, all of them; else the first workspace that depends directly on
    /// itself is.
    pub fn validate(&self) -> (result: Result<(), Error>)
        requires
            self.wf(),
        ensures
            match result {
                Ok(_) => {
                    &&& !self@.topology.has_cycle()
                    &&& forall|node: NodeView| !#[trigger] self@.topology.depends_on_itself(node)
                },
                Err(Error::InvalidPackageGraph(GraphError::CyclicDependencies(cycles))) => {
                    &&& self@.topology.has_cycle()
                    &&& are_cycles(self@.topology, cycles@)
                },
                Err(Error::InvalidPackageGraph(GraphError::SelfDependency(node))) => {
                    &&& !self@.topology.has_cycle()
                    &&& self@.topology.depends_on_itself(node@)
                    &&& exists|i: int|
                        {
                            &&& 0 <= i < topology::node_order(self@.order).len()
                            &&& #[trigger] topology::node_order(self@.order)[i] == node@
                            &&& forall|j: int|
                                0 <= j < i ==> !self@.topology.depends_on_itself(
                                    #[trigger] topology::node_order(self@.order)[j],
                                )
                        }
                },
                Err(_) => false,
            },
    {
        let cycles = self.cycles();
        if cycles.len() > 0 {
            proof {
                let group = cycles@[0]@;
                let view = group_view(group);
                assert(view[0] == group[0]@);
                assert(view[1] == group[1]@);
                assert(view.contains(view[0]));
                assert(view.contains(view[1]));
                assert(is_group(self@.topology, view, view[0]));
                assert(view[0] != view[1]);
                assert(self@.topology.entangled(view[0], view[1]));
            }
            return Err(Error::InvalidPackageGraph(GraphError::CyclicDependencies(cycles)));
        }
        proof {
            if self@.topology.has_cycle() {
                let (a, b) = choose|a: NodeView, b: NodeView| self@.topology.entangled(a, b);
                assert(self@.topology.entangled(a, b));
            }
        }
        match self.first_self_dependency() {
            Some(node) => Err(Error::InvalidPackageGraph(GraphError::SelfDependency(node))),
            None => Ok(()),
        }
    }

    /// The nodes at the given indices, in their order.
    spec fn views_at(self, indices: Seq<usize>) -> Seq<NodeView> {
        indices.map_values(|i: usize| self.nodes()[i as int])
    }

    /// Copies of the nodes at the given indices.
    fn nodes_of(&self, indices: &Vec<usize>) -> (nodes: Vec<WorkspaceNode>)
        requires
            self.wf(),
            forall|k: int| 0 <= k < indices@.len() ==> #[trigger] indices@[k] < self.nodes().len(),
        ensures
            group_view(nodes@) == self.views_at(indices@),
    {
        let mut nodes: Vec<WorkspaceNode> = Vec::new();
        let mut i: usize = 0;
        while i < indices.len()
            invariant
                self.wf(),
                forall|k: int|
                    0 <= k < indices@.len() ==> #[trigger] indices@[k] < self.nodes().len(),
                i <= indices@.len(),
                nodes@.len() == i,
                forall|k: int|
                    0 <= k < i ==> (#[trigger] nodes@[k])@ == self.nodes()[indices@[k] as int],
            decreases indices@.len() - i,
        {
            let node = dependency_graph::graph_node_weight(
                &self.workspace_graph,
                indices[i],
            ).unwrap();
            nodes.push(node.clone());
            i = i + 1;
        }
        assert(group_view(nodes@) =~= self.views_at(indices@));
        nodes
    }

    /// Whether some node depends directly on itself: the first of them.
    fn first_self_dependency(&self) -> (found: Option<WorkspaceNode>)
        requires
            self.wf(),
        ensures
            match found {
                Some(node) => exists|i: int|
                    {
                        &&& 0 <= i < topology::node_order(self@.order).len()
                        &&& #[trigger] topology::node_order(self@.order)[i] == node@
                        &&& self@.topology.depends_on_itself(node@)
                        &&& forall|j: int|
                            0 <= j < i ==> !self@.topology.depends_on_itself(
                                #[trigger] topology::node_order(self@.order)[j],
                            )
                    },
                None => forall|node: NodeView| !#[trigger] self@.topology.depends_on_itself(node),
            },
    {
        let ghost order = topology::node_order(self@.order);
        let len = self.node_lookup.len();
        proof {
            self.nodes().unique_seq_to_set();
        }
        let mut i: usize = 0;
        while i < len
            invariant
                self.wf(),
                order == self.nodes(),
                len == self.nodes().len(),
                i <= len,
                forall|j: int|
                    0 <= j < i ==> !self@.topology.depends_on_itself(#[trigger] order[j]),
            decreases len - i,
        {
            let node = dependency_graph::graph_node_weight(&self.workspace_graph, i).unwrap();
            assert(self.nodes().to_set().contains(node@));
            if self.immediate_dependencies(node).unwrap().contains(&node) {
                assert(topology::node_order(self@.order)[i as int] == node@);
                return Some(node.clone());
            }
            i = i + 1;
        }
        proof {
            assert forall|node: NodeView| !#[trigger] self@.topology.depends_on_itself(node) by {
                if self@.topology.depends_on_itself(node) {
                    self.wf_is_valid();
                    assert(self.nodes().to_set().contains(node));
                    let j = choose|j: int| 0 <= j < order.len() && order[j] == node;
                    assert(!self@.topology.depends_on_itself(order[j]));
                }
            }
        }
        None
    }

    /// The groups of entangled nodes.
    fn cycles(&self) -> (groups: Vec<Vec<WorkspaceNode>>)
        requires
            self.wf(),
        ensures
            are_cycles(self@.topology, groups@),
    {
        let components = dependency_graph::graph_tarjan_scc(&self.workspace_graph);
        let mut groups: Vec<Vec<WorkspaceNode>> = Vec::new();
        // `origins[g]` is the component that the group `g` was made of.
        let ghost mut origins: Seq<int> = Seq::empty();
        let mut c: usize = 0;
        while c < components.len()
            invariant
                self.wf(),
                c <= components@.len(),
                forall|index: usize| #[trigger]
                    dependency_graph::has_component(components@, index) <==> index
                        < self.nodes().len(),
                origins.len() == groups@.len(),
                forall|g: int|
                    0 <= g < origins.len() ==> {
                        &&& 0 <= #[trigger] origins[g] < c
                        &&& group_view(groups@[g]@) == self.views_at(components@[origins[g]]@)
                        &&& groups@[g]@.len() > 1
                    },
                forall|d: int|
                    0 <= d < c && (#[trigger] components@[d])@.len() > 1 ==> origins.contains(d),
                forall|g: int, h: int|
                    0 <= g < h < origins.len() ==> #[trigger] origins[g] < #[trigger] origins[h],
            decreases components@.len() - c,
        {
            let ghost before = origins;
            if components[c].len() > 1 {
                proof {
                    assert forall|k: int| 0 <= k < components@[c as int]@.len() implies
                        #[trigger] components@[c as int]@[k] < self.nodes().len() by {
                        let index = components@[c as int]@[k];
                        assert(components@[c as int]@.contains(index));
                        assert(dependency_graph::in_component(components@, c as int, index));
                        assert(dependency_graph::has_component(components@, index));
                    }
                }
                let group = self.nodes_of(&components[c]);
                assert(group_view(group@).len() == components@[c as int]@.len());
                groups.push(group);
                proof {
                    origins = origins.push(c as int);
                    assert forall|d: int|
                        0 <= d < c + 1 && (#[trigger] components@[d])@.len()
                            > 1 implies origins.contains(d) by {
                        if d < c {
                            let g = choose|g: int| 0 <= g < before.len() && before[g] == d;
                            assert(origins[g] == d);
                        } else {
                            assert(origins[before.len() as int] == d);
                        }
                    }
                }
            }
            c = c + 1;
        }
        proof {
            self.lemma_cycles(components@, groups@, origins);
        }
        groups
    }

    proof fn lemma_cycles(
        self,
        components: Seq<Vec<usize>>,
        groups: Seq<Vec<WorkspaceNode>>,
        origins: Seq<int>,
    )
        requires
            self.wf(),
            forall|index: usize| #[trigger]
                dependency_graph::has_component(components, index) <==> index < self.nodes().len(),
            forall|c: int| 0 <= c < components.len() ==> (#[trigger] components[c])@.no_duplicates(),
            forall|c: int, d: int, from: usize, to: usize| #[trigger]
                dependency_graph::in_component(components, c, from)
                    && #[trigger] dependency_graph::in_component(components, d, to) ==> (c == d <==> {
                    &&& reach::reaches(self.edges(), from, to)
                    &&& reach::reaches(self.edges(), to, from)
                }),
            origins.len() == groups.len(),
            forall|g: int|
                0 <= g < origins.len() ==> {
                    &&& 0 <= #[trigger] origins[g] < components.len()
                    &&& group_view(groups[g]@) == self.views_at(components[origins[g]]@)
                    &&& groups[g]@.len() > 1
                },
            forall|d: int|
                0 <= d < components.len() && (#[trigger] components[d])@.len() > 1
                    ==> origins.contains(d),
            forall|g: int, h: int|
                0 <= g < h < origins.len() ==> #[trigger] origins[g] < #[trigger] origins[h],
        ensures
            are_cycles(self@.topology, groups),
    {
        let topology = self@.topology;
        assert forall|g: int| 0 <= g < groups.len() implies (#[trigger] groups[g])@.len() > 1 by {
            assert(0 <= origins[g]);
        }
        assert forall|g: int, node: NodeView|
            0 <= g < groups.len() && #[trigger] group_view(groups[g]@).contains(
                node,
            ) implies is_group(topology, group_view(groups[g]@), node) by {
            let c = origins[g];
            let index = self.lemma_group_member(components, c, node);
            self.lemma_component(components, c, index);
        }
        assert forall|a: NodeView, b: NodeView| #[trigger]
            topology.entangled(a, b) implies exists|g: int|
            0 <= g < groups.len() && #[trigger] group_view(groups[g]@).contains(a) by {
            let i = self.lemma_index_of_entangled(a, b);
            assert(dependency_graph::has_component(components, i));
            let c = choose|c: int| dependency_graph::in_component(components, c, i);
            self.lemma_component(components, c, i);
            let view = self.views_at(components[c]@);
            assert(view.contains(a));
            assert(view.contains(b));
            let x = choose|x: int| 0 <= x < view.len() && view[x] == a;
            let y = choose|y: int| 0 <= y < view.len() && view[y] == b;
            assert(components[c]@.len() > 1);
            assert(origins.contains(c));
            let g = choose|g: int| 0 <= g < origins.len() && origins[g] == c;
            assert(group_view(groups[g]@).contains(a));
        }
        assert forall|g: int, h: int, node: NodeView|
            0 <= g < groups.len() && 0 <= h < groups.len() && #[trigger] group_view(
                groups[g]@,
            ).contains(node) && #[trigger] group_view(groups[h]@).contains(node) implies g == h by {
            let i = self.lemma_group_member(components, origins[g], node);
            let j = self.lemma_group_member(components, origins[h], node);
            assert(i == j);
            reach::reaches_reflexive(self.edges(), i);
            assert(origins[g] == origins[h]);
        }
    }

    /// A node of a component, by index.
    proof fn lemma_group_member(
        self,
        components: Seq<Vec<usize>>,
        c: int,
        node: NodeView,
    ) -> (index: usize)
        requires
            self.wf(),
            forall|index: usize| #[trigger]
                dependency_graph::has_component(components, index) <==> index < self.nodes().len(),
            0 <= c < components.len(),
            self.views_at(components[c]@).contains(node),
        ensures
            dependency_graph::in_component(components, c, index),
            index < self.nodes().len(),
            self.nodes()[index as int] == node,
    {
        let view = self.views_at(components[c]@);
        let k = choose|k: int| 0 <= k < view.len() && view[k] == node;
        let index = components[c]@[k];
        assert(components[c]@.contains(index));
        assert(dependency_graph::in_component(components, c, index));
        assert(dependency_graph::has_component(components, index));
        index
    }

    /// An entangled node, by index.
    proof fn lemma_index_of_entangled(self, a: NodeView, b: NodeView) -> (index: usize)
        requires
            self.wf(),
            self@.topology.entangled(a, b),
        ensures
            index < self.nodes().len(),
            self.nodes()[index as int] == a,
    {
        let via = reach::reaches_first_step(self@.topology.edges, a, b);
        let (i, j) = choose|i: usize, j: usize| #[trigger]
            self.edges().contains((i, j)) && self.nodes()[i as int] == a && self.nodes()[j as int]
                == via;
        i
    }

    /// A component is the group of any of its nodes.
    proof fn lemma_component(self, components: Seq<Vec<usize>>, c: int, index: usize)
        requires
            self.wf(),
            forall|index: usize| #[trigger]
                dependency_graph::has_component(components, index) <==> index < self.nodes().len(),
            forall|c: int| 0 <= c < components.len() ==> (#[trigger] components[c])@.no_duplicates(),
            forall|c: int, d: int, from: usize, to: usize| #[trigger]
                dependency_graph::in_component(components, c, from)
                    && #[trigger] dependency_graph::in_component(components, d, to) ==> (c == d <==> {
                    &&& reach::reaches(self.edges(), from, to)
                    &&& reach::reaches(self.edges(), to, from)
                }),
            dependency_graph::in_component(components, c, index),
        ensures
            is_group(
                self@.topology,
                self.views_at(components[c]@),
                self.nodes()[index as int],
            ),
    {
        let topology = self@.topology;
        let nodes = self.nodes();
        let view = self.views_at(components[c]@);
        let node = nodes[index as int];
        assert(dependency_graph::has_component(components, index));
        assert forall|other: NodeView| #[trigger] view.contains(other) implies other == node
            || topology.entangled(node, other) by {
            let i = self.lemma_group_member(components, c, other);
            reach::reaches_by_index(nodes, self.edges(), index, i);
            reach::reaches_by_index(nodes, self.edges(), i, index);
        }
        assert forall|other: NodeView|
            other == node || topology.entangled(node, other) implies #[trigger] view.contains(
            other,
        ) by {
            if other == node {
                let k = choose|k: int| 0 <= k < components[c]@.len() && components[c]@[k] == index;
                assert(view[k] == node);
            } else {
                let i = self.lemma_index_of_entangled(other, node);
                reach::reaches_by_index(nodes, self.edges(), index, i);
                reach::reaches_by_index(nodes, self.edges(), i, index);
                assert(dependency_graph::has_component(components, i));
                let d = choose|d: int| dependency_graph::in_component(components, d, i);
                assert(c == d);
                let k = choose|k: int| 0 <= k < components[c]@.len() && components[c]@[k] == i;
                assert(view[k] == other);
            }
        }
        assert forall|x: int, y: int| 0 <= x < view.len() && 0 <= y < view.len() && x != y implies view[x]
            != view[y] by {
            let i = components[c]@[x];
            let j = components[c]@[y];
            assert(components[c]@.contains(i));
            assert(components[c]@.contains(j));
            assert(dependency_graph::in_component(components, c, i));
            assert(dependency_graph::in_component(components, c, j));
            assert(dependency_graph::has_component(components, i));
            assert(dependency_graph::has_component(components, j));
        }
    }
}

} // verus!
