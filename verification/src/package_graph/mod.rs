//! The package graph: which workspaces there are and how they depend on one another.

pub mod builder;
pub mod calls;
pub mod change_calls;
pub mod changes;
pub mod info;
pub mod laws;
pub mod package_calls;
pub mod packages;
pub mod queries;
pub mod topology;
pub mod validate;

pub use crate::name::{WorkspaceName, WorkspaceNode, ROOT_PKG_NAME};
pub use builder::{Error, PackageGraphBuilder};
pub use changes::ChangedPackagesError;
pub use info::WorkspaceInfo;
pub use validate::GraphError;

use crate::collections;
use crate::collections::{VecMap, VecSet};
use crate::dependency_graph;
use crate::dependency_graph::SearchEvent;
use crate::lockfile::ExternalDependencies;
use crate::name::{NameView, NodeView};
use crate::path;
use crate::path::AnchoredSystemPath;
use crate::reach;
use topology::Topology;
use vstd::prelude::*;

verus! {

/// The workspaces of a repository and the dependencies between them. The kind of package manager
/// and the lockfile are carried along.
#[derive(Debug)]
pub struct PackageGraph<PackageJson, PackageManager, L> {
    workspace_graph: petgraph::graph::Graph<WorkspaceNode, ()>,
    node_lookup: VecMap<WorkspaceNode, usize>,
    workspaces: VecMap<WorkspaceName, WorkspaceInfo<PackageJson>>,
    package_manager: PackageManager,
    lockfile: Option<L>,
}

/// What a [`PackageGraph`] is.
pub struct PackageGraphView<PackageJson, PackageManager, L> {
    pub topology: Topology,
    pub workspaces: Map<NameView, WorkspaceInfo<PackageJson>>,
    /// The workspaces in the order in which they were added.
    pub order: Seq<NameView>,
    pub package_manager: PackageManager,
    pub lockfile: Option<L>,
}

impl<PackageJson, PackageManager, L> PackageGraphView<PackageJson, PackageManager, L> {
    /// What holds of every package graph: there is a root workspace, the workspaces are in order,
    /// each has a node, and besides these there is the root node, which the root workspace depends
    /// on.
    pub open spec fn valid(self) -> bool {
        &&& self.topology.valid()
        &&& self.order.no_duplicates()
        &&& self.order.to_set() == self.workspaces.dom()
        &&& self.workspaces.contains_key(NameView::Root)
        &&& self.topology.nodes == topology::node_order(self.order).to_set()
        &&& self.topology.edges.contains(topology::root_edge())
        &&& has_valid_paths(self.workspaces)
    }
}

/// Whether the path of each workspace's `package.json` is one.
pub open spec fn has_valid_paths<PackageJson>(
    workspaces: Map<NameView, WorkspaceInfo<PackageJson>>,
) -> bool {
    forall|name: NameView| #[trigger]
        workspaces.contains_key(name) ==> path::is_path(workspaces[name].package_json_path@)
}

impl<PackageJson, PackageManager, L> View for PackageGraph<PackageJson, PackageManager, L> {
    type V = PackageGraphView<PackageJson, PackageManager, L>;

    closed spec fn view(&self) -> PackageGraphView<PackageJson, PackageManager, L> {
        PackageGraphView {
            topology: Topology {
                nodes: self.nodes().to_set(),
                edges: reach::edges_between(self.nodes(), self.edges()),
            },
            workspaces: self.workspaces@,
            order: self.workspaces.order(),
            package_manager: self.package_manager,
            lockfile: self.lockfile,
        }
    }
}

impl<PackageJson, PackageManager, L> PackageGraph<PackageJson, PackageManager, L> {
    spec fn nodes(self) -> Seq<NodeView> {
        dependency_graph::graph_nodes(self.workspace_graph)
    }

    spec fn edges(self) -> Set<(usize, usize)> {
        dependency_graph::graph_edges(self.workspace_graph).dom()
    }

    /// Whether the graph, the lookup of its nodes and the workspaces agree.
    pub closed spec fn wf(self) -> bool {
        &&& self.nodes() == topology::node_order(self.workspaces.order())
        &&& self.nodes().no_duplicates()
        &&& forall|i: usize, j: usize| #[trigger]
            self.edges().contains((i, j)) ==> i < self.nodes().len() && j < self.nodes().len()
        &&& self.node_lookup@.dom() == self.nodes().to_set()
        &&& forall|node: NodeView| #[trigger]
            self.node_lookup@.contains_key(node) ==> {
                &&& self.node_lookup@[node] < self.nodes().len()
                &&& self.nodes()[self.node_lookup@[node] as int] == node
            }
        &&& self.workspaces.order().no_duplicates()
        &&& self.workspaces.order().to_set() == self.workspaces@.dom()
        &&& self.workspaces@.contains_key(NameView::Root)
        &&& reach::edges_between(self.nodes(), self.edges()).contains(topology::root_edge())
        &&& has_valid_paths(self.workspaces@)
    }

    /// Every well-formed package graph is valid.
    pub proof fn wf_is_valid(self)
        requires
            self.wf(),
        ensures
            self@.valid(),
    {
        let topology = self@.topology;
        assert forall|from: NodeView, to: NodeView| #[trigger]
            topology.edges.contains((from, to)) implies topology.nodes.contains(from)
            && topology.nodes.contains(to) by {
            let (i, j) = choose|i: usize, j: usize| #[trigger]
                self.edges().contains((i, j)) && self.nodes()[i as int] == from
                    && self.nodes()[j as int] == to;
            assert(self.nodes().contains(from));
            assert(self.nodes().contains(to));
        }
    }

    /// Returns the number of workspaces in the repo *including* the root workspace.
    pub fn len(&self) -> (len: usize)
        ensures
            self@.workspaces.dom().finite(),
            len == self@.workspaces.len(),
    {
        self.workspaces.len()
    }

    /// Whether there is no workspace at all.
    pub fn is_empty(&self) -> (empty: bool)
        ensures
            empty == self@.workspaces.is_empty(),
    {
        let len = self.workspaces.len();
        proof {
            if len == 0 {
                assert(self@.order.to_set() =~= Set::empty());
            } else {
                assert(self@.order.to_set().contains(self@.order[0]));
            }
        }
        len == 0
    }

    /// The package manager that was given to the builder.
    pub fn package_manager(&self) -> (package_manager: &PackageManager)
        ensures
            *package_manager == self@.package_manager,
    {
        &self.package_manager
    }

    /// The lockfile that was given to the builder, if any.
    pub fn lockfile(&self) -> (lockfile: Option<&L>)
        ensures
            match lockfile {
                Some(lockfile) => self@.lockfile == Some(*lockfile),
                None => self@.lockfile is None,
            },
    {
        self.lockfile.as_ref()
    }

    /// What is known of a workspace.
    pub fn workspace_info(&self, workspace: &WorkspaceName) -> (info: Option<
        &WorkspaceInfo<PackageJson>,
    >)
        ensures
            match info {
                Some(info) => self@.workspaces.contains_key(workspace@) && *info
                    == self@.workspaces[workspace@],
                None => !self@.workspaces.contains_key(workspace@),
            },
    {
        self.workspaces.get(workspace)
    }

    /// The `package.json` of a workspace.
    pub fn package_json(&self, workspace: &WorkspaceName) -> (package_json: Option<&PackageJson>)
        ensures
            match package_json {
                Some(package_json) => self@.workspaces.contains_key(workspace@) && *package_json
                    == self@.workspaces[workspace@].package_json,
                None => !self@.workspaces.contains_key(workspace@),
            },
    {
        match self.workspaces.get(workspace) {
            Some(entry) => Some(&entry.package_json),
            None => None,
        }
    }

    /// The directory of a workspace: the parent of its `package.json`, or the root of the
    /// repository where that has no parent.
    pub fn workspace_dir(&self, workspace: &WorkspaceName) -> (dir: Option<AnchoredSystemPath<'_>>)
        ensures
            match dir {
                Some(dir) => {
                    let path = self@.workspaces[workspace@].package_json_path@;
                    &&& self@.workspaces.contains_key(workspace@)
                    &&& dir@ == if path.len() > 0 {
                        path.drop_last()
                    } else {
                        Seq::empty()
                    }
                },
                None => !self@.workspaces.contains_key(workspace@),
            },
    {
        match self.workspaces.get(workspace) {
            Some(entry) => match entry.package_json_path().parent() {
                Some(dir) => Some(dir),
                None => Some(AnchoredSystemPath::root()),
            },
            None => None,
        }
    }

    /// The workspaces with what is known of them, in the order in which they were added.
    pub fn workspaces(&self) -> (workspaces: Vec<(&WorkspaceName, &WorkspaceInfo<PackageJson>)>)
        ensures
            workspaces@.len() == self@.order.len(),
            forall|i: int|
                0 <= i < workspaces@.len() ==> {
                    &&& (#[trigger] workspaces@[i]).0@ == self@.order[i]
                    &&& *workspaces@[i].1 == self@.workspaces[self@.order[i]]
                },
    {
        let mut workspaces: Vec<(&WorkspaceName, &WorkspaceInfo<PackageJson>)> = Vec::new();
        let len = self.workspaces.len();
        let mut i: usize = 0;
        while i < len
            invariant
                len == self@.order.len(),
                i <= len,
                workspaces@.len() == i,
                forall|k: int|
                    0 <= k < i ==> {
                        &&& (#[trigger] workspaces@[k]).0@ == self@.order[k]
                        &&& *workspaces@[k].1 == self@.workspaces[self@.order[k]]
                    },
            decreases len - i,
        {
            workspaces.push(self.workspaces.entry(i));
            i = i + 1;
        }
        workspaces
    }

    /// The `package.json` of the root workspace.
    pub fn root_package_json(&self) -> (package_json: &PackageJson)
        requires
            self.wf(),
        ensures
            *package_json == self@.workspaces[NameView::Root].package_json,
    {
        self.package_json(&WorkspaceName::Root).expect(
            "package graph was built without root package.json",
        )
    }

    /// The external dependencies that a workspace asks for.
    pub fn external_dependencies(&self, workspace: &WorkspaceName) -> (dependencies: Option<
        &ExternalDependencies,
    >)
        ensures
            match dependencies {
                Some(dependencies) => self@.workspaces.contains_key(workspace@)
                    && self@.workspaces[workspace@].unresolved_external_dependencies == Some(
                    *dependencies,
                ),
                None => self@.workspaces.contains_key(workspace@)
                    ==> self@.workspaces[workspace@].unresolved_external_dependencies is None,
            },
    {
        match self.workspaces.get(workspace) {
            Some(entry) => entry.unresolved_external_dependencies.as_ref(),
            None => None,
        }
    }

    /// The nodes at the given indices.
    spec fn at(self, indices: Set<usize>) -> Set<NodeView> {
        reach::nodes_at(self.nodes(), indices)
    }

    /// The indices of those of `nodes` that are in the graph.
    fn indices_of(&self, nodes: &[&WorkspaceNode]) -> (indices: Vec<usize>)
        requires
            self.wf(),
        ensures
            forall|k: int| 0 <= k < indices@.len() ==> #[trigger] indices@[k] < self.nodes().len(),
            self.at(indices@.to_set()) == collections::view_set(nodes@).intersect(
                self@.topology.nodes,
            ),
    {
        let mut indices: Vec<usize> = Vec::new();
        let mut i: usize = 0;
        while i < nodes.len()
            invariant
                self.wf(),
                i <= nodes@.len(),
                forall|k: int|
                    0 <= k < indices@.len() ==> #[trigger] indices@[k] < self.nodes().len(),
                forall|node: NodeView| #[trigger]
                    self.at(indices@.to_set()).contains(node) <==> {
                        &&& self.nodes().contains(node)
                        &&& exists|k: int| 0 <= k < i && (#[trigger] nodes@[k])@ == node
                    },
            decreases nodes@.len() - i,
        {
            let ghost before = indices@;
            let ghost current = nodes@[i as int]@;
            match self.node_lookup.get(nodes[i]) {
                Some(index) => {
                    indices.push(*index);
                    proof {
                        assert(before.push(*index).to_set() =~= before.to_set().insert(*index)) by {
                            assert(before.push(*index).last() == *index);
                            assert forall|k: usize| before.to_set().contains(k) implies before.push(
                                *index,
                            ).to_set().contains(k) by {
                                let at = choose|at: int| 0 <= at < before.len() && before[at] == k;
                                assert(before.push(*index)[at] == k);
                            }
                        }
                        assert(indices@.to_set().contains(*index));
                        assert(self.nodes()[*index as int] == current);
                        assert forall|node: NodeView| self.at(before.to_set()).contains(node) || node
                            == current implies #[trigger] self.at(indices@.to_set()).contains(
                            node,
                        ) by {
                            if node != current {
                                let k = choose|k: usize| #[trigger]
                                    before.to_set().contains(k) && self.nodes()[k as int] == node;
                                assert(indices@.to_set().contains(k));
                            }
                        }
                        assert forall|node: NodeView| #[trigger]
                            self.at(indices@.to_set()).contains(node) implies self.at(
                            before.to_set(),
                        ).contains(node) || node == current by {
                            let k = choose|k: usize| #[trigger]
                                indices@.to_set().contains(k) && self.nodes()[k as int] == node;
                            if k != *index {
                                assert(before.to_set().contains(k));
                            }
                        }
                        assert(self.nodes().contains(current));
                    }
                },
                None => {
                    proof {
                        assert(!self.nodes().to_set().contains(current));
                    }
                },
            }
            i = i + 1;
        }
        proof {
            assert(self.at(indices@.to_set()) =~= collections::view_set(nodes@).intersect(
                self@.topology.nodes,
            ));
        }
        indices
    }

    fn transitive_closure_inner<'a>(
        &'a self,
        nodes: &[&WorkspaceNode],
        direction: petgraph::Direction,
    ) -> (visited: VecSet<&'a WorkspaceNode>)
        requires
            self.wf(),
        ensures
            visited@ == match direction {
                petgraph::Direction::Outgoing => self@.topology.closure(
                    collections::view_set(nodes@),
                ),
                petgraph::Direction::Incoming => self@.topology.reversed().closure(
                    collections::view_set(nodes@),
                ),
            },
    {
        let indices = self.indices_of(nodes);
        let ghost starts = indices@.to_set();
        let ghost edges = match direction {
            petgraph::Direction::Outgoing => self.edges(),
            petgraph::Direction::Incoming => reach::reversed(self.edges()),
        };
        let events = match direction {
            petgraph::Direction::Outgoing => dependency_graph::search_outgoing(
                &self.workspace_graph,
                &indices,
            ),
            petgraph::Direction::Incoming => dependency_graph::search_incoming(
                &self.workspace_graph,
                &indices,
            ),
        };
        let ghost found = reach::reachable(edges, starts);
        proof {
            reach::reversed_by_index(self.nodes(), self.edges());
            reach::reachable_by_index(self.nodes(), edges, starts);
        }
        let mut visited: VecSet<&'a WorkspaceNode> = VecSet::new();
        let mut i: usize = 0;
        while i < events.len()
            invariant
                self.wf(),
                i <= events@.len(),
                found == dependency_graph::discovered(events@),
                forall|index: usize| #[trigger] found.contains(index) ==> index < self.nodes().len(),
                visited@ == self.at(dependency_graph::discovered(events@.take(i as int))),
            decreases events@.len() - i,
        {
            proof {
                self.lemma_discovered(events@, i as int);
            }
            if let SearchEvent::Discover(index, _time) = events[i] {
                assert(found.contains(index));
                let node = dependency_graph::graph_node_weight(&self.workspace_graph, index).expect(
                    "node index found during dfs doesn't exist",
                );
                visited.insert(node);
            }
            i = i + 1;
        }
        proof {
            assert(events@.take(i as int) =~= events@);
        }
        visited
    }

    proof fn lemma_discovered(self, events: Seq<SearchEvent>, i: int)
        requires
            0 <= i < events.len(),
        ensures
            self.at(dependency_graph::discovered(events.take(i + 1))) == (match events[i] {
                SearchEvent::Discover(index, _) => self.at(
                    dependency_graph::discovered(events.take(i)),
                ).insert(self.nodes()[index as int]),
                _ => self.at(dependency_graph::discovered(events.take(i))),
            }),
    {
        let fewer = events.take(i);
        let more = events.take(i + 1);
        let before = dependency_graph::discovered(fewer);
        let after = dependency_graph::discovered(more);
        assert forall|index: usize| before.contains(index) implies after.contains(index) by {
            let k = choose|k: int|
                0 <= k < fewer.len() && (#[trigger] fewer[k] matches SearchEvent::Discover(node, _)
                    && node == index);
            assert(more[k] == fewer[k]);
        }
        assert forall|index: usize| after.contains(index) implies before.contains(index) || (
        events[i] matches SearchEvent::Discover(node, _) && node == index) by {
            let k = choose|k: int|
                0 <= k < more.len() && (#[trigger] more[k] matches SearchEvent::Discover(node, _)
                    && node == index);
            if k < i {
                assert(fewer[k] == more[k]);
            }
        }
        if let SearchEvent::Discover(index, _) = events[i] {
            assert(more[i] == events[i]);
            assert(after.contains(index));
            assert(after =~= before.insert(index));
            let expected = self.at(before).insert(self.nodes()[index as int]);
            assert forall|node: NodeView| expected.contains(node) implies self.at(after).contains(
                node,
            ) by {
                if self.at(before).contains(node) {
                    let k = choose|k: usize| #[trigger]
                        before.contains(k) && self.nodes()[k as int] == node;
                    assert(after.contains(k));
                }
            }
            assert forall|node: NodeView| self.at(after).contains(node) implies expected.contains(
                node,
            ) by {
                let k = choose|k: usize| #[trigger]
                    after.contains(k) && self.nodes()[k as int] == node;
                if k != index {
                    assert(before.contains(k));
                }
            }
            assert(self.at(after) =~= expected);
        } else {
            assert(after =~= before);
        }
    }
}

} // verus!
