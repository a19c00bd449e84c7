//! Putting a package graph together.

use super::changes;
use super::packages;
use super::packages::NamedPackage;
use super::topology;
use super::topology::Topology;
use super::validate::GraphError;
use super::{PackageGraph, PackageGraphView, WorkspaceInfo, WorkspaceName, WorkspaceNode};
use crate::collections::{VecMap, VecSet};
use crate::dependency_graph;
use crate::lockfile;
use crate::lockfile::{ExternalDependencies, Lockfile, Package};
use crate::name::{NameView, NodeView};
use crate::path::AnchoredSystemPathBuf;
use crate::reach;
use vstd::prelude::*;

verus! {

/// Why a package graph is refused.
#[derive(Debug, PartialEq, Eq)]
pub enum Error {
    /// The dependencies cannot be put in order.
    InvalidPackageGraph(GraphError),
    /// A dependency starts or ends at a node that is not in the graph.
    UnknownNode(WorkspaceNode),
}

/// The parts of a package graph to be. There is always a root workspace among them, which depends on
/// the root node.
#[derive(Debug)]
pub struct PackageGraphBuilder<PackageJson, PackageManager, L> {
    workspaces: VecMap<WorkspaceName, WorkspaceInfo<PackageJson>>,
    dependencies: Vec<(WorkspaceNode, WorkspaceNode)>,
    package_manager: PackageManager,
    lockfile: Option<L>,
}

/// What a [`PackageGraphBuilder`] is.
pub struct BuilderView<PackageJson, PackageManager, L> {
    pub workspaces: Map<NameView, WorkspaceInfo<PackageJson>>,
    /// The workspaces in the order in which they were added.
    pub order: Seq<NameView>,
    /// The dependencies, each from a node to one that it depends on.
    pub dependencies: Seq<(NodeView, NodeView)>,
    pub package_manager: PackageManager,
    pub lockfile: Option<L>,
}

impl<PackageJson, PackageManager, L> BuilderView<PackageJson, PackageManager, L> {
    /// The nodes of the graph to be: the root node and the workspaces.
    pub open spec fn nodes(self) -> Set<NodeView> {
        topology::node_order(self.order).to_set()
    }

    /// Whether a dependency joins nodes of the graph to be.
    pub open spec fn is_known(self, dependency: (NodeView, NodeView)) -> bool {
        self.nodes().contains(dependency.0) && self.nodes().contains(dependency.1)
    }

    /// The package graph that has the parts.
    pub open spec fn graph(self) -> PackageGraphView<PackageJson, PackageManager, L> {
        PackageGraphView {
            topology: Topology { nodes: self.nodes(), edges: self.dependencies.to_set() },
            workspaces: self.workspaces,
            order: self.order,
            package_manager: self.package_manager,
            lockfile: self.lockfile,
        }
    }

    /// Whether `after` has the same parts but for the packages that each workspace depends on,
    /// directly or not, which are those that `closures` has for its path.
    pub open spec fn is_resolved(
        self,
        after: Self,
        closures: Map<Seq<char>, VecSet<Package>>,
    ) -> bool {
        &&& after.order == self.order
        &&& after.dependencies == self.dependencies
        &&& after.package_manager == self.package_manager
        &&& after.lockfile == self.lockfile
        &&& after.workspaces.dom() == self.workspaces.dom()
        &&& forall|name: NameView| #[trigger]
            self.workspaces.contains_key(name) ==> is_resolved_info(
                self.workspaces[name],
                after.workspaces[name],
                closures,
            )
    }
}

/// Whether `after` says the same of a workspace as `info` but for the packages that it depends on,
/// directly or not, which are those that `closures` has for its path.
pub open spec fn is_resolved_info<PackageJson>(
    info: WorkspaceInfo<PackageJson>,
    after: WorkspaceInfo<PackageJson>,
    closures: Map<Seq<char>, VecSet<Package>>,
) -> bool {
    &&& after.package_json == info.package_json
    &&& after.package_json_path == info.package_json_path
    &&& after.unresolved_external_dependencies == info.unresolved_external_dependencies
    &&& after.packages() == if closures.contains_key(info.unix_path()) {
        Some(closures[info.unix_path()]@)
    } else {
        None
    }
}

impl<PackageJson, PackageManager, L> View for PackageGraphBuilder<PackageJson, PackageManager, L> {
    type V = BuilderView<PackageJson, PackageManager, L>;

    closed spec fn view(&self) -> BuilderView<PackageJson, PackageManager, L> {
        BuilderView {
            workspaces: self.workspaces@,
            order: self.workspaces.order(),
            dependencies: packages::edge_views(self.dependencies@),
            package_manager: self.package_manager,
            lockfile: self.lockfile,
        }
    }
}

impl<PackageJson, PackageManager, L> PackageGraph<PackageJson, PackageManager, L> {
    /// A builder of package graphs, with a root workspace whose `package.json` lies at the root of
    /// the repository, and which depends on the root node.
    pub fn builder(
        root_package_json: PackageJson,
        package_manager: PackageManager,
    ) -> (builder: PackageGraphBuilder<PackageJson, PackageManager, L>)
        ensures
            builder@.order == seq![NameView::Root],
            builder@.workspaces.dom() == set![NameView::Root],
            builder@.workspaces[NameView::Root].package_json == root_package_json,
            builder@.workspaces[NameView::Root].package_json_path@ == seq!["package.json"@],
            builder@.workspaces[NameView::Root].unresolved_external_dependencies is None,
            builder@.workspaces[NameView::Root].transitive_dependencies is None,
            builder@.dependencies == seq![topology::root_edge()],
            builder@.package_manager == package_manager,
            builder@.lockfile is None,
    {
        let mut segments: Vec<String> = Vec::new();
        segments.push("package.json".to_owned());
        proof {
            reveal_strlit("package.json");
            assert(segments@.map_values(|segment: String| segment@) =~= seq!["package.json"@]);
        }
        let info = WorkspaceInfo {
            package_json: root_package_json,
            package_json_path: AnchoredSystemPathBuf::new(segments),
            unresolved_external_dependencies: None,
            transitive_dependencies: None,
        };
        let mut workspaces: VecMap<WorkspaceName, WorkspaceInfo<PackageJson>> = VecMap::new();
        workspaces.insert(WorkspaceName::Root, info);
        let mut dependencies: Vec<(WorkspaceNode, WorkspaceNode)> = Vec::new();
        dependencies.push((WorkspaceNode::Workspace(WorkspaceName::Root), WorkspaceNode::Root));
        proof {
            let edges = packages::edge_views(dependencies@);
            assert(edges =~= seq![topology::root_edge()]);
            assert(edges[0] == topology::root_edge());
            assert(workspaces.order() =~= seq![NameView::Root]);
            assert(workspaces@.dom() =~= set![NameView::Root]);
        }
        PackageGraphBuilder { workspaces, dependencies, package_manager, lockfile: None }
    }
}

impl<PackageJson, PackageManager, L> PackageGraphBuilder<PackageJson, PackageManager, L> {
    #[verifier::type_invariant]
    closed spec fn has_root(self) -> bool {
        &&& self.workspaces@.contains_key(NameView::Root)
        &&& packages::edge_views(self.dependencies@).contains(topology::root_edge())
        &&& super::has_valid_paths(self.workspaces@)
    }

    /// Adds a workspace. What was known of a workspace of that name is replaced.
    pub fn with_workspace(self, name: WorkspaceName, info: WorkspaceInfo<PackageJson>) -> (builder:
        Self)
        ensures
            builder@.workspaces == self@.workspaces.insert(name@, info),
            builder@.order == if self@.workspaces.contains_key(name@) {
                self@.order
            } else {
                self@.order.push(name@)
            },
            builder@.dependencies == self@.dependencies,
            builder@.package_manager == self@.package_manager,
            builder@.lockfile == self@.lockfile,
    {
        proof {
            use_type_invariant(&self);
            use_type_invariant(&info.package_json_path);
        }
        let mut workspaces = self.workspaces;
        workspaces.insert(name, info);
        PackageGraphBuilder {
            workspaces,
            dependencies: self.dependencies,
            package_manager: self.package_manager,
            lockfile: self.lockfile,
        }
    }

    /// Adds a dependency of one node on another.
    pub fn with_dependency(self, from: WorkspaceNode, to: WorkspaceNode) -> (builder: Self)
        ensures
            builder@.workspaces == self@.workspaces,
            builder@.order == self@.order,
            builder@.dependencies == self@.dependencies.push((from@, to@)),
            builder@.package_manager == self@.package_manager,
            builder@.lockfile == self@.lockfile,
    {
        proof {
            use_type_invariant(&self);
        }
        let ghost before = self@.dependencies;
        let mut dependencies = self.dependencies;
        dependencies.push((from, to));
        proof {
            let after = packages::edge_views(dependencies@);
            assert(after =~= before.push((from@, to@)));
            let i = choose|i: int| 0 <= i < before.len() && before[i] == topology::root_edge();
            assert(after[i] == topology::root_edge());
        }
        PackageGraphBuilder {
            workspaces: self.workspaces,
            dependencies,
            package_manager: self.package_manager,
            lockfile: self.lockfile,
        }
    }

    /// Adds packages. What was known of a workspace of the name of one is replaced; of several of the
    /// same name, the last one counts. Each package depends on those of the packages that its
    /// dependencies name, and where they name none, on the root node. The other dependencies are
    /// external ones.
    pub fn with_packages(self, packages: Vec<NamedPackage<PackageJson>>) -> (builder: Self)
        ensures
            ({
                let names = packages::package_names(packages@);
                &&& builder@.dependencies == self@.dependencies + packages::all_edges(
                    names.to_set(),
                    packages@,
                )
                &&& builder@.order == packages::order_with(self@.order, names)
                &&& builder@.workspaces.dom() == self@.workspaces.dom().union(names.to_set())
                &&& forall|name: NameView|
                    self@.workspaces.contains_key(name) && !names.contains(name)
                        ==> #[trigger] builder@.workspaces[name] == self@.workspaces[name]
                &&& forall|i: int| #[trigger]
                    packages::is_last(names, i) ==> packages::is_split(
                        names.to_set(),
                        packages@[i],
                        builder@.workspaces[names[i]],
                    )
            }),
            builder@.package_manager == self@.package_manager,
            builder@.lockfile == self@.lockfile,
            forall|i: int|
                0 <= i < packages@.len() ==> (#[trigger] packages@[i]).2.order().to_set()
                    == packages@[i].2@.dom(),
            self@.order.to_set() == self@.workspaces.dom(),
    {
        let names = packages::name_set(&packages);
        let ghost before = self@;
        let ghost all = packages@;
        proof {
            use_type_invariant(&self);
            use_type_invariant(&self.workspaces);
            self.workspaces.order_has_keys();
        }
        let mut workspaces = self.workspaces;
        let mut dependencies = self.dependencies;
        proof {
            let first = all.take(0);
            assert(packages::edge_views(dependencies@) =~= before.dependencies
                + packages::all_edges(names@, first));
            assert(packages::package_names(first).to_set() =~= Set::empty());
            assert(workspaces@.dom() =~= before.workspaces.dom().union(
                packages::package_names(first).to_set(),
            ));
        }
        for package in iter: packages
            invariant
                iter.seq() == all,
                names@ == packages::package_names(all).to_set(),
                super::has_valid_paths(workspaces@),
                added(before, names@, all.take(iter.index() as int), workspaces, dependencies@),
                forall|i: int|
                    0 <= i < iter.index() ==> (#[trigger] all[i]).2.order().to_set()
                        == all[i].2@.dom(),
        {
            let (name, info, named) = package;
            let (mut edges, external) = packages::split_dependencies(&names, &name, &named);
            let ghost fewer = all.take(iter.index() as int);
            let ghost more = all.take(iter.index() + 1);
            let ghost (workspaces_before, dependencies_before) = (workspaces, dependencies@);
            let ghost new_edges = edges@;
            proof {
                use_type_invariant(&info.package_json_path);
                use_type_invariant(&workspaces);
                workspaces.order_has_keys();
            }
            dependencies.append(&mut edges);
            let split = WorkspaceInfo {
                package_json: info.package_json,
                package_json_path: info.package_json_path,
                unresolved_external_dependencies: Some(external),
                transitive_dependencies: info.transitive_dependencies,
            };
            workspaces.insert(name, split);
            proof {
                assert(more =~= fewer.push(package));
                assert(packages::edge_views(dependencies@) =~= packages::edge_views(
                    dependencies_before,
                ) + packages::edge_views(new_edges));
                lemma_added(
                    before,
                    names@,
                    fewer,
                    package,
                    workspaces_before,
                    dependencies_before,
                    workspaces,
                    dependencies@,
                );
            }
        }
        proof {
            assert(all.take(all.len() as int) =~= all);
            let after = packages::edge_views(dependencies@);
            let i = choose|i: int|
                0 <= i < before.dependencies.len() && before.dependencies[i]
                    == topology::root_edge();
            assert(after[i] == topology::root_edge());
        }
        PackageGraphBuilder {
            workspaces,
            dependencies,
            package_manager: self.package_manager,
            lockfile: self.lockfile,
        }
    }

    /// Sets the lockfile.
    pub fn with_lockfile(self, lockfile: Option<L>) -> (builder: Self)
        ensures
            builder@.workspaces == self@.workspaces,
            builder@.order == self@.order,
            builder@.dependencies == self@.dependencies,
            builder@.package_manager == self@.package_manager,
            builder@.lockfile == lockfile,
    {
        proof {
            use_type_invariant(&self);
        }
        PackageGraphBuilder {
            workspaces: self.workspaces,
            dependencies: self.dependencies,
            package_manager: self.package_manager,
            lockfile,
        }
    }

    /// Sets the packages that each workspace depends on, directly or not, given by path.
    pub fn with_closures(self, closures: &VecMap<String, VecSet<Package>>) -> (builder: Self)
        requires
            self@.graph().has_package_paths(),
        ensures
            self@.is_resolved(builder@, closures@),
    {
        let ghost before = self@;
        proof {
            use_type_invariant(&self);
        }
        let ghost order = self@.order;
        let entries = self.workspaces.into_entries();
        let ghost all = entries@;
        let mut workspaces: VecMap<WorkspaceName, WorkspaceInfo<PackageJson>> = VecMap::new();
        assert(workspaces.order() =~= order.take(0));
        for entry in iter: entries
            invariant
                iter.seq() == all,
                order == before.order,
                order.no_duplicates(),
                order.to_set() == before.workspaces.dom(),
                all.len() == order.len(),
                forall|i: int|
                    0 <= i < all.len() ==> (#[trigger] all[i]).0@ == order[i] && all[i].1
                        == before.workspaces[order[i]],
                before.graph().has_package_paths(),
                super::has_valid_paths(before.workspaces),
                workspaces.order() == order.take(iter.index() as int),
                workspaces@.dom() == order.take(iter.index() as int).to_set(),
                forall|name: NameView| #[trigger]
                    workspaces@.contains_key(name) ==> before.workspaces.contains_key(name)
                        && is_resolved_info(before.workspaces[name], workspaces@[name], closures@),
        {
            let (name, info) = entry;
            let ghost i = iter.index() as int;
            proof {
                assert(all[i] == entry);
                assert(order.to_set().contains(order[i]));
                assert(before.graph().workspaces.contains_key(order[i]));
                assert(!order.take(i).contains(order[i]));
                assert(order.take(i + 1) =~= order.take(i).push(order[i]));
                assert(order.take(i + 1).to_set() =~= order.take(i).to_set().insert(order[i])) by {
                    lemma_take_one_more(order, i);
                }
            }
            let path = info.package_path().to_unix();
            let packages = match closures.get(&path) {
                Some(packages) => Some(packages.clone()),
                None => None,
            };
            let resolved = WorkspaceInfo {
                package_json: info.package_json,
                package_json_path: info.package_json_path,
                unresolved_external_dependencies: info.unresolved_external_dependencies,
                transitive_dependencies: packages,
            };
            workspaces.insert(name, resolved);
        }
        assert(order.take(order.len() as int) =~= order);
        PackageGraphBuilder {
            workspaces,
            dependencies: self.dependencies,
            package_manager: self.package_manager,
            lockfile: self.lockfile,
        }
    }

    /// Puts the package graph together. A dependency that does not join nodes of the graph is
    /// refused; the first one counts.
    pub fn build(self) -> (result: Result<PackageGraph<PackageJson, PackageManager, L>, Error>)
        requires
            self@.order.len() < u32::MAX,
            self@.dependencies.len() <= u32::MAX,
        ensures
            self@.order.to_set() == self@.workspaces.dom(),
            match result {
                Ok(graph) => {
                    &&& graph.wf()
                    &&& graph@ == self@.graph()
                    &&& forall|i: int|
                        0 <= i < self@.dependencies.len() ==> self@.is_known(
                            #[trigger] self@.dependencies[i],
                        )
                },
                Err(Error::UnknownNode(node)) => exists|i: int|
                    {
                        let dependency = #[trigger] self@.dependencies[i];
                        &&& 0 <= i < self@.dependencies.len()
                        &&& !self@.is_known(dependency)
                        &&& forall|j: int|
                            0 <= j < i ==> self@.is_known(#[trigger] self@.dependencies[j])
                        &&& node@ == if self@.nodes().contains(dependency.0) {
                            dependency.1
                        } else {
                            dependency.0
                        }
                    },
                Err(_) => false,
            },
    {
        let (mut graph, lookup) = node_graph(&self.workspaces);
        let ghost nodes = topology::node_order(self@.order);
        let ghost none = reach::edges_between(
            nodes,
            dependency_graph::graph_edges(graph).dom(),
        );
        proof {
            use_type_invariant(&self);
            topology::node_order_distinct(self@.order);
            assert(self@.dependencies.take(0).to_set() =~= none);
        }
        let mut i: usize = 0;
        while i < self.dependencies.len()
            invariant
                self@.order.to_set() == self@.workspaces.dom(),
                self@.dependencies.len() <= u32::MAX,
                nodes == topology::node_order(self@.order),
                nodes.no_duplicates(),
                i <= self.dependencies@.len(),
                dependency_graph::graph_nodes(graph) == nodes,
                is_lookup(nodes, lookup@),
                dependency_graph::graph_edges(graph).len() == i,
                forall|a: usize, b: usize| #[trigger]
                    dependency_graph::graph_edges(graph).dom().contains((a, b)) ==> a < nodes.len()
                        && b < nodes.len(),
                reach::edges_between(nodes, dependency_graph::graph_edges(graph).dom())
                    == self@.dependencies.take(i as int).to_set(),
                forall|j: int|
                    0 <= j < i ==> self@.is_known(#[trigger] self@.dependencies[j]),
            decreases self.dependencies@.len() - i,
        {
            let dependency = &self.dependencies[i];
            let ghost view = self@.dependencies[i as int];
            assert(view == packages::edge_view(*dependency));
            let from = match lookup.get(&dependency.0) {
                Some(index) => *index,
                None => {
                    assert(!self@.is_known(self@.dependencies[i as int]));
                    return Err(Error::UnknownNode(dependency.0.clone()));
                },
            };
            let to = match lookup.get(&dependency.1) {
                Some(index) => *index,
                None => {
                    assert(!self@.is_known(self@.dependencies[i as int]));
                    return Err(Error::UnknownNode(dependency.1.clone()));
                },
            };
            let ghost before = dependency_graph::graph_edges(graph);
            dependency_graph::graph_add_edge(&mut graph, from, to);
            proof {
                lemma_add_edge(nodes, before, from, to);
                lemma_take_one_more(self@.dependencies, i as int);
            }
            i = i + 1;
        }
        proof {
            assert(self@.dependencies.take(i as int) =~= self@.dependencies);
            assert(self@.dependencies.to_set().contains(topology::root_edge()));
        }
        let graph = PackageGraph {
            workspace_graph: graph,
            node_lookup: lookup,
            workspaces: self.workspaces,
            package_manager: self.package_manager,
            lockfile: self.lockfile,
        };
        assert(graph@.topology =~= self@.graph().topology);
        Ok(graph)
    }
}

impl<PackageJson, PackageManager, L: Lockfile> PackageGraphBuilder<PackageJson, PackageManager, L> {
    /// Whether `result` is what comes of resolving the dependencies of the workspaces: the lockfile
    /// was asked for the closures of those that are requested.
    pub open spec fn is_answer(self, lockfile: L, result: Result<Self, L::Error>) -> bool {
        exists|
            requested: VecMap<String, ExternalDependencies>,
            closures: Result<VecMap<String, VecSet<Package>>, L::Error>,
        |
            {
                &&& lockfile::versions_by_path(requested) == self@.graph().requested()
                &&& #[trigger] call_ensures(
                    L::all_transitive_closures,
                    (&lockfile, requested),
                    closures,
                )
                &&& match closures {
                    Ok(closures) => result is Ok && self@.is_resolved(
                        result->Ok_0@,
                        closures@,
                    ),
                    Err(error) => result == Err::<Self, _>(error),
                }
            }
    }

    /// Asks the lockfile, where there is one, which packages each workspace depends on, directly or
    /// not. Without one nothing changes.
    pub fn resolve(self) -> (result: Result<Self, L::Error>)
        requires
            self@.lockfile is Some ==> self@.graph().has_package_paths(),
        ensures
            self@.order.to_set() == self@.workspaces.dom(),
            self@.lockfile is None ==> result == Ok::<_, L::Error>(self),
            self@.lockfile matches Some(lockfile) ==> self.is_answer(lockfile, result),
    {
        proof {
            use_type_invariant(&self.workspaces);
            self.workspaces.order_has_keys();
            assert forall|name: NameView|
                self@.lockfile is Some && #[trigger] self.workspaces@.contains_key(
                    name,
                ) implies self.workspaces@[name].has_package_path() by {
                assert(self@.graph().workspaces.contains_key(name));
            }
        }
        let closures = match &self.lockfile {
            Some(lockfile) => lockfile.all_transitive_closures(
                changes::requested_of(&self.workspaces),
            ),
            None => {
                return Ok(self);
            },
        };
        match closures {
            Ok(closures) => Ok(self.with_closures(&closures)),
            Err(error) => Err(error),
        }
    }
}

/// Whether `workspaces` and `dependencies` are those of a builder once the given packages are added,
/// where dependencies are on the packages with the given names.
spec fn added<PackageJson, PackageManager, L>(
    before: BuilderView<PackageJson, PackageManager, L>,
    all_names: Set<NameView>,
    packages: Seq<NamedPackage<PackageJson>>,
    workspaces: VecMap<WorkspaceName, WorkspaceInfo<PackageJson>>,
    dependencies: Seq<(WorkspaceNode, WorkspaceNode)>,
) -> bool {
    let names = packages::package_names(packages);
    &&& packages::edge_views(dependencies) == before.dependencies + packages::all_edges(
        all_names,
        packages,
    )
    &&& workspaces.order() == packages::order_with(before.order, names)
    &&& workspaces@.dom() == before.workspaces.dom().union(names.to_set())
    &&& forall|name: NameView|
        before.workspaces.contains_key(name) && !names.contains(name)
            ==> #[trigger] workspaces@[name] == before.workspaces[name]
    &&& forall|i: int| #[trigger]
        packages::is_last(names, i) ==> packages::is_split(
            all_names,
            packages[i],
            workspaces@[names[i]],
        )
}

proof fn lemma_added<PackageJson, PackageManager, L>(
    before: BuilderView<PackageJson, PackageManager, L>,
    all_names: Set<NameView>,
    packages: Seq<NamedPackage<PackageJson>>,
    package: NamedPackage<PackageJson>,
    workspaces: VecMap<WorkspaceName, WorkspaceInfo<PackageJson>>,
    dependencies: Seq<(WorkspaceNode, WorkspaceNode)>,
    more_workspaces: VecMap<WorkspaceName, WorkspaceInfo<PackageJson>>,
    more_dependencies: Seq<(WorkspaceNode, WorkspaceNode)>,
)
    requires
        added(before, all_names, packages, workspaces, dependencies),
        workspaces.order().to_set() == workspaces@.dom(),
        more_workspaces.order() == if workspaces@.contains_key(package.0@) {
            workspaces.order()
        } else {
            workspaces.order().push(package.0@)
        },
        more_workspaces@ == workspaces@.insert(package.0@, more_workspaces@[package.0@]),
        packages::is_split(all_names, package, more_workspaces@[package.0@]),
        packages::edge_views(more_dependencies) == packages::edge_views(dependencies)
            + packages::package_edges(all_names, package.0@, package.2.order()),
    ensures
        added(before, all_names, packages.push(package), more_workspaces, more_dependencies),
{
    let more = packages.push(package);
    let names = packages::package_names(packages);
    let more_names = packages::package_names(more);
    assert(more.drop_last() =~= packages);
    assert(more_names =~= names.push(package.0@));
    assert(more_names.drop_last() =~= names);
    assert(packages::edge_views(more_dependencies) =~= before.dependencies + packages::all_edges(
        all_names,
        more,
    ));
    assert(workspaces.order().contains(package.0@) <==> workspaces.order().to_set().contains(
        package.0@,
    ));
    assert forall|name: NameView| more_names.contains(name) <==> names.contains(name) || name
        == package.0@ by {
        if names.contains(name) {
            let k = choose|k: int| 0 <= k < names.len() && names[k] == name;
            assert(more_names[k] == name);
        }
        assert(more_names[names.len() as int] == package.0@);
    }
    assert(more_workspaces@.dom() =~= before.workspaces.dom().union(more_names.to_set()));
    assert forall|i: int| #[trigger] packages::is_last(more_names, i) implies packages::is_split(
        all_names,
        more[i],
        more_workspaces@[more_names[i]],
    ) by {
        if i < names.len() {
            assert(more_names[names.len() as int] != more_names[i]);
            assert forall|j: int| i < j < names.len() implies #[trigger] names[j] != names[i] by {
                assert(more_names[j] != more_names[i]);
            }
            assert(packages::is_last(names, i));
        }
    }
}

/// Whether a map gives each node its index.
pub open spec fn is_lookup(nodes: Seq<NodeView>, lookup: Map<NodeView, usize>) -> bool {
    &&& lookup.dom() == nodes.to_set()
    &&& forall|node: NodeView| #[trigger]
        lookup.contains_key(node) ==> lookup[node] < nodes.len() && nodes[lookup[node] as int]
            == node
}

/// The graph of the root node and the workspaces, without edges, and where each node is.
fn node_graph<V>(workspaces: &VecMap<WorkspaceName, V>) -> (graph: (
    petgraph::graph::Graph<WorkspaceNode, ()>,
    VecMap<WorkspaceNode, usize>,
))
    requires
        workspaces.order().len() < u32::MAX,
    ensures
        workspaces.order().no_duplicates(),
        workspaces.order().to_set() == workspaces@.dom(),
        dependency_graph::graph_nodes(graph.0) == topology::node_order(workspaces.order()),
        dependency_graph::graph_edges(graph.0).len() == 0,
        is_lookup(topology::node_order(workspaces.order()), graph.1@),
{
    let mut graph = dependency_graph::graph_new();
    let mut lookup: VecMap<WorkspaceNode, usize> = VecMap::new();
    let ghost order = workspaces.order();
    let index = dependency_graph::graph_add_node(&mut graph, WorkspaceNode::Root);
    lookup.insert(WorkspaceNode::Root, index);
    let len = workspaces.len();
    let mut i: usize = 0;
    proof {
        assert(dependency_graph::graph_nodes(graph) =~= topology::node_order(order.take(0)));
        lemma_lookup_push(Seq::empty(), Map::empty(), NodeView::Root);
    }
    while i < len
        invariant
            order == workspaces.order(),
            order.no_duplicates(),
            len == order.len(),
            len < u32::MAX,
            i <= len,
            dependency_graph::graph_nodes(graph) == topology::node_order(order.take(i as int)),
            dependency_graph::graph_edges(graph).len() == 0,
            is_lookup(topology::node_order(order.take(i as int)), lookup@),
        decreases len - i,
    {
        let (name, _info) = workspaces.entry(i);
        let ghost nodes = dependency_graph::graph_nodes(graph);
        let ghost before = lookup@;
        let node = WorkspaceNode::Workspace(name.clone());
        let index = dependency_graph::graph_add_node(
            &mut graph,
            WorkspaceNode::Workspace(name.clone()),
        );
        let ghost view = node@;
        lookup.insert(node, index);
        proof {
            assert(topology::node_order(order.take(i + 1)) =~= nodes.push(view));
            assert(!nodes.contains(view)) by {
                if nodes.contains(view) {
                    let k = choose|k: int| 0 <= k < nodes.len() && nodes[k] == view;
                    assert(order[k - 1] == order[i as int]);
                }
            }
            lemma_lookup_push(nodes, before, view);
        }
        i = i + 1;
    }
    assert(order.take(i as int) =~= order);
    (graph, lookup)
}

proof fn lemma_lookup_push(nodes: Seq<NodeView>, lookup: Map<NodeView, usize>, node: NodeView)
    requires
        is_lookup(nodes, lookup) || (nodes.len() == 0 && lookup == Map::<NodeView, usize>::empty()),
        nodes.len() < u32::MAX,
    ensures
        is_lookup(nodes.push(node), lookup.insert(node, nodes.len() as usize)),
{
    let after = nodes.push(node);
    assert(lookup.insert(node, nodes.len() as usize).dom() =~= after.to_set()) by {
        assert(after[nodes.len() as int] == node);
        assert forall|other: NodeView| lookup.dom().contains(other) implies after.to_set().contains(
            other,
        ) by {
            assert(nodes.to_set().contains(other));
            let k = choose|k: int| 0 <= k < nodes.len() && nodes[k] == other;
            assert(after[k] == other);
        }
        assert forall|other: NodeView| after.to_set().contains(other) && other
            != node implies lookup.dom().contains(other) by {
            let k = choose|k: int| 0 <= k < after.len() && after[k] == other;
            assert(nodes[k] == other);
            assert(nodes.to_set().contains(other));
        }
    }
}

proof fn lemma_add_edge(
    nodes: Seq<NodeView>,
    edges: vstd::multiset::Multiset<(usize, usize)>,
    from: usize,
    to: usize,
)
    ensures
        reach::edges_between(nodes, edges.insert((from, to)).dom()) == reach::edges_between(
            nodes,
            edges.dom(),
        ).insert((nodes[from as int], nodes[to as int])),
        forall|a: usize, b: usize| #[trigger]
            edges.insert((from, to)).dom().contains((a, b)) <==> edges.dom().contains((a, b)) || (
            a == from && b == to),
        edges.insert((from, to)).len() == edges.len() + 1,
{
    let after = edges.insert((from, to));
    assert forall|a: usize, b: usize| #[trigger] after.dom().contains((a, b)) <==> edges.dom().contains(
        (a, b),
    ) || (a == from && b == to) by {
        assert(after.count((a, b)) >= edges.count((a, b)));
    }
    let left = reach::edges_between(nodes, after.dom());
    let right = reach::edges_between(nodes, edges.dom()).insert(
        (nodes[from as int], nodes[to as int]),
    );
    assert forall|edge: (NodeView, NodeView)| left.contains(edge) implies right.contains(edge) by {
        let (a, b) = choose|a: usize, b: usize| #[trigger]
            after.dom().contains((a, b)) && nodes[a as int] == edge.0 && nodes[b as int] == edge.1;
        if edges.dom().contains((a, b)) {
        }
    }
    assert forall|edge: (NodeView, NodeView)| right.contains(edge) implies left.contains(edge) by {
        if edge == (nodes[from as int], nodes[to as int]) {
            assert(after.dom().contains((from, to)));
        } else {
            let (a, b) = choose|a: usize, b: usize| #[trigger]
                edges.dom().contains((a, b)) && nodes[a as int] == edge.0 && nodes[b as int]
                    == edge.1;
            assert(after.dom().contains((a, b)));
        }
    }
    assert(left =~= right);
}

proof fn lemma_take_one_more<A>(items: Seq<A>, i: int)
    requires
        0 <= i < items.len(),
    ensures
        items.take(i + 1).to_set() == items.take(i).to_set().insert(items[i]),
{
    let fewer = items.take(i);
    let more = items.take(i + 1);
    assert(more[i] == items[i]);
    assert forall|item: A| fewer.to_set().contains(item) implies more.to_set().contains(item) by {
        let k = choose|k: int| 0 <= k < fewer.len() && fewer[k] == item;
        assert(more[k] == item);
    }
    assert forall|item: A| more.to_set().contains(item) && item
        != items[i] implies fewer.to_set().contains(item) by {
        let k = choose|k: int| 0 <= k < more.len() && more[k] == item;
        assert(fewer[k] == item);
    }
    assert(more.to_set() =~= fewer.to_set().insert(items[i]));
}

} // verus!
