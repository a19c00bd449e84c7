//! How a package graph follows from the packages that were given to its builder.

use super::packages;
use super::packages::NamedPackage;
use super::{PackageGraph, PackageGraphBuilder, WorkspaceName, WorkspaceNode};
use crate::collections::{VecMap, VecSet};
use crate::lockfile::{ExternalDependencies, Package};
use crate::name::{NameView, NodeView};
use crate::path;
use vstd::prelude::*;

verus! {

proof fn name_of_package<J>(packages: Seq<NamedPackage<J>>, text: Seq<char>)
    ensures
        packages::is_internal(packages::package_names(packages).to_set(), text) <==> exists|j: int|
            0 <= j < packages.len() && match (#[trigger] packages[j]).0 {
                WorkspaceName::Root => text == "//"@,
                WorkspaceName::Other(name) => text == name@ && text != "//"@,
            },
{
    let names = packages::package_names(packages);
    if names.contains(NameView::parse(text)) {
        let j = choose|j: int| 0 <= j < names.len() && names[j] == NameView::parse(text);
        assert(packages[j].0@ == NameView::parse(text));
    }
    if exists|j: int|
        0 <= j < packages.len() && match (#[trigger] packages[j]).0 {
            WorkspaceName::Root => text == "//"@,
            WorkspaceName::Other(name) => text == name@ && text != "//"@,
        } {
        let j = choose|j: int|
            0 <= j < packages.len() && match (#[trigger] packages[j]).0 {
                WorkspaceName::Root => text == "//"@,
                WorkspaceName::Other(name) => text == name@ && text != "//"@,
            };
        assert(names[j] == NameView::parse(text));
    }
}

/// Nothing is lost where the dependencies of packages are split. A dependency that has the name of
/// one of the packages gives an edge to that package and is no external one. A dependency that has
/// the name of none of them is an external one, with the version that was given. There are no other
/// external dependencies. What else was given for a package is what is known of it. Of packages of
/// the same name the last one counts, and it is the `i`-th.
pub proof fn dependencies_split<J, M, L>(
    before: PackageGraphBuilder<J, M, L>,
    given: Vec<NamedPackage<J>>,
    after: PackageGraphBuilder<J, M, L>,
    i: int,
    dependency: Seq<char>,
)
    requires
        call_ensures(PackageGraphBuilder::<J, M, L>::with_packages, (before, given), after),
        0 <= i < given@.len(),
        forall|j: int| i < j < given@.len() ==> (#[trigger] given@[j]).0@ != given@[i].0@,
    ensures
        after@.workspaces.contains_key(given@[i].0@),
        ({
            let info = after@.workspaces[given@[i].0@];
            let named = exists|j: int|
                0 <= j < given@.len() && match (#[trigger] given@[j]).0 {
                    WorkspaceName::Root => dependency == "//"@,
                    WorkspaceName::Other(name) => dependency == name@ && dependency != "//"@,
                };
            &&& info.package_json == given@[i].1.package_json
            &&& info.package_json_path == given@[i].1.package_json_path
            &&& info.transitive_dependencies == given@[i].1.transitive_dependencies
            &&& info.unresolved_external_dependencies matches Some(external) && {
                &&& external@.contains_key(dependency) <==> given@[i].2@.contains_key(dependency)
                    && !named
                &&& external@.contains_key(dependency) ==> external@[dependency]
                    == given@[i].2@[dependency]
            }
        }),
{
    let names = packages::package_names(given@);
    assert forall|j: int| i < j < names.len() implies #[trigger] names[j] != names[i] by {
        assert(given@[j].0@ != given@[i].0@);
    }
    assert(packages::is_last(names, i));
    name_of_package(given@, dependency);
    assert(names[i] == given@[i].0@);
    assert(names.to_set().contains(names[i]));
}

/// The `i`-th package has an edge to each of the packages that one of its dependencies has the name
/// of, and if there is none, to the root node.
pub proof fn named_packages_are_depended_on<J, M, L>(
    before: PackageGraphBuilder<J, M, L>,
    given: Vec<NamedPackage<J>>,
    after: PackageGraphBuilder<J, M, L>,
    i: int,
)
    requires
        call_ensures(PackageGraphBuilder::<J, M, L>::with_packages, (before, given), after),
        0 <= i < given@.len(),
    ensures
        forall|j: int, dependency: Seq<char>|
            0 <= j < given@.len() && #[trigger] given@[i].2@.contains_key(dependency) && (match (
            #[trigger] given@[j]).0 {
                WorkspaceName::Root => dependency == "//"@,
                WorkspaceName::Other(name) => dependency == name@ && dependency != "//"@,
            }) ==> after@.dependencies.contains(
                (NodeView::Workspace(given@[i].0@), NodeView::Workspace(given@[j].0@)),
            ),
        (forall|j: int, dependency: Seq<char>|
            0 <= j < given@.len() && #[trigger] given@[i].2@.contains_key(dependency)
                ==> !(match (#[trigger] given@[j]).0 {
                WorkspaceName::Root => dependency == "//"@,
                WorkspaceName::Other(name) => dependency == name@ && dependency != "//"@,
            })) ==> after@.dependencies.contains(
            (NodeView::Workspace(given@[i].0@), NodeView::Root),
        ),
{
    let names = packages::package_names(given@).to_set();
    let added = packages::all_edges(names, given@);
    let order = given@[i].2.order();
    let deps = given@[i].2@;
    assert(given@[i].2.order().to_set() == deps.dom());
    assert forall|edge: (NodeView, NodeView)| packages::package_edges(
        names,
        given@[i].0@,
        order,
    ).contains(edge) implies #[trigger] after@.dependencies.contains(edge) by {
        packages::all_edges_are_of_packages(names, given@, edge);
        let k = choose|k: int| 0 <= k < added.len() && added[k] == edge;
        assert(after@.dependencies[before@.dependencies.len() + k] == edge);
    }
    assert forall|dependency: Seq<char>| #[trigger] deps.contains_key(dependency) <==> order.contains(
        dependency,
    ) by {
        assert(order.to_set().contains(dependency) <==> deps.dom().contains(dependency));
    }
    assert forall|j: int, dependency: Seq<char>|
        0 <= j < given@.len() && #[trigger] deps.contains_key(dependency) && (match (
        #[trigger] given@[j]).0 {
            WorkspaceName::Root => dependency == "//"@,
            WorkspaceName::Other(name) => dependency == name@ && dependency != "//"@,
        }) implies after@.dependencies.contains(
        (NodeView::Workspace(given@[i].0@), NodeView::Workspace(given@[j].0@)),
    ) by {
        let edge = (NodeView::Workspace(given@[i].0@), NodeView::Workspace(given@[j].0@));
        name_of_package(given@, dependency);
        assert(NameView::parse(dependency) == given@[j].0@);
        assert(order.contains(dependency));
        packages::package_edges_lead_to_named_packages(names, given@[i].0@, order, edge);
    }
    if forall|j: int, dependency: Seq<char>|
        0 <= j < given@.len() && #[trigger] deps.contains_key(dependency) ==> !(match (
        #[trigger] given@[j]).0 {
            WorkspaceName::Root => dependency == "//"@,
            WorkspaceName::Other(name) => dependency == name@ && dependency != "//"@,
        }) {
        let edge = (NodeView::Workspace(given@[i].0@), NodeView::Root);
        assert forall|dependency: Seq<char>| #[trigger]
            order.contains(dependency) implies !packages::is_internal(names, dependency) by {
            assert(deps.contains_key(dependency));
            name_of_package(given@, dependency);
        }
        packages::package_edges_lead_to_named_packages(names, given@[i].0@, order, edge);
    }
}

/// To add packages keeps the dependencies that were there, and adds none but those from a package to
/// one of the packages that a dependency of it has the name of, and those to the root node from
/// packages that have none of these.
pub proof fn only_named_packages_are_depended_on<J, M, L>(
    before: PackageGraphBuilder<J, M, L>,
    given: Vec<NamedPackage<J>>,
    after: PackageGraphBuilder<J, M, L>,
    edge: (NodeView, NodeView),
)
    requires
        call_ensures(PackageGraphBuilder::<J, M, L>::with_packages, (before, given), after),
    ensures
        before@.dependencies.contains(edge) ==> after@.dependencies.contains(edge),
        after@.dependencies.contains(edge) ==> before@.dependencies.contains(edge) || exists|i: int|
            {
                &&& 0 <= i < given@.len()
                &&& edge.0 == NodeView::Workspace((#[trigger] given@[i]).0@)
                &&& match edge.1 {
                    NodeView::Root => forall|j: int, dependency: Seq<char>|
                        0 <= j < given@.len() && #[trigger] given@[i].2@.contains_key(dependency)
                            ==> !(match (#[trigger] given@[j]).0 {
                            WorkspaceName::Root => dependency == "//"@,
                            WorkspaceName::Other(name) => dependency == name@ && dependency
                                != "//"@,
                        }),
                    NodeView::Workspace(other) => exists|j: int, dependency: Seq<char>|
                        {
                            &&& 0 <= j < given@.len()
                            &&& (#[trigger] given@[j]).0@ == other
                            &&& #[trigger] given@[i].2@.contains_key(dependency)
                            &&& match given@[j].0 {
                                WorkspaceName::Root => dependency == "//"@,
                                WorkspaceName::Other(name) => dependency == name@ && dependency
                                    != "//"@,
                            }
                        },
                }
            },
{
    let all_names = packages::package_names(given@);
    let names = all_names.to_set();
    let added = packages::all_edges(names, given@);
    let (old_edges, edges) = (before@.dependencies, after@.dependencies);
    if old_edges.contains(edge) {
        let k = choose|k: int| 0 <= k < old_edges.len() && old_edges[k] == edge;
        assert(edges[k] == edge);
    }
    if edges.contains(edge) && !old_edges.contains(edge) {
        let k = choose|k: int| 0 <= k < edges.len() && edges[k] == edge;
        if k < old_edges.len() {
            assert(old_edges[k] == edge);
        }
        assert(added[k - old_edges.len()] == edge);
        packages::all_edges_are_of_packages(names, given@, edge);
        let i = choose|i: int|
            0 <= i < given@.len() && packages::package_edges(
                names,
                (#[trigger] given@[i]).0@,
                given@[i].2.order(),
            ).contains(edge);
        let order = given@[i].2.order();
        assert(order.to_set() == given@[i].2@.dom());
        packages::package_edges_lead_to_named_packages(names, given@[i].0@, order, edge);
        match edge.1 {
            NodeView::Root => {
                assert forall|j: int, dependency: Seq<char>|
                    0 <= j < given@.len() && #[trigger] given@[i].2@.contains_key(
                        dependency,
                    ) implies !(match (#[trigger] given@[j]).0 {
                    WorkspaceName::Root => dependency == "//"@,
                    WorkspaceName::Other(name) => dependency == name@ && dependency != "//"@,
                }) by {
                    assert(order.to_set().contains(dependency));
                    assert(order.contains(dependency));
                    name_of_package(given@, dependency);
                }
            },
            NodeView::Workspace(other) => {
                let dependency = choose|dependency: Seq<char>| #[trigger]
                    order.contains(dependency) && NameView::parse(dependency) == other;
                assert(order.to_set().contains(dependency));
                assert(given@[i].2@.contains_key(dependency));
                let j = choose|j: int| 0 <= j < all_names.len() && all_names[j] == other;
                assert(given@[j].0@ == other);
            },
        }
    }
}

/// To add packages adds the workspaces of their names, and leaves others as they are.
pub proof fn packages_added<J, M, L>(
    before: PackageGraphBuilder<J, M, L>,
    given: Vec<NamedPackage<J>>,
    after: PackageGraphBuilder<J, M, L>,
    name: NameView,
)
    requires
        call_ensures(PackageGraphBuilder::<J, M, L>::with_packages, (before, given), after),
    ensures
        after@.workspaces.contains_key(name) <==> before@.workspaces.contains_key(name) || exists|
            i: int,
        | 0 <= i < given@.len() && (#[trigger] given@[i]).0@ == name,
        before@.workspaces.contains_key(name) && (forall|i: int|
            0 <= i < given@.len() ==> (#[trigger] given@[i]).0@ != name)
            ==> after@.workspaces[name] == before@.workspaces[name],
        after@.package_manager == before@.package_manager,
        after@.lockfile == before@.lockfile,
{
    let names = packages::package_names(given@);
    assert(names.contains(name) <==> exists|i: int|
        0 <= i < given@.len() && (#[trigger] given@[i]).0@ == name) by {
        if names.contains(name) {
            let i = choose|i: int| 0 <= i < names.len() && names[i] == name;
            assert(given@[i].0@ == name);
        }
        if exists|i: int| 0 <= i < given@.len() && (#[trigger] given@[i]).0@ == name {
            let i = choose|i: int| 0 <= i < given@.len() && (#[trigger] given@[i]).0@ == name;
            assert(names[i] == name);
        }
    }
    assert(names.to_set().contains(name) <==> names.contains(name));
    assert(after@.workspaces.dom().contains(name) <==> before@.workspaces.dom().contains(name)
        || names.contains(name));
}

/// A graph that is built with packages answers the split: the external dependencies of a package are
/// those of its dependencies that have the name of no package, with their versions, and the package
/// depends directly on each package that a dependency has the name of, and if there is none, on the
/// root node. Of packages of the same name the last one counts, and it is the `i`-th.
pub proof fn packages_answered<J, M, L>(
    before: PackageGraphBuilder<J, M, L>,
    given: Vec<NamedPackage<J>>,
    after: PackageGraphBuilder<J, M, L>,
    graph: PackageGraph<J, M, L>,
    i: int,
    external: Option<&ExternalDependencies>,
    node: &WorkspaceNode,
    dependencies: Option<VecSet<&WorkspaceNode>>,
    dependency: Seq<char>,
)
    requires
        call_ensures(PackageGraphBuilder::<J, M, L>::with_packages, (before, given), after),
        call_ensures(PackageGraphBuilder::<J, M, L>::build, (after,), Ok(graph)),
        0 <= i < given@.len(),
        forall|j: int| i < j < given@.len() ==> (#[trigger] given@[j]).0@ != given@[i].0@,
        call_ensures(
            PackageGraph::<J, M, L>::external_dependencies,
            (&graph, &given@[i].0),
            external,
        ),
        *node == WorkspaceNode::Workspace(given@[i].0),
        call_ensures(
            PackageGraph::<J, M, L>::immediate_dependencies,
            (&graph, node),
            dependencies,
        ),
    ensures
        external matches Some(external) && {
            &&& external@.contains_key(dependency) <==> given@[i].2@.contains_key(dependency)
                && forall|j: int|
                0 <= j < given@.len() ==> !(match (#[trigger] given@[j]).0 {
                    WorkspaceName::Root => dependency == "//"@,
                    WorkspaceName::Other(name) => dependency == name@ && dependency != "//"@,
                })
            &&& external@.contains_key(dependency) ==> external@[dependency]
                == given@[i].2@[dependency]
        },
        dependencies matches Some(found) && {
            &&& forall|j: int|
                0 <= j < given@.len() && given@[i].2@.contains_key(dependency) && (match (
                #[trigger] given@[j]).0 {
                    WorkspaceName::Root => dependency == "//"@,
                    WorkspaceName::Other(name) => dependency == name@ && dependency != "//"@,
                }) ==> found@.contains(NodeView::Workspace(given@[j].0@))
            &&& (forall|j: int, other: Seq<char>|
                0 <= j < given@.len() && #[trigger] given@[i].2@.contains_key(other) ==> !(match (
                #[trigger] given@[j]).0 {
                    WorkspaceName::Root => other == "//"@,
                    WorkspaceName::Other(name) => other == name@ && other != "//"@,
                })) ==> found@.contains(NodeView::Root)
        },
{
    dependencies_split(before, given, after, i, dependency);
    named_packages_are_depended_on(before, given, after, i);
    super::calls::built_as_given(after, Ok(graph));
    assert forall|edge: (NodeView, NodeView)| #[trigger] after@.dependencies.contains(
        edge,
    ) implies graph@.topology.edges.contains(edge) by {
        let k = choose|k: int| 0 <= k < after@.dependencies.len() && after@.dependencies[k] == edge;
        assert(graph@.topology.edges.contains(after@.dependencies[k]));
    }
    assert(graph@.topology.nodes.contains(NodeView::Workspace(given@[i].0@)));
}

/// The packages that are on record for a workspace are those that were given at its path, and there
/// is no record where none were given. Nothing else changes.
pub proof fn closures_recorded<J, M, L>(
    before: PackageGraphBuilder<J, M, L>,
    closures: &VecMap<String, VecSet<Package>>,
    after: PackageGraphBuilder<J, M, L>,
    name: NameView,
)
    requires
        call_ensures(PackageGraphBuilder::<J, M, L>::with_closures, (before, closures), after),
    ensures
        after@.workspaces.contains_key(name) <==> before@.workspaces.contains_key(name),
        before@.workspaces.contains_key(name) ==> {
            let (info, known) = (before@.workspaces[name], after@.workspaces[name]);
            let text = path::unix_text(info.package_json_path@.drop_last());
            &&& known.package_json == info.package_json
            &&& known.package_json_path == info.package_json_path
            &&& known.unresolved_external_dependencies == info.unresolved_external_dependencies
            &&& known.transitive_dependencies is Some <==> closures@.contains_key(text)
            &&& known.transitive_dependencies matches Some(packages) ==> packages@
                == closures@[text]@
        },
        after@.order == before@.order,
        after@.dependencies == before@.dependencies,
        after@.package_manager == before@.package_manager,
        after@.lockfile == before@.lockfile,
{
    assert(after@.workspaces.dom().contains(name) <==> before@.workspaces.dom().contains(name));
}

} // verus!
