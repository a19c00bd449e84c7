//! Packages of a repository, and which of their dependencies are on one another.

use super::{WorkspaceInfo, WorkspaceName, WorkspaceNode};
use crate::collections::VecSet;
use crate::lockfile::ExternalDependencies;
use crate::name::{NameView, NodeView};
use crate::sorted_map::SortedMap;
use vstd::prelude::*;

verus! {

/// A package: its name, what is known of it, and the version of each dependency that it names.
pub type NamedPackage<PackageJson> = (
    WorkspaceName,
    WorkspaceInfo<PackageJson>,
    ExternalDependencies,
);

/// The names of packages.
pub open spec fn package_names<PackageJson>(packages: Seq<NamedPackage<PackageJson>>) -> Seq<
    NameView,
> {
    packages.map_values(|package: NamedPackage<PackageJson>| package.0@)
}

/// Whether a dependency is on one of the packages with the given names.
pub open spec fn is_internal(names: Set<NameView>, dependency: Seq<char>) -> bool {
    names.contains(NameView::parse(dependency))
}

/// The dependencies that are on none of the packages with the given names.
pub open spec fn external(
    names: Set<NameView>,
    dependencies: Map<Seq<char>, String>,
) -> Map<Seq<char>, String> {
    dependencies.restrict(Set::new(|dependency: Seq<char>| !is_internal(names, dependency)))
}

/// The edges of the package `name`: one to each package that it depends on, or, where there is none,
/// one to the root node.
pub open spec fn package_edges(
    names: Set<NameView>,
    name: NameView,
    dependencies: Seq<Seq<char>>,
) -> Seq<(NodeView, NodeView)> {
    let internal = dependencies.filter(|dependency: Seq<char>| is_internal(names, dependency));
    if internal.len() == 0 {
        seq![(NodeView::Workspace(name), NodeView::Root)]
    } else {
        internal_edges(name, internal)
    }
}

/// An edge from the package `name` to each of the packages `internal`.
pub open spec fn internal_edges(name: NameView, internal: Seq<Seq<char>>) -> Seq<
    (NodeView, NodeView),
> {
    internal.map_values(
        |dependency: Seq<char>|
            (NodeView::Workspace(name), NodeView::Workspace(NameView::parse(dependency))),
    )
}

/// The edges of packages, one after the other, where dependencies are on the packages with the given
/// names.
pub open spec fn all_edges<PackageJson>(
    names: Set<NameView>,
    packages: Seq<NamedPackage<PackageJson>>,
) -> Seq<(NodeView, NodeView)>
    decreases packages.len(),
{
    if packages.len() == 0 {
        Seq::empty()
    } else {
        all_edges(names, packages.drop_last()) + package_edges(
            names,
            packages.last().0@,
            packages.last().2.order(),
        )
    }
}

/// The order of workspaces once those with the given names are added.
pub open spec fn order_with(order: Seq<NameView>, names: Seq<NameView>) -> Seq<NameView>
    decreases names.len(),
{
    if names.len() == 0 {
        order
    } else {
        let others = order_with(order, names.drop_last());
        if others.contains(names.last()) {
            others
        } else {
            others.push(names.last())
        }
    }
}

/// Whether no later name is the same as the `i`-th.
pub open spec fn is_last(names: Seq<NameView>, i: int) -> bool {
    &&& 0 <= i < names.len()
    &&& forall|j: int| i < j < names.len() ==> #[trigger] names[j] != names[i]
}

/// Whether `info` is what is known of a package, with those of its dependencies as external ones
/// that are on none of the packages with the given names.
pub open spec fn is_split<PackageJson>(
    names: Set<NameView>,
    package: NamedPackage<PackageJson>,
    info: WorkspaceInfo<PackageJson>,
) -> bool {
    &&& info.package_json == package.1.package_json
    &&& info.package_json_path == package.1.package_json_path
    &&& info.transitive_dependencies == package.1.transitive_dependencies
    &&& info.unresolved_external_dependencies matches Some(dependencies)
    &&& dependencies@ == external(names, package.2@)
}

/// A package has an edge to each package that its dependencies name, and where they name none, one to
/// the root node. It has no other edges.
pub proof fn package_edges_lead_to_named_packages(
    names: Set<NameView>,
    name: NameView,
    dependencies: Seq<Seq<char>>,
    edge: (NodeView, NodeView),
)
    ensures
        package_edges(names, name, dependencies).len() > 0,
        package_edges(names, name, dependencies).contains(edge) <==> {
            &&& edge.0 == NodeView::Workspace(name)
            &&& match edge.1 {
                NodeView::Root => forall|dependency: Seq<char>| #[trigger]
                    dependencies.contains(dependency) ==> !is_internal(names, dependency),
                NodeView::Workspace(other) => names.contains(other) && exists|
                    dependency: Seq<char>,
                | #[trigger]
                    dependencies.contains(dependency) && NameView::parse(dependency) == other,
            }
        },
{
    let pred = |dependency: Seq<char>| is_internal(names, dependency);
    let internal = dependencies.filter(pred);
    let edges = package_edges(names, name, dependencies);
    assert forall|dependency: Seq<char>|
        dependencies.contains(dependency) && is_internal(names, dependency) implies (
    #[trigger] internal.contains(dependency)) by {
        let i = choose|i: int| 0 <= i < dependencies.len() && dependencies[i] == dependency;
        dependencies.lemma_filter_contains(pred, i);
    }
    if internal.len() == 0 {
        assert forall|dependency: Seq<char>| #[trigger]
            dependencies.contains(dependency) implies !is_internal(names, dependency) by {
            if is_internal(names, dependency) {
                assert(internal.contains(dependency));
            }
        }
        assert(edges[0] == (NodeView::Workspace(name), NodeView::Root));
    } else {
        dependencies.lemma_filter_contains_rev(pred, internal[0]);
        assert(is_internal(names, internal[0]));
        if edges.contains(edge) {
            let i = choose|i: int| 0 <= i < edges.len() && edges[i] == edge;
            assert(internal.contains(internal[i]));
            dependencies.lemma_filter_contains_rev(pred, internal[i]);
        }
        if let NodeView::Workspace(other) = edge.1 {
            if edge.0 == NodeView::Workspace(name) && names.contains(other) && exists|
                dependency: Seq<char>,
            | #[trigger] dependencies.contains(dependency) && NameView::parse(dependency) == other {
                let dependency = choose|dependency: Seq<char>| #[trigger]
                    dependencies.contains(dependency) && NameView::parse(dependency) == other;
                assert(internal.contains(dependency));
                let i = choose|i: int| 0 <= i < internal.len() && internal[i] == dependency;
                assert(edges[i] == edge);
            }
        }
    }
}

/// The edges of packages are those of each of them.
pub proof fn all_edges_are_of_packages<PackageJson>(
    names: Set<NameView>,
    packages: Seq<NamedPackage<PackageJson>>,
    edge: (NodeView, NodeView),
)
    ensures
        all_edges(names, packages).contains(edge) <==> exists|i: int|
            0 <= i < packages.len() && package_edges(
                names,
                (#[trigger] packages[i]).0@,
                packages[i].2.order(),
            ).contains(edge),
    decreases packages.len(),
{
    if packages.len() > 0 {
        let fewer = packages.drop_last();
        let last = packages[packages.len() - 1];
        let before = all_edges(names, fewer);
        let added = package_edges(names, last.0@, last.2.order());
        let all = all_edges(names, packages);
        all_edges_are_of_packages(names, fewer, edge);
        assert(all == before + added);
        if all.contains(edge) {
            let k = choose|k: int| 0 <= k < all.len() && all[k] == edge;
            if k < before.len() {
                assert(before[k] == edge);
                let i = choose|i: int|
                    0 <= i < fewer.len() && package_edges(
                        names,
                        (#[trigger] fewer[i]).0@,
                        fewer[i].2.order(),
                    ).contains(edge);
                assert(packages[i] == fewer[i]);
            } else {
                assert(added[k - before.len()] == edge);
            }
        }
        if exists|i: int|
            0 <= i < packages.len() && package_edges(
                names,
                (#[trigger] packages[i]).0@,
                packages[i].2.order(),
            ).contains(edge) {
            let i = choose|i: int|
                0 <= i < packages.len() && package_edges(
                    names,
                    (#[trigger] packages[i]).0@,
                    packages[i].2.order(),
                ).contains(edge);
            if i < fewer.len() {
                assert(fewer[i] == packages[i]);
                let k = choose|k: int| 0 <= k < before.len() && before[k] == edge;
                assert(all[k] == edge);
            } else {
                let k = choose|k: int| 0 <= k < added.len() && added[k] == edge;
                assert(all[before.len() + k] == edge);
            }
        }
    }
}

/// The edges of packages join packages with one another and with the root node only, and every
/// package has an edge.
pub proof fn packages_hang_together<PackageJson>(packages: Seq<NamedPackage<PackageJson>>)
    ensures
        ({
            let names = package_names(packages).to_set();
            &&& forall|from: NodeView, to: NodeView| #[trigger]
                all_edges(names, packages).contains((from, to)) ==> {
                    &&& from matches NodeView::Workspace(name)
                    &&& names.contains(name)
                    &&& to matches NodeView::Workspace(other) ==> names.contains(other)
                }
            &&& forall|name: NameView| #[trigger]
                names.contains(name) ==> exists|to: NodeView| #[trigger]
                    all_edges(names, packages).contains((NodeView::Workspace(name), to))
        }),
{
    let all_names = package_names(packages);
    let names = all_names.to_set();
    let all = all_edges(names, packages);
    assert forall|from: NodeView, to: NodeView| #[trigger] all.contains((from, to)) implies {
        &&& from matches NodeView::Workspace(name)
        &&& names.contains(name)
        &&& to matches NodeView::Workspace(other) ==> names.contains(other)
    } by {
        all_edges_are_of_packages(names, packages, (from, to));
        let i = choose|i: int|
            0 <= i < packages.len() && package_edges(
                names,
                (#[trigger] packages[i]).0@,
                packages[i].2.order(),
            ).contains((from, to));
        package_edges_lead_to_named_packages(
            names,
            packages[i].0@,
            packages[i].2.order(),
            (from, to),
        );
        assert(all_names[i] == packages[i].0@);
    }
    assert forall|name: NameView| #[trigger] names.contains(name) implies exists|to: NodeView| #[trigger]
        all.contains((NodeView::Workspace(name), to)) by {
        let i = choose|i: int| 0 <= i < all_names.len() && all_names[i] == name;
        let edges = package_edges(names, packages[i].0@, packages[i].2.order());
        let edge = edges[0];
        package_edges_lead_to_named_packages(
            names,
            packages[i].0@,
            packages[i].2.order(),
            edge,
        );
        assert(edges.contains(edge));
        all_edges_are_of_packages(names, packages, edge);
        assert(all.contains((NodeView::Workspace(name), edge.1)));
    }
}

/// Once workspaces are added, there are those that were there and those that were added.
pub proof fn order_with_has_names(order: Seq<NameView>, names: Seq<NameView>, name: NameView)
    ensures
        order_with(order, names).contains(name) <==> order.contains(name) || names.contains(name),
    decreases names.len(),
{
    if names.len() > 0 {
        let fewer = names.drop_last();
        let others = order_with(order, fewer);
        let last = names.last();
        order_with_has_names(order, fewer, name);
        assert(names =~= fewer.push(last));
        assert(names[names.len() - 1] == last);
        assert(others.push(last)[others.len() as int] == last);
        if others.contains(name) {
            let k = choose|k: int| 0 <= k < others.len() && others[k] == name;
            assert(others.push(last)[k] == name);
        }
        if fewer.contains(name) {
            let k = choose|k: int| 0 <= k < fewer.len() && fewer[k] == name;
            assert(names[k] == name);
        }
        if names.contains(name) && name != last {
            let k = choose|k: int| 0 <= k < names.len() && names[k] == name;
            assert(fewer[k] == name);
        }
    }
}

/// The views of the ends of an edge.
pub open spec fn edge_view(edge: (WorkspaceNode, WorkspaceNode)) -> (NodeView, NodeView) {
    (edge.0@, edge.1@)
}

/// The views of edges.
pub open spec fn edge_views(edges: Seq<(WorkspaceNode, WorkspaceNode)>) -> Seq<
    (NodeView, NodeView),
> {
    edges.map_values(|edge: (WorkspaceNode, WorkspaceNode)| edge_view(edge))
}

/// The names of packages, each once.
pub(crate) fn name_set<PackageJson>(packages: &Vec<NamedPackage<PackageJson>>) -> (names: VecSet<
    WorkspaceName,
>)
    ensures
        names@ == package_names(packages@).to_set(),
{
    let mut names: VecSet<WorkspaceName> = VecSet::new();
    let ghost all = package_names(packages@);
    let mut i: usize = 0;
    while i < packages.len()
        invariant
            all == package_names(packages@),
            i <= packages@.len(),
            forall|name: NameView| #[trigger]
                names@.contains(name) <==> exists|k: int| 0 <= k < i && #[trigger] all[k] == name,
        decreases packages@.len() - i,
    {
        let ghost before = names@;
        names.insert(packages[i].0.clone());
        proof {
            assert(all[i as int] == packages@[i as int].0@);
            assert forall|name: NameView| #[trigger] names@.contains(name) implies exists|k: int|
                0 <= k < i + 1 && #[trigger] all[k] == name by {
                if !before.contains(name) {
                    assert(all[i as int] == name);
                }
            }
        }
        i = i + 1;
    }
    assert(names@ =~= all.to_set());
    names
}

/// The edges of the package `name`, and those of its dependencies that are on none of the packages
/// with the given names.
pub(crate) fn split_dependencies(
    names: &VecSet<WorkspaceName>,
    name: &WorkspaceName,
    dependencies: &ExternalDependencies,
) -> (split: (Vec<(WorkspaceNode, WorkspaceNode)>, ExternalDependencies))
    ensures
        edge_views(split.0@) == package_edges(names@, name@, dependencies.order()),
        split.1@ == external(names@, dependencies@),
        dependencies.order().to_set() == dependencies@.dom(),
{
    let mut edges: Vec<(WorkspaceNode, WorkspaceNode)> = Vec::new();
    let mut others: ExternalDependencies = SortedMap::new();
    let ghost order = dependencies.order();
    let ghost internal = |dependency: Seq<char>| is_internal(names@, dependency);
    let len = dependencies.len();
    let mut i: usize = 0;
    proof {
        reveal(Seq::filter);
        assert(edge_views(edges@) =~= internal_edges(name@, order.take(0).filter(internal)));
    }
    while i < len
        invariant
            order == dependencies.order(),
            internal == |dependency: Seq<char>| is_internal(names@, dependency),
            len == order.len(),
            i <= len,
            edge_views(edges@) == internal_edges(name@, order.take(i as int).filter(internal)),
            forall|dependency: Seq<char>| #[trigger]
                others@.contains_key(dependency) <==> order.take(i as int).contains(dependency)
                    && !is_internal(names@, dependency),
            forall|dependency: Seq<char>| #[trigger]
                others@.contains_key(dependency) ==> dependencies@.contains_key(dependency)
                    && others@[dependency] == dependencies@[dependency],
        decreases len - i,
    {
        let (dependency, version) = dependencies.entry(i);
        let other = WorkspaceName::from(dependency.clone());
        let ghost fewer = order.take(i as int);
        let ghost more = order.take(i + 1);
        let ghost before = edges@;
        proof {
            reveal(Seq::filter);
            assert(more =~= fewer.push(dependency@));
            assert(more.drop_last() =~= fewer);
            assert(more.last() == dependency@);
            assert forall|text: Seq<char>| more.contains(text) <==> fewer.contains(text) || text
                == dependency@ by {
                if fewer.contains(text) {
                    let k = choose|k: int| 0 <= k < fewer.len() && fewer[k] == text;
                    assert(more[k] == text);
                }
                assert(more[i as int] == dependency@);
            }
        }
        if names.contains(&other) {
            edges.push((WorkspaceNode::Workspace(name.clone()), WorkspaceNode::Workspace(other)));
            proof {
                let edge = (
                    NodeView::Workspace(name@),
                    NodeView::Workspace(NameView::parse(dependency@)),
                );
                let kept = fewer.filter(internal);
                assert(more.filter(internal) == kept.push(dependency@));
                assert(edge_views(edges@) =~= edge_views(before).push(edge));
                assert(internal_edges(name@, kept.push(dependency@)) =~= internal_edges(
                    name@,
                    kept,
                ).push(edge));
            }
        } else {
            others.insert(dependency.clone(), version.clone());
        }
        i = i + 1;
    }
    proof {
        assert(order.take(i as int) =~= order);
        assert forall|dependency: Seq<char>|
            order.contains(dependency) <==> dependencies@.contains_key(dependency) by {
            assert(order.to_set().contains(dependency) <==> dependencies@.dom().contains(
                dependency,
            ));
        }
        assert(others@ =~= external(names@, dependencies@));
        assert(edge_views(edges@).len() == order.filter(internal).len());
    }
    if edges.len() == 0 {
        edges.push((WorkspaceNode::Workspace(name.clone()), WorkspaceNode::Root));
        assert(edge_views(edges@) =~= package_edges(names@, name@, order));
    }
    (edges, others)
}

} // verus!
