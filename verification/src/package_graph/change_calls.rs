//! How the answers on external packages follow from what is known of each workspace.

use super::changes;
use super::laws;
use super::{
    ChangedPackagesError, PackageGraph, PackageGraphBuilder, WorkspaceInfo, WorkspaceName,
};
use crate::collections;
use crate::collections::{VecMap, VecSet};
use crate::lockfile;
use crate::lockfile::{ExternalDependencies, Lockfile, Package, PackageView};
use crate::name::NameView;
use crate::path;
use vstd::prelude::*;

verus! {

/// A list of workspaces gives each package that is on record for one of them, be it the root or
/// another, and no other package.
pub proof fn external_packages_answered<J, M, L>(
    graph: &PackageGraph<J, M, L>,
    names: &[&WorkspaceName],
    packages: VecSet<&Package>,
)
    requires
        call_ensures(
            PackageGraph::<J, M, L>::transitive_external_dependencies,
            (graph, names),
            packages,
        ),
    ensures
        forall|i: int, package: PackageView|
            0 <= i < names@.len() && graph@.workspaces.contains_key((#[trigger] names@[i])@)
                && graph@.workspaces[names@[i]@].transitive_dependencies is Some
                && #[trigger] graph@.workspaces[names@[i]@].transitive_dependencies->0@.contains(
                package,
            ) ==> packages@.contains(package),
        forall|package: PackageView| #[trigger]
            packages@.contains(package) ==> exists|i: int|
                0 <= i < names@.len() && graph@.workspaces.contains_key((#[trigger] names@[i])@)
                    && graph@.workspaces[names@[i]@].transitive_dependencies is Some
                    && graph@.workspaces[names@[i]@].transitive_dependencies->0@.contains(package),
{
    let given = collections::view_set(names@);
    assert forall|i: int, package: PackageView|
        0 <= i < names@.len() && graph@.workspaces.contains_key((#[trigger] names@[i])@)
            && graph@.workspaces[names@[i]@].transitive_dependencies is Some
            && #[trigger] graph@.workspaces[names@[i]@].transitive_dependencies->0@.contains(
            package,
        ) implies packages@.contains(package) by {
        assert(given.contains(names@[i]@));
        assert(graph@.has_package(names@[i]@, package));
    }
    assert forall|package: PackageView| #[trigger] packages@.contains(package) implies exists|i: int|
        0 <= i < names@.len() && graph@.workspaces.contains_key((#[trigger] names@[i])@)
            && graph@.workspaces[names@[i]@].transitive_dependencies is Some
            && graph@.workspaces[names@[i]@].transitive_dependencies->0@.contains(package) by {
        let name = choose|name: NameView|
            given.contains(name) && #[trigger] graph@.has_package(name, package);
        let i = choose|i: int| 0 <= i < names@.len() && (#[trigger] names@[i])@ == name;
        assert(graph@.workspaces.contains_key(names@[i]@));
    }
}

/// The list of one workspace gives just what is on record for it, and of two lists the packages
/// together are those of each.
pub proof fn external_packages_of_lists<J, M, L>(
    graph: &PackageGraph<J, M, L>,
    a: &[&WorkspaceName],
    b: &[&WorkspaceName],
    both: &[&WorkspaceName],
    packages_a: VecSet<&Package>,
    packages_b: VecSet<&Package>,
    packages: VecSet<&Package>,
)
    requires
        both@ == a@ + b@,
        call_ensures(
            PackageGraph::<J, M, L>::transitive_external_dependencies,
            (graph, a),
            packages_a,
        ),
        call_ensures(
            PackageGraph::<J, M, L>::transitive_external_dependencies,
            (graph, b),
            packages_b,
        ),
        call_ensures(
            PackageGraph::<J, M, L>::transitive_external_dependencies,
            (graph, both),
            packages,
        ),
    ensures
        packages@ == packages_a@.union(packages_b@),
        a@.len() == 1 && graph@.workspaces.contains_key(a@[0]@) ==> packages_a@
            == match graph@.workspaces[a@[0]@].transitive_dependencies {
            Some(packages) => packages@,
            None => Set::<PackageView>::empty(),
        },
        a@.len() == 1 && !graph@.workspaces.contains_key(a@[0]@) ==> packages_a@ == Set::<
            PackageView,
        >::empty(),
{
    external_packages_answered(graph, a, packages_a);
    external_packages_answered(graph, b, packages_b);
    external_packages_answered(graph, both, packages);
    let of = |name: NameView, package: PackageView|
        {
            &&& graph@.workspaces.contains_key(name)
            &&& graph@.workspaces[name].transitive_dependencies is Some
            &&& graph@.workspaces[name].transitive_dependencies->0@.contains(package)
        };
    assert forall|package: PackageView| packages@.contains(package) implies packages_a@.union(
        packages_b@,
    ).contains(package) by {
        let i = choose|i: int|
            0 <= i < both@.len() && of((#[trigger] both@[i])@, package);
        if i < a@.len() {
            assert(a@[i] == both@[i]);
            assert(graph@.workspaces[a@[i]@].transitive_dependencies->0@.contains(package));
        } else {
            assert(b@[i - a@.len()] == both@[i]);
            assert(graph@.workspaces[b@[i - a@.len()]@].transitive_dependencies->0@.contains(
                package,
            ));
        }
    }
    assert forall|package: PackageView| packages_a@.union(packages_b@).contains(
        package,
    ) implies packages@.contains(package) by {
        if packages_a@.contains(package) {
            let i = choose|i: int| 0 <= i < a@.len() && of((#[trigger] a@[i])@, package);
            assert(both@[i] == a@[i]);
            assert(graph@.workspaces[both@[i]@].transitive_dependencies->0@.contains(package));
        } else {
            let i = choose|i: int| 0 <= i < b@.len() && of((#[trigger] b@[i])@, package);
            assert(both@[a@.len() + i] == b@[i]);
            assert(graph@.workspaces[both@[a@.len() + i]@].transitive_dependencies->0@.contains(
                package,
            ));
        }
    }
    assert(packages@ =~= packages_a@.union(packages_b@));
    if a@.len() == 1 {
        if graph@.workspaces.contains_key(a@[0]@) {
            match graph@.workspaces[a@[0]@].transitive_dependencies {
                Some(known) => assert(packages_a@ =~= known@),
                None => assert(packages_a@ =~= Set::<PackageView>::empty()),
            }
        } else {
            assert(packages_a@ =~= Set::<PackageView>::empty());
        }
    }
}

/// Where no change concerns every workspace, and the packages of the root are the same as before, a
/// workspace needs to be revalidated just where some package is on record for it and was not there
/// before, or the other way round, or there is a record of its packages in one of the two only.
/// What was there before is what the closures have at its path.
pub proof fn changed_workspaces_answered<J, M, L>(
    graph: &PackageGraph<J, M, L>,
    closures: &VecMap<String, VecSet<Package>>,
    changed: Vec<WorkspaceName>,
    name: NameView,
)
    requires
        graph.wf(),
        call_ensures(PackageGraph::<J, M, L>::changed_packages, (graph, closures, false), changed),
        graph@.workspaces.contains_key(name),
        ({
            let root = graph@.workspaces[NameView::Root];
            let text = path::unix_text(root.package_json_path@.drop_last());
            match root.transitive_dependencies {
                Some(packages) => closures@.contains_key(text) && forall|package: PackageView|
                    packages@.contains(package) <==> #[trigger] closures@[text]@.contains(package),
                None => !closures@.contains_key(text),
            }
        }),
    ensures
        ({
            let info = graph@.workspaces[name];
            let text = path::unix_text(info.package_json_path@.drop_last());
            (exists|i: int| 0 <= i < changed@.len() && (#[trigger] changed@[i])@ == name)
                <==> match info.transitive_dependencies {
                Some(packages) => !closures@.contains_key(text) || exists|package: PackageView|
                    packages@.contains(package) != #[trigger] closures@[text]@.contains(package),
                None => closures@.contains_key(text),
            }
        }),
{
    graph.wf_is_valid();
    let order = graph@.order;
    let pred = |name: NameView| graph@.workspaces[name].is_changed(closures@);
    let kept = order.filter(pred);
    let root = graph@.workspaces[NameView::Root];
    let root_text = path::unix_text(root.package_json_path@.drop_last());
    if let Some(packages) = root.transitive_dependencies {
        assert(packages@ =~= closures@[root_text]@);
    }
    assert(!pred(NameView::Root));
    if kept.contains(NameView::Root) {
        order.lemma_filter_contains_rev(pred, NameView::Root);
    }
    let names = changes::name_views(changed@);
    assert(names == kept);
    let info = graph@.workspaces[name];
    let text = path::unix_text(info.package_json_path@.drop_last());
    if let Some(packages) = info.transitive_dependencies {
        if closures@.contains_key(text) && packages@ != closures@[text]@ {
            assert(!(packages@ =~= closures@[text]@));
            let package = choose|package: PackageView|
                packages@.contains(package) != #[trigger] closures@[text]@.contains(package);
            assert(packages@.contains(package) != closures@[text]@.contains(package));
        }
    }
    if pred(name) {
        assert(order.to_set().contains(name));
        let i = choose|i: int| 0 <= i < order.len() && order[i] == name;
        order.lemma_filter_contains(pred, i);
        let k = choose|k: int| 0 <= k < kept.len() && kept[k] == name;
        assert(changed@[k]@ == name);
    }
    if exists|i: int| 0 <= i < changed@.len() && (#[trigger] changed@[i])@ == name {
        let i = choose|i: int| 0 <= i < changed@.len() && (#[trigger] changed@[i])@ == name;
        assert(names[i] == name);
        assert(kept.contains(name));
        order.lemma_filter_contains_rev(pred, name);
    }
}

/// Where a change concerns every workspace, or some package of the root is new or gone, every
/// workspace needs to be revalidated.
pub proof fn all_workspaces_changed<J, M, L>(
    graph: &PackageGraph<J, M, L>,
    closures: &VecMap<String, VecSet<Package>>,
    global_change: bool,
    changed: Vec<WorkspaceName>,
    name: NameView,
)
    requires
        graph.wf(),
        call_ensures(
            PackageGraph::<J, M, L>::changed_packages,
            (graph, closures, global_change),
            changed,
        ),
        graph@.workspaces.contains_key(name),
        global_change || ({
            let root = graph@.workspaces[NameView::Root];
            let text = path::unix_text(root.package_json_path@.drop_last());
            match root.transitive_dependencies {
                Some(packages) => !closures@.contains_key(text) || exists|package: PackageView|
                    packages@.contains(package) != #[trigger] closures@[text]@.contains(package),
                None => closures@.contains_key(text),
            }
        }),
    ensures
        exists|i: int| 0 <= i < changed@.len() && (#[trigger] changed@[i])@ == name,
{
    graph.wf_is_valid();
    let order = graph@.order;
    let names = changes::name_views(changed@);
    if !global_change {
        let pred = |name: NameView| graph@.workspaces[name].is_changed(closures@);
        assert(pred(NameView::Root));
        assert(order.to_set().contains(NameView::Root));
        let i = choose|i: int| 0 <= i < order.len() && order[i] == NameView::Root;
        order.lemma_filter_contains(pred, i);
    }
    assert(names == order);
    assert(order.to_set().contains(name));
    let i = choose|i: int| 0 <= i < order.len() && order[i] == name;
    assert(changed@[i]@ == name);
}

/// Only workspaces of the graph need to be revalidated, and each is given once.
pub proof fn changed_are_workspaces<J, M, L>(
    graph: &PackageGraph<J, M, L>,
    closures: &VecMap<String, VecSet<Package>>,
    global_change: bool,
    changed: Vec<WorkspaceName>,
)
    requires
        graph.wf(),
        call_ensures(
            PackageGraph::<J, M, L>::changed_packages,
            (graph, closures, global_change),
            changed,
        ),
    ensures
        forall|i: int|
            0 <= i < changed@.len() ==> graph@.workspaces.contains_key((#[trigger] changed@[i])@),
        forall|i: int, j: int|
            0 <= i < j < changed@.len() ==> (#[trigger] changed@[i])@ != (#[trigger] changed@[j])@,
{
    graph.wf_is_valid();
    laws::changed_packages_are_workspaces(graph@, closures@, global_change);
    let names = changes::name_views(changed@);
    assert forall|i: int| 0 <= i < changed@.len() implies graph@.workspaces.contains_key(
        (#[trigger] changed@[i])@,
    ) by {
        assert(names[i] == changed@[i]@);
        assert(names.contains(names[i]));
    }
    assert forall|i: int, j: int| 0 <= i < j < changed@.len() implies (#[trigger] changed@[i])@ != (
    #[trigger] changed@[j])@ by {
        assert(names[i] == changed@[i]@);
        assert(names[j] == changed@[j]@);
    }
}

proof fn requested_at<J>(
    workspaces: Map<NameView, WorkspaceInfo<J>>,
    order: Seq<NameView>,
    text: Seq<char>,
)
    ensures
        changes::requested_by(workspaces, order).contains_key(text) ==> exists|i: int|
            {
                &&& 0 <= i < order.len()
                &&& workspaces[#[trigger] order[i]].unresolved_external_dependencies is Some
                &&& path::unix_text(workspaces[order[i]].package_json_path@.drop_last()) == text
                &&& changes::requested_by(workspaces, order)[text] == lockfile::versions(
                    workspaces[order[i]].unresolved_external_dependencies->0,
                )
            },
        forall|i: int|
            0 <= i < order.len() && workspaces[#[trigger] order[i]].unresolved_external_dependencies is Some
                ==> changes::requested_by(workspaces, order).contains_key(
                path::unix_text(workspaces[order[i]].package_json_path@.drop_last()),
            ),
    decreases order.len(),
{
    if order.len() > 0 {
        let fewer = order.drop_last();
        let last = order.len() - 1;
        let all = changes::requested_by(workspaces, order);
        let others = changes::requested_by(workspaces, fewer);
        requested_at(workspaces, fewer, text);
        assert(order.last() == order[last]);
        assert forall|i: int|
            0 <= i < order.len() && workspaces[#[trigger] order[i]].unresolved_external_dependencies is Some implies all.contains_key(
            path::unix_text(workspaces[order[i]].package_json_path@.drop_last()),
        ) by {
            if i < last {
                assert(fewer[i] == order[i]);
            }
        }
        if all.contains_key(text) {
            if workspaces[order[last]].unresolved_external_dependencies is Some && path::unix_text(
                workspaces[order[last]].package_json_path@.drop_last(),
            ) == text {
            } else {
                assert(others.contains_key(text));
                let i = choose|i: int|
                    {
                        &&& 0 <= i < fewer.len()
                        &&& workspaces[#[trigger] fewer[i]].unresolved_external_dependencies is Some
                        &&& path::unix_text(workspaces[fewer[i]].package_json_path@.drop_last())
                            == text
                        &&& others[text] == lockfile::versions(
                            workspaces[fewer[i]].unresolved_external_dependencies->0,
                        )
                    };
                assert(order[i] == fewer[i]);
            }
        }
    }
}

proof fn versions_told_apart(a: ExternalDependencies, b: ExternalDependencies)
    requires
        lockfile::versions(a) == lockfile::versions(b),
    ensures
        a@.dom() == b@.dom(),
        forall|dependency: Seq<char>| #[trigger]
            a@.contains_key(dependency) ==> a@[dependency]@ == b@[dependency]@,
{
    assert(lockfile::versions(a).dom() =~= a@.dom());
    assert(lockfile::versions(b).dom() =~= b@.dom());
    assert forall|dependency: Seq<char>| #[trigger] a@.contains_key(dependency) implies a@[dependency]@
        == b@[dependency]@ by {
        assert(lockfile::versions(a)[dependency] == lockfile::versions(b)[dependency]);
    }
}

proof fn request_of_workspaces<J>(
    workspaces: Map<NameView, WorkspaceInfo<J>>,
    order: Seq<NameView>,
    requested: VecMap<String, ExternalDependencies>,
)
    requires
        order.to_set() == workspaces.dom(),
        lockfile::versions_by_path(requested) == changes::requested_by(workspaces, order),
    ensures
        ({
            &&& forall|text: Seq<char>| #[trigger]
                requested@.contains_key(text) ==> exists|name: NameView|
                    {
                        &&& #[trigger] workspaces.contains_key(name)
                        &&& workspaces[name].unresolved_external_dependencies is Some
                        &&& path::unix_text(workspaces[name].package_json_path@.drop_last()) == text
                        &&& requested@[text]@.dom() == workspaces[name].unresolved_external_dependencies->0@.dom()
                        &&& forall|dependency: Seq<char>| #[trigger]
                            requested@[text]@.contains_key(dependency) ==> requested@[text]@[dependency]@
                                == workspaces[name].unresolved_external_dependencies->0@[dependency]@
                    }
            &&& forall|name: NameView| #[trigger]
                workspaces.contains_key(name) && workspaces[name].unresolved_external_dependencies is Some
                    ==> requested@.contains_key(path::unix_text(workspaces[name].package_json_path@.drop_last()))
        }),
{
    let expected = changes::requested_by(workspaces, order);
    assert(expected.dom() =~= requested@.dom());
    assert forall|text: Seq<char>| #[trigger] requested@.contains_key(text) implies exists|
        name: NameView,
    |
        {
            &&& #[trigger] workspaces.contains_key(name)
            &&& workspaces[name].unresolved_external_dependencies is Some
            &&& path::unix_text(workspaces[name].package_json_path@.drop_last()) == text
            &&& requested@[text]@.dom() == workspaces[name].unresolved_external_dependencies->0@.dom()
            &&& forall|dependency: Seq<char>| #[trigger]
                requested@[text]@.contains_key(dependency) ==> requested@[text]@[dependency]@
                    == workspaces[name].unresolved_external_dependencies->0@[dependency]@
        } by {
        requested_at(workspaces, order, text);
        assert(expected.contains_key(text));
        let i = choose|i: int|
            {
                &&& 0 <= i < order.len()
                &&& workspaces[#[trigger] order[i]].unresolved_external_dependencies is Some
                &&& path::unix_text(workspaces[order[i]].package_json_path@.drop_last()) == text
                &&& expected[text] == lockfile::versions(
                    workspaces[order[i]].unresolved_external_dependencies->0,
                )
            };
        assert(order.to_set().contains(order[i]));
        assert(workspaces.contains_key(order[i]));
        versions_told_apart(
            requested@[text],
            workspaces[order[i]].unresolved_external_dependencies->0,
        );
    }
    assert forall|name: NameView| #[trigger]
        workspaces.contains_key(name)
            && workspaces[name].unresolved_external_dependencies is Some implies requested@.contains_key(
        path::unix_text(workspaces[name].package_json_path@.drop_last()),
    ) by {
        assert(order.to_set().contains(name));
        let i = choose|i: int| 0 <= i < order.len() && order[i] == name;
        let text = path::unix_text(workspaces[order[i]].package_json_path@.drop_last());
        requested_at(workspaces, order, text);
        assert(expected.contains_key(text));
    }
}

/// A lockfile is asked, at the path of each workspace that has external dependencies, for those of a
/// workspace with that path, with their versions, and for nothing at other paths.
pub proof fn requests_answered<J, M, L>(
    graph: &PackageGraph<J, M, L>,
    requested: VecMap<String, ExternalDependencies>,
)
    requires
        graph.wf(),
        call_ensures(PackageGraph::<J, M, L>::requested_dependencies, (graph,), requested),
    ensures
        ({
            &&& forall|text: Seq<char>| #[trigger]
                requested@.contains_key(text) ==> exists|name: NameView|
                    {
                        &&& #[trigger] graph@.workspaces.contains_key(name)
                        &&& graph@.workspaces[name].unresolved_external_dependencies is Some
                        &&& path::unix_text(graph@.workspaces[name].package_json_path@.drop_last()) == text
                        &&& requested@[text]@.dom() == graph@.workspaces[name].unresolved_external_dependencies->0@.dom()
                        &&& forall|dependency: Seq<char>| #[trigger]
                            requested@[text]@.contains_key(dependency) ==> requested@[text]@[dependency]@
                                == graph@.workspaces[name].unresolved_external_dependencies->0@[dependency]@
                    }
            &&& forall|name: NameView| #[trigger]
                graph@.workspaces.contains_key(name) && graph@.workspaces[name].unresolved_external_dependencies is Some
                    ==> requested@.contains_key(path::unix_text(graph@.workspaces[name].package_json_path@.drop_last()))
        }),
{
    graph.wf_is_valid();
    request_of_workspaces(graph@.workspaces, graph@.order, requested);
}

/// Without a lockfile the changed packages are not known. With one, the previous lockfile is asked
/// for the dependencies of all workspaces, by path; if it fails, its error is given; else the
/// present one is asked whether the change concerns every workspace, and the answer is that to what
/// both gave.
pub proof fn lockfile_changes_answered<J, M, L: Lockfile>(
    graph: &PackageGraph<J, M, L>,
    previous: &L,
    result: Result<Vec<WorkspaceName>, ChangedPackagesError<L::Error>>,
)
    requires
        graph.wf(),
        call_ensures(
            PackageGraph::<J, M, L>::changed_packages_from_lockfile,
            (graph, previous),
            result,
        ),
    ensures
        graph@.lockfile is None <==> (result matches Err(error) && error is NoLockfile),
        graph@.lockfile matches Some(current) ==> exists|
            requested: VecMap<String, ExternalDependencies>,
            closures: Result<VecMap<String, VecSet<Package>>, L::Error>,
        |
            {
                &&& #[trigger] call_ensures(
                    L::all_transitive_closures,
                    (previous, requested),
                    closures,
                )
                &&& forall|text: Seq<char>| #[trigger]
                    requested@.contains_key(text) ==> exists|name: NameView|
                        {
                            &&& #[trigger] graph@.workspaces.contains_key(name)
                            &&& graph@.workspaces[name].unresolved_external_dependencies is Some
                            &&& path::unix_text(graph@.workspaces[name].package_json_path@.drop_last()) == text
                            &&& requested@[text]@.dom() == graph@.workspaces[name].unresolved_external_dependencies->0@.dom()
                            &&& forall|dependency: Seq<char>| #[trigger]
                                requested@[text]@.contains_key(dependency) ==> requested@[text]@[dependency]@
                                    == graph@.workspaces[name].unresolved_external_dependencies->0@[dependency]@
                        }
                &&& forall|name: NameView| #[trigger]
                    graph@.workspaces.contains_key(name) && graph@.workspaces[name].unresolved_external_dependencies is Some
                        ==> requested@.contains_key(path::unix_text(graph@.workspaces[name].package_json_path@.drop_last()))
                &&& match closures {
                    Err(error) => result matches Err(ChangedPackagesError::Lockfile(given))
                        && given == error,
                    Ok(closures) => exists|global_change: bool|
                        {
                            &&& #[trigger] call_ensures(
                                L::global_change,
                                (&current, previous),
                                global_change,
                            )
                            &&& result matches Ok(names) && forall|changed: Vec<WorkspaceName>|
                                #[trigger]
                                call_ensures(
                                    PackageGraph::<J, M, L>::changed_packages,
                                    (graph, &closures, global_change),
                                    changed,
                                ) ==> names@.len() == changed@.len() && forall|i: int|
                                    0 <= i < names@.len() ==> (#[trigger] names@[i])@
                                        == changed@[i]@
                        },
                }
            },
{
    graph.wf_is_valid();
    if let Some(current) = graph@.lockfile {
        let (requested, closures) = choose|
            requested: VecMap<String, ExternalDependencies>,
            closures: Result<VecMap<String, VecSet<Package>>, L::Error>,
        |
            {
                &&& lockfile::versions_by_path(requested) == graph@.requested()
                &&& #[trigger] call_ensures(
                    L::all_transitive_closures,
                    (previous, requested),
                    closures,
                )
                &&& match closures {
                    Ok(closures) => exists|global_change: bool|
                        {
                            &&& #[trigger] call_ensures(
                                L::global_change,
                                (&current, previous),
                                global_change,
                            )
                            &&& result is Ok
                            &&& changes::name_views(result->Ok_0@) == graph@.changed_packages(
                                closures@,
                                global_change,
                            )
                        },
                    Err(error) => result == Err::<Vec<WorkspaceName>, _>(
                        ChangedPackagesError::Lockfile(error),
                    ),
                }
            };
        request_of_workspaces(graph@.workspaces, graph@.order, requested);
        if let Ok(closures) = closures {
            let global_change = choose|global_change: bool|
                {
                    &&& #[trigger] call_ensures(
                        L::global_change,
                        (&current, previous),
                        global_change,
                    )
                    &&& result is Ok
                    &&& changes::name_views(result->Ok_0@) == graph@.changed_packages(
                        closures@,
                        global_change,
                    )
                };
            let names = result->Ok_0;
            assert forall|changed: Vec<WorkspaceName>| #[trigger]
                call_ensures(
                    PackageGraph::<J, M, L>::changed_packages,
                    (graph, &closures, global_change),
                    changed,
                ) implies names@.len() == changed@.len() && forall|i: int|
                0 <= i < names@.len() ==> (#[trigger] names@[i])@ == changed@[i]@ by {
                let (x, y) = (changes::name_views(names@), changes::name_views(changed@));
                assert(x == y);
                assert(x.len() == names@.len());
                assert(y.len() == changed@.len());
                assert forall|i: int| 0 <= i < names@.len() implies (#[trigger] names@[i])@
                    == changed@[i]@ by {
                    assert(x[i] == y[i]);
                }
            }
        }
    }
}

/// Without a lockfile nothing is resolved. With one, it is asked for the dependencies of all
/// workspaces, by path; if it fails, its error is given; else what it gave for the path of a
/// workspace is on record for the workspace, and nothing else changes.
pub proof fn resolution_answered<J, M, L: Lockfile>(
    builder: PackageGraphBuilder<J, M, L>,
    result: Result<PackageGraphBuilder<J, M, L>, L::Error>,
)
    requires
        call_ensures(PackageGraphBuilder::<J, M, L>::resolve, (builder,), result),
    ensures
        builder@.lockfile is None ==> result == Ok::<_, L::Error>(builder),
        builder@.lockfile matches Some(present) ==> exists|
            requested: VecMap<String, ExternalDependencies>,
            closures: Result<VecMap<String, VecSet<Package>>, L::Error>,
        |
            {
                &&& #[trigger] call_ensures(
                    L::all_transitive_closures,
                    (&present, requested),
                    closures,
                )
                &&& forall|text: Seq<char>| #[trigger]
                    requested@.contains_key(text) ==> exists|name: NameView|
                        {
                            &&& #[trigger] builder@.workspaces.contains_key(name)
                            &&& builder@.workspaces[name].unresolved_external_dependencies is Some
                            &&& path::unix_text(builder@.workspaces[name].package_json_path@.drop_last()) == text
                            &&& requested@[text]@.dom() == builder@.workspaces[name].unresolved_external_dependencies->0@.dom()
                            &&& forall|dependency: Seq<char>| #[trigger]
                                requested@[text]@.contains_key(dependency) ==> requested@[text]@[dependency]@
                                    == builder@.workspaces[name].unresolved_external_dependencies->0@[dependency]@
                        }
                &&& forall|name: NameView| #[trigger]
                    builder@.workspaces.contains_key(name) && builder@.workspaces[name].unresolved_external_dependencies is Some
                        ==> requested@.contains_key(path::unix_text(builder@.workspaces[name].package_json_path@.drop_last()))
                &&& match closures {
                    Err(error) => result == Err::<PackageGraphBuilder<J, M, L>, _>(error),
                    Ok(closures) => result matches Ok(after) && {
                        &&& after@.workspaces.dom() == builder@.workspaces.dom()
                        &&& after@.order == builder@.order
                        &&& after@.dependencies == builder@.dependencies
                        &&& after@.package_manager == builder@.package_manager
                        &&& after@.lockfile == builder@.lockfile
                        &&& forall|name: NameView| #[trigger]
                            builder@.workspaces.contains_key(name) ==> {
                                let (before, info) = (
                                    builder@.workspaces[name],
                                    after@.workspaces[name],
                                );
                                let text = path::unix_text(before.package_json_path@.drop_last());
                                &&& info.package_json == before.package_json
                                &&& info.package_json_path == before.package_json_path
                                &&& info.unresolved_external_dependencies
                                    == before.unresolved_external_dependencies
                                &&& info.transitive_dependencies is Some
                                    <==> closures@.contains_key(text)
                                &&& info.transitive_dependencies matches Some(packages)
                                    ==> packages@ == closures@[text]@
                            }
                    },
                }
            },
{
    if let Some(present) = builder@.lockfile {
        let (requested, closures) = choose|
            requested: VecMap<String, ExternalDependencies>,
            closures: Result<VecMap<String, VecSet<Package>>, L::Error>,
        |
            {
                &&& lockfile::versions_by_path(requested) == builder@.graph().requested()
                &&& #[trigger] call_ensures(
                    L::all_transitive_closures,
                    (&present, requested),
                    closures,
                )
                &&& match closures {
                    Ok(closures) => result is Ok && builder@.is_resolved(
                        result->Ok_0@,
                        closures@,
                    ),
                    Err(error) => result == Err::<PackageGraphBuilder<J, M, L>, _>(error),
                }
            };
        request_of_workspaces(builder@.workspaces, builder@.order, requested);
    }
}

/// A graph whose dependencies were resolved with its lockfile makes the same request again, and
/// where no change concerns every workspace, no workspace needs to be revalidated for what the
/// lockfile gave.
pub proof fn resolved_graph_is_unchanged<J, M, L: Lockfile>(
    builder: PackageGraphBuilder<J, M, L>,
    present: L,
    after: PackageGraphBuilder<J, M, L>,
    graph: PackageGraph<J, M, L>,
)
    requires
        builder@.lockfile == Some(present),
        call_ensures(PackageGraphBuilder::<J, M, L>::resolve, (builder,), Ok(after)),
        call_ensures(PackageGraphBuilder::<J, M, L>::build, (after,), Ok(graph)),
    ensures
        exists|
            requested: VecMap<String, ExternalDependencies>,
            closures: VecMap<String, VecSet<Package>>,
        |
            {
                &&& #[trigger] call_ensures(
                    L::all_transitive_closures,
                    (&present, requested),
                    Ok(closures),
                )
                &&& forall|again: VecMap<String, ExternalDependencies>| #[trigger]
                    call_ensures(
                        PackageGraph::<J, M, L>::requested_dependencies,
                        (&graph,),
                        again,
                    ) ==> again@.dom() == requested@.dom() && forall|text: Seq<char>| #[trigger]
                        again@.contains_key(text) ==> {
                            &&& again@[text]@.dom() == requested@[text]@.dom()
                            &&& forall|dependency: Seq<char>| #[trigger]
                                again@[text]@.contains_key(dependency)
                                    ==> again@[text]@[dependency]@
                                    == requested@[text]@[dependency]@
                        }
                &&& forall|changed: Vec<WorkspaceName>| #[trigger]
                    call_ensures(
                        PackageGraph::<J, M, L>::changed_packages,
                        (&graph, &closures, false),
                        changed,
                    ) ==> changed@.len() == 0
            },
{
    graph.wf_is_valid();
    let result: Result<PackageGraphBuilder<J, M, L>, L::Error> = Ok(after);
    let (requested, answer) = choose|
        requested: VecMap<String, ExternalDependencies>,
        closures: Result<VecMap<String, VecSet<Package>>, L::Error>,
    |
        {
            &&& lockfile::versions_by_path(requested) == builder@.graph().requested()
            &&& #[trigger] call_ensures(
                L::all_transitive_closures,
                (&present, requested),
                closures,
            )
            &&& match closures {
                Ok(closures) => result is Ok && builder@.is_resolved(result->Ok_0@, closures@),
                Err(error) => result == Err::<PackageGraphBuilder<J, M, L>, _>(error),
            }
        };
    let closures = answer->Ok_0;
    assert(answer == Ok::<VecMap<String, VecSet<Package>>, L::Error>(closures));
    laws::resolved_is_unchanged(builder@, after@, closures@);
    assert forall|again: VecMap<String, ExternalDependencies>| #[trigger]
        call_ensures(
            PackageGraph::<J, M, L>::requested_dependencies,
            (&graph,),
            again,
        ) implies again@.dom() == requested@.dom() && forall|text: Seq<char>| #[trigger]
        again@.contains_key(text) ==> {
            &&& again@[text]@.dom() == requested@[text]@.dom()
            &&& forall|dependency: Seq<char>| #[trigger]
                again@[text]@.contains_key(dependency) ==> again@[text]@[dependency]@
                    == requested@[text]@[dependency]@
        } by {
        let (x, y) = (lockfile::versions_by_path(again), lockfile::versions_by_path(requested));
        assert(x == y);
        assert(x.dom() =~= again@.dom());
        assert(y.dom() =~= requested@.dom());
        assert forall|text: Seq<char>| #[trigger] again@.contains_key(text) implies {
            &&& again@[text]@.dom() == requested@[text]@.dom()
            &&& forall|dependency: Seq<char>| #[trigger]
                again@[text]@.contains_key(dependency) ==> again@[text]@[dependency]@
                    == requested@[text]@[dependency]@
        } by {
            assert(x[text] == y[text]);
            versions_told_apart(again@[text], requested@[text]);
        }
    }
    assert forall|changed: Vec<WorkspaceName>| #[trigger]
        call_ensures(
            PackageGraph::<J, M, L>::changed_packages,
            (&graph, &closures, false),
            changed,
        ) implies changed@.len() == 0 by {
        assert(changes::name_views(changed@).len() == changed@.len());
    }
}

} // verus!
