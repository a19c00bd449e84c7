//! External dependencies, and which packages a change of lockfile concerns.

use super::{PackageGraph, PackageGraphView, WorkspaceInfo, WorkspaceName};
use crate::collections::{VecMap, VecSet, ViewEq};
use crate::lockfile;
use crate::lockfile::{ExternalDependencies, Lockfile, Package, PackageView};
use crate::name::NameView;
use vstd::prelude::*;

verus! {

/// Why the changed packages cannot be told.
#[derive(Debug, PartialEq, Eq)]
pub enum ChangedPackagesError<E> {
    /// The package graph has no lockfile.
    NoLockfile,
    /// The previous lockfile could not be traversed.
    Lockfile(E),
}

/// The names as views.
pub open spec fn name_views(names: Seq<WorkspaceName>) -> Seq<NameView> {
    names.map_values(|name: WorkspaceName| name@)
}

impl<PackageJson> WorkspaceInfo<PackageJson> {
    /// The packages that the workspace is known to depend on, directly or not.
    pub open spec fn packages(self) -> Option<Set<PackageView>> {
        match self.transitive_dependencies {
            Some(packages) => Some(packages@),
            None => None,
        }
    }

    /// Whether the packages that the workspace depends on are others than those that `closures` has
    /// for its path. To have none on record differs from having an empty set of them.
    pub open spec fn is_changed(self, closures: Map<Seq<char>, VecSet<Package>>) -> bool {
        self.packages() != if closures.contains_key(self.unix_path()) {
            Some(closures[self.unix_path()]@)
        } else {
            None
        }
    }
}

impl<PackageJson, PackageManager, L> PackageGraphView<PackageJson, PackageManager, L> {
    /// Whether a workspace is in the graph and depends on a package, directly or not.
    pub open spec fn has_package(self, name: NameView, package: PackageView) -> bool {
        &&& self.workspaces.contains_key(name)
        &&& self.workspaces[name].packages() matches Some(packages)
        &&& packages.contains(package)
    }

    /// The packages that some of the given workspaces depends on, directly or not.
    pub open spec fn external_packages(self, names: Set<NameView>) -> Set<PackageView> {
        Set::new(
            |package: PackageView|
                exists|name: NameView| names.contains(name) && #[trigger] self.has_package(
                    name,
                    package,
                ),
        )
    }

    /// Whether every workspace that asks for external dependencies has a path.
    pub open spec fn has_requested_paths(self) -> bool {
        forall|name: NameView| #[trigger]
            self.workspaces.contains_key(name)
                && self.workspaces[name].unresolved_external_dependencies is Some
                ==> self.workspaces[name].has_package_path()
    }

    /// Whether every workspace has a path.
    pub open spec fn has_package_paths(self) -> bool {
        forall|name: NameView| #[trigger]
            self.workspaces.contains_key(name) ==> self.workspaces[name].has_package_path()
    }

    /// The external dependencies that each workspace asks for, by the path of the workspace. Where
    /// several share a path, the last in the order counts.
    pub open spec fn requested(self) -> Map<Seq<char>, Map<Seq<char>, Seq<char>>> {
        requested_by(self.workspaces, self.order)
    }

    /// The workspaces that have changed, in order.
    pub open spec fn changed(self, closures: Map<Seq<char>, VecSet<Package>>) -> Seq<NameView> {
        self.order.filter(|name: NameView| self.workspaces[name].is_changed(closures))
    }

    /// The workspaces that need to be revalidated, in order: all of them where the change concerns
    /// every workspace or the root has changed, else those that have changed.
    pub open spec fn changed_packages(
        self,
        closures: Map<Seq<char>, VecSet<Package>>,
        global_change: bool,
    ) -> Seq<NameView> {
        if global_change || self.changed(closures).contains(NameView::Root) {
            self.order
        } else {
            self.changed(closures)
        }
    }
}

/// The external dependencies that the workspaces in `order` ask for, by path.
pub open spec fn requested_by<PackageJson>(
    workspaces: Map<NameView, WorkspaceInfo<PackageJson>>,
    order: Seq<NameView>,
) -> Map<Seq<char>, Map<Seq<char>, Seq<char>>>
    decreases order.len(),
{
    if order.len() == 0 {
        Map::empty()
    } else {
        let others = requested_by(workspaces, order.drop_last());
        let info = workspaces[order.last()];
        match info.unresolved_external_dependencies {
            Some(dependencies) => others.insert(
                info.unix_path(),
                lockfile::versions(dependencies),
            ),
            None => others,
        }
    }
}

impl<PackageJson, PackageManager, L> PackageGraph<PackageJson, PackageManager, L> {
    /// The packages that some of the given workspaces depends on, directly or not. Workspaces that
    /// are not in the graph are passed over.
    pub fn transitive_external_dependencies<'a>(
        &'a self,
        workspaces: &[&WorkspaceName],
    ) -> (packages: VecSet<&'a Package>)
        ensures
            packages@ == self@.external_packages(crate::collections::view_set(workspaces@)),
    {
        let mut packages: VecSet<&'a Package> = VecSet::new();
        let mut i: usize = 0;
        while i < workspaces.len()
            invariant
                i <= workspaces@.len(),
                forall|package: PackageView| #[trigger]
                    packages@.contains(package) <==> exists|k: int|
                        0 <= k < i && self@.has_package((#[trigger] workspaces@[k])@, package),
            decreases workspaces@.len() - i,
        {
            let ghost before = packages@;
            let ghost name = workspaces@[i as int]@;
            if let Some(entry) = self.workspaces.get(workspaces[i]) {
                if let Some(dependencies) = &entry.transitive_dependencies {
                    insert_all(&mut packages, dependencies);
                }
            }
            proof {
                assert forall|package: PackageView| #[trigger]
                    packages@.contains(package) <==> before.contains(package) || self@.has_package(
                        name,
                        package,
                    ) by {}
                assert forall|package: PackageView| #[trigger]
                    packages@.contains(package) implies exists|k: int|
                    0 <= k < i + 1 && self@.has_package((#[trigger] workspaces@[k])@, package) by {
                    if before.contains(package) {
                    } else {
                        assert(self@.has_package(workspaces@[i as int]@, package));
                    }
                }
            }
            i = i + 1;
        }
        proof {
            let names = crate::collections::view_set(workspaces@);
            let expected = self@.external_packages(names);
            assert forall|package: PackageView| packages@.contains(
                package,
            ) implies expected.contains(package) by {
                let k = choose|k: int|
                    0 <= k < workspaces@.len() && self@.has_package(
                        (#[trigger] workspaces@[k])@,
                        package,
                    );
                assert(names.contains(workspaces@[k]@));
            }
            assert forall|package: PackageView| expected.contains(
                package,
            ) implies packages@.contains(package) by {
                let name = choose|name: NameView|
                    names.contains(name) && #[trigger] self@.has_package(name, package);
                let k = choose|k: int|
                    0 <= k < workspaces@.len() && (#[trigger] workspaces@[k])@ == name;
                assert(self@.has_package(workspaces@[k]@, package));
            }
            assert(packages@ =~= expected);
        }
        packages
    }

    /// The external dependencies that each workspace asks for, by the path of the workspace: what a
    /// lockfile is asked to resolve.
    pub fn requested_dependencies(&self) -> (requested: VecMap<String, ExternalDependencies>)
        requires
            self@.has_requested_paths(),
        ensures
            lockfile::versions_by_path(requested) == self@.requested(),
    {
        requested_of(&self.workspaces)
    }

    /// The names of all workspaces, in order.
    fn workspace_names(&self) -> (names: Vec<WorkspaceName>)
        ensures
            name_views(names@) == self@.order,
    {
        let mut names: Vec<WorkspaceName> = Vec::new();
        let len = self.workspaces.len();
        let mut i: usize = 0;
        while i < len
            invariant
                len == self@.order.len(),
                i <= len,
                names@.len() == i,
                forall|k: int| 0 <= k < i ==> (#[trigger] names@[k])@ == self@.order[k],
            decreases len - i,
        {
            let (name, _info) = self.workspaces.entry(i);
            names.push(name.clone());
            i = i + 1;
        }
        assert(name_views(names@) =~= self@.order);
        names
    }

    /// The workspaces that need to be revalidated, given the packages that each depended on by the
    /// previous lockfile, by path, and whether the lockfiles differ in a way that concerns every
    /// workspace.
    pub fn changed_packages(
        &self,
        closures: &VecMap<String, VecSet<Package>>,
        global_change: bool,
    ) -> (changed: Vec<WorkspaceName>)
        requires
            !global_change ==> self@.has_package_paths(),
        ensures
            name_views(changed@) == self@.changed_packages(closures@, global_change),
    {
        if global_change {
            return self.workspace_names();
        }
        let ghost is_changed = |name: NameView| self@.workspaces[name].is_changed(closures@);
        let mut changed: Vec<WorkspaceName> = Vec::new();
        let len = self.workspaces.len();
        let mut i: usize = 0;
        proof {
            reveal(Seq::filter);
            assert(name_views(changed@) =~= self@.order.take(0).filter(is_changed));
        }
        while i < len
            invariant
                self@.has_package_paths(),
                !global_change,
                is_changed == |name: NameView| self@.workspaces[name].is_changed(closures@),
                len == self@.order.len(),
                i <= len,
                name_views(changed@) == self@.order.take(i as int).filter(is_changed),
                !name_views(changed@).contains(NameView::Root),
            decreases len - i,
        {
            let (name, info) = self.workspaces.entry(i);
            let ghost fewer = self@.order.take(i as int);
            let ghost more = self@.order.take(i + 1);
            let ghost before = changed@;
            proof {
                reveal(Seq::filter);
                assert(more.drop_last() =~= fewer);
                assert(more.last() == name@);
            }
            let path = info.package_path().to_unix();
            let differs = match (closures.get(&path), &info.transitive_dependencies) {
                (Some(closure), Some(packages)) => !closure.view_eq(packages),
                (None, None) => false,
                _ => true,
            };
            assert(differs == is_changed(name@));
            if differs {
                match name {
                    // every package needs to be revalidated once the root package has changed
                    WorkspaceName::Root => {
                        proof {
                            assert(self@.order[i as int] == name@);
                            self@.order.lemma_filter_contains(is_changed, i as int);
                            assert(self@.changed(closures@).contains(NameView::Root));
                        }
                        return self.workspace_names();
                    },
                    WorkspaceName::Other(other) => {
                        changed.push(WorkspaceName::Other(other.clone()));
                        proof {
                            assert(name_views(changed@) =~= name_views(before).push(name@));
                            assert(name_views(changed@) == more.filter(is_changed));
                            if name_views(changed@).contains(NameView::Root) {
                                let k = choose|k: int|
                                    0 <= k < changed@.len() && name_views(changed@)[k]
                                        == NameView::Root;
                                assert(k < before.len());
                                assert(name_views(before)[k] == NameView::Root);
                                assert(name_views(before).contains(NameView::Root));
                            }
                        }
                    },
                }
            }
            i = i + 1;
        }
        assert(self@.order.take(i as int) =~= self@.order);
        changed
    }
}

impl<PackageJson, PackageManager, L: Lockfile> PackageGraph<PackageJson, PackageManager, L> {
    /// Whether `result` is an answer to which packages have changed since `previous`, where the
    /// package graph has the lockfile `current`: `previous` was asked for the closures of the
    /// requested dependencies, and, unless that failed, `current` whether the change is a global
    /// one.
    pub open spec fn is_answer(
        self,
        current: L,
        previous: &L,
        result: Result<Vec<WorkspaceName>, ChangedPackagesError<L::Error>>,
    ) -> bool {
        exists|
            requested: VecMap<String, ExternalDependencies>,
            closures: Result<VecMap<String, VecSet<Package>>, L::Error>,
        |
            {
                &&& lockfile::versions_by_path(requested) == self@.requested()
                &&& #[trigger] call_ensures(
                    L::all_transitive_closures,
                    (previous, requested),
                    closures,
                )
                &&& match closures {
                    Ok(closures) => exists|global_change: bool|
                        {
                            &&& #[trigger] call_ensures(
                                L::global_change,
                                (&current, previous),
                                global_change,
                            )
                            &&& result is Ok
                            &&& name_views(result->Ok_0@) == self@.changed_packages(
                                closures@,
                                global_change,
                            )
                        },
                    Err(error) => result == Err::<Vec<WorkspaceName>, _>(
                        ChangedPackagesError::Lockfile(error),
                    ),
                }
            }
    }

    /// Returns a list of changed packages based on the contents of a previous `Lockfile`. This
    /// assumes that none of the package.json in the workspace change, it is the responsibility of
    /// the caller to verify this. Every workspace that asks for external dependencies has a path,
    /// and so has every other, unless the change is certain to be a global one or the previous
    /// lockfile is certain to fail.
    pub fn changed_packages_from_lockfile(&self, previous: &L) -> (result: Result<
        Vec<WorkspaceName>,
        ChangedPackagesError<L::Error>,
    >)
        requires
            self@.lockfile matches Some(current) ==> self@.has_requested_paths() && (
            self@.has_package_paths() || (forall|global_change: bool| #[trigger]
                call_ensures(L::global_change, (&current, previous), global_change)
                    ==> global_change) || (forall|
                requested: VecMap<String, ExternalDependencies>,
                closures: Result<VecMap<String, VecSet<Package>>, L::Error>,
            |
                lockfile::versions_by_path(requested) == self@.requested()
                    && #[trigger] call_ensures(
                    L::all_transitive_closures,
                    (previous, requested),
                    closures,
                ) ==> closures is Err)),
        ensures
            self@.lockfile is None <==> result == Err::<Vec<WorkspaceName>, _>(
                ChangedPackagesError::<L::Error>::NoLockfile,
            ),
            self@.lockfile matches Some(current) ==> self.is_answer(current, previous, result),
    {
        let current = match self.lockfile() {
            Some(current) => current,
            None => {
                return Err(ChangedPackagesError::NoLockfile);
            },
        };
        let closures = match previous.all_transitive_closures(self.requested_dependencies()) {
            Ok(closures) => closures,
            Err(error) => {
                return Err(ChangedPackagesError::Lockfile(error));
            },
        };
        let global_change = current.global_change(previous);
        Ok(self.changed_packages(&closures, global_change))
    }
}

/// The external dependencies that each workspace asks for, by the path of the workspace.
pub(crate) fn requested_of<PackageJson>(
    workspaces: &VecMap<WorkspaceName, WorkspaceInfo<PackageJson>>,
) -> (requested: VecMap<String, ExternalDependencies>)
    requires
        forall|name: NameView| #[trigger]
            workspaces@.contains_key(name)
                && workspaces@[name].unresolved_external_dependencies is Some
                ==> workspaces@[name].has_package_path(),
    ensures
        lockfile::versions_by_path(requested) == requested_by(workspaces@, workspaces.order()),
{
    let mut requested: VecMap<String, ExternalDependencies> = VecMap::new();
    let ghost order = workspaces.order();
    let len = workspaces.len();
    let mut i: usize = 0;
    assert(lockfile::versions_by_path(requested) =~= Map::empty());
    while i < len
        invariant
            forall|name: NameView| #[trigger]
                workspaces@.contains_key(name)
                    && workspaces@[name].unresolved_external_dependencies is Some
                    ==> workspaces@[name].has_package_path(),
            order == workspaces.order(),
            len == order.len(),
            i <= len,
            lockfile::versions_by_path(requested) == requested_by(
                workspaces@,
                order.take(i as int),
            ),
        decreases len - i,
    {
        let (_name, info) = workspaces.entry(i);
        let ghost before = requested;
        assert(order.take(i + 1).drop_last() =~= order.take(i as int));
        assert(order.take(i + 1).last() == order[i as int]);
        if let Some(dependencies) = &info.unresolved_external_dependencies {
            let copy = dependencies.clone();
            requested.insert(info.package_path().to_unix(), copy);
            proof {
                assert(lockfile::versions(copy) =~= lockfile::versions(*dependencies));
                assert(lockfile::versions_by_path(requested) =~= lockfile::versions_by_path(
                    before,
                ).insert(info.unix_path(), lockfile::versions(copy)));
            }
        }
        i = i + 1;
    }
    assert(order.take(i as int) =~= order);
    requested
}

/// Inserts references to all elements of a set into another.
fn insert_all<'a>(packages: &mut VecSet<&'a Package>, more: &'a VecSet<Package>)
    ensures
        final(packages)@ == old(packages)@.union(more@),
{
    let items = more.items();
    let mut i: usize = 0;
    while i < items.len()
        invariant
            i <= items@.len(),
            forall|package: PackageView| #[trigger]
                packages@.contains(package) <==> old(packages)@.contains(package) || exists|k: int|
                    0 <= k < i && (#[trigger] items@[k])@ == package,
        decreases items@.len() - i,
    {
        let ghost before = packages@;
        packages.insert(&items[i]);
        proof {
            assert forall|package: PackageView| #[trigger]
                packages@.contains(package) implies old(packages)@.contains(package) || exists|k: int|
                0 <= k < i + 1 && (#[trigger] items@[k])@ == package by {
                if before.contains(package) {
                } else {
                    assert(items@[i as int]@ == package);
                }
            }
        }
        i = i + 1;
    }
    assert(packages@ =~= old(packages)@.union(more@));
}

} // verus!
