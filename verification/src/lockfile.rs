//! What the package graph asks of a lockfile.

use crate::collections::{VecMap, VecSet, ViewClone, ViewEq};
use crate::sorted_map::SortedMap;
use vstd::prelude::*;

verus! {

/// A package that a lockfile pins.
#[derive(Debug, PartialEq, Eq, PartialOrd, Ord, Hash)]
pub struct Package {
    pub key: String,
    pub version: String,
}

/// What a [`Package`] is.
pub struct PackageView {
    pub key: Seq<char>,
    pub version: Seq<char>,
}

impl View for Package {
    type V = PackageView;

    open spec fn view(&self) -> PackageView {
        PackageView { key: self.key@, version: self.version@ }
    }
}

impl Package {
    /// The package with the given key and version.
    pub fn new(key: &str, version: &str) -> (package: Self)
        ensures
            package@ == (PackageView { key: key@, version: version@ }),
    {
        Package { key: key.to_owned(), version: version.to_owned() }
    }
}

impl ViewEq for Package {
    fn view_eq(&self, other: &Self) -> (same: bool) {
        self.key == other.key && self.version == other.version
    }
}

impl ViewClone for Package {
    fn view_clone(&self) -> (copy: Self) {
        self.clone()
    }
}

impl Clone for Package {
    fn clone(&self) -> (copy: Self)
        ensures
            copy == *self,
    {
        Package { key: self.key.clone(), version: self.version.clone() }
    }
}

/// External dependencies of one workspace: the requested version of each package, walked in the order
/// of the packages' names.
pub type ExternalDependencies = SortedMap<String>;

/// The text of the version of each package, by the text of its name.
pub open spec fn versions(dependencies: ExternalDependencies) -> Map<Seq<char>, Seq<char>> {
    dependencies@.map_values(|version: String| version@)
}

/// The dependencies of each workspace as text, by the path of the workspace.
pub open spec fn versions_by_path(
    workspaces: VecMap<String, ExternalDependencies>,
) -> Map<Seq<char>, Map<Seq<char>, Seq<char>>> {
    workspaces@.map_values(|dependencies: ExternalDependencies| versions(dependencies))
}

/// A lockfile of some package manager.
pub trait Lockfile: Sized {
    /// Why a lockfile could not be traversed.
    type Error;

    /// The packages that each workspace depends on, directly or not, by the path of the
    /// workspace, given the external dependencies of each workspace by path.
    fn all_transitive_closures(
        &self,
        workspaces: VecMap<String, ExternalDependencies>,
    ) -> Result<VecMap<String, VecSet<Package>>, Self::Error>;

    /// Whether the lockfiles differ in a way that concerns every workspace.
    fn global_change(&self, other: &Self) -> bool;
}

/// Two packages have the same view just where their keys and their versions have the same texts.
pub proof fn packages_told_apart(a: Package, b: Package)
    ensures
        a@ == b@ <==> a.key@ == b.key@ && a.version@ == b.version@,
{
}

/// A package has the key and the version that it is made of.
pub proof fn package_is_made(key: &str, version: &str, package: Package)
    requires
        call_ensures(Package::new, (key, version), package),
    ensures
        package.key@ == key@,
        package.version@ == version@,
{
}

} // verus!
