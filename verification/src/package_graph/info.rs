//! What is known of one workspace.

use crate::collections::VecSet;
use crate::lockfile::{ExternalDependencies, Package};
use crate::path::{AnchoredSystemPath, AnchoredSystemPathBuf};
use vstd::prelude::*;

verus! {

/// What is known of one workspace. The contents of its `package.json` are carried along unread.
#[derive(Debug, PartialEq, Eq)]
pub struct WorkspaceInfo<PackageJson> {
    pub package_json: PackageJson,
    pub package_json_path: AnchoredSystemPathBuf,
    pub unresolved_external_dependencies: Option<ExternalDependencies>,
    pub transitive_dependencies: Option<VecSet<Package>>,
}

impl<PackageJson> WorkspaceInfo<PackageJson> {
    /// Whether `package_json_path` has at least one segment.
    pub open spec fn has_package_path(self) -> bool {
        self.package_json_path@.len() > 0
    }

    /// The path of the workspace, with slashes between its segments.
    pub open spec fn unix_path(self) -> Seq<char> {
        crate::path::unix_text(self.package_json_path@.drop_last())
    }

    /// The path of the workspace's `package.json`.
    pub fn package_json_path(&self) -> (path: AnchoredSystemPath<'_>)
        ensures
            path@ == self.package_json_path@,
    {
        self.package_json_path.as_path()
    }

    /// The path of the workspace, which is where its `package.json` lies. That path has at least
    /// one segment.
    pub fn package_path(&self) -> (path: AnchoredSystemPath<'_>)
        requires
            self.has_package_path(),
        ensures
            path@ == self.package_json_path@.drop_last(),
    {
        self.package_json_path.as_path().parent().expect("at least one segment")
    }
}

impl<PackageJson: Default> Default for WorkspaceInfo<PackageJson> {
    fn default() -> (info: Self)
        ensures
            info.package_json_path@.len() == 0,
            info.unresolved_external_dependencies is None,
            info.transitive_dependencies is None,
            call_ensures(PackageJson::default, (), info.package_json),
    {
        WorkspaceInfo {
            package_json: PackageJson::default(),
            package_json_path: AnchoredSystemPathBuf::default(),
            unresolved_external_dependencies: None,
            transitive_dependencies: None,
        }
    }
}

impl<PackageJson: Clone> Clone for WorkspaceInfo<PackageJson> {
    fn clone(&self) -> (copy: Self)
        ensures
            cloned(self.package_json, copy.package_json),
            copy.package_json_path@ == self.package_json_path@,
            copy.unresolved_external_dependencies is Some
                == self.unresolved_external_dependencies is Some,
            self.unresolved_external_dependencies matches Some(dependencies)
                ==> copy.unresolved_external_dependencies->0@.dom() == dependencies@.dom() && forall|
                name: Seq<char>,
            | #[trigger]
                dependencies@.contains_key(name)
                    ==> copy.unresolved_external_dependencies->0@[name]@ == dependencies@[name]@,
            copy.transitive_dependencies is Some == self.transitive_dependencies is Some,
            self.transitive_dependencies matches Some(packages)
                ==> copy.transitive_dependencies->0@ == packages@,
    {
        WorkspaceInfo {
            package_json: self.package_json.clone(),
            package_json_path: self.package_json_path.clone(),
            unresolved_external_dependencies: match &self.unresolved_external_dependencies {
                Some(dependencies) => Some(dependencies.clone()),
                None => None,
            },
            transitive_dependencies: match &self.transitive_dependencies {
                Some(packages) => Some(packages.clone()),
                None => None,
            },
        }
    }
}

/// The path of a workspace is that of its `package.json` without the last segment.
pub proof fn package_path_is_parent<J>(
    info: &WorkspaceInfo<J>,
    file: AnchoredSystemPath<'_>,
    dir: AnchoredSystemPath<'_>,
    parent: Option<AnchoredSystemPath<'_>>,
    text: String,
)
    requires
        info.package_json_path@.len() > 0,
        call_ensures(WorkspaceInfo::<J>::package_json_path, (info,), file),
        call_ensures(WorkspaceInfo::<J>::package_path, (info,), dir),
        call_ensures(AnchoredSystemPath::parent, (&file,), parent),
        call_ensures(AnchoredSystemPath::to_unix, (&dir,), text),
    ensures
        file@ == info.package_json_path@,
        info.package_json_path@ == dir@.push(info.package_json_path@.last()),
        parent matches Some(parent) && parent@ == dir@,
        info.unix_path() == text@,
{
    let path = info.package_json_path@;
    assert(path =~= path.drop_last().push(path.last()));
}

/// A copy of what is known of a workspace says the same.
pub proof fn copied_info_is_the_same<J: Clone>(
    info: &WorkspaceInfo<J>,
    copy: WorkspaceInfo<J>,
    name: Seq<char>,
)
    requires
        call_ensures(<WorkspaceInfo<J> as Clone>::clone, (info,), copy),
    ensures
        cloned(info.package_json, copy.package_json),
        copy.package_json_path@ == info.package_json_path@,
        match info.unresolved_external_dependencies {
            Some(known) => copy.unresolved_external_dependencies matches Some(dependencies) && {
                &&& dependencies@.contains_key(name) <==> known@.contains_key(name)
                &&& known@.contains_key(name) ==> dependencies@[name]@ == known@[name]@
            },
            None => copy.unresolved_external_dependencies is None,
        },
        match info.transitive_dependencies {
            Some(known) => copy.transitive_dependencies matches Some(packages) && packages@
                == known@,
            None => copy.transitive_dependencies is None,
        },
{
    if let Some(known) = info.unresolved_external_dependencies {
        let dependencies = copy.unresolved_external_dependencies->0;
        assert(dependencies@.dom().contains(name) <==> known@.dom().contains(name));
    }
}

/// By default nothing is known of a workspace.
pub proof fn default_info_is_empty<J: Default>(info: WorkspaceInfo<J>)
    requires
        call_ensures(<WorkspaceInfo<J> as Default>::default, (), info),
    ensures
        info.package_json_path@.len() == 0,
        info.unresolved_external_dependencies is None,
        info.transitive_dependencies is None,
        call_ensures(J::default, (), info.package_json),
{
}

} // verus!
