use std::cell::RefCell;
use std::collections::BTreeMap;

use turborepo_repository::collections::{VecMap, VecSet};
use turborepo_repository::lockfile::{ExternalDependencies, Lockfile, Package};
use turborepo_repository::package_graph::{
    ChangedPackagesError, PackageGraph, PackageGraphBuilder, WorkspaceInfo, WorkspaceName,
};
use turborepo_repository::path::AnchoredSystemPathBuf;
use turborepo_repository::sorted_map::SortedMap;

/// Answers as it is told to and records what it is asked.
#[derive(Default)]
struct Answers {
    closures: Vec<(&'static str, Vec<Package>)>,
    fails: bool,
    global: bool,
    asked: RefCell<Vec<(String, String, String)>>,
}

impl Lockfile for Answers {
    type Error = &'static str;

    fn all_transitive_closures(
        &self,
        workspaces: VecMap<String, ExternalDependencies>,
    ) -> Result<VecMap<String, VecSet<Package>>, &'static str> {
        for i in 0..workspaces.len() {
            let (path, dependencies) = workspaces.entry(i);
            for j in 0..dependencies.len() {
                let (name, version) = dependencies.entry(j);
                self.asked
                    .borrow_mut()
                    .push((path.clone(), name.clone(), version.clone()));
            }
        }
        if self.fails {
            return Err("broken");
        }
        let mut closures = VecMap::new();
        for (path, packages) in &self.closures {
            closures.insert(path.to_string(), set(packages));
        }
        Ok(closures)
    }

    fn global_change(&self, other: &Self) -> bool {
        self.global != other.global
    }
}

fn set(packages: &[Package]) -> VecSet<Package> {
    let mut set = VecSet::new();
    for package in packages {
        set.insert(package.clone());
    }
    set
}

fn package(key: &str) -> Package {
    Package::new(key, "1")
}

fn info(
    dir: &[&str],
    requested: Option<&[(&str, &str)]>,
    packages: Option<&[Package]>,
) -> WorkspaceInfo<()> {
    let mut segments: Vec<String> = dir.iter().map(|segment| segment.to_string()).collect();
    segments.push("package.json".to_string());
    WorkspaceInfo {
        package_json: (),
        package_json_path: AnchoredSystemPathBuf::new(segments),
        unresolved_external_dependencies: requested.map(|requested| {
            let mut map = SortedMap::new();
            for (name, version) in requested {
                map.insert(name.to_string(), version.to_string());
            }
            map
        }),
        transitive_dependencies: packages.map(set),
    }
}

fn graph(lockfile: Option<Answers>) -> PackageGraph<(), (), Answers> {
    let builder: PackageGraphBuilder<(), (), Answers> = PackageGraph::builder((), ());
    builder
        .with_workspace(
            "a".into(),
            info(&["packages", "a"], Some(&[("x", "^1")]), Some(&[package("x")])),
        )
        .with_workspace(
            "b".into(),
            info(&["packages", "b"], Some(&[("y", "2")]), Some(&[package("y")])),
        )
        .with_workspace("c".into(), info(&["c"], None, None))
        .with_lockfile(lockfile)
        .build()
        .unwrap()
}

fn same() -> Vec<(&'static str, Vec<Package>)> {
    vec![
        ("packages/a", vec![package("x")]),
        ("packages/b", vec![package("y")]),
    ]
}

fn texts(names: Result<Vec<WorkspaceName>, ChangedPackagesError<&'static str>>) -> Vec<String> {
    names
        .unwrap()
        .iter()
        .map(|name| name.to_string())
        .collect()
}

#[test]
fn without_a_lockfile_changes_are_unknown() {
    let previous = Answers::default();
    assert_eq!(
        graph(None).changed_packages_from_lockfile(&previous),
        Err(ChangedPackagesError::NoLockfile)
    );
    assert!(previous.asked.borrow().is_empty());
}

#[test]
fn a_broken_lockfile_is_reported() {
    let previous = Answers {
        fails: true,
        ..Default::default()
    };
    assert_eq!(
        graph(Some(Answers::default())).changed_packages_from_lockfile(&previous),
        Err(ChangedPackagesError::Lockfile("broken"))
    );
}

#[test]
fn the_previous_lockfile_is_asked_for_the_requested_dependencies() {
    let previous = Answers::default();
    let _ = graph(Some(Answers::default())).changed_packages_from_lockfile(&previous);
    let asked = |path: &str, name: &str, version: &str| {
        (path.to_string(), name.to_string(), version.to_string())
    };
    assert_eq!(
        *previous.asked.borrow(),
        [asked("packages/a", "x", "^1"), asked("packages/b", "y", "2")]
    );
}

#[test]
fn nothing_changes_where_the_closures_are_the_same() {
    let previous = Answers {
        closures: same(),
        ..Default::default()
    };
    let graph = graph(Some(Answers::default()));
    assert!(texts(graph.changed_packages_from_lockfile(&previous)).is_empty());
}

#[test]
fn the_order_of_packages_does_not_matter() {
    let builder: PackageGraphBuilder<(), (), Answers> = PackageGraph::builder((), ());
    let graph = builder
        .with_workspace(
            "a".into(),
            info(&["a"], None, Some(&[package("x"), package("y")])),
        )
        .with_lockfile(Some(Answers::default()))
        .build()
        .unwrap();
    let previous = Answers {
        closures: vec![("a", vec![package("y"), package("x"), package("y")])],
        ..Default::default()
    };
    assert!(texts(graph.changed_packages_from_lockfile(&previous)).is_empty());
}

#[test]
fn workspaces_with_other_closures_have_changed() {
    let mut closures = same();
    closures[1].1 = vec![package("z")];
    let previous = Answers {
        closures,
        ..Default::default()
    };
    let graph = graph(Some(Answers::default()));
    assert_eq!(texts(graph.changed_packages_from_lockfile(&previous)), ["b"]);
}

#[test]
fn a_missing_closure_differs_from_an_empty_one() {
    let mut closures = same();
    closures.push(("c", vec![]));
    let previous = Answers {
        closures,
        ..Default::default()
    };
    let graph = graph(Some(Answers::default()));
    assert_eq!(texts(graph.changed_packages_from_lockfile(&previous)), ["c"]);

    let previous = Answers {
        closures: vec![("packages/a", vec![package("x")])],
        ..Default::default()
    };
    assert_eq!(texts(graph.changed_packages_from_lockfile(&previous)), ["b"]);
}

#[test]
fn a_changed_root_changes_everything() {
    let mut closures = same();
    closures.push(("", vec![package("tool")]));
    let previous = Answers {
        closures,
        ..Default::default()
    };
    let graph = graph(Some(Answers::default()));
    assert_eq!(
        texts(graph.changed_packages_from_lockfile(&previous)),
        ["//", "a", "b", "c"]
    );
}

#[test]
fn a_global_change_changes_everything() {
    let previous = Answers {
        closures: same(),
        global: true,
        ..Default::default()
    };
    let graph = graph(Some(Answers::default()));
    assert_eq!(
        texts(graph.changed_packages_from_lockfile(&previous)),
        ["//", "a", "b", "c"]
    );
}

#[test]
fn a_global_change_needs_no_path_where_nothing_is_requested() {
    let builder: PackageGraphBuilder<(), (), Answers> = PackageGraph::builder((), ());
    let graph = builder
        .with_workspace("a".into(), info(&["a"], Some(&[("x", "1")]), None))
        .with_workspace("b".into(), WorkspaceInfo::default())
        .with_lockfile(Some(Answers::default()))
        .build()
        .unwrap();
    let previous = Answers {
        global: true,
        ..Default::default()
    };
    assert_eq!(
        texts(graph.changed_packages_from_lockfile(&previous)),
        ["//", "a", "b"]
    );
    assert_eq!(
        *previous.asked.borrow(),
        [("a".to_string(), "x".to_string(), "1".to_string())]
    );
}

#[test]
fn requested_dependencies_come_in_the_order_of_their_names() {
    let requested = [
        ("zod", "3"),
        ("@types/node", "20"),
        ("Ajv", "8"),
        ("a-b", "2"),
        ("a", "1"),
        ("\u{e9}tude", "4"),
        ("zod", "4"),
    ];
    let builder: PackageGraphBuilder<(), (), Answers> = PackageGraph::builder((), ());
    let graph = builder
        .with_workspace("a".into(), info(&["a"], Some(&requested), None))
        .with_lockfile(Some(Answers::default()))
        .build()
        .unwrap();
    let dependencies = graph.external_dependencies(&"a".into()).unwrap();
    let sorted: BTreeMap<String, String> = requested
        .iter()
        .map(|(name, version)| (name.to_string(), version.to_string()))
        .collect();
    let walked: Vec<(&String, &String)> = (0..dependencies.len())
        .map(|i| dependencies.entry(i))
        .collect();
    assert_eq!(walked, sorted.iter().collect::<Vec<_>>());
    let names: Vec<&str> = walked.iter().map(|(name, _version)| name.as_str()).collect();
    assert_eq!(
        names,
        ["@types/node", "Ajv", "a", "a-b", "zod", "\u{e9}tude"]
    );
    assert_eq!(dependencies.get(&"zod".to_string()), Some(&"4".to_string()));

    let previous = Answers::default();
    let _ = graph.changed_packages_from_lockfile(&previous);
    let asked: Vec<String> = previous
        .asked
        .borrow()
        .iter()
        .map(|(_path, name, _version)| name.clone())
        .collect();
    assert_eq!(asked, names);
}

#[test]
fn equal_dependencies_are_walked_alike() {
    let from = |requested: &[(&str, &str)]| {
        info(&["a"], Some(requested), None)
            .unresolved_external_dependencies
            .unwrap()
    };
    let one = from(&[("x", "1"), ("y", "2")]);
    let other = from(&[("y", "2"), ("x", "1")]);
    assert_eq!(one, other);
    assert_eq!(one.clone(), one);
    assert_eq!(one.entry(0), other.entry(0));
    assert_eq!(one.entry(1), other.entry(1));
    assert_ne!(one, from(&[("x", "1"), ("y", "3")]));
    assert_ne!(one, from(&[("x", "1")]));
}

#[test]
fn resolved_packages_are_unchanged() {
    let lockfile = || Answers {
        closures: same(),
        ..Default::default()
    };
    let builder: PackageGraphBuilder<(), (), Answers> = PackageGraph::builder((), ());
    let builder = builder
        .with_workspace("a".into(), info(&["packages", "a"], Some(&[("x", "^1")]), None))
        .with_workspace("c".into(), info(&["c"], None, Some(&[package("old")])))
        .with_lockfile(Some(lockfile()));
    let graph = builder.resolve().unwrap().build().unwrap();
    let of = |name: &str| graph.workspace_info(&name.into()).unwrap();
    assert_eq!(of("a").transitive_dependencies, Some(set(&[package("x")])));
    assert_eq!(of("c").transitive_dependencies, None);
    assert_eq!(
        *graph.lockfile().unwrap().asked.borrow(),
        [("packages/a".to_string(), "x".to_string(), "^1".to_string())]
    );
    assert!(texts(graph.changed_packages_from_lockfile(&lockfile())).is_empty());
}

#[test]
fn a_lockfile_that_fails_resolves_nothing() {
    let builder: PackageGraphBuilder<(), (), Answers> = PackageGraph::builder((), ());
    let result = builder
        .with_lockfile(Some(Answers {
            fails: true,
            ..Default::default()
        }))
        .resolve();
    assert_eq!(result.err(), Some("broken"));
}

#[test]
fn a_failing_lockfile_is_reported_where_a_path_is_missing() {
    let builder: PackageGraphBuilder<(), (), Answers> = PackageGraph::builder((), ());
    let graph = builder
        .with_workspace("b".into(), WorkspaceInfo::default())
        .with_lockfile(Some(Answers::default()))
        .build()
        .unwrap();
    let previous = Answers {
        fails: true,
        ..Default::default()
    };
    assert_eq!(
        graph.changed_packages_from_lockfile(&previous),
        Err(ChangedPackagesError::Lockfile("broken"))
    );
}

#[test]
fn results_decide_without_a_lockfile() {
    let graph = graph(None);
    let names = |closures: &VecMap<String, VecSet<Package>>, global: bool| {
        texts(Ok(graph.changed_packages(closures, global)))
    };
    let mut closures = VecMap::new();
    closures.insert("packages/a".to_string(), set(&[package("x")]));
    assert_eq!(names(&closures, false), ["b"]);
    assert_eq!(names(&closures, true), ["//", "a", "b", "c"]);
}

#[test]
fn shared_paths_ask_for_the_last_workspace() {
    let builder: PackageGraphBuilder<(), (), Answers> = PackageGraph::builder((), ());
    let graph = builder
        .with_workspace("a".into(), info(&["dir"], Some(&[("x", "1")]), None))
        .with_workspace("b".into(), info(&["dir"], Some(&[("y", "2")]), None))
        .build()
        .unwrap();
    let requested = graph.requested_dependencies();
    assert_eq!(requested.len(), 1);
    let dependencies = requested.get(&"dir".to_string()).unwrap();
    assert_eq!(dependencies.get(&"y".to_string()), Some(&"2".to_string()));
    assert_eq!(dependencies.get(&"x".to_string()), None);
}

#[test]
fn external_dependencies_are_those_of_the_workspace() {
    let graph = graph(None);
    let of = |name: &str| graph.external_dependencies(&WorkspaceName::from(name));
    assert_eq!(
        of("a").unwrap().get(&"x".to_string()),
        Some(&"^1".to_string())
    );
    assert!(of("c").is_none());
    assert!(of("missing").is_none());
}

#[test]
fn transitive_external_dependencies_are_a_union() {
    let graph = graph(None);
    let (a, b, c) = ("a".into(), "b".into(), "c".into());
    let missing = WorkspaceName::from("missing");
    let keys = |names: &[&WorkspaceName]| {
        let packages = graph.transitive_external_dependencies(names);
        let mut keys: Vec<String> = packages
            .items()
            .iter()
            .map(|package| package.key.clone())
            .collect();
        keys.sort();
        keys
    };
    assert_eq!(keys(&[&a, &b, &c, &missing, &a]), ["x", "y"]);
    assert_eq!(keys(&[&b]), ["y"]);
    assert!(keys(&[&c, &missing]).is_empty());
}
