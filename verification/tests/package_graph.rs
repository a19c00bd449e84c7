use std::collections::{BTreeMap, HashMap, HashSet};

use turborepo_repository::collections::{VecMap, VecSet};
use turborepo_repository::lockfile::{ExternalDependencies, Lockfile, Package};
use turborepo_repository::package_graph::builder::{Error, PackageGraphBuilder};
use turborepo_repository::package_graph::validate::GraphError;
use turborepo_repository::package_graph::{
    PackageGraph, WorkspaceInfo, WorkspaceName, WorkspaceNode,
};
use turborepo_repository::path::AnchoredSystemPathBuf;
use turborepo_repository::sorted_map::SortedMap;

#[derive(Debug, Clone, Default, PartialEq, Eq)]
struct PackageJson {
    name: Option<String>,
    dependencies: BTreeMap<String, String>,
}

impl PackageJson {
    fn new(name: &str, dependencies: &[(&str, &str)]) -> Self {
        PackageJson {
            name: Some(name.to_string()),
            dependencies: dependencies
                .iter()
                .map(|(name, version)| (name.to_string(), version.to_string()))
                .collect(),
        }
    }
}

#[derive(Debug, Clone, Copy, PartialEq, Eq)]
enum PackageManager {
    Npm,
}

struct MockLockfile {}

impl MockLockfile {
    fn resolve_package(&self, name: &str) -> Option<Package> {
        match name {
            "a" => Some(Package::new("key:a", "1")),
            "b" => Some(Package::new("key:b", "1")),
            "c" => Some(Package::new("key:c", "1")),
            _ => None,
        }
    }

    fn all_dependencies(&self, key: &str) -> Vec<(String, String)> {
        match key {
            "key:a" => vec![("c".to_string(), "1".to_string())],
            "key:b" => vec![("c".to_string(), "1".to_string())],
            _ => vec![],
        }
    }

    fn traverse(&self, name: &str, found: &mut VecSet<Package>) {
        if let Some(package) = self.resolve_package(name) {
            if found.insert(package.clone()) {
                for (dependency, _version) in self.all_dependencies(&package.key) {
                    self.traverse(&dependency, found);
                }
            }
        }
    }
}

impl Lockfile for MockLockfile {
    type Error = String;

    fn all_transitive_closures(
        &self,
        workspaces: VecMap<String, ExternalDependencies>,
    ) -> Result<VecMap<String, VecSet<Package>>, String> {
        let mut closures = VecMap::new();
        for i in 0..workspaces.len() {
            let (path, dependencies) = workspaces.entry(i);
            let mut closure = VecSet::new();
            for j in 0..dependencies.len() {
                self.traverse(dependencies.entry(j).0, &mut closure);
            }
            closures.insert(path.clone(), closure);
        }
        Ok(closures)
    }

    fn global_change(&self, _other: &Self) -> bool {
        unreachable!("global change detection not necessary for package graph construction")
    }
}

type TestGraph = PackageGraph<PackageJson, PackageManager, MockLockfile>;

fn build(
    root: PackageJson,
    packages: Vec<(Vec<&str>, PackageJson)>,
    lockfile: Option<MockLockfile>,
) -> TestGraph {
    let builder: PackageGraphBuilder<PackageJson, PackageManager, MockLockfile> =
        PackageGraph::builder(root, PackageManager::Npm);
    let packages = packages
        .into_iter()
        .map(|(path, json)| {
            let name = WorkspaceName::from(json.name.clone().unwrap());
            let mut dependencies = SortedMap::new();
            for (dependency, version) in &json.dependencies {
                dependencies.insert(dependency.clone(), version.clone());
            }
            let segments = path.iter().map(|segment| segment.to_string()).collect();
            let info = WorkspaceInfo {
                package_json: json,
                package_json_path: AnchoredSystemPathBuf::new(segments),
                unresolved_external_dependencies: None,
                transitive_dependencies: None,
            };
            (name, info, dependencies)
        })
        .collect();
    builder
        .with_packages(packages)
        .with_lockfile(lockfile)
        .resolve()
        .unwrap()
        .build()
        .unwrap()
}

fn set<'a>(nodes: &VecSet<&'a WorkspaceNode>) -> HashSet<&'a WorkspaceNode> {
    nodes.items().iter().copied().collect()
}

#[test]
fn test_single_package_is_depends_on_root() {
    let builder: PackageGraphBuilder<PackageJson, PackageManager, MockLockfile> =
        PackageGraph::builder(PackageJson::default(), PackageManager::Npm);
    let pkg_graph = builder.build().unwrap();

    let closure = pkg_graph.transitive_closure(&[&WorkspaceNode::Workspace(WorkspaceName::Root)]);
    assert!(closure.contains(&&WorkspaceNode::Root));
    assert!(pkg_graph.validate().is_ok());
}

#[test]
fn test_internal_dependencies_get_split_out() {
    let pkg_graph = build(
        PackageJson::new("root", &[]),
        vec![
            (
                vec!["package_a"],
                PackageJson::new("a", &[("b", "workspace:*")]),
            ),
            (vec!["package_b"], PackageJson::new("b", &[("c", "1.2.3")])),
        ],
        None,
    );

    assert!(pkg_graph.validate().is_ok());
    let closure = pkg_graph.transitive_closure(&[&WorkspaceNode::Workspace("a".into())]);
    assert_eq!(
        set(&closure),
        [
            WorkspaceNode::Root,
            WorkspaceNode::Workspace("a".into()),
            WorkspaceNode::Workspace("b".into())
        ]
        .iter()
        .collect::<HashSet<_>>()
    );
    let b_external = pkg_graph
        .workspace_info(&WorkspaceName::from("b"))
        .unwrap()
        .unresolved_external_dependencies
        .as_ref()
        .unwrap();

    let pkg_version = b_external.get(&"c".to_string()).unwrap();
    assert_eq!(pkg_version, "1.2.3");
}

#[test]
fn test_lockfile_traversal() {
    let pkg_graph = build(
        PackageJson::new("root", &[]),
        vec![
            (
                vec!["package_a", "package.json"],
                PackageJson::new("foo", &[("a", "1")]),
            ),
            (
                vec!["package_b", "package.json"],
                PackageJson::new("bar", &[("b", "1")]),
            ),
        ],
        Some(MockLockfile {}),
    );

    assert!(pkg_graph.validate().is_ok());
    let foo = WorkspaceName::from("foo");
    let bar = WorkspaceName::from("bar");

    let foo_deps = pkg_graph
        .workspace_info(&foo)
        .unwrap()
        .transitive_dependencies
        .as_ref()
        .unwrap();
    let bar_deps = pkg_graph
        .workspace_info(&bar)
        .unwrap()
        .transitive_dependencies
        .as_ref()
        .unwrap();
    let a = Package::new("key:a", "1");
    let b = Package::new("key:b", "1");
    let c = Package::new("key:c", "1");
    let all = |packages: &VecSet<Package>| packages.items().iter().cloned().collect::<HashSet<_>>();
    assert_eq!(all(foo_deps), HashSet::from_iter(vec![a.clone(), c.clone()]));
    assert_eq!(all(bar_deps), HashSet::from_iter(vec![b.clone(), c.clone()]));
    let external = pkg_graph.transitive_external_dependencies(&[&foo, &bar]);
    assert_eq!(
        external.items().iter().copied().collect::<HashSet<_>>(),
        HashSet::from_iter(vec![&a, &b, &c])
    );
}

#[test]
fn test_circular_dependency() {
    let pkg_graph = build(
        PackageJson::new("root", &[]),
        vec![
            (vec!["package_a"], PackageJson::new("foo", &[("bar", "*")])),
            (vec!["package_b"], PackageJson::new("bar", &[("baz", "*")])),
            (vec!["package_c"], PackageJson::new("baz", &[("foo", "*")])),
        ],
        Some(MockLockfile {}),
    );

    assert!(matches!(
        pkg_graph.validate(),
        Err(Error::InvalidPackageGraph(GraphError::CyclicDependencies(_)))
    ));
}

#[test]
fn test_self_dependency() {
    let pkg_graph = build(
        PackageJson::new("root", &[]),
        vec![(vec!["package_a"], PackageJson::new("foo", &[("foo", "*")]))],
        Some(MockLockfile {}),
    );

    assert!(matches!(
        pkg_graph.validate(),
        Err(Error::InvalidPackageGraph(GraphError::SelfDependency(_)))
    ));
}

#[test]
fn root_is_kept_from_the_builder() {
    let graph = build(PackageJson::new("root", &[]), vec![], None);
    assert_eq!(graph.root_package_json(), &PackageJson::new("root", &[]));
    assert_eq!(graph.package_manager(), &PackageManager::Npm);
    assert!(graph.lockfile().is_none());
    let names: HashMap<&WorkspaceName, &WorkspaceInfo<PackageJson>> =
        graph.workspaces().into_iter().collect();
    assert_eq!(names.len(), 1);
    assert_eq!(graph.len(), 1);
    assert!(!graph.is_empty());
}

#[test]
fn packages_without_internal_dependencies_hang_from_the_root_node() {
    let graph = build(
        PackageJson::new("root", &[]),
        vec![
            (
                vec!["a", "package.json"],
                PackageJson::new("a", &[("b", "*"), ("c", "*"), ("x", "1")]),
            ),
            (vec!["b", "package.json"], PackageJson::new("b", &[("c", "*")])),
            (vec!["c", "package.json"], PackageJson::new("c", &[("x", "2"), ("y", "3")])),
        ],
        None,
    );
    assert!(graph.validate().is_ok());
    let node = |name: &str| WorkspaceNode::Workspace(name.into());
    let of = |name: &str| set(&graph.immediate_dependencies(&node(name)).unwrap())
        .into_iter()
        .cloned()
        .collect::<HashSet<_>>();
    assert_eq!(of("a"), HashSet::from_iter(vec![node("b"), node("c")]));
    assert_eq!(of("b"), HashSet::from_iter(vec![node("c")]));
    assert_eq!(of("c"), HashSet::from_iter(vec![WorkspaceNode::Root]));
    assert_eq!(of("//"), HashSet::from_iter(vec![WorkspaceNode::Root]));
    for name in ["//", "a", "b", "c"] {
        assert!(graph
            .transitive_closure(&[&node(name)])
            .contains(&&WorkspaceNode::Root));
    }
    let external = |name: &str| {
        let dependencies = graph.external_dependencies(&name.into()).unwrap();
        (0..dependencies.len())
            .map(|i| dependencies.entry(i))
            .map(|(name, version)| (name.clone(), version.clone()))
            .collect::<Vec<_>>()
    };
    let pair = |name: &str, version: &str| (name.to_string(), version.to_string());
    assert_eq!(external("a"), [pair("x", "1")]);
    assert!(external("b").is_empty());
    assert_eq!(external("c"), [pair("x", "2"), pair("y", "3")]);
    assert!(graph.external_dependencies(&WorkspaceName::Root).is_none());
}

#[test]
fn of_packages_of_one_name_the_last_counts() {
    let graph = build(
        PackageJson::new("root", &[]),
        vec![
            (vec!["one", "package.json"], PackageJson::new("a", &[("x", "1")])),
            (vec!["b", "package.json"], PackageJson::new("b", &[])),
            (vec!["two", "package.json"], PackageJson::new("a", &[("b", "*")])),
        ],
        None,
    );
    assert_eq!(graph.len(), 3);
    let names: Vec<String> = graph
        .workspaces()
        .into_iter()
        .map(|(name, _info)| name.to_string())
        .collect();
    assert_eq!(names, ["//", "a", "b"]);
    let dir = graph.workspace_dir(&"a".into()).unwrap();
    assert_eq!(dir.to_unix(), "two");
    assert_eq!(graph.external_dependencies(&"a".into()).unwrap().len(), 0);
}

#[test]
fn without_a_lockfile_nothing_is_resolved() {
    let graph = build(
        PackageJson::new("root", &[]),
        vec![(vec!["a", "package.json"], PackageJson::new("foo", &[("a", "1")]))],
        None,
    );
    let info = graph.workspace_info(&"foo".into()).unwrap();
    assert!(info.transitive_dependencies.is_none());
}
