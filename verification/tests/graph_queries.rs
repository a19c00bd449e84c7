use turborepo_repository::collections::VecSet;
use turborepo_repository::package_graph::{
    Error, GraphError, PackageGraph, PackageGraphBuilder, WorkspaceInfo, WorkspaceName,
    WorkspaceNode,
};
use turborepo_repository::path::AnchoredSystemPathBuf;

type Builder = PackageGraphBuilder<&'static str, &'static str, ()>;
type TestGraph = PackageGraph<&'static str, &'static str, ()>;

fn node(name: &str) -> WorkspaceNode {
    WorkspaceNode::Workspace(WorkspaceName::from(name))
}

fn info(segments: &[&str]) -> WorkspaceInfo<&'static str> {
    WorkspaceInfo {
        package_json: "{}",
        package_json_path: AnchoredSystemPathBuf::new(
            segments.iter().map(|segment| segment.to_string()).collect(),
        ),
        unresolved_external_dependencies: None,
        transitive_dependencies: None,
    }
}

fn builder(names: &[&str], dependencies: &[(&str, &str)]) -> Builder {
    let mut builder: Builder = PackageGraph::builder("{\"name\":\"root\"}", "npm");
    for name in names {
        builder = builder.with_workspace(
            WorkspaceName::from(*name),
            info(&["packages", name, "package.json"]),
        );
    }
    for (from, to) in dependencies {
        builder = builder.with_dependency(node(from), node(to));
    }
    builder
}

/// a -> b -> c -> root node
fn chain() -> TestGraph {
    builder(&["a", "b", "c"], &[("a", "b"), ("b", "c")])
        .with_dependency(node("c"), WorkspaceNode::Root)
        .build()
        .unwrap()
}

fn texts(nodes: &VecSet<&WorkspaceNode>) -> Vec<String> {
    let mut texts: Vec<String> = nodes.items().iter().map(|node| node.to_string()).collect();
    texts.sort();
    texts
}

#[test]
fn immediate_dependencies_follow_one_edge() {
    let graph = chain();
    assert_eq!(
        texts(&graph.immediate_dependencies(&node("a")).unwrap()),
        ["b"]
    );
    assert_eq!(
        texts(&graph.immediate_dependencies(&node("c")).unwrap()),
        ["___ROOT___"]
    );
    assert!(texts(&graph.immediate_dependencies(&WorkspaceNode::Root).unwrap()).is_empty());
    assert!(graph.immediate_dependencies(&node("missing")).is_none());
}

#[test]
fn immediate_ancestors_follow_one_edge_back() {
    let graph = chain();
    assert_eq!(texts(&graph.immediate_ancestors(&node("c")).unwrap()), ["b"]);
    assert_eq!(
        texts(&graph.immediate_ancestors(&WorkspaceNode::Root).unwrap()),
        ["//", "c"]
    );
    assert!(texts(&graph.immediate_ancestors(&node("a")).unwrap()).is_empty());
    assert!(graph.immediate_ancestors(&node("missing")).is_none());
}

#[test]
fn parallel_edges_give_one_neighbor() {
    let graph = builder(&["a", "b"], &[("a", "b"), ("a", "b")])
        .build()
        .unwrap();
    assert_eq!(
        texts(&graph.immediate_dependencies(&node("a")).unwrap()),
        ["b"]
    );
    assert_eq!(texts(&graph.immediate_ancestors(&node("b")).unwrap()), ["a"]);
}

#[test]
fn dependencies_and_ancestors_leave_the_node_out() {
    let graph = chain();
    assert_eq!(
        texts(&graph.dependencies(&node("a"))),
        ["___ROOT___", "b", "c"]
    );
    assert_eq!(texts(&graph.ancestors(&node("c"))), ["a", "b"]);
    assert_eq!(
        texts(&graph.ancestors(&WorkspaceNode::Root)),
        ["//", "a", "b", "c"]
    );
    assert!(texts(&graph.dependencies(&WorkspaceNode::Root)).is_empty());
    assert!(texts(&graph.dependencies(&node("missing"))).is_empty());
    assert!(texts(&graph.ancestors(&node("missing"))).is_empty());
}

#[test]
fn a_cycle_does_not_make_a_node_its_own_dependency() {
    let graph = builder(&["a", "b"], &[("a", "b"), ("b", "a")])
        .build()
        .unwrap();
    assert_eq!(texts(&graph.dependencies(&node("a"))), ["b"]);
    assert_eq!(texts(&graph.ancestors(&node("a"))), ["b"]);
}

#[test]
fn dependencies_mirror_ancestors() {
    let graph = builder(&["a", "b", "c", "d"], &[("a", "b"), ("b", "c"), ("d", "c")])
        .build()
        .unwrap();
    let names = ["a", "b", "c", "d"];
    for from in names {
        for to in names {
            let (from, to) = (node(from), node(to));
            assert_eq!(
                graph.dependencies(&from).contains(&&to),
                graph.ancestors(&to).contains(&&from)
            );
        }
    }
}

#[test]
fn closure_has_its_starts_and_is_closed() {
    let graph = chain();
    let closure = graph.transitive_closure(&[&node("b"), &node("missing")]);
    assert_eq!(texts(&closure), ["___ROOT___", "b", "c"]);
    let again = graph.transitive_closure(closure.items());
    assert_eq!(texts(&again), texts(&closure));
    assert!(texts(&graph.transitive_closure(&[])).is_empty());
}

#[test]
fn closure_mirrors() {
    let graph = builder(&["a", "b", "c", "d"], &[("a", "b"), ("b", "c"), ("d", "c")])
        .build()
        .unwrap();
    let names = ["a", "b", "c", "d", "missing"];
    for from in names {
        for to in names {
            let known = graph.workspace_info(&from.into()).is_some();
            let (from, to) = (node(from), node(to));
            assert_eq!(
                graph.transitive_closure(&[&from]).contains(&&to),
                graph.ancestors(&to).contains(&&from) || (known && from == to)
            );
        }
    }
}

#[test]
fn closure_follows_from_known_starts() {
    let graph = chain();
    let (a, b, c, missing) = (node("a"), node("b"), node("c"), node("missing"));
    let expected = ["___ROOT___", "b", "c"];
    assert_eq!(texts(&graph.transitive_closure(&[&b, &c])), expected);
    assert_eq!(
        texts(&graph.transitive_closure(&[&c, &missing, &b, &c, &missing, &b])),
        expected
    );
    assert_ne!(texts(&graph.transitive_closure(&[&a, &b])), expected);
    assert!(texts(&graph.transitive_closure(&[&missing, &missing])).is_empty());
}

#[test]
fn closure_of_several_starts_is_the_union() {
    let graph = builder(&["a", "b", "c", "d"], &[("a", "b"), ("c", "d")])
        .build()
        .unwrap();
    assert_eq!(
        texts(&graph.transitive_closure(&[&node("a"), &node("c")])),
        ["a", "b", "c", "d"]
    );
    assert_eq!(texts(&graph.transitive_closure(&[&node("c")])), ["c", "d"]);
}

#[test]
fn only_edges_to_the_root_survive_removal() {
    let mut graph = builder(&["a", "b", "c"], &[("a", "b"), ("b", "c"), ("a", "c")])
        .with_dependency(node("c"), WorkspaceNode::Root)
        .with_dependency(node("a"), WorkspaceNode::Root)
        .build()
        .unwrap();
    graph.remove_workspace_dependencies();
    assert_eq!(texts(&graph.dependencies(&node("a"))), ["___ROOT___"]);
    assert!(texts(&graph.dependencies(&node("b"))).is_empty());
    assert_eq!(texts(&graph.dependencies(&node("c"))), ["___ROOT___"]);
    assert_eq!(
        texts(&graph.immediate_ancestors(&WorkspaceNode::Root).unwrap()),
        ["//", "a", "c"]
    );
    assert_eq!(graph.len(), 4);
    graph.remove_workspace_dependencies();
    assert_eq!(
        texts(&graph.immediate_ancestors(&WorkspaceNode::Root).unwrap()),
        ["//", "a", "c"]
    );
}

#[test]
fn removal_breaks_cycles() {
    let mut graph = builder(&["a", "b"], &[("a", "b"), ("b", "a")])
        .build()
        .unwrap();
    assert!(graph.validate().is_err());
    graph.remove_workspace_dependencies();
    assert!(graph.validate().is_ok());
}

#[test]
fn validation_names_every_cycle() {
    let graph = builder(
        &["a", "b", "c", "d", "e", "f"],
        &[
            ("a", "b"),
            ("b", "a"),
            ("b", "c"),
            ("d", "e"),
            ("e", "f"),
            ("f", "d"),
            ("c", "c"),
        ],
    )
    .build()
    .unwrap();
    match graph.validate() {
        Err(Error::InvalidPackageGraph(GraphError::CyclicDependencies(cycles))) => {
            let mut groups: Vec<Vec<String>> = cycles
                .iter()
                .map(|group| {
                    let mut texts: Vec<String> =
                        group.iter().map(|node| node.to_string()).collect();
                    texts.sort();
                    texts
                })
                .collect();
            groups.sort();
            assert_eq!(groups, [vec!["a", "b"], vec!["d", "e", "f"]]);
        }
        other => panic!("unexpected {:?}", other),
    }
}

#[test]
fn validation_names_the_first_self_dependency() {
    let graph = builder(&["a", "b", "c"], &[("c", "c"), ("a", "b"), ("b", "b")])
        .build()
        .unwrap();
    assert_eq!(
        graph.validate(),
        Err(Error::InvalidPackageGraph(GraphError::SelfDependency(node(
            "b"
        ))))
    );
}

#[test]
fn validation_accepts_diamonds() {
    let graph = builder(
        &["a", "b", "c", "d"],
        &[("a", "b"), ("a", "c"), ("b", "d"), ("c", "d")],
    )
    .build()
    .unwrap();
    assert_eq!(graph.validate(), Ok(()));
}

#[test]
fn unknown_nodes_are_refused() {
    let unknown_target = builder(&["a"], &[("a", "x")]).build();
    assert_eq!(unknown_target.err(), Some(Error::UnknownNode(node("x"))));
    let unknown_source = builder(&["a"], &[("a", "a"), ("y", "x")]).build();
    assert_eq!(unknown_source.err(), Some(Error::UnknownNode(node("y"))));
}

#[test]
fn workspaces_are_listed_in_order() {
    let graph = chain();
    assert_eq!(graph.len(), 4);
    assert!(!graph.is_empty());
    let names: Vec<String> = graph
        .workspaces()
        .iter()
        .map(|(name, _info)| name.to_string())
        .collect();
    assert_eq!(names, ["//", "a", "b", "c"]);
    assert_eq!(*graph.package_manager(), "npm");
    assert!(graph.lockfile().is_none());
    assert_eq!(*graph.root_package_json(), "{\"name\":\"root\"}");
    assert_eq!(graph.package_json(&WorkspaceName::from("a")), Some(&"{}"));
    assert_eq!(graph.package_json(&WorkspaceName::from("x")), None);
    assert!(graph.workspace_info(&WorkspaceName::from("x")).is_none());
}

#[test]
fn a_workspace_can_be_replaced() {
    let graph = builder(&["a", "b"], &[])
        .with_workspace(WorkspaceName::from("a"), info(&["other", "package.json"]))
        .with_lockfile(Some(()))
        .build()
        .unwrap();
    assert_eq!(graph.len(), 3);
    assert_eq!(graph.lockfile(), Some(&()));
    let dir = graph.workspace_dir(&WorkspaceName::from("a")).unwrap();
    assert_eq!(dir.to_unix(), "other");
}

#[test]
fn workspace_dir_is_the_parent_of_the_package_json() {
    let graph = builder(&["a"], &[])
        .with_workspace(WorkspaceName::from("nowhere"), info(&[]))
        .build()
        .unwrap();
    let dir = |name: &str| {
        graph
            .workspace_dir(&WorkspaceName::from(name))
            .map(|dir| dir.to_unix())
    };
    assert_eq!(dir("a"), Some("packages/a".to_string()));
    assert_eq!(dir("//"), Some("".to_string()));
    assert_eq!(dir("nowhere"), Some("".to_string()));
    assert_eq!(dir("x"), None);
}
