use turborepo_repository::collections::{VecMap, VecSet};
use turborepo_repository::package_graph::{
    WorkspaceInfo, WorkspaceName, WorkspaceNode, ROOT_PKG_NAME,
};
use turborepo_repository::path::{AnchoredSystemPath, AnchoredSystemPathBuf};

fn path(segments: &[&str]) -> AnchoredSystemPathBuf {
    AnchoredSystemPathBuf::new(segments.iter().map(|segment| segment.to_string()).collect())
}

#[test]
fn the_root_marker_is_the_root() {
    assert_eq!(ROOT_PKG_NAME, "//");
    assert_eq!(WorkspaceName::from("//"), WorkspaceName::Root);
    assert_eq!(WorkspaceName::from("//".to_string()), WorkspaceName::Root);
    assert_eq!(
        WorkspaceName::from("/"),
        WorkspaceName::Other("/".to_string())
    );
    assert_eq!(
        WorkspaceName::from("web".to_string()),
        WorkspaceName::Other("web".to_string())
    );
}

#[test]
fn names_are_written_as_they_are_read() {
    for text in ["//", "web", "", "@scope/name"] {
        let name = WorkspaceName::from(text);
        assert_eq!(name.to_string(), text);
        assert_eq!(name.as_ref(), text);
        assert_eq!(WorkspaceName::from(name.as_ref()), name);
    }
}

#[test]
fn another_workspace_written_like_the_root_is_read_as_the_root() {
    let name = WorkspaceName::Other("//".to_string());
    assert_ne!(name, WorkspaceName::Root);
    assert_eq!(WorkspaceName::from(name.to_string()), WorkspaceName::Root);
}

#[test]
fn nodes_stand_for_workspaces() {
    let web = WorkspaceName::from("web");
    let node = WorkspaceNode::Workspace(web.clone());
    assert_eq!(node.as_workspace(), &web);
    assert_eq!(node.to_string(), "web");
    assert_eq!(WorkspaceNode::Root.as_workspace(), &WorkspaceName::Root);
    assert_eq!(WorkspaceNode::Root.to_string(), "___ROOT___");
    let root = WorkspaceNode::Workspace(WorkspaceName::Root);
    assert_eq!(root.as_workspace(), &WorkspaceName::Root);
    assert_eq!(root.to_string(), "//");
    assert_ne!(root, WorkspaceNode::Root);
}

#[test]
fn paths_lose_their_last_segment() {
    let path = path(&["apps", "web", "package.json"]);
    let path = path.as_path();
    assert_eq!(path.to_unix(), "apps/web/package.json");
    let parent = path.parent().unwrap();
    assert_eq!(parent.to_unix(), "apps/web");
    assert_eq!(parent.parent().unwrap().to_unix(), "apps");
    assert_eq!(AnchoredSystemPath::root().to_unix(), "");
    assert!(AnchoredSystemPath::root().parent().is_none());
}

#[test]
fn different_paths_have_different_texts() {
    let paths = [path(&[]), path(&["a"]), path(&["a", "b"]), path(&["ab"]), path(&["b", "a"])];
    for a in &paths {
        for b in &paths {
            assert_eq!(a == b, a.as_path().to_unix() == b.as_path().to_unix());
        }
    }
}

#[test]
fn package_path_is_where_the_package_json_lies() {
    let info = WorkspaceInfo {
        package_json: (),
        package_json_path: path(&["apps", "web", "package.json"]),
        unresolved_external_dependencies: None,
        transitive_dependencies: None,
    };
    assert_eq!(info.package_json_path().to_unix(), "apps/web/package.json");
    assert_eq!(info.package_path().to_unix(), "apps/web");
    assert_eq!(info.clone(), info);
}

#[test]
fn the_default_workspace_knows_nothing() {
    let info: WorkspaceInfo<u8> = WorkspaceInfo::default();
    assert_eq!(info.package_json, 0);
    assert_eq!(info.package_json_path, path(&[]));
    assert!(info.unresolved_external_dependencies.is_none());
    assert!(info.transitive_dependencies.is_none());
}

#[test]
fn sets_hold_each_value_once() {
    let mut set: VecSet<String> = VecSet::new();
    assert!(set.insert("a".to_string()));
    assert!(set.insert("b".to_string()));
    assert!(!set.insert("a".to_string()));
    assert_eq!(set.len(), 2);
    let mut items = set.items().to_vec();
    items.sort();
    assert_eq!(items, ["a".to_string(), "b".to_string()]);
    let mut other = VecSet::new();
    other.insert("b".to_string());
    assert!(other.is_subset(&set));
    assert!(!set.is_subset(&other));
    other.insert("a".to_string());
    assert_eq!(set, other);
    assert_eq!(set.clone(), set);
    assert!(set.remove(&"a".to_string()));
    assert!(!set.remove(&"a".to_string()));
    assert!(!set.contains(&"a".to_string()));
    assert_ne!(set, other);
}

#[test]
fn maps_hold_each_key_once() {
    let mut map: VecMap<String, String> = VecMap::new();
    map.insert("a".to_string(), "1".to_string());
    map.insert("b".to_string(), "2".to_string());
    map.insert("a".to_string(), "3".to_string());
    assert_eq!(map.len(), 2);
    assert_eq!(map.entry(0), (&"a".to_string(), &"3".to_string()));
    assert_eq!(map.get(&"b".to_string()), Some(&"2".to_string()));
    assert_eq!(map.get(&"c".to_string()), None);
    let mut other = VecMap::new();
    other.insert("b".to_string(), "2".to_string());
    assert!(other.is_submap(&map));
    assert_ne!(map, other);
    other.insert("a".to_string(), "3".to_string());
    assert_eq!(map, other);
    assert_eq!(map.clone(), map);
}
