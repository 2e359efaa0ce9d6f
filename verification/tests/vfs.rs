use unityassetdb::vfs::{
    is_indexable_text_kind, parse_entry_type, wants_content, EntryType, FileRecord, NodeRecord, VfsBuilder, VfsEntryRow,
    MAX_INDEXED_CONTENT_BYTES,
};

fn file(id: i64, path: &str, kind: &str, size_bytes: i64, content: Option<&str>) -> FileRecord {
    FileRecord {
        id,
        project_rel_path: path.to_string(),
        kind: kind.to_string(),
        size_bytes,
        content: content.map(|c| c.to_string()),
    }
}

fn node(id: i64, kind: &str, key: &str, name: Option<&str>, class: &str, root: &str) -> NodeRecord {
    NodeRecord {
        id,
        entity_kind: kind.to_string(),
        local_key: key.to_string(),
        name: name.map(|n| n.to_string()),
        class_name: class.to_string(),
        vfs_root_path: root.to_string(),
    }
}

fn directory(path: &str, parent: Option<&str>, name: &str) -> VfsEntryRow {
    VfsEntryRow {
        project_id: 1,
        entry_type: EntryType::Directory,
        entry_kind: "directory".to_string(),
        vfs_path: path.to_string(),
        parent_vfs_path: parent.map(|p| p.to_string()),
        source_file_id: None,
        source_entity_id: None,
        display_name: name.to_string(),
        content: None,
    }
}

#[test]
fn kinds_with_indexed_text() {
    for kind in [
        "scene", "prefab", "csharp", "material", "asset", "yaml-asset", "shader", "shader-include", "asmdef", "asmref",
    ] {
        assert!(is_indexable_text_kind(kind));
    }
    for kind in ["meta", "texture", "", "Scene", "scene "] {
        assert!(!is_indexable_text_kind(kind));
    }
}

#[test]
fn large_bodies_are_not_stored() {
    assert_eq!(MAX_INDEXED_CONTENT_BYTES, 256 * 1024);
    assert!(wants_content("scene", MAX_INDEXED_CONTENT_BYTES));
    assert!(!wants_content("scene", MAX_INDEXED_CONTENT_BYTES + 1));
    assert!(!wants_content("texture", 1));
}

#[test]
fn entry_type_names() {
    assert_eq!(EntryType::Directory.as_str(), "directory");
    assert_eq!(EntryType::File.as_str(), "file");
    assert_eq!(EntryType::Node.as_str(), "node");
    for t in [EntryType::Directory, EntryType::File, EntryType::Node] {
        assert_eq!(parse_entry_type(t.as_str()), Some(t));
    }
    assert_eq!(parse_entry_type("folder"), None);
}

#[test]
fn directories_come_once_and_parents_first() {
    let files = vec![
        file(1, "Assets/Scenes/Game.unity", "scene", 1, None),
        file(2, "Assets\\Scenes\\Menu.unity", "scene", 1, None),
        file(3, "Assets/a.mat", "material", 1, None),
        file(4, "top.txt", "text", 1, None),
        file(5, "Packages//deep///x.cs", "csharp", 1, None),
        file(6, "Packages/deep/x.cs.meta", "meta", 1, None),
    ];
    let rows = VfsBuilder::new(1).build_directory_tree(&files);
    assert_eq!(
        rows,
        vec![
            directory("Assets", None, "Assets"),
            directory("Assets/Scenes", Some("Assets"), "Scenes"),
            directory("Packages", None, "Packages"),
            directory("Packages/deep", Some("Packages"), "deep"),
        ]
    );
}

#[test]
fn path_with_a_trailing_slash_is_a_directory() {
    let rows = VfsBuilder::new(1).build_directory_tree(&vec![file(1, "a/b/", "folder", 0, None)]);
    assert_eq!(rows, vec![directory("a", None, "a"), directory("a/b", Some("a"), "b")]);
}

#[test]
fn file_entries() {
    let files = vec![
        file(7, "Assets\\Scenes\\Game.unity", "scene", 5, Some("%YAML")),
        file(8, "Assets/Scenes/Game.unity.meta", "meta", 5, Some("guid")),
        file(9, "top.png", "texture", 5, Some("bytes")),
        file(10, "big.cs", "csharp", 262_145, Some("class")),
        file(11, "Assets\\A.cs", "csharp", 262_144, Some("x")),
    ];
    let rows = VfsBuilder::new(3).build_file_entries(files);
    assert_eq!(rows.len(), 4);
    assert_eq!(
        rows[0],
        VfsEntryRow {
            project_id: 3,
            entry_type: EntryType::File,
            entry_kind: "scene".to_string(),
            vfs_path: "Assets/Scenes/Game.unity".to_string(),
            parent_vfs_path: Some("Assets/Scenes".to_string()),
            source_file_id: Some(7),
            source_entity_id: None,
            display_name: "Game.unity".to_string(),
            content: Some("%YAML".to_string()),
        }
    );
    assert_eq!(rows[1].vfs_path, "top.png");
    assert_eq!(rows[1].parent_vfs_path, None);
    assert_eq!(rows[1].display_name, "top.png");
    assert_eq!(rows[1].content, None);
    assert_eq!(rows[2].content, None);
    assert_eq!(rows[3].vfs_path, "Assets/A.cs");
    assert_eq!(rows[3].content, Some("x".to_string()));
}

#[test]
fn file_at_the_root_of_the_disk_has_an_empty_parent() {
    let rows = VfsBuilder::new(1).build_file_entries(vec![file(1, "/a", "text", 0, None)]);
    assert_eq!(rows[0].parent_vfs_path, Some("".to_string()));
    assert_eq!(rows[0].display_name, "a");
}

#[test]
fn node_entries() {
    let nodes = vec![
        node(1, "gameobject", "100", Some("Player"), "GameObject", "Assets/Game.unity"),
        node(2, "component", "200", None, "Transform", "Assets/Game.unity"),
    ];
    let rows = VfsBuilder::new(1).build_node_entries(&nodes);
    assert_eq!(
        rows[0],
        VfsEntryRow {
            project_id: 1,
            entry_type: EntryType::Node,
            entry_kind: "gameobject".to_string(),
            vfs_path: "Assets/Game.unity:/gameobject/100".to_string(),
            parent_vfs_path: Some("Assets/Game.unity".to_string()),
            source_file_id: None,
            source_entity_id: Some(1),
            display_name: "Player".to_string(),
            content: None,
        }
    );
    assert_eq!(rows[1].display_name, "Transform");
    assert_eq!(rows[1].vfs_path, "Assets/Game.unity:/component/200");
}

#[test]
fn all_entries_in_order() {
    let files = vec![file(1, "Assets/Game.unity", "scene", 1, Some("x")), file(2, "Assets/Game.unity.meta", "meta", 1, None)];
    let nodes = vec![node(5, "gameobject", "100", None, "GameObject", "Assets/Game.unity")];
    let rows = VfsBuilder::new(1).build(files, &nodes);
    let paths: Vec<&str> = rows.iter().map(|r| r.vfs_path.as_str()).collect();
    assert_eq!(paths, vec!["Assets", "Assets/Game.unity", "Assets/Game.unity:/gameobject/100"]);
    assert_eq!(rows[2].parent_vfs_path, Some(rows[1].vfs_path.clone()));
}
