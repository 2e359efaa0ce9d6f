use unityassetdb::edges::{
    EdgeKind, EdgeTables, EntityRecord, EntryRecord, GuidRecord, ReferenceRecord, SymbolRecord, VfsEdge,
};
use unityassetdb::vfs::{EntryType, VfsBuilder};

fn entry(id: i64, entry_type: EntryType, path: &str, parent: Option<&str>) -> EntryRecord {
    EntryRecord {
        id,
        project_id: 1,
        entry_type,
        vfs_path: path.to_string(),
        parent_vfs_path: parent.map(|p| p.to_string()),
        source_file_id: None,
        source_entity_id: None,
    }
}

fn file_entry(id: i64, path: &str, parent: Option<&str>, file_id: i64) -> EntryRecord {
    let mut e = entry(id, EntryType::File, path, parent);
    e.source_file_id = Some(file_id);
    e
}

fn node_entry(id: i64, path: &str, parent: &str, entity_id: i64) -> EntryRecord {
    let mut e = entry(id, EntryType::Node, path, Some(parent));
    e.source_entity_id = Some(entity_id);
    e
}

fn guid(id: i64, kind: &str, guid: Option<&str>) -> GuidRecord {
    GuidRecord { id, kind: kind.to_string(), guid: guid.map(|g| g.to_string()) }
}

fn reference(file_id: i64, target: Option<&str>, kind: &str) -> ReferenceRecord {
    ReferenceRecord { file_id, target_guid: target.map(|t| t.to_string()), ref_kind: Some(kind.to_string()) }
}

fn entity(id: i64, kind: &str, script: Option<i64>) -> EntityRecord {
    EntityRecord { id, entity_kind: kind.to_string(), script_symbol_id: script }
}

fn symbol(id: i64, file_id: i64) -> SymbolRecord {
    SymbolRecord { id, file_id }
}

fn edge(from: i64, to: i64, kind: EdgeKind, subkind: Option<&str>) -> VfsEdge {
    VfsEdge { from_entry_id: from, to_entry_id: to, edge_kind: kind, edge_subkind: subkind.map(|s| s.to_string()) }
}

fn tables() -> EdgeTables {
    EdgeTables {
        entries: Vec::new(),
        files: Vec::new(),
        references: Vec::new(),
        symbols: Vec::new(),
        entities: Vec::new(),
    }
}

#[test]
fn edge_kind_names() {
    assert_eq!(EdgeKind::ChildOf.as_str(), "child_of");
    assert_eq!(EdgeKind::DefinedIn.as_str(), "defined_in");
    assert_eq!(EdgeKind::DependsOn.as_str(), "depends_on");
    assert_eq!(EdgeKind::BindsTo.as_str(), "binds_to");
    assert_eq!(EdgeKind::InstanceOf.as_str(), "instance_of");
}

#[test]
fn no_rows_no_edges() {
    assert!(VfsBuilder::new(1).build_vfs_edges(&tables()).is_empty());
}

#[test]
fn directories_lead_to_their_files() {
    let mut t = tables();
    t.entries.push(entry(10, EntryType::Directory, "Assets", None));
    t.entries.push(entry(11, EntryType::Directory, "Assets/Scenes", Some("Assets")));
    t.entries.push(file_entry(12, "Assets/Scenes/Game.unity", Some("Assets/Scenes"), 1));
    t.entries.push(file_entry(13, "Lost/x.cs", Some("Lost"), 2));
    let edges = VfsBuilder::new(1).build_vfs_edges(&t);
    assert_eq!(edges, vec![edge(10, 11, EdgeKind::ChildOf, None), edge(11, 12, EdgeKind::ChildOf, None)]);
}

#[test]
fn entries_of_other_projects_are_left_out() {
    let mut t = tables();
    t.entries.push(entry(10, EntryType::Directory, "Assets", None));
    t.entries.push(file_entry(12, "Assets/a", Some("Assets"), 1));
    assert_eq!(VfsBuilder::new(2).build_vfs_edges(&t).len(), 0);
    t.entries[0].project_id = 2;
    assert_eq!(VfsBuilder::new(1).build_vfs_edges(&t).len(), 0);
}

#[test]
fn nodes_are_defined_in_their_file() {
    let mut t = tables();
    t.entries.push(file_entry(1, "a.unity", None, 1));
    t.entries.push(node_entry(2, "a.unity:/100", "a.unity", 7));
    let edges = VfsBuilder::new(1).build_vfs_edges(&t);
    assert_eq!(edges, vec![edge(1, 2, EdgeKind::ChildOf, None), edge(2, 1, EdgeKind::DefinedIn, None)]);
}

#[test]
fn references_by_guid() {
    let mut t = tables();
    t.entries.push(file_entry(1, "Game.unity", None, 21));
    t.entries.push(file_entry(2, "Enemy.mat", None, 22));
    t.entries.push(file_entry(3, "Tool.asset", None, 23));
    t.files.push(guid(21, "scene", Some("aa")));
    t.files.push(guid(22, "material", Some("00FFab")));
    t.files.push(guid(23, "asset", None));
    t.references.push(reference(21, Some("00ffAB"), "guid-file"));
    t.references.push(reference(21, Some("00ffab"), "guid-file"));
    t.references.push(reference(21, Some("00ffab"), "script"));
    t.references.push(reference(23, Some("00ffab"), "guid-file"));
    t.references.push(reference(21, Some("unknown"), "guid-file"));
    t.references.push(reference(21, None, "guid-file"));
    t.references.push(reference(99, Some("00ffab"), "guid-file"));
    let edges = VfsBuilder::new(1).build_vfs_edges(&t);
    assert_eq!(
        edges,
        vec![
            edge(1, 2, EdgeKind::DependsOn, Some("guid-file")),
            edge(1, 2, EdgeKind::DependsOn, Some("script")),
            edge(3, 2, EdgeKind::DependsOn, Some("guid-file")),
            edge(1, 2, EdgeKind::InstanceOf, None),
        ]
    );
}

#[test]
fn reference_without_a_kind() {
    let mut t = tables();
    t.entries.push(file_entry(1, "a.prefab", None, 1));
    t.files.push(guid(1, "prefab", Some("g")));
    t.references.push(ReferenceRecord { file_id: 1, target_guid: Some("G".to_string()), ref_kind: None });
    let edges = VfsBuilder::new(1).build_vfs_edges(&t);
    assert_eq!(edges, vec![edge(1, 1, EdgeKind::DependsOn, None), edge(1, 1, EdgeKind::InstanceOf, None)]);
}

#[test]
fn subkinds_with_commas_stay_apart() {
    let mut t = tables();
    t.entries.push(file_entry(1, "a.asset", None, 1));
    t.entries.push(file_entry(12, "b.asset", None, 2));
    t.files.push(guid(1, "asset", Some("g")));
    t.files.push(guid(2, "asset", Some("h")));
    t.references.push(reference(1, Some("g"), "2,x"));
    t.references.push(reference(1, Some("h"), "x"));
    t.references.push(reference(1, Some("h"), ""));
    let edges = VfsBuilder::new(1).build_vfs_edges(&t);
    assert_eq!(
        edges,
        vec![
            edge(1, 1, EdgeKind::DependsOn, Some("2,x")),
            edge(1, 12, EdgeKind::DependsOn, Some("x")),
            edge(1, 12, EdgeKind::DependsOn, Some("")),
        ]
    );
}

#[test]
fn components_are_bound_to_the_file_of_their_script_class() {
    let mut t = tables();
    t.entries.push(node_entry(1, "a:/component/1", "a", 100));
    t.entries.push(node_entry(2, "a:/gameobject/2", "a", 2));
    t.entries.push(node_entry(3, "a:/gameobject/3", "a", 300));
    t.entries.push(node_entry(4, "a:/component/4", "a", 400));
    t.entries.push(node_entry(5, "a:/component/5", "a", 500));
    t.entries.push(file_entry(6, "Player.cs", None, 21));
    t.entries.push(file_entry(7, "Enemy.cs", None, 22));
    t.symbols.push(symbol(1, 22));
    t.symbols.push(symbol(2, 21));
    t.entities.push(entity(100, "component", Some(2)));
    t.entities.push(entity(2, "gameobject", None));
    t.entities.push(entity(300, "gameobject", Some(2)));
    t.entities.push(entity(400, "component", Some(999)));
    t.entities.push(entity(500, "component", None));
    let edges = VfsBuilder::new(1).build_vfs_edges(&t);
    assert_eq!(edges, vec![edge(1, 6, EdgeKind::BindsTo, Some("component_script"))]);
}
