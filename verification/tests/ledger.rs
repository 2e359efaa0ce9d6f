use unityassetdb::files::{DiscoveredFile, FileIdRow};
use unityassetdb::graph::{Entity, EntityEdge};
use unityassetdb::ledger::Ledger;
use unityassetdb::rows::{CsDeclaration, CsMention, StoredDeclaration, YamlObject, YamlReference};

fn ledger() -> Ledger {
    let mut ledger = Ledger::new();
    ledger.load_files(&vec![
        FileIdRow { id: 11, project_rel_path: "a.unity".to_string() },
        FileIdRow { id: 12, project_rel_path: "b.unity".to_string() },
        FileIdRow { id: 13, project_rel_path: "c.cs".to_string() },
        FileIdRow { id: 14, project_rel_path: "d.cs".to_string() },
    ]);
    ledger
}

fn object(key: &str) -> YamlObject {
    YamlObject {
        doc_index: 0,
        unity_class_id: 1,
        anchor: None,
        object_type: "GameObject".to_string(),
        local_identifier: key.to_string(),
        game_object_file_id: None,
        component_type_name: None,
        script_guid: None,
        script_file_id: None,
        name: None,
        line_start: None,
        line_end: None,
    }
}

fn reference(source: &str) -> YamlReference {
    YamlReference {
        source_local_identifier: Some(source.to_string()),
        field_path: "m_Script".to_string(),
        target_guid: None,
        target_file_id: None,
        target_local_id: None,
        ref_kind: "local".to_string(),
    }
}

#[test]
fn objects_and_references_of_two_files() {
    let mut ledger = ledger();
    let (objects, references) =
        ledger.add_yaml("a.unity", vec![object("1"), object("2")], vec![reference("2"), reference("3")]);
    let rows: Vec<(i64, i64)> = objects.iter().map(|r| (r.id, r.file_id)).collect();
    assert_eq!(rows, vec![(1, 11), (2, 11)]);
    let rows: Vec<(i64, i64, Option<i64>)> =
        references.iter().map(|r| (r.id, r.file_id, r.source_yaml_object_id)).collect();
    assert_eq!(rows, vec![(1, 11, Some(2)), (2, 11, None)]);
    let (objects, references) =
        ledger.add_yaml("b.unity", vec![object("3"), object("2")], vec![reference("2"), reference("1")]);
    let rows: Vec<(i64, i64)> = objects.iter().map(|r| (r.id, r.file_id)).collect();
    assert_eq!(rows, vec![(3, 12), (4, 12)]);
    let rows: Vec<(i64, i64, Option<i64>)> =
        references.iter().map(|r| (r.id, r.file_id, r.source_yaml_object_id)).collect();
    assert_eq!(rows, vec![(3, 12, Some(4)), (4, 12, None)]);
}

#[test]
fn file_that_is_read_twice_keeps_its_objects() {
    let mut ledger = ledger();
    ledger.add_yaml("a.unity", vec![object("1")], Vec::new());
    let (objects, references) = ledger.add_yaml("a.unity", vec![object("2")], vec![reference("1"), reference("2")]);
    assert_eq!(objects[0].id, 2);
    assert_eq!(references[0].source_yaml_object_id, Some(1));
    assert_eq!(references[1].source_yaml_object_id, Some(2));
}

#[test]
fn unknown_file_has_id_zero() {
    let (objects, _) = ledger().add_yaml("x.unity", vec![object("1")], Vec::new());
    assert_eq!(objects[0].file_id, 0);
}

fn declaration(name: &str) -> CsDeclaration {
    CsDeclaration {
        decl_kind: "class".to_string(),
        simple_name: name.to_string(),
        qualified_name: name.to_string(),
        signature: None,
        line_start: 1,
        line_end: 2,
    }
}

fn mention(inside: &str) -> CsMention {
    CsMention {
        mention_kind: "call".to_string(),
        text: "Run".to_string(),
        receiver_text: None,
        containing_declaration: Some(inside.to_string()),
        line_start: 3,
        line_end: 3,
    }
}

#[test]
fn declarations_and_mentions_of_two_files() {
    let mut ledger = ledger();
    ledger.add_csharp("c.cs", vec![declaration("A")], vec![mention("A")]);
    let (declarations, mentions) =
        ledger.add_csharp("d.cs", vec![declaration("B"), declaration("A")], vec![mention("A"), mention("C")]);
    assert_eq!(declarations[1].id, 3);
    assert_eq!(declarations[1].file_id, 14);
    let rows: Vec<(i64, Option<i64>)> = mentions.iter().map(|m| (m.id, m.containing_declaration_id)).collect();
    assert_eq!(rows, vec![(2, Some(3)), (3, None)]);
}

fn entity(key: &str, parent: Option<&str>) -> Entity {
    Entity {
        yaml_object_id: None,
        entity_kind: "gameobject".to_string(),
        local_key: key.to_string(),
        name: None,
        class_name: "GameObject".to_string(),
        parent_local_key: parent.map(|p| p.to_string()),
        line_start: None,
        line_end: None,
    }
}

#[test]
fn graphs_of_two_assets() {
    let mut ledger = ledger();
    ledger.add_yaml("a.unity", vec![object("1")], Vec::new());
    ledger.add_yaml("b.unity", vec![object("1")], Vec::new());
    ledger.add_graph(1, 11, vec![entity("1", None), entity("2", Some("1"))], 1, Vec::new());
    let edge = EntityEdge {
        from_local_key: "1".to_string(),
        to_local_key: "2".to_string(),
        edge_kind: "has_component".to_string(),
        edge_subkind: None,
    };
    let (entities, edges) =
        ledger.add_graph(2, 12, vec![entity("1", None), entity("2", Some("1"))], 5, vec![edge]);
    let rows: Vec<(i64, i64, Option<i64>, Option<i64>)> =
        entities.iter().map(|e| (e.id, e.asset_id, e.yaml_object_id, e.parent_entity_id)).collect();
    assert_eq!(rows, vec![(3, 2, Some(2), None), (4, 2, None, Some(3))]);
    assert_eq!((edges[0].id, edges[0].from_entity_id, edges[0].to_entity_id), (5, 3, 4));
}

#[test]
fn assets_and_symbols() {
    let mut ledger = ledger();
    let file = |path: &str| DiscoveredFile {
        project_rel_path: path.to_string(),
        abs_path: path.to_string(),
        kind: "scene".to_string(),
        unity_yaml: true,
        asset_kind: None,
        guid: Some("g".to_string()),
        size_bytes: 0,
        mtime_ms: 0,
        content_hash: None,
        importer_type: None,
    };
    let row = ledger.add_asset(&file("b.unity")).unwrap();
    assert_eq!((row.id, row.file_id, row.name.as_str()), (1, 12, "b"));
    assert_eq!(ledger.add_asset(&file("x.unity")), None);
    assert_eq!(ledger.add_asset(&file("a.unity")).unwrap().id, 2);
    let stored = StoredDeclaration {
        id: 9,
        file_id: 13,
        decl_kind: "class".to_string(),
        simple_name: "A".to_string(),
        qualified_name: "N.A".to_string(),
        line_start: 1,
        line_end: 2,
    };
    let symbols = ledger.add_symbols(vec![stored]);
    assert_eq!((symbols[0].id, symbols[0].declaration_id), (1, 9));
    assert!(ledger.has_room(1000));
}
