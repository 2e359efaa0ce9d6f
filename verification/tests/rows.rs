use unityassetdb::rows::{
    build_symbols, mention_rows, number_rows, reference_rows, CsDeclaration, CsMention, Row, StoredDeclaration,
    StoredObject, SymbolRow, YamlReference,
};

#[test]
fn rows_are_numbered_from_the_counter() {
    let mut next: i64 = 7;
    let rows = number_rows(&mut next, 3, vec!["a", "b"]);
    assert_eq!(rows, vec![Row { id: 7, file_id: 3, item: "a" }, Row { id: 8, file_id: 3, item: "b" }]);
    assert_eq!(next, 9);
    let rows = number_rows(&mut next, 4, vec!["c"]);
    assert_eq!(rows[0].id, 9);
    let none: Vec<Row<&str>> = number_rows(&mut next, 4, Vec::new());
    assert!(none.is_empty());
    assert_eq!(next, 10);
}

fn reference(source: Option<&str>) -> YamlReference {
    YamlReference {
        source_local_identifier: source.map(|s| s.to_string()),
        field_path: "m_Script".to_string(),
        target_guid: Some("g".to_string()),
        target_file_id: Some(11500000),
        target_local_id: None,
        ref_kind: "guid-file".to_string(),
    }
}

#[test]
fn references_find_the_object_that_they_stand_in() {
    let object = |id: i64, key: &str| StoredObject { id, local_identifier: key.to_string() };
    let objects = vec![object(40, "100"), object(41, "200"), object(42, "100")];
    let mut next: i64 = 1;
    let rows = reference_rows(
        &mut next,
        6,
        &objects,
        vec![reference(Some("100")), reference(Some("200")), reference(Some("300")), reference(None)],
    );
    let found: Vec<Option<i64>> = rows.iter().map(|r| r.source_yaml_object_id).collect();
    assert_eq!(found, vec![Some(40), Some(41), None, None]);
    let ids: Vec<i64> = rows.iter().map(|r| r.id).collect();
    assert_eq!(ids, vec![1, 2, 3, 4]);
    assert!(rows.iter().all(|r| r.file_id == 6));
    assert_eq!(next, 5);
}

fn declaration(name: &str) -> CsDeclaration {
    CsDeclaration {
        decl_kind: "class".to_string(),
        simple_name: name.to_string(),
        qualified_name: format!("N.{}", name),
        signature: None,
        line_start: 1,
        line_end: 2,
    }
}

fn mention(inside: Option<&str>) -> CsMention {
    CsMention {
        mention_kind: "call".to_string(),
        text: "Run".to_string(),
        receiver_text: None,
        containing_declaration: inside.map(|s| s.to_string()),
        line_start: 3,
        line_end: 3,
    }
}

#[test]
fn mentions_are_bound_to_the_first_declaration_of_the_name() {
    let mut next_decl: i64 = 10;
    let mut next: i64 = 1;
    let decls = number_rows(&mut next_decl, 2, vec![declaration("A"), declaration("B"), declaration("A")]);
    let rows = mention_rows(
        &mut next,
        2,
        &decls,
        vec![mention(Some("A")), mention(Some("B")), mention(Some("C")), mention(None)],
    );
    let found: Vec<Option<i64>> = rows.iter().map(|r| r.containing_declaration_id).collect();
    assert_eq!(found, vec![Some(10), Some(11), None, None]);
    assert_eq!(rows[3].id, 4);
    assert_eq!(next, 5);
    assert_eq!(next_decl, 13);
}

#[test]
fn symbols_of_declarations() {
    let mut next: i64 = 100;
    let stored = |id: i64, name: &str| StoredDeclaration {
        id,
        file_id: 4,
        decl_kind: "method".to_string(),
        simple_name: name.to_string(),
        qualified_name: format!("N.{}", name),
        line_start: 8,
        line_end: 9,
    };
    let rows = build_symbols(&mut next, vec![stored(5, "Run"), stored(6, "Stop")]);
    assert_eq!(
        rows[0],
        SymbolRow {
            id: 100,
            file_id: 4,
            declaration_id: 5,
            symbol_kind: "method".to_string(),
            simple_name: "Run".to_string(),
            qualified_name: "N.Run".to_string(),
            display_name: "Run".to_string(),
            line_start: 8,
            line_end: 9,
        }
    );
    assert_eq!(rows[1].id, 101);
    assert_eq!(next, 102);
}

#[test]
fn symbols_are_ordered_by_file_and_declaration() {
    let stored = |id: i64, file_id: i64| StoredDeclaration {
        id,
        file_id,
        decl_kind: "class".to_string(),
        simple_name: "A".to_string(),
        qualified_name: "A".to_string(),
        line_start: 1,
        line_end: 1,
    };
    let mut next: i64 = 1;
    let rows = build_symbols(&mut next, vec![stored(4, 2), stored(9, 1), stored(3, 2), stored(7, 1), stored(1, 3)]);
    let found: Vec<(i64, i64, i64)> = rows.iter().map(|r| (r.id, r.file_id, r.declaration_id)).collect();
    assert_eq!(found, vec![(1, 1, 7), (2, 1, 9), (3, 2, 3), (4, 2, 4), (5, 3, 1)]);
}
