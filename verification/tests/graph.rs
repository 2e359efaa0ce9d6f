use unityassetdb::graph::{edge_rows, entity_rows, Entity, EntityEdge};
use unityassetdb::rows::StoredObject;

fn entity(key: &str, parent: Option<&str>, object: Option<i64>) -> Entity {
    Entity {
        yaml_object_id: object,
        entity_kind: "gameobject".to_string(),
        local_key: key.to_string(),
        name: None,
        class_name: "GameObject".to_string(),
        parent_local_key: parent.map(|p| p.to_string()),
        line_start: None,
        line_end: None,
    }
}

fn edge(from: &str, to: &str) -> EntityEdge {
    EntityEdge {
        from_local_key: from.to_string(),
        to_local_key: to.to_string(),
        edge_kind: "has_component".to_string(),
        edge_subkind: None,
    }
}

#[test]
fn entities_find_their_objects_and_parents() {
    let objects = vec![
        StoredObject { id: 70, local_identifier: "1".to_string() },
        StoredObject { id: 71, local_identifier: "2".to_string() },
    ];
    let mut next: i64 = 20;
    let rows = entity_rows(
        &mut next,
        9,
        &objects,
        vec![
            entity("1", Some("2"), None),
            entity("2", Some("1"), Some(5)),
            entity("3", Some("3"), None),
            entity("1", Some("2"), None),
            entity("4", Some("1"), None),
            entity("5", None, None),
        ],
    );
    let objects_found: Vec<Option<i64>> = rows.iter().map(|r| r.yaml_object_id).collect();
    assert_eq!(objects_found, vec![Some(70), Some(5), None, Some(70), None, None]);
    let parents: Vec<Option<i64>> = rows.iter().map(|r| r.parent_entity_id).collect();
    assert_eq!(parents, vec![None, Some(20), None, Some(21), Some(20), None]);
    let ids: Vec<i64> = rows.iter().map(|r| r.id).collect();
    assert_eq!(ids, vec![20, 21, 22, 23, 24, 25]);
    assert!(rows.iter().all(|r| r.asset_id == 9));
    assert_eq!(next, 26);
}

#[test]
fn edges_within_an_asset() {
    let mut next: i64 = 20;
    let rows = entity_rows(
        &mut next,
        9,
        &Vec::new(),
        vec![entity("1", None, None), entity("2", None, None), entity("1", None, None), entity("guid:7", None, None)],
    );
    let mut next_edge: i64 = 3;
    let edges = edge_rows(
        &mut next_edge,
        &rows,
        vec![
            edge("1", "2"),
            edge("1", "guid:7"),
            edge("x", "2"),
            edge("2", "x"),
            edge("guid:7", "1"),
            edge("2", "guid"),
        ],
    );
    let found: Vec<(i64, i64, i64)> = edges.iter().map(|e| (e.id, e.from_entity_id, e.to_entity_id)).collect();
    assert_eq!(found, vec![(3, 20, 21), (4, 23, 20)]);
    assert_eq!(next_edge, 5);
}
