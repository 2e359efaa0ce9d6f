use unityassetdb::command::{
    db_path, default_db_path, rebuild_summary, run_build, run_build_internal, run_index_action, run_status, run_sync,
    IndexAction, IndexStatus, IndexTask, RebuildSummary, StatusCounts,
};

#[test]
fn build_action_keeps_its_arguments() {
    let action = IndexAction::Build { project: "/p", output: Some("/o/index.db"), packages: false };
    assert_eq!(
        run_index_action(action),
        IndexTask::Build { project: "/p", output: Some("/o/index.db"), include_packages: false }
    );
}

#[test]
fn sync_is_a_full_rebuild_with_packages() {
    let expected = IndexTask::Build { project: "/p", output: None, include_packages: true };
    assert_eq!(run_index_action(IndexAction::Sync { project: "/p" }), expected);
    assert_eq!(run_sync("/p"), expected);
    assert_eq!(run_build_internal("/p"), expected);
    assert_eq!(run_build("/p", None, true), expected);
}

#[test]
fn status_action_is_a_status_task() {
    assert_eq!(run_index_action(IndexAction::Status { project: "/p" }), IndexTask::Status { project: "/p" });
}

#[test]
fn index_lives_below_the_project_by_default() {
    let path = default_db_path("/p");
    assert_eq!(path.root, "/p");
    assert_eq!(path.below, vec![".unityassetdb", "index.db"]);
    let path = db_path("/p", None);
    assert_eq!(path.root, "/p");
    assert_eq!(path.below, vec![".unityassetdb", "index.db"]);
    let path = db_path("/p", Some("/elsewhere.db"));
    assert_eq!(path.root, "/elsewhere.db");
    assert!(path.below.is_empty());
}

#[test]
fn status_without_index() {
    assert_eq!(
        run_status("/p", &None),
        vec![
            "❌ No index found for project: /p".to_string(),
            "   Run `unityassetdb index build /p` to create one.".to_string(),
        ]
    );
}

fn counts() -> StatusCounts {
    StatusCounts {
        files: 10,
        yaml_objects: 21,
        yaml_refs: 32,
        cs_decls: 43,
        assets: 5,
        entities: 54,
        entity_edges: 65,
        vfs_entries: 76,
        vfs_edges: 87,
    }
}

#[test]
fn status_after_a_build() {
    let index = IndexStatus {
        database: "/p/.unityassetdb/index.db".to_string(),
        summary: Some(rebuild_summary(12_969, "/p/.unityassetdb/index.db".to_string())),
        counts: counts(),
    };
    let expected = "📊 UnityAssetDB Index Status
   Project:  /p
   Database: /p/.unityassetdb/index.db
   Mode:     full
   Indexed:  12969 files discovered
   DB Path:  /p/.unityassetdb/index.db

   Files:          10
   YAML Objects:   21
   YAML Refs:      32
   C# Decls:       43
   Assets:         5
   Entities:       54
   Entity Edges:   65
   VFS Entries:    76
   VFS Edges:      87";
    assert_eq!(run_status("/p", &Some(index)).join("\n"), expected);
}

#[test]
fn status_without_summary() {
    let index = IndexStatus { database: "/d".to_string(), summary: None, counts: counts() };
    let lines = run_status("/p", &Some(index));
    assert_eq!(lines.len(), 13);
    assert_eq!(lines[3], "");
    assert_eq!(lines[4], "   Files:          10");
}

#[test]
fn status_shows_a_negative_count_as_it_is() {
    let index = IndexStatus {
        database: "/d".to_string(),
        summary: Some(RebuildSummary {
            mode: "partial".to_string(),
            discovered: i64::MIN,
            index_path: "x".to_string(),
        }),
        counts: counts(),
    };
    let lines = run_status("/p", &Some(index));
    assert_eq!(lines[3], "   Mode:     partial");
    assert_eq!(lines[4], "   Indexed:  -9223372036854775808 files discovered");
}

#[test]
fn build_records_what_it_found() {
    let summary = rebuild_summary(7, "/i".to_string());
    assert_eq!(
        summary,
        RebuildSummary { mode: "full".to_string(), discovered: 7, index_path: "/i".to_string() }
    );
}
