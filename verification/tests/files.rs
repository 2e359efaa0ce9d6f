use unityassetdb::files::{
    asset_row, named_asset_row, parse_asset_kind, select, AssetKind, AssetRow, DiscoveredFile, FileIdRow,
    FileIds, Group,
};

fn file(path: &str, kind: &str, guid: Option<&str>) -> DiscoveredFile {
    DiscoveredFile {
        project_rel_path: path.to_string(),
        abs_path: format!("/p/{}", path),
        kind: kind.to_string(),
        unity_yaml: kind == "scene" || kind == "prefab",
        asset_kind: None,
        guid: guid.map(|g| g.to_string()),
        size_bytes: 1,
        mtime_ms: 2,
        content_hash: None,
        importer_type: None,
    }
}

#[test]
fn asset_kinds_read_back() {
    for kind in [
        AssetKind::Scene,
        AssetKind::Prefab,
        AssetKind::Material,
        AssetKind::Script,
        AssetKind::ScriptableObject,
        AssetKind::YamlAsset,
    ] {
        assert_eq!(parse_asset_kind(kind.as_str()), kind);
    }
    assert_eq!(AssetKind::ScriptableObject.as_str(), "scriptable_object");
    assert_eq!(parse_asset_kind("anything"), AssetKind::YamlAsset);
    assert_eq!(parse_asset_kind(""), AssetKind::YamlAsset);
}

#[test]
fn membership_of_one_file() {
    let mut f = file("a", "texture", None);
    assert!(!f.is_in(Group::UnityYaml) && !f.is_in(Group::CSharp) && !f.is_in(Group::Assets));
    f.unity_yaml = true;
    assert!(f.is_in(Group::UnityYaml));
    f.kind = "csharp".to_string();
    assert!(f.is_in(Group::UnityYaml) && f.is_in(Group::CSharp));
    f.guid = Some("g".to_string());
    assert!(f.is_in(Group::Assets));
    f.kind = "meta".to_string();
    assert!(!f.is_in(Group::Assets));
}

#[test]
fn groups_of_files() {
    let files = vec![
        file("a.unity", "scene", Some("1")),
        file("a.unity.meta", "meta", Some("1")),
        file("b.cs", "csharp", None),
        file("c.png", "texture", Some("2")),
        file("d.prefab", "scene", None),
        file("e.cs", "csharp", Some("3")),
    ];
    assert_eq!(select(&files, Group::UnityYaml), vec![0, 4]);
    assert_eq!(select(&files, Group::CSharp), vec![2, 5]);
    assert_eq!(select(&files, Group::Assets), vec![0, 3, 5]);
    assert!(select(&Vec::new(), Group::Assets).is_empty());
}

#[test]
fn file_ids_by_path() {
    let row = |id: i64, path: &str| FileIdRow { id, project_rel_path: path.to_string() };
    let ids = FileIds::new(&vec![row(1, "a"), row(2, "b"), row(3, "a")]);
    assert_eq!(ids.id_of("b"), 2);
    assert_eq!(ids.id_of("a"), 3);
    assert_eq!(ids.id_of("c"), 0);
    assert_eq!(ids.stored_id("b"), Some(2));
    assert_eq!(ids.stored_id("a"), Some(1));
    assert_eq!(ids.stored_id("c"), None);
}

#[test]
fn assets_are_called_by_their_file() {
    let mut next: i64 = 5;
    let mut f = file("Assets/Materials/Enemy.v2.mat", "scene", Some("abc"));
    f.asset_kind = Some(AssetKind::Material);
    assert_eq!(
        asset_row(&mut next, 9, &f),
        AssetRow {
            id: 5,
            file_id: 9,
            asset_kind: AssetKind::Material,
            guid: "abc".to_string(),
            name: "Enemy.v2".to_string(),
            vfs_root_path: "Assets/Materials/Enemy.v2.mat".to_string(),
        }
    );
    assert_eq!(next, 6);
    for (path, name) in [
        ("Assets/README", "README"),
        ("Assets/.hidden", ".hidden"),
        ("Assets/.hidden.txt", ".hidden"),
        ("x.", "x"),
        ("a.b/c", "c"),
        ("dir/a:b.txt", "a:b"),
        ("..", "unknown"),
        ("", "unknown"),
    ] {
        let row = asset_row(&mut next, 1, &file(path, "texture", Some("g")));
        assert_eq!(row.name, name);
        assert_eq!(row.asset_kind, AssetKind::YamlAsset);
    }
}

#[test]
fn asset_without_a_stem_is_unknown() {
    let mut next: i64 = 1;
    let f = file("x", "texture", Some("g"));
    assert_eq!(named_asset_row(&mut next, 2, &f, None).name, "unknown");
    assert_eq!(named_asset_row(&mut next, 2, &f, Some("stem".to_string())).name, "stem");
    assert_eq!(next, 3);
}
