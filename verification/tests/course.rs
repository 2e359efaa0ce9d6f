use unityassetdb::course::{Build, Event, Step, Target};
use unityassetdb::files::DiscoveredFile;
use unityassetdb::progress::Draw;

fn file(path: &str, kind: &str, guid: Option<&str>) -> DiscoveredFile {
    DiscoveredFile {
        project_rel_path: path.to_string(),
        abs_path: format!("/p/{}", path),
        kind: kind.to_string(),
        unity_yaml: kind == "scene" || kind == "prefab",
        asset_kind: None,
        guid: guid.map(|g| g.to_string()),
        size_bytes: 1,
        mtime_ms: 2,
        content_hash: None,
        importer_type: None,
    }
}

fn project() -> Vec<DiscoveredFile> {
    vec![
        file("a.unity", "scene", Some("1")),
        file("a.unity.meta", "meta", Some("1")),
        file("b.cs", "csharp", Some("2")),
        file("c.prefab", "scene", None),
    ]
}

fn overall_of(draws: &Vec<Draw>, last: u64) -> u64 {
    let mut p = last;
    for d in draws {
        if let Draw::OverallPosition(n) = d {
            p = *n;
        }
    }
    p
}

fn event_for(step: Step) -> Event {
    match step {
        Step::Scan => Event::Discovered(project()),
        Step::ReadYaml(1) => Event::Skipped,
        Step::ReadYaml(_) => Event::Yaml { objects: 3, references: 2, bytes: 100 },
        Step::ReadCSharp(_) => Event::CSharp { declarations: 4, mentions: 5, bytes: 50 },
        Step::LoadAssets => Event::Assets(vec!["a.unity".to_string(), "b.cs".to_string()]),
        Step::Resolve(_) => Event::Entities(6),
        Step::BindScripts => Event::Bound(1),
        _ => Event::Done,
    }
}

#[test]
fn steps_of_a_build() {
    let (mut build, draws) = Build::new();
    assert_eq!(overall_of(&draws, 99), 0);
    let mut steps = vec![build.step];
    let mut last: u64 = 0;
    while build.step != Step::Finished {
        let draws = build.advance(event_for(build.step), 1);
        let p = overall_of(&draws, last);
        assert!(last <= p);
        last = p;
        steps.push(build.step);
    }
    assert_eq!(
        steps,
        vec![
            Step::Scan,
            Step::Open,
            Step::Register(0),
            Step::Register(1),
            Step::Register(2),
            Step::Register(3),
            Step::LoadIds,
            Step::ReadYaml(0),
            Step::StoreYaml(0),
            Step::ReadYaml(1),
            Step::ReadCSharp(0),
            Step::StoreCSharp(0),
            Step::AddAsset(0),
            Step::AddAsset(1),
            Step::LoadAssets,
            Step::Resolve(0),
            Step::StoreEntities(0),
            Step::Resolve(1),
            Step::StoreEntities(1),
            Step::BuildSymbols,
            Step::BindScripts,
            Step::Materialize,
            Step::Publish,
            Step::Commit,
            Step::Switch,
            Step::Finished,
        ]
    );
    assert_eq!(build.yaml, vec![0, 3]);
    assert_eq!(build.csharp, vec![2]);
    assert_eq!(build.assets, vec![0, 2]);
    assert_eq!(build.progress.stats.yaml_objects, 3);
    assert_eq!(build.progress.stats.cs_mentions, 5);
    assert_eq!(build.progress.stats.bytes_read, 150);
    assert_eq!(build.progress.stats.entities, 12);
    assert_eq!(build.bound, 1);
    let (draws, lines) = build.report(2_000_000_000, 1, "/p/index.db");
    assert_eq!(draws[2], Draw::OverallDone("done in 2.0s".to_string()));
    assert_eq!(lines.len(), 11);
    assert_eq!(
        lines[10],
        "✅ Index built in 2.0s: /p/index.db (4 files, 2 assets, 1 scripts bound, 2 files/s)"
    );
}

#[test]
fn empty_project() {
    let (mut build, _) = Build::new();
    let mut steps: Vec<Step> = Vec::new();
    while build.step != Step::Finished {
        let event = match build.step {
            Step::Scan => Event::Discovered(Vec::new()),
            Step::LoadAssets => Event::Assets(Vec::new()),
            Step::BindScripts => Event::Bound(0),
            _ => Event::Done,
        };
        build.advance(event, 0);
        steps.push(build.step);
    }
    assert_eq!(
        steps,
        vec![
            Step::Open,
            Step::LoadIds,
            Step::LoadAssets,
            Step::BuildSymbols,
            Step::BindScripts,
            Step::Materialize,
            Step::Publish,
            Step::Commit,
            Step::Switch,
            Step::Finished,
        ]
    );
    assert_eq!(build.progress.phase_times.len(), 7);
}

#[test]
fn failed_step_ends_the_build() {
    let (mut build, _) = Build::new();
    build.advance(Event::Discovered(project()), 0);
    let draws = build.advance(Event::Failed, 0);
    assert!(draws.is_empty());
    assert_eq!(build.step, Step::Failed);
}

#[test]
fn index_is_touched_by_the_switch_alone() {
    let (mut build, _) = Build::new();
    let mut targets: Vec<Target> = Vec::new();
    while build.step != Step::Finished {
        targets.push(build.step.target());
        build.advance(event_for(build.step), 0);
    }
    let last = targets.len() - 1;
    assert_eq!(targets[last], Target::Index);
    assert_eq!(targets[last - 1], Target::Draft);
    assert_eq!(targets[0], Target::Nothing);
    assert!(targets[..last].iter().all(|t| *t != Target::Index));
}

#[test]
fn time_does_not_change_the_course() {
    let (mut a, _) = Build::new();
    let (mut b, _) = Build::new();
    let mut time: u64 = 1;
    while a.step != Step::Finished {
        assert_eq!(a.step, b.step);
        time = time.wrapping_mul(6364136223846793005).wrapping_add(1);
        a.advance(event_for(a.step), 0);
        b.advance(event_for(b.step), time);
    }
    assert_eq!(b.step, Step::Finished);
    assert_eq!(a.roots, b.roots);
    assert_eq!(a.bound, b.bound);
}

#[test]
fn files_in_work_are_shown() {
    let (mut build, _) = Build::new();
    while build.step != Step::LoadIds {
        build.advance(event_for(build.step), 0);
    }
    let draws = build.advance(Event::Done, 0);
    assert_eq!(draws[draws.len() - 1], Draw::FileMessage("a.unity".to_string()));
    build.advance(event_for(build.step), 0);
    let draws = build.advance(Event::Done, 0);
    assert_eq!(draws[draws.len() - 1], Draw::FileMessage("c.prefab".to_string()));
    let draws = build.advance(Event::Skipped, 0);
    assert_eq!(draws[draws.len() - 1], Draw::FileMessage("b.cs".to_string()));
}

#[test]
fn discovery_reports_progress() {
    let (mut build, _) = Build::new();
    let draws = build.on_discovery(1_500, None, 0);
    assert_eq!(draws, vec![Draw::PhaseMessage("scan · 1,500 files found".to_string())]);
    let draws = build.on_discovery(2, Some(4), 0);
    assert_eq!(draws[0], Draw::PhaseLength(4));
    assert_eq!(build.progress.phase_pos, 2);
}
