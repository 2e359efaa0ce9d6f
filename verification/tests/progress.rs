use unityassetdb::progress::{build_summary, can_show_path, phase_at, Draw, IndexProgress, PhaseStyle, PhaseTime, PHASE_COUNT};

fn message(draws: &Vec<Draw>) -> String {
    for d in draws {
        if let Draw::PhaseMessage(m) = d {
            return m.clone();
        }
    }
    panic!("no message")
}

fn overall(draws: &Vec<Draw>) -> u64 {
    let mut found: Option<u64> = None;
    for d in draws {
        if let Draw::OverallPosition(p) = d {
            found = Some(*p);
        }
    }
    found.unwrap()
}

#[test]
fn phases_and_weights() {
    let mut names: Vec<&str> = Vec::new();
    let mut total: u64 = 0;
    for i in 0..PHASE_COUNT {
        names.push(phase_at(i).short);
        total += phase_at(i).weight;
    }
    assert_eq!(names, vec!["scan", "register", "extract", "assets", "graph", "bind", "vfs", "publish"]);
    assert_eq!(total, 100);
    assert_eq!(phase_at(2).long, "Extracting YAML + C#");
    assert_eq!(phase_at(2).weight, 50);
    assert_eq!(phase_at(7).weight, 2);
}

#[test]
fn phase_begins_with_message_style() {
    let mut p = IndexProgress::new();
    let draws = p.phase(2, 5);
    assert_eq!(
        draws,
        vec![
            Draw::FileMessage("".to_string()),
            Draw::PhaseStyle(PhaseStyle::Message),
            Draw::OverallMessage("3/8 extract".to_string()),
            Draw::PhaseMessage("extract".to_string()),
            Draw::OverallPosition(10),
        ]
    );
    assert_eq!(p.phase_times, vec![PhaseTime { phase: 0, nanos: 5 }]);
}

#[test]
fn phase_that_is_recorded_already_is_not_recorded_again() {
    let mut p = IndexProgress::new();
    p.phase(1, 5);
    p.phase(1, 6);
    assert_eq!(p.phase_times, vec![PhaseTime { phase: 0, nanos: 5 }]);
    p.phase(2, 7);
    assert_eq!(p.phase_times, vec![PhaseTime { phase: 0, nanos: 5 }, PhaseTime { phase: 1, nanos: 7 }]);
}

#[test]
fn extraction_line_with_rate_and_counters() {
    let mut p = IndexProgress::new();
    p.phase(2, 0);
    let draws = p.set_items(31_422, 54_120, 0);
    assert_eq!(message(&draws), "extract 31,422/54,120");
    p.stat_yaml(892_000, 1_200_000, 2_469_606_195, 0);
    let draws = p.render(12_016_000_000);
    assert_eq!(message(&draws), "extract 31,422/54,120 · 2,615/s · 892K objs · 1.2M refs · 2.3 GB");
    let draws = p.stat_cs(10_500, 3, 0, 100_000_000);
    assert_eq!(message(&draws), "extract 31,422/54,120 · 892K objs · 1.2M refs · 10.5K decls · 2.3 GB");
    assert_eq!(p.stats.cs_mentions, 3);
}

#[test]
fn large_rates_are_compact() {
    let mut p = IndexProgress::new();
    p.phase(1, 0);
    let draws = p.set_items(54_120, 54_120, 1_000_000_000);
    assert_eq!(message(&draws), "register 54,120/54,120 · 54.1K/s");
}

#[test]
fn entities_are_counted_in_the_graph_phase_only() {
    let mut p = IndexProgress::new();
    p.phase(3, 0);
    let draws = p.stat_entities(7, 0);
    assert_eq!(message(&draws), "assets");
    let draws = p.phase(4, 0);
    assert_eq!(message(&draws), "graph · 7 entities");
}

#[test]
fn set_len_shows_a_bar() {
    let mut p = IndexProgress::new();
    p.phase(1, 0);
    let draws = p.set_len(3, 0);
    assert_eq!(draws[0], Draw::PhaseLength(3));
    assert_eq!(draws[1], Draw::PhaseStyle(PhaseStyle::Bar));
    assert_eq!(draws[3], Draw::PhasePosition(0));
    assert_eq!(message(&draws), "register 0/3");
    let draws = p.set_len(0, 0);
    assert_eq!(draws.len(), 3);
    assert_eq!(message(&draws), "register");
}

#[test]
fn bar_appears_with_the_first_known_total() {
    let mut p = IndexProgress::new();
    p.phase(0, 0);
    let draws = p.on_discovery(5, Some(10), 0);
    assert_eq!(draws[0], Draw::PhaseLength(10));
    let draws = p.on_discovery(12, Some(10), 0);
    assert_eq!(draws[0], Draw::OverallMessage("1/8 scan".to_string()));
    assert_eq!(p.phase_pos, 10);
    let draws = p.on_discovery(12_345, None, 200_000_000);
    assert_eq!(draws, vec![Draw::PhaseMessage("scan · 12,345 files found · 61.7K/s".to_string())]);
    let draws = p.on_discovery(12_345, None, 100_000_000);
    assert_eq!(draws, vec![Draw::PhaseMessage("scan · 12,345 files found".to_string())]);
    let draws = p.set_walking_count(2_500, 500_000_000);
    assert_eq!(draws, vec![Draw::PhaseMessage("scan · 2,500 files found · 5000/s".to_string())]);
    let draws = p.set_walking_count(0, 900_000_000);
    assert_eq!(draws, vec![Draw::PhaseMessage("scan · 0 files found".to_string())]);
}

#[test]
fn items_stop_at_the_total() {
    let mut p = IndexProgress::new();
    p.phase(1, 0);
    p.set_len(2, 0);
    p.inc(0);
    p.inc(0);
    p.inc(0);
    assert_eq!(p.phase_pos, 2);
    p.phase(3, 0);
    p.inc(0);
    assert_eq!(p.phase_pos, 0);
}

#[test]
fn end_of_a_phase() {
    let mut p = IndexProgress::new();
    p.phase(2, 0);
    p.set_len(4, 0);
    let draws = p.finish_phase(0);
    assert_eq!(draws[0], Draw::PhasePosition(4));
    assert_eq!(draws[1], Draw::OverallPosition(60));
    assert_eq!(overall(&draws), 60);
    p.phase(5, 0);
    let draws = p.finish_phase(0);
    assert_eq!(draws[0], Draw::OverallPosition(85));
    assert_eq!(overall(&draws), 80);
}

#[test]
fn overall_position_agrees_with_floating_point() {
    for idx in 0..PHASE_COUNT {
        let mut p = IndexProgress::new();
        p.phase(idx, 0);
        let mut last: u64 = 0;
        for len in [1u64, 2, 3, 7, 10, 99, 100, 101, 54_120, u64::MAX] {
            for step in 0..=40u64 {
                let pos = ((len as u128) * (step as u128) / 40) as u64;
                let draws = p.set_items(pos, len, 0);
                let frac = pos as f64 / len as f64;
                let done = (p.weight as f64 * frac).round() as u64;
                assert_eq!(overall(&draws), (p.base + done).min(p.base + p.weight));
                if step > 0 {
                    assert!(last <= overall(&draws));
                }
                last = overall(&draws);
            }
        }
    }
}

#[test]
fn long_paths_show_their_end() {
    let p = IndexProgress::new();
    let short = "Assets/Scenes/MainMenu.unity";
    assert_eq!(p.set_current_file(short), vec![Draw::FileMessage(short.to_string())]);
    let exact = "a".repeat(58);
    assert_eq!(p.set_current_file(&exact), vec![Draw::FileMessage(exact.clone())]);
    let long = format!("{}{}", "b".repeat(10), "c".repeat(58));
    assert_eq!(p.set_current_file(&long), vec![Draw::FileMessage(format!("…{}", "c".repeat(58)))]);
    let wide = "é".repeat(30);
    assert_eq!(p.set_current_file(&wide), vec![Draw::FileMessage(format!("…{}", "é".repeat(29)))]);
}

#[test]
fn paths_that_cannot_be_cut() {
    assert!(can_show_path("short"));
    assert!(can_show_path(&"é".repeat(29)));
    assert!(can_show_path(&"é".repeat(40)));
    assert!(!can_show_path(&format!("{}a", "é".repeat(40))));
}

#[test]
fn breakdown_of_a_build() {
    let mut p = IndexProgress::new();
    p.phase(0, 0);
    p.phase(1, 1_800_000_000);
    p.phase(2, 600_000_000);
    let (draws, lines) = p.finish(21_400_000_000, 14_200_000_000);
    assert_eq!(
        draws,
        vec![Draw::FileDone, Draw::PhaseDone, Draw::OverallDone("done in 21.4s".to_string())]
    );
    assert_eq!(
        lines,
        vec![
            "".to_string(),
            "  phase breakdown:".to_string(),
            "    scan          1.8s  ███".to_string(),
            "    register      0.6s  █".to_string(),
            format!("    extract      14.2s  {}", "█".repeat(24)),
        ]
    );
}

#[test]
fn breakdown_of_a_build_without_time() {
    let mut p = IndexProgress::new();
    p.phase(0, 0);
    let (_, lines) = p.finish(0, 0);
    assert_eq!(lines[2], "    scan          0.0s  ");
}

#[test]
fn breakdown_agrees_with_floating_point() {
    let mut x: u64 = 88172645463325252;
    for _ in 0..3000 {
        x ^= x << 13;
        x ^= x >> 7;
        x ^= x << 17;
        let a = x >> (x % 60);
        x ^= x << 13;
        x ^= x >> 7;
        x ^= x << 17;
        let b = x >> (x % 60);
        let mut p = IndexProgress::new();
        p.phase(0, 0);
        p.phase(1, a);
        let (_, lines) = p.finish(a, b);
        let fa = std::time::Duration::from_nanos(a).as_secs_f64();
        let fb = std::time::Duration::from_nanos(b).as_secs_f64();
        let max = 0.0_f64.max(fa).max(fb);
        let cells = |d: f64| if max > 0.0 { ((d / max) * 24.0).round() as usize } else { 0 };
        assert_eq!(lines[2], format!("    {:<10} {:>6.1}s  {}", "scan", fa, "█".repeat(cells(fa))));
        assert_eq!(lines[3], format!("    {:<10} {:>6.1}s  {}", "register", fb, "█".repeat(cells(fb))));
    }
}

#[test]
fn closing_line() {
    assert_eq!(
        build_summary(21_400_000_000, ".unityassetdb/index.db", 54_120, 12_830, 8_221),
        "✅ Index built in 21.4s: .unityassetdb/index.db (54,120 files, 12,830 assets, 8,221 scripts bound, 2,529 files/s)"
    );
    assert_eq!(
        build_summary(0, "x", 10, 1, 0),
        "✅ Index built in 0.0s: x (10 files, 1 assets, 0 scripts bound, 0 files/s)"
    );
}
