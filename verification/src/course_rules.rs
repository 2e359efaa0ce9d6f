//! What a build counts, records and shows on its way.
use crate::command::texts;
use crate::course::{lemma_group_sizes, target_of, Build, BuildView, Change, Event, Step, Target};
use crate::course_laws::law_steps_in_turn;
use crate::files::{members, DiscoveredFile, Group};
use crate::lookup::positions;
use crate::progress::{
    bar_setup, can_cut, lemma_weights, phase_short, shown_path, DrawView, PhaseStyle, PhaseTime, ProgressView,
};
use crate::progress_rules::{
    law_bar_appears, law_new_phase_is_shown, law_render_shows_the_state, lemma_screen_after_both,
    lemma_screen_after_one, says, Screen,
};
use crate::runs::{is_run, law_run_is_sound, state_after};
use crate::text::digits;
use vstd::prelude::*;
use vstd::utf8::{encode_utf8, is_char_boundary};

verus! {

/// The view of a build holds its step, its display, its files, the roots of its assets and the number of
/// scripts bound; its groups are the positions of its files.
pub proof fn law_build_view(b: Build)
    requires
        b.wf(),
    ensures
        b@.step == b.step,
        b@.progress == b.progress@,
        b@.files == b.files@,
        b@.roots.len() == b.roots@.len(),
        forall|i: int| 0 <= i < b.roots@.len() ==> #[trigger] b@.roots[i] == b.roots@[i]@,
        b@.bound == b.bound,
        positions(b.yaml@) == members(b.files@, Group::UnityYaml),
        positions(b.csharp@) == members(b.files@, Group::CSharp),
        positions(b.assets@) == members(b.files@, Group::Assets),
{
}

/// A build begins with the discovery of files, in the first phase, and knows of nothing yet.
pub proof fn law_build_begins_with_discovery()
    ensures
        ({
            let b = BuildView::start();
            &&& b.step == Step::Scan
            &&& b.files.len() == 0 && b.roots.len() == 0 && b.bound == 0
            &&& b.progress.phase_idx == 0 && b.progress.phase_len == 0 && b.progress.phase_pos == 0
            &&& b.progress.phase_times.len() == 0
            &&& b.progress.stats.yaml_objects == 0 && b.progress.stats.yaml_refs == 0
            &&& b.progress.stats.cs_decls == 0 && b.progress.stats.cs_mentions == 0
            &&& b.progress.stats.entities == 0 && b.progress.stats.bytes_read == 0
        }),
{
}

/// Whatever stores rows writes to the draft, the switch writes to the index, and what only looks writes to
/// nothing.
pub proof fn law_what_steps_write_to(step: Step)
    ensures
        target_of(step) == Target::Index <==> step is Switch,
        target_of(step) == Target::Nothing <==> step is Scan || step is LoadIds || step is ReadYaml || step
            is ReadCSharp || step is LoadAssets || step is Resolve || step is Finished || step is Failed,
{
}

/// Every step can fail until the build has ended. A file that is to be read can be skipped; what has no
/// result of its own can be done.
pub proof fn law_what_can_come_of_a_step(b: BuildView, bound: u64)
    ensures
        b.fits(Event::Failed) <==> !(b.step is Finished) && !(b.step is Failed),
        b.fits(Event::Skipped) <==> b.step is ReadYaml || b.step is ReadCSharp,
        b.fits(Event::Bound(bound)) <==> b.step is BindScripts,
        b.fits(Event::Done) <==> b.step is Open || b.step is Register || b.step is LoadIds || b.step is StoreYaml
            || b.step is StoreCSharp || b.step is AddAsset || b.step is StoreEntities || b.step is BuildSymbols
            || b.step is Materialize || b.step is Publish || b.step is Commit || b.step is Switch,
{
}

/// What was read of a file can always be taken, as long as the counters have room for it.
pub proof fn law_what_was_read_can_be_taken(b: BuildView, x: u64, y: u64, size: u64)
    ensures
        b.fits(Event::Yaml { objects: x, references: y, bytes: size }) <==> {
            &&& b.step is ReadYaml
            &&& b.progress.stats.yaml_objects + x <= u64::MAX
            &&& b.progress.stats.yaml_refs + y <= u64::MAX
            &&& b.progress.stats.bytes_read + size <= u64::MAX
        },
        b.fits(Event::CSharp { declarations: x, mentions: y, bytes: size }) <==> {
            &&& b.step is ReadCSharp
            &&& b.progress.stats.cs_decls + x <= u64::MAX
            &&& b.progress.stats.cs_mentions + y <= u64::MAX
            &&& b.progress.stats.bytes_read + size <= u64::MAX
        },
        b.fits(Event::Entities(x)) <==> b.step is Resolve && b.progress.stats.entities + x <= u64::MAX,
{
}

/// Whether the file line can show a path: it is short, or a character begins 58 bytes before its end.
pub open spec fn is_showable(path: Seq<char>) -> bool {
    let encoded = encode_utf8(path);
    encoded.len() <= 58 || is_char_boundary(encoded, encoded.len() - 58)
}

/// Whatever files were found can be taken, as long as the paths of those that are read can be shown; and
/// whatever assets were loaded, as long as their paths can.
pub proof fn law_what_was_found_can_be_taken(b: BuildView, files: Vec<DiscoveredFile>, roots: Vec<String>)
    ensures
        b.fits(Event::Discovered(files)) <==> {
            &&& b.step is Scan
            &&& 2 * files@.len() <= usize::MAX
            &&& forall|i: int|
                0 <= i < files@.len() && ((#[trigger] files@[i]).unity_yaml || files@[i].kind@ == "csharp"@)
                    ==> is_showable(files@[i].project_rel_path@)
        },
        b.step is LoadAssets && (forall|i: int| 0 <= i < roots@.len() ==> is_showable((#[trigger] roots@[i])@))
            && roots@.len() <= usize::MAX ==> b.fits(Event::Assets(roots)),
        b.fits(Event::Assets(roots)) ==> b.step is LoadAssets,
{
    assert forall|i: int| 0 <= i < roots@.len() implies #[trigger] texts(roots@)[i] == roots@[i]@ by {}
    assert forall|path: Seq<char>| #[trigger] can_cut(path) <==> is_showable(path) by {}
    if b.fits(Event::Discovered(files)) {
        assert forall|i: int|
            0 <= i < files@.len() && ((#[trigger] files@[i]).unity_yaml || files@[i].kind@
                == "csharp"@) implies is_showable(files@[i].project_rel_path@) by {
            assert(can_cut(files@[i].project_rel_path@));
        }
    }
}

/// After the C# files come the assets, and after the assets their graph.
pub open spec fn after_csharp(files: Seq<DiscoveredFile>) -> Step {
    if members(files, Group::Assets).len() > 0 {
        Step::AddAsset(0)
    } else {
        Step::LoadAssets
    }
}

/// After the Unity YAML files come the C# files.
pub open spec fn after_yaml(files: Seq<DiscoveredFile>) -> Step {
    if members(files, Group::CSharp).len() > 0 {
        Step::ReadCSharp(0)
    } else {
        after_csharp(files)
    }
}

/// What was read of a file, and what was found of an asset, is stored next, however much or little it is;
/// a file that was skipped is not stored.
pub proof fn law_what_was_read_is_stored(b: BuildView, event: Event, elapsed: u64, i: usize)
    requires
        b.fits(event),
    ensures
        b.step == Step::ReadYaml(i) && event is Yaml ==> b.next(event, elapsed).to.step == Step::StoreYaml(i),
        b.step == Step::ReadCSharp(i) && event is CSharp ==> b.next(event, elapsed).to.step == Step::StoreCSharp(i),
        b.step == Step::Resolve(i) && event is Entities ==> b.next(event, elapsed).to.step == Step::StoreEntities(i),
        event is Skipped ==> !(b.next(event, elapsed).to.step is StoreYaml) && !(b.next(event, elapsed).to.step
            is StoreCSharp),
{
    if !(event is Failed) {
        law_steps_in_turn(b, event, elapsed);
    }
}

/// A file or asset that is done is followed by the next one, and the last one by the next kind of work.
pub proof fn law_items_follow_each_other(b: BuildView, event: Event, elapsed: u64, i: usize)
    requires
        b.sound(),
        b.fits(event),
        !(event is Failed),
    ensures
        ({
            let next = b.next(event, elapsed).to.step;
            let yaml = members(b.files, Group::UnityYaml).len();
            let csharp = members(b.files, Group::CSharp).len();
            let assets = members(b.files, Group::Assets).len();
            &&& b.step == Step::Register(i) && i + 1 < b.files.len() ==> next == Step::Register((i + 1) as usize)
            &&& b.step == Step::Register(i) && i + 1 >= b.files.len() ==> next == Step::LoadIds
            &&& b.step == Step::StoreYaml(i) || (b.step == Step::ReadYaml(i) && event is Skipped) ==> {
                &&& i + 1 < yaml ==> next == Step::ReadYaml((i + 1) as usize)
                &&& i + 1 >= yaml ==> next == after_yaml(b.files)
            }
            &&& b.step == Step::StoreCSharp(i) || (b.step == Step::ReadCSharp(i) && event is Skipped) ==> {
                &&& i + 1 < csharp ==> next == Step::ReadCSharp((i + 1) as usize)
                &&& i + 1 >= csharp ==> next == after_csharp(b.files)
            }
            &&& b.step == Step::AddAsset(i) && i + 1 < assets ==> next == Step::AddAsset((i + 1) as usize)
            &&& b.step == Step::AddAsset(i) && i + 1 >= assets ==> next == Step::LoadAssets
            &&& b.step == Step::StoreEntities(i) && i + 1 < b.roots.len() ==> next == Step::Resolve((i + 1) as usize)
            &&& b.step == Step::StoreEntities(i) && i + 1 >= b.roots.len() ==> next == Step::BuildSymbols
        }),
{
    lemma_group_sizes(b.files);
    law_steps_in_turn(b, event, elapsed);
}

/// Each kind of work is followed by the next one, and begins with its first item if it has any.
pub proof fn law_kinds_of_work_follow_each_other(b: BuildView, event: Event, elapsed: u64)
    requires
        b.fits(event),
        !(event is Failed),
    ensures
        ({
            let next = b.next(event, elapsed).to.step;
            &&& b.step is Scan ==> next == Step::Open
            &&& b.step is Open && b.files.len() > 0 ==> next == Step::Register(0)
            &&& b.step is Open && b.files.len() == 0 ==> next == Step::LoadIds
            &&& b.step is LoadIds && members(b.files, Group::UnityYaml).len() > 0 ==> next == Step::ReadYaml(0)
            &&& b.step is LoadIds && members(b.files, Group::UnityYaml).len() == 0 ==> next == after_yaml(b.files)
            &&& b.step is LoadAssets && event->Assets_0@.len() > 0 ==> next == Step::Resolve(0)
            &&& b.step is LoadAssets && event->Assets_0@.len() == 0 ==> next == Step::BuildSymbols
            &&& b.step is BuildSymbols ==> next == Step::BindScripts
            &&& b.step is BindScripts ==> next == Step::Materialize
            &&& b.step is Materialize ==> next == Step::Publish
            &&& b.step is Publish ==> next == Step::Commit
            &&& b.step is Commit ==> next == Step::Switch
            &&& b.step is Switch ==> next == Step::Finished
        }),
{
    law_steps_in_turn(b, event, elapsed);
}

/// The files are those that discovery has found, the assets those that were loaded, and the number of
/// scripts bound the one that was given; nothing else changes them.
pub proof fn law_what_a_build_keeps(b: BuildView, event: Event, elapsed: u64)
    requires
        b.fits(event),
    ensures
        ({
            let after = b.next(event, elapsed).to;
            &&& event is Discovered ==> after.files == event->Discovered_0@
            &&& !(event is Discovered) ==> after.files == b.files
            &&& event is Assets ==> {
                &&& after.roots.len() == event->Assets_0@.len()
                &&& forall|i: int| 0 <= i < after.roots.len() ==> #[trigger] after.roots[i] == event->Assets_0@[i]@
            }
            &&& !(event is Assets) ==> after.roots == b.roots
            &&& event is Bound ==> after.bound == event->Bound_0
            &&& !(event is Bound) ==> after.bound == b.bound
        }),
{
    if !(event is Failed) {
        law_steps_in_turn(b, event, elapsed);
    }
}

/// The times with those of the phases that have ended: the first took `elapsed`, and phases without items
/// that were passed over took none.
pub open spec fn recorded(times: Seq<PhaseTime>, from: int, to: int, elapsed: u64) -> Seq<PhaseTime> {
    times + Seq::new(
        (to - from) as nat,
        |k: int|
            PhaseTime {
                phase: (from + k) as usize,
                nanos: if k == 0 {
                    elapsed
                } else {
                    0
                },
            },
    )
}

/// Whether as many phases are recorded as have ended.
pub open spec fn is_recorded(p: ProgressView) -> bool {
    p.phase_times.len() == p.phase_idx
}

/// What one state keeps of another: the counters, and the times with those of the phases between.
spec fn keeps(p: ProgressView, q: ProgressView, elapsed: u64) -> bool {
    &&& p.phase_idx <= q.phase_idx < 8
    &&& q.stats == p.stats
    &&& q.phase_times == recorded(p.phase_times, p.phase_idx as int, q.phase_idx as int, elapsed)
}

proof fn lemma_keeps_same(p: ProgressView, elapsed: u64)
    requires
        p.phase_idx < 8,
    ensures
        forall|q: ProgressView|
            q.phase_idx == p.phase_idx && q.stats == p.stats && q.phase_times == p.phase_times ==> #[trigger] keeps(
                p,
                q,
                elapsed,
            ),
{
    assert(recorded(p.phase_times, p.phase_idx as int, p.phase_idx as int, elapsed) =~= p.phase_times);
}

proof fn lemma_keeps_trans(p: ProgressView, q: ProgressView, r: ProgressView, elapsed: u64, later: u64)
    requires
        keeps(p, q, elapsed),
        keeps(q, r, later),
        p.phase_idx == q.phase_idx ==> later == elapsed,
        p.phase_idx < q.phase_idx ==> later == 0,
    ensures
        keeps(p, r, elapsed),
{
    assert(r.phase_times =~= recorded(p.phase_times, p.phase_idx as int, r.phase_idx as int, elapsed));
}

proof fn lemma_begins_keeps(b: BuildView, idx: usize, elapsed: u64)
    requires
        is_recorded(b.progress),
        idx < 8,
        idx == b.progress.phase_idx + 1,
    ensures
        keeps(b.progress, b.begins(idx, elapsed).to.progress, elapsed),
        is_recorded(b.begins(idx, elapsed).to.progress),
        b.begins(idx, elapsed).to == (BuildView { progress: b.begins(idx, elapsed).to.progress, ..b }),
        b.begins(idx, elapsed).to.progress.phase_idx == idx,
{
    reveal(BuildView::begins);
    let q = b.begins(idx, elapsed).to.progress;
    assert(q.phase_times =~= recorded(b.progress.phase_times, b.progress.phase_idx as int, idx as int, elapsed));
}

proof fn lemma_to_asset_keeps(b: BuildView, i: int, elapsed: u64)
    requires
        is_recorded(b.progress),
        b.progress.phase_idx == 3,
    ensures
        keeps(b.progress, b.to_asset(i, elapsed).to.progress, elapsed),
        is_recorded(b.to_asset(i, elapsed).to.progress),
{
    reveal(BuildView::to_asset);
    lemma_keeps_same(b.progress, elapsed);
    lemma_begins_keeps(b, 4, elapsed);
}

proof fn lemma_to_csharp_keeps(b: BuildView, i: int, elapsed: u64)
    requires
        is_recorded(b.progress),
        b.progress.phase_idx == 2,
    ensures
        keeps(b.progress, b.to_csharp(i, elapsed).to.progress, elapsed),
        is_recorded(b.to_csharp(i, elapsed).to.progress),
{
    reveal(BuildView::to_csharp);
    lemma_keeps_same(b.progress, elapsed);
    lemma_begins_keeps(b, 3, elapsed);
    let begun = b.begins(3, elapsed).to;
    let counted = begun.counts(b.group(Group::Assets).len(), 0).to;
    lemma_to_asset_keeps(counted, 0, 0);
    assert(keeps(b.progress, counted.progress, elapsed));
    lemma_keeps_trans(b.progress, counted.progress, counted.to_asset(0, 0).to.progress, elapsed, 0);
}

proof fn lemma_to_yaml_keeps(b: BuildView, i: int, elapsed: u64)
    requires
        is_recorded(b.progress),
        b.progress.phase_idx == 2,
    ensures
        keeps(b.progress, b.to_yaml(i, elapsed).to.progress, elapsed),
        is_recorded(b.to_yaml(i, elapsed).to.progress),
{
    reveal(BuildView::to_yaml);
    lemma_keeps_same(b.progress, elapsed);
    lemma_to_csharp_keeps(b, 0, elapsed);
}

proof fn lemma_to_resolve_keeps(b: BuildView, i: int, elapsed: u64)
    requires
        is_recorded(b.progress),
        b.progress.phase_idx == 4,
    ensures
        keeps(b.progress, b.to_resolve(i, elapsed).to.progress, elapsed),
        is_recorded(b.to_resolve(i, elapsed).to.progress),
{
    reveal(BuildView::to_resolve);
    lemma_keeps_same(b.progress, elapsed);
    lemma_begins_keeps(b, 5, elapsed);
}

proof fn lemma_work_keeps(b: BuildView, elapsed: u64)
    requires
        b.sound(),
        is_recorded(b.progress),
        b.fits(Event::Done),
    ensures
        keeps(b.progress, b.after_work(elapsed).to.progress, elapsed),
        is_recorded(b.after_work(elapsed).to.progress),
{
    reveal(BuildView::after_work);
    lemma_keeps_same(b.progress, elapsed);
    let done = b.item_done(elapsed).to;
    assert(keeps(b.progress, done.progress, elapsed));
    match b.step {
        Step::Open | Step::Register(_) => {
            reveal(BuildView::to_register);
        },
        Step::LoadIds => {
            lemma_begins_keeps(b, 2, elapsed);
            let begun = b.begins(2, elapsed).to;
            let count = b.group(Group::UnityYaml).len() + b.group(Group::CSharp).len();
            let counted = begun.counts(count, 0).to;
            assert(keeps(b.progress, counted.progress, elapsed));
            lemma_to_yaml_keeps(counted, 0, 0);
            lemma_keeps_trans(b.progress, counted.progress, counted.to_yaml(0, 0).to.progress, elapsed, 0);
        },
        Step::StoreYaml(i) => {
            lemma_to_yaml_keeps(done, i + 1, elapsed);
            lemma_keeps_trans(b.progress, done.progress, done.to_yaml(i + 1, elapsed).to.progress, elapsed, elapsed);
        },
        Step::StoreCSharp(i) => {
            lemma_to_csharp_keeps(done, i + 1, elapsed);
            lemma_keeps_trans(b.progress, done.progress, done.to_csharp(i + 1, elapsed).to.progress, elapsed, elapsed);
        },
        Step::AddAsset(i) => {
            lemma_to_asset_keeps(done, i + 1, elapsed);
            lemma_keeps_trans(b.progress, done.progress, done.to_asset(i + 1, elapsed).to.progress, elapsed, elapsed);
        },
        Step::StoreEntities(i) => {
            lemma_to_resolve_keeps(done, i + 1, elapsed);
            lemma_keeps_trans(b.progress, done.progress, done.to_resolve(i + 1, elapsed).to.progress, elapsed, elapsed);
        },
        Step::Materialize => {
            lemma_begins_keeps(b, 7, elapsed);
        },
        _ => {},
    }
}

/// The counters of a build grow by what each file and each asset was found to hold, and by nothing else.
/// The phases that an event ends are recorded in their order: the first with the time given, and phases
/// that were passed over without any.
pub proof fn law_build_counts_and_records(b: BuildView, event: Event, elapsed: u64)
    requires
        b.sound(),
        is_recorded(b.progress),
        b.fits(event),
        !(event is Failed),
    ensures
        ({
            let p = b.progress;
            let q = b.next(event, elapsed).to.progress;
            &&& q.stats.yaml_objects == p.stats.yaml_objects + (if let Event::Yaml { objects, .. } = event {
                objects
            } else {
                0
            })
            &&& q.stats.yaml_refs == p.stats.yaml_refs + (if let Event::Yaml { references, .. } = event {
                references
            } else {
                0
            })
            &&& q.stats.cs_decls == p.stats.cs_decls + (if let Event::CSharp { declarations, .. } = event {
                declarations
            } else {
                0
            })
            &&& q.stats.cs_mentions == p.stats.cs_mentions + (if let Event::CSharp { mentions, .. } = event {
                mentions
            } else {
                0
            })
            &&& q.stats.entities == p.stats.entities + (if let Event::Entities(n) = event {
                n
            } else {
                0
            })
            &&& q.stats.bytes_read == p.stats.bytes_read + (match event {
                Event::Yaml { bytes, .. } => bytes,
                Event::CSharp { bytes, .. } => bytes,
                _ => 0,
            })
            &&& q.phase_times == recorded(p.phase_times, p.phase_idx as int, q.phase_idx as int, elapsed)
            &&& is_recorded(q)
        }),
{
    lemma_keeps_same(b.progress, elapsed);
    let q = b.next(event, elapsed).to.progress;
    match event {
        Event::Discovered(files) => {
            lemma_begins_keeps(BuildView { files: files@, ..b }, 1, elapsed);
        },
        Event::Skipped => {
            let done = b.item_done(elapsed).to;
            assert(keeps(b.progress, done.progress, elapsed));
            match b.step {
                Step::ReadYaml(i) => {
                    lemma_to_yaml_keeps(done, i + 1, elapsed);
                },
                Step::ReadCSharp(i) => {
                    lemma_to_csharp_keeps(done, i + 1, elapsed);
                },
                _ => {},
            }
            lemma_keeps_trans(b.progress, done.progress, q, elapsed, elapsed);
        },
        Event::Assets(roots) => {
            let counted = (BuildView { roots: texts(roots@), ..b }).counts(texts(roots@).len(), elapsed).to;
            assert(keeps(b.progress, counted.progress, elapsed));
            lemma_to_resolve_keeps(counted, 0, elapsed);
            lemma_keeps_trans(b.progress, counted.progress, q, elapsed, elapsed);
        },
        Event::Bound(n) => {
            lemma_begins_keeps(BuildView { bound: n, ..b }, 6, elapsed);
        },
        Event::Done => {
            lemma_work_keeps(b, elapsed);
        },
        _ => {
            assert(q.phase_times =~= recorded(
                b.progress.phase_times,
                b.progress.phase_idx as int,
                q.phase_idx as int,
                elapsed,
            ));
        },
    }
}

/// In every run the phase bar belongs to the step: its phase, the items done and all items. As many phases
/// are recorded as have ended, each under its own number.
pub proof fn law_phase_of_every_step(run: Seq<(Event, u64)>)
    requires
        is_run(run),
        !(state_after(run).step is Failed),
    ensures
        ({
            let b = state_after(run);
            let p = b.progress;
            let yaml = members(b.files, Group::UnityYaml).len();
            let csharp = members(b.files, Group::CSharp).len();
            let assets = members(b.files, Group::Assets).len();
            &&& is_recorded(p)
            &&& forall|k: int| 0 <= k < p.phase_times.len() ==> (#[trigger] p.phase_times[k]).phase == k
            &&& match b.step {
                Step::Scan => p.phase_idx == 0,
                Step::Open => p.phase_idx == 1 && p.phase_pos == 0 && p.phase_len == 0,
                Step::Register(i) => p.phase_idx == 1 && p.phase_pos == i && p.phase_len == b.files.len(),
                Step::LoadIds => p.phase_idx == 1 && p.phase_pos == b.files.len() && p.phase_len == b.files.len(),
                Step::ReadYaml(i) => p.phase_idx == 2 && p.phase_pos == i && p.phase_len == yaml + csharp,
                Step::StoreYaml(i) => p.phase_idx == 2 && p.phase_pos == i && p.phase_len == yaml + csharp,
                Step::ReadCSharp(i) => p.phase_idx == 2 && p.phase_pos == yaml + i && p.phase_len == yaml + csharp,
                Step::StoreCSharp(i) => p.phase_idx == 2 && p.phase_pos == yaml + i && p.phase_len == yaml + csharp,
                Step::AddAsset(i) => p.phase_idx == 3 && p.phase_pos == i && p.phase_len == assets,
                Step::LoadAssets => p.phase_idx == 4 && p.phase_pos == 0 && p.phase_len == 0,
                Step::Resolve(i) => p.phase_idx == 4 && p.phase_pos == i && p.phase_len == b.roots.len(),
                Step::StoreEntities(i) => p.phase_idx == 4 && p.phase_pos == i && p.phase_len == b.roots.len(),
                Step::BuildSymbols => p.phase_idx == 5 && p.phase_pos == 0 && p.phase_len == 0,
                Step::BindScripts => p.phase_idx == 5 && p.phase_pos == 0 && p.phase_len == 0,
                Step::Materialize => p.phase_idx == 6 && p.phase_pos == 0 && p.phase_len == 0,
                _ => p.phase_idx == 7 && p.phase_pos == 0 && p.phase_len == 0,
            }
        }),
    decreases run.len(),
{
    law_run_is_sound(run);
    if run.len() > 0 {
        let init = run.drop_last();
        let b = state_after(init);
        let event = run.last().0;
        let elapsed = run.last().1;
        crate::course_laws::law_success_is_the_switch(b, event, elapsed);
        law_phase_of_every_step(init);
        law_run_is_sound(init);
        law_build_counts_and_records(b, event, elapsed);
    }
}

/// Whether the screen shows a state of the display: the overall bar names the phase and stands at the
/// overall position; the phase bar stands at the items done, with all items as its length, or is a spinner
/// where there are none; and its message says what there was to say at some time.
pub open spec fn shows(s: Screen, p: ProgressView) -> bool {
    &&& s.overall == digits((p.phase_idx + 1) as nat) + "/8 "@ + phase_short(p.phase_idx as int)
    &&& s.overall_position == p.overall_position()
    &&& p.phase_len > 0 ==> s.position == p.phase_pos && s.length == p.phase_len && s.style == PhaseStyle::Bar
    &&& p.phase_len == 0 ==> s.style == PhaseStyle::Message
    &&& exists|elapsed: nat| #[trigger] says(s.message, p, elapsed)
}

/// What the file line shows at a step: the file that is read or stored, or the asset whose entities are
/// found or stored, and nothing at other steps.
pub open spec fn file_line(b: BuildView) -> Seq<char> {
    match b.step {
        Step::ReadYaml(i) => shown_path(b.files[members(b.files, Group::UnityYaml)[i as int]].project_rel_path@),
        Step::StoreYaml(i) => shown_path(b.files[members(b.files, Group::UnityYaml)[i as int]].project_rel_path@),
        Step::ReadCSharp(i) => shown_path(b.files[members(b.files, Group::CSharp)[i as int]].project_rel_path@),
        Step::StoreCSharp(i) => shown_path(b.files[members(b.files, Group::CSharp)[i as int]].project_rel_path@),
        Step::Resolve(i) => shown_path(b.roots[i as int]),
        Step::StoreEntities(i) => shown_path(b.roots[i as int]),
        _ => Seq::empty(),
    }
}

proof fn lemma_render_screen(s: Screen, p: ProgressView, q: ProgressView, elapsed: nat)
    requires
        p.wf(),
        q.wf(),
        shows(s, p),
        q.phase_len == p.phase_len,
    ensures
        shows(s.after(q.render_spec(elapsed)), q),
        s.after(q.render_spec(elapsed)).file == s.file,
{
    law_render_shows_the_state(s, q, elapsed);
}

proof fn lemma_begins_screen(s: Screen, b: BuildView, idx: usize, elapsed: u64)
    requires
        b.well_formed(),
        idx < 8,
    ensures
        shows(s.after(b.begins(idx, elapsed).draws), b.begins(idx, elapsed).to.progress),
        s.after(b.begins(idx, elapsed).draws).file == Seq::<char>::empty(),
        b.begins(idx, elapsed).to.well_formed(),
        b.begins(idx, elapsed).to.progress.phase_len == 0,
        b.begins(idx, elapsed).to.progress.phase_pos == 0,
        b.begins(idx, elapsed).to == (BuildView { progress: b.begins(idx, elapsed).to.progress, ..b }),
{
    reveal(BuildView::begins);
    lemma_weights(idx as nat);
    let ended = b.ends_phase(elapsed);
    let p = ended.to.progress.begun(idx, elapsed);
    lemma_screen_after_both(s, ended.draws, p.begin_draws());
    law_new_phase_is_shown(s.after(ended.draws), p);
    assert(s.after(b.begins(idx, elapsed).draws).file =~= Seq::<char>::empty());
}

proof fn lemma_counts_screen(s: Screen, b: BuildView, len: nat, elapsed: u64)
    requires
        b.well_formed(),
        b.progress.phase_len == 0,
        shows(s, b.progress),
        len <= u64::MAX,
    ensures
        shows(s.after(b.counts(len, elapsed).draws), b.counts(len, elapsed).to.progress),
        s.after(b.counts(len, elapsed).draws).file == s.file,
        b.counts(len, elapsed).to.well_formed(),
{
    let p = b.progress.with_len(len as u64);
    let setup = bar_setup(len > 0, len as u64);
    lemma_screen_after_both(s, setup, p.render_spec(elapsed as nat));
    law_bar_appears(s, len > 0, len as u64);
    law_render_shows_the_state(s.after(setup), p, elapsed as nat);
}

proof fn lemma_nothing_drawn(s: Screen)
    ensures
        s.after(Seq::empty()) == s,
        forall|a: Seq<DrawView>| #[trigger] (a + Seq::<DrawView>::empty()) == a,
{
    assert forall|a: Seq<DrawView>| #[trigger] (a + Seq::<DrawView>::empty()) == a by {
        assert(a + Seq::<DrawView>::empty() =~= a);
    }
}

proof fn lemma_file_screen(s: Screen, p: ProgressView, path: Seq<char>)
    requires
        shows(s, p),
    ensures
        shows(s.after(seq![DrawView::FileMessage(path)]), p),
        s.after(seq![DrawView::FileMessage(path)]).file == path,
{
    lemma_screen_after_one(s, DrawView::FileMessage(path));
    let elapsed = choose|elapsed: nat| #[trigger] says(s.message, p, elapsed);
    assert(says(s.after(seq![DrawView::FileMessage(path)]).message, p, elapsed));
}

/// Whether the screen after a change shows the new state.
spec fn is_shown(s: Screen, change: Change) -> bool {
    shows(s.after(change.draws), change.to.progress) && s.after(change.draws).file == file_line(change.to)
}

proof fn lemma_to_asset_screen(s: Screen, b: BuildView, i: int, elapsed: u64)
    requires
        b.well_formed(),
        0 <= i,
        shows(s, b.progress),
        s.file == Seq::<char>::empty(),
    ensures
        is_shown(s, b.to_asset(i, elapsed)),
{
    reveal(BuildView::to_asset);
    lemma_nothing_drawn(s);
    lemma_begins_screen(s, b, 4, elapsed);
}

proof fn lemma_to_csharp_screen(s: Screen, b: BuildView, i: int, elapsed: u64)
    requires
        b.well_formed(),
        0 <= i,
        shows(s, b.progress),
    ensures
        is_shown(s, b.to_csharp(i, elapsed)),
{
    reveal(BuildView::to_csharp);
    lemma_group_sizes(b.files);
    if i < b.group(Group::CSharp).len() {
        lemma_file_screen(s, b.progress, shown_path(b.files[b.group(Group::CSharp)[i]].project_rel_path@));
    } else {
        let begun = b.begins(3, elapsed);
        lemma_begins_screen(s, b, 3, elapsed);
        let t = s.after(begun.draws);
        let counts = begun.to.counts(b.group(Group::Assets).len(), 0);
        lemma_counts_screen(t, begun.to, b.group(Group::Assets).len(), 0);
        lemma_screen_after_both(s, begun.draws, counts.draws);
        let u = t.after(counts.draws);
        let last = counts.to.to_asset(0, 0);
        lemma_to_asset_screen(u, counts.to, 0, 0);
        lemma_screen_after_both(s, begun.draws + counts.draws, last.draws);
    }
}

proof fn lemma_to_yaml_screen(s: Screen, b: BuildView, i: int, elapsed: u64)
    requires
        b.well_formed(),
        0 <= i,
        shows(s, b.progress),
    ensures
        is_shown(s, b.to_yaml(i, elapsed)),
{
    reveal(BuildView::to_yaml);
    lemma_group_sizes(b.files);
    if i < b.group(Group::UnityYaml).len() {
        lemma_file_screen(s, b.progress, shown_path(b.files[b.group(Group::UnityYaml)[i]].project_rel_path@));
    } else {
        lemma_to_csharp_screen(s, b, 0, elapsed);
    }
}

proof fn lemma_to_resolve_screen(s: Screen, b: BuildView, i: int, elapsed: u64)
    requires
        b.well_formed(),
        0 <= i,
        shows(s, b.progress),
    ensures
        is_shown(s, b.to_resolve(i, elapsed)),
{
    reveal(BuildView::to_resolve);
    lemma_nothing_drawn(s);
    if i < b.roots.len() {
        lemma_file_screen(s, b.progress, shown_path(b.roots[i]));
    } else {
        lemma_begins_screen(s, b, 5, elapsed);
    }
}

proof fn lemma_work_screen(s: Screen, b: BuildView, elapsed: u64)
    requires
        b.sound(),
        b.fits(Event::Done),
        shows(s, b.progress),
        s.file == file_line(b),
    ensures
        !(b.step is Switch) ==> is_shown(s, b.after_work(elapsed)),
{
    reveal(BuildView::after_work);
    lemma_group_sizes(b.files);
    lemma_nothing_drawn(s);
    let done = b.item_done(elapsed);
    lemma_render_screen(s, b.progress, done.to.progress, elapsed as nat);
    let t = s.after(done.draws);
    match b.step {
        Step::Open => {
            reveal(BuildView::to_register);
            lemma_counts_screen(s, b, b.files.len(), elapsed);
        },
        Step::Register(_) => {
            reveal(BuildView::to_register);
        },
        Step::LoadIds => {
            let begun = b.begins(2, elapsed);
            lemma_begins_screen(s, b, 2, elapsed);
            let u = s.after(begun.draws);
            let count = b.group(Group::UnityYaml).len() + b.group(Group::CSharp).len();
            let counts = begun.to.counts(count, 0);
            lemma_counts_screen(u, begun.to, count, 0);
            lemma_screen_after_both(s, begun.draws, counts.draws);
            let last = counts.to.to_yaml(0, 0);
            lemma_to_yaml_screen(u.after(counts.draws), counts.to, 0, 0);
            lemma_screen_after_both(s, begun.draws + counts.draws, last.draws);
        },
        Step::StoreYaml(i) => {
            lemma_to_yaml_screen(t, done.to, i + 1, elapsed);
            lemma_screen_after_both(s, done.draws, done.to.to_yaml(i + 1, elapsed).draws);
        },
        Step::StoreCSharp(i) => {
            lemma_to_csharp_screen(t, done.to, i + 1, elapsed);
            lemma_screen_after_both(s, done.draws, done.to.to_csharp(i + 1, elapsed).draws);
        },
        Step::AddAsset(i) => {
            lemma_to_asset_screen(t, done.to, i + 1, elapsed);
            lemma_screen_after_both(s, done.draws, done.to.to_asset(i + 1, elapsed).draws);
        },
        Step::StoreEntities(i) => {
            lemma_to_resolve_screen(t, done.to, i + 1, elapsed);
            lemma_screen_after_both(s, done.draws, done.to.to_resolve(i + 1, elapsed).draws);
        },
        Step::Materialize => {
            lemma_begins_screen(s, b, 7, elapsed);
        },
        _ => {},
    }
}

/// The screen keeps up with the build: after the operations of every event it shows the new state, and the
/// file line names the file or the asset in work, if there is one. What it showed during discovery does
/// not matter.
pub proof fn law_screen_keeps_up(s: Screen, b: BuildView, event: Event, elapsed: u64)
    requires
        b.sound(),
        b.fits(event),
        !(event is Failed),
        !(b.step is Switch),
        !(b.step is Scan) ==> shows(s, b.progress) && s.file == file_line(b),
    ensures
        ({
            let change = b.next(event, elapsed);
            let t = s.after(change.draws);
            &&& shows(t, change.to.progress)
            &&& t.file == file_line(change.to)
        }),
{
    lemma_nothing_drawn(s);
    match event {
        Event::Discovered(files) => {
            lemma_begins_screen(s, BuildView { files: files@, ..b }, 1, elapsed);
        },
        Event::Yaml { objects, references, bytes } => {
            lemma_render_screen(s, b.progress, b.progress.with_yaml(objects, references, bytes), elapsed as nat);
        },
        Event::CSharp { declarations, mentions, bytes } => {
            lemma_render_screen(s, b.progress, b.progress.with_cs(declarations, mentions, bytes), elapsed as nat);
        },
        Event::Entities(n) => {
            lemma_render_screen(s, b.progress, b.progress.with_entities(n), elapsed as nat);
        },
        Event::Skipped => {
            lemma_group_sizes(b.files);
            let done = b.item_done(elapsed);
            lemma_render_screen(s, b.progress, done.to.progress, elapsed as nat);
            let t = s.after(done.draws);
            match b.step {
                Step::ReadYaml(i) => {
                    lemma_to_yaml_screen(t, done.to, i + 1, elapsed);
                    lemma_screen_after_both(s, done.draws, done.to.to_yaml(i + 1, elapsed).draws);
                },
                Step::ReadCSharp(i) => {
                    lemma_to_csharp_screen(t, done.to, i + 1, elapsed);
                    lemma_screen_after_both(s, done.draws, done.to.to_csharp(i + 1, elapsed).draws);
                },
                _ => {},
            }
        },
        Event::Assets(roots) => {
            let loaded = BuildView { roots: texts(roots@), ..b };
            let counts = loaded.counts(texts(roots@).len(), elapsed);
            lemma_counts_screen(s, loaded, texts(roots@).len(), elapsed);
            let last = counts.to.to_resolve(0, elapsed);
            lemma_to_resolve_screen(s.after(counts.draws), counts.to, 0, elapsed);
            lemma_screen_after_both(s, counts.draws, last.draws);
        },
        Event::Bound(n) => {
            lemma_begins_screen(s, BuildView { bound: n, ..b }, 6, elapsed);
        },
        Event::Done => {
            lemma_work_screen(s, b, elapsed);
        },
        Event::Failed => {},
    }
}

/// A step that fails draws nothing and changes nothing but the step.
pub proof fn law_failure_changes_nothing_else(b: BuildView, elapsed: u64)
    ensures
        b.next(Event::Failed, elapsed).draws.len() == 0,
        b.next(Event::Failed, elapsed).to == (BuildView { step: Step::Failed, ..b }),
{
}

} // verus!
