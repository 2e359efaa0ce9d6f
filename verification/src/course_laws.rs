//! What holds of every course of a build.
use crate::command::texts;
use crate::course::{law_display_agrees, lemma_group_sizes, BuildView, Event, Step};
use crate::files::Group;
use crate::progress::{
    law_position_advances_by_phase, law_position_never_goes_back, law_position_within_phase, phase_weight,
    ProgressView,
};
use vstd::prelude::*;

verus! {

/// The place of a step in the course of a build: the kind of step, the item that it is about, and
/// whether the item is read or stored.
pub open spec fn place(step: Step) -> (nat, nat, nat) {
    match step {
        Step::Scan => (0, 0, 0),
        Step::Open => (1, 0, 0),
        Step::Register(i) => (2, i as nat, 0),
        Step::LoadIds => (3, 0, 0),
        Step::ReadYaml(i) => (4, i as nat, 0),
        Step::StoreYaml(i) => (4, i as nat, 1),
        Step::ReadCSharp(i) => (5, i as nat, 0),
        Step::StoreCSharp(i) => (5, i as nat, 1),
        Step::AddAsset(i) => (6, i as nat, 0),
        Step::LoadAssets => (7, 0, 0),
        Step::Resolve(i) => (8, i as nat, 0),
        Step::StoreEntities(i) => (8, i as nat, 1),
        Step::BuildSymbols => (9, 0, 0),
        Step::BindScripts => (10, 0, 0),
        Step::Materialize => (11, 0, 0),
        Step::Publish => (12, 0, 0),
        Step::Commit => (13, 0, 0),
        Step::Switch => (14, 0, 0),
        Step::Finished => (15, 0, 0),
        Step::Failed => (16, 0, 0),
    }
}

/// Whether one place comes before another.
pub open spec fn comes_before(a: (nat, nat, nat), b: (nat, nat, nat)) -> bool {
    a.0 < b.0 || (a.0 == b.0 && (a.1 < b.1 || (a.1 == b.1 && a.2 < b.2)))
}

/// The first step after the Unity YAML files and the C# files before `i`.
pub open spec fn from_csharp(b: BuildView, i: nat) -> Step {
    if i < b.group(Group::CSharp).len() {
        Step::ReadCSharp(i as usize)
    } else {
        from_asset(b, 0)
    }
}

/// The first step after the Unity YAML files before `i`.
pub open spec fn from_yaml(b: BuildView, i: nat) -> Step {
    if i < b.group(Group::UnityYaml).len() {
        Step::ReadYaml(i as usize)
    } else {
        from_csharp(b, 0)
    }
}

/// The first step after the assets before `i`.
pub open spec fn from_asset(b: BuildView, i: nat) -> Step {
    if i < b.group(Group::Assets).len() {
        Step::AddAsset(i as usize)
    } else {
        Step::LoadAssets
    }
}

/// The first step after the files before `i` are stored.
pub open spec fn from_file(b: BuildView, i: nat) -> Step {
    if i < b.files.len() {
        Step::Register(i as usize)
    } else {
        Step::LoadIds
    }
}

/// The first step after the entities of the assets before `i`.
pub open spec fn from_entities(count: nat, i: nat) -> Step {
    if i < count {
        Step::Resolve(i as usize)
    } else {
        Step::BuildSymbols
    }
}

/// The step that follows when the current one succeeds.
pub open spec fn following(b: BuildView, event: Event) -> Step {
    match b.step {
        Step::Scan => Step::Open,
        Step::Open => from_file(b, 0),
        Step::Register(i) => from_file(b, i as nat + 1),
        Step::LoadIds => from_yaml(b, 0),
        Step::ReadYaml(i) => if event is Skipped {
            from_yaml(b, i as nat + 1)
        } else {
            Step::StoreYaml(i)
        },
        Step::StoreYaml(i) => from_yaml(b, i as nat + 1),
        Step::ReadCSharp(i) => if event is Skipped {
            from_csharp(b, i as nat + 1)
        } else {
            Step::StoreCSharp(i)
        },
        Step::StoreCSharp(i) => from_csharp(b, i as nat + 1),
        Step::AddAsset(i) => from_asset(b, i as nat + 1),
        Step::LoadAssets => from_entities(event->Assets_0@.len(), 0),
        Step::Resolve(i) => Step::StoreEntities(i),
        Step::StoreEntities(i) => from_entities(b.roots.len(), i as nat + 1),
        Step::BuildSymbols => Step::BindScripts,
        Step::BindScripts => Step::Materialize,
        Step::Materialize => Step::Publish,
        Step::Publish => Step::Commit,
        Step::Commit => Step::Switch,
        _ => Step::Finished,
    }
}

proof fn lemma_to_csharp_step(b: BuildView, i: nat, elapsed: u64)
    ensures
        b.to_csharp(i as int, elapsed).to.step == from_csharp(b, i),
        b.to_csharp(i as int, elapsed).to.files == b.files,
        b.to_csharp(i as int, elapsed).to.roots == b.roots,
        b.to_csharp(i as int, elapsed).to.bound == b.bound,
{
    reveal(BuildView::to_csharp);
    reveal(BuildView::to_asset);
    reveal(BuildView::begins);
}

proof fn lemma_to_yaml_step(b: BuildView, i: nat, elapsed: u64)
    ensures
        b.to_yaml(i as int, elapsed).to.step == from_yaml(b, i),
        b.to_yaml(i as int, elapsed).to.files == b.files,
        b.to_yaml(i as int, elapsed).to.roots == b.roots,
        b.to_yaml(i as int, elapsed).to.bound == b.bound,
{
    reveal(BuildView::to_yaml);
    lemma_to_csharp_step(b, 0, elapsed);
}

/// Each step is followed by the next one in the course of a build. Every file is stored; every Unity
/// YAML file, every C# file, every asset and the entities of every asset are gone through one by one,
/// in their order; and symbols are stored before scripts are bound to them. The files stay those that
/// discovery has found, the assets those that were loaded, and the number of scripts bound stays too.
pub proof fn law_steps_in_turn(b: BuildView, event: Event, elapsed: u64)
    requires
        b.fits(event),
        !(event is Failed),
    ensures
        b.next(event, elapsed).to.step == following(b, event),
        b.next(event, elapsed).to.files == match event {
            Event::Discovered(files) => files@,
            _ => b.files,
        },
        b.next(event, elapsed).to.roots == match event {
            Event::Assets(roots) => texts(roots@),
            _ => b.roots,
        },
        b.next(event, elapsed).to.bound == match event {
            Event::Bound(n) => n,
            _ => b.bound,
        },
{
    reveal(BuildView::after_work);
    reveal(BuildView::begins);
    reveal(BuildView::to_register);
    reveal(BuildView::to_asset);
    reveal(BuildView::to_resolve);
    let done = b.item_done(elapsed).to;
    match b.step {
        Step::LoadIds => {
            let begun = b.begins(2, elapsed).to;
            let count = b.group(Group::UnityYaml).len() + b.group(Group::CSharp).len();
            lemma_to_yaml_step(begun.counts(count, 0).to, 0, 0);
        },
        Step::ReadYaml(i) | Step::StoreYaml(i) => {
            lemma_to_yaml_step(done, i as nat + 1, elapsed);
        },
        Step::ReadCSharp(i) | Step::StoreCSharp(i) => {
            lemma_to_csharp_step(done, i as nat + 1, elapsed);
        },
        _ => {},
    }
}

/// A build only goes forward: no step comes twice, and after at most one pass over all items it ends.
pub proof fn law_course_goes_forward(b: BuildView, event: Event, elapsed: u64)
    requires
        b.sound(),
        b.fits(event),
    ensures
        comes_before(place(b.step), place(b.next(event, elapsed).to.step)),
{
    if !(event is Failed) {
        lemma_group_sizes(b.files);
        law_steps_in_turn(b, event, elapsed);
    }
}

/// A build succeeds by switching its committed draft into place and by nothing else. Where a step fails,
/// the build has failed, and neither a failed build nor a finished one goes on.
pub proof fn law_success_is_the_switch(b: BuildView, event: Event, elapsed: u64)
    requires
        b.fits(event),
    ensures
        b.next(event, elapsed).to.step == Step::Finished <==> b.step == Step::Switch && event is Done,
        b.next(event, elapsed).to.step == Step::Switch <==> b.step == Step::Commit && event is Done,
        b.next(event, elapsed).to.step == Step::Failed <==> event is Failed,
        b.step != Step::Failed && b.step != Step::Finished,
{
    if !(event is Failed) {
        law_steps_in_turn(b, event, elapsed);
    }
}

/// Either a later phase begins, or the phase stays and no item becomes undone.
proof fn lemma_items_stay_done(b: BuildView, event: Event, elapsed: u64)
    requires
        b.sound(),
        b.fits(event),
        !(event is Failed),
    ensures
        ({
            let after = b.next(event, elapsed).to;
            &&& after.sound()
            &&& b.progress.phase_idx <= after.progress.phase_idx
            &&& b.progress.phase_idx == after.progress.phase_idx && b.progress.phase_len > 0 ==> {
                &&& b.progress.phase_len == after.progress.phase_len
                &&& b.progress.phase_pos <= after.progress.phase_pos
            }
        }),
{
    lemma_group_sizes(b.files);
    law_display_agrees(b, event, elapsed);
    law_steps_in_turn(b, event, elapsed);
}

/// The overall bar never goes back in the course of a build.
pub proof fn law_bar_never_goes_back(b: BuildView, event: Event, elapsed: u64)
    requires
        b.sound(),
        b.fits(event),
    ensures
        b.progress.overall_position() <= b.next(event, elapsed).to.progress.overall_position(),
{
    if !(event is Failed) {
        lemma_items_stay_done(b, event, elapsed);
        lemma_position(b.progress, b.next(event, elapsed).to.progress);
    }
}

proof fn lemma_position(before: ProgressView, after: ProgressView)
    requires
        before.wf(),
        after.wf(),
        before.weight == phase_weight(before.phase_idx as int),
        after.weight == phase_weight(after.phase_idx as int),
        before.phase_idx <= after.phase_idx,
        before.phase_idx == after.phase_idx && before.phase_len > 0 ==> before.phase_len == after.phase_len
            && before.phase_pos <= after.phase_pos,
    ensures
        before.overall_position() <= after.overall_position(),
{
    law_position_within_phase(after);
    if before.phase_idx < after.phase_idx {
        law_position_advances_by_phase(before, after);
    } else if before.phase_len > 0 {
        law_position_never_goes_back(before, after);
    }
}

} // verus!
