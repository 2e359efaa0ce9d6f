//! What holds of a whole build, from its beginning on.
//!
//! A run is the list of the events of a build, each with the time at which it came.
use crate::course::{law_display_agrees, lemma_group_sizes, target_of, BuildView, Event, Step, Target};
use crate::course_laws::{
    comes_before, following, law_course_goes_forward, law_steps_in_turn, law_success_is_the_switch, place,
};
use crate::files::Group;
use vstd::prelude::*;

verus! {

/// The state of a build after a run.
pub open spec fn state_after(run: Seq<(Event, u64)>) -> BuildView
    decreases run.len(),
{
    if run.len() == 0 {
        BuildView::start()
    } else {
        state_after(run.drop_last()).next(run.last().0, run.last().1).to
    }
}

/// Whether every event of a run can come of the step at which it comes.
pub open spec fn is_run(run: Seq<(Event, u64)>) -> bool
    decreases run.len(),
{
    run.len() == 0 || (is_run(run.drop_last()) && state_after(run.drop_last()).fits(run.last().0))
}

/// The steps that the events of a run came of.
pub open spec fn steps_of(run: Seq<(Event, u64)>) -> Seq<Step>
    decreases run.len(),
{
    if run.len() == 0 {
        Seq::empty()
    } else {
        steps_of(run.drop_last()).push(state_after(run.drop_last()).step)
    }
}

/// What lies in the place of the index after a run: what lay there before, or the draft once it was
/// switched into place.
pub open spec fn index_after<C>(run: Seq<(Event, u64)>, old_index: C, draft: C) -> C
    decreases run.len(),
{
    if run.len() == 0 {
        old_index
    } else if target_of(state_after(run.drop_last()).step) == Target::Index && !(run.last().0 is Failed) {
        draft
    } else {
        index_after(run.drop_last(), old_index, draft)
    }
}

/// The display agrees with the step throughout a build.
pub proof fn law_run_is_sound(run: Seq<(Event, u64)>)
    requires
        is_run(run),
    ensures
        state_after(run).sound(),
    decreases run.len(),
{
    if run.len() == 0 {
        lemma_start_is_sound();
    } else {
        let init = run.drop_last();
        law_run_is_sound(init);
        law_display_agrees(state_after(init), run.last().0, run.last().1);
    }
}

proof fn lemma_start_is_sound()
    ensures
        BuildView::start().sound(),
{
    crate::progress::lemma_weights(0);
}

/// No step comes twice, and the steps come in their order.
pub proof fn law_no_step_twice(run: Seq<(Event, u64)>, a: int, b: int)
    requires
        is_run(run),
        0 <= a < b < run.len(),
    ensures
        steps_of(run).len() == run.len(),
        comes_before(place(steps_of(run)[a]), place(steps_of(run)[b])),
    decreases run.len(),
{
    lemma_later_than_all(run.drop_last());
    lemma_steps_len(run);
    if b < run.len() - 1 {
        law_no_step_twice(run.drop_last(), a, b);
        lemma_steps_len(run.drop_last());
    }
}

proof fn lemma_steps_len(run: Seq<(Event, u64)>)
    ensures
        steps_of(run).len() == run.len(),
    decreases run.len(),
{
    if run.len() > 0 {
        lemma_steps_len(run.drop_last());
    }
}

/// The current step comes after all steps before it.
proof fn lemma_later_than_all(run: Seq<(Event, u64)>)
    requires
        is_run(run),
    ensures
        steps_of(run).len() == run.len(),
        forall|a: int|
            0 <= a < run.len() ==> comes_before(place(#[trigger] steps_of(run)[a]), place(state_after(run).step)),
    decreases run.len(),
{
    if run.len() > 0 {
        let init = run.drop_last();
        lemma_later_than_all(init);
        law_run_is_sound(init);
        law_course_goes_forward(state_after(init), run.last().0, run.last().1);
        assert forall|a: int| 0 <= a < run.len() implies comes_before(
            place(#[trigger] steps_of(run)[a]),
            place(state_after(run).step),
        ) by {
            if a < init.len() {
                assert(steps_of(run)[a] == steps_of(init)[a]);
            }
        }
    }
}

/// Only the last step of a finished build touches the index: before it, every step writes to the draft
/// or to nothing.
pub proof fn law_index_is_touched_last(run: Seq<(Event, u64)>, k: int)
    requires
        is_run(run),
        0 <= k < run.len(),
        target_of(steps_of(run)[k]) == Target::Index,
    ensures
        steps_of(run)[k] == Step::Switch,
        k == run.len() - 1,
    decreases run.len(),
{
    let init = run.drop_last();
    lemma_steps_len(run);
    if k < init.len() {
        assert(steps_of(run)[k] == steps_of(init)[k]);
        lemma_steps_len(init);
        law_index_is_touched_last(init, k);
        let before = init.drop_last();
        law_success_is_the_switch(state_after(before), init.last().0, init.last().1);
        if !(init.last().0 is Failed) {
            law_steps_in_turn(state_after(before), init.last().0, init.last().1);
        }
        law_success_is_the_switch(state_after(init), run.last().0, run.last().1);
    }
}

/// A finished build has put its draft into the place of the index, and nothing of what lay there before
/// is left. A build that has failed, or that is not finished yet, has left the index as it was.
pub proof fn law_index_is_switched_as_a_whole<C>(run: Seq<(Event, u64)>, old_index: C, draft: C)
    requires
        is_run(run),
    ensures
        index_after(run, old_index, draft) == if state_after(run).step == Step::Finished {
            draft
        } else {
            old_index
        },
    decreases run.len(),
{
    if run.len() > 0 {
        let init = run.drop_last();
        law_index_is_switched_as_a_whole(init, old_index, draft);
        law_success_is_the_switch(state_after(init), run.last().0, run.last().1);
        if !(run.last().0 is Failed) {
            law_steps_in_turn(state_after(init), run.last().0, run.last().1);
        }
    }
}

/// Whether a step is due in a build with these files and assets. What was read is only stored where
/// there was something to read.
pub open spec fn is_due(b: BuildView, step: Step) -> bool {
    match step {
        Step::Register(i) => i < b.files.len(),
        Step::ReadYaml(i) => i < b.group(Group::UnityYaml).len(),
        Step::ReadCSharp(i) => i < b.group(Group::CSharp).len(),
        Step::AddAsset(i) => i < b.group(Group::Assets).len(),
        Step::Resolve(i) | Step::StoreEntities(i) => i < b.roots.len(),
        Step::StoreYaml(_) | Step::StoreCSharp(_) | Step::Finished | Step::Failed => false,
        _ => true,
    }
}

/// Between a step and the one that follows, none is due.
proof fn lemma_none_between(b: BuildView, event: Event, elapsed: u64, step: Step)
    requires
        b.sound(),
        b.fits(event),
        !(event is Failed),
        is_due(b.next(event, elapsed).to, step),
        comes_before(place(b.step), place(step)),
    ensures
        !comes_before(place(step), place(b.next(event, elapsed).to.step)),
{
    law_steps_in_turn(b, event, elapsed);
    lemma_group_sizes(b.files);
}

/// Before the files are known only their discovery is due, and before the assets are known nothing is
/// due of them.
proof fn lemma_due_before(b: BuildView, event: Event, elapsed: u64, step: Step)
    requires
        b.fits(event),
        !(event is Failed),
        is_due(b.next(event, elapsed).to, step),
        comes_before(place(step), place(b.step)),
    ensures
        is_due(b, step),
{
    law_steps_in_turn(b, event, elapsed);
}

/// Nothing is left out: every step that is due has been taken once the build is past it. So a finished
/// build has stored every file, read every Unity YAML file and every C# file, and stored every asset
/// and the entities of every asset.
pub proof fn law_nothing_is_left_out(run: Seq<(Event, u64)>, step: Step)
    requires
        is_run(run),
        state_after(run).step != Step::Failed,
        is_due(state_after(run), step),
        comes_before(place(step), place(state_after(run).step)),
    ensures
        steps_of(run).contains(step),
    decreases run.len(),
{
    if run.len() > 0 {
        let init = run.drop_last();
        let b = state_after(init);
        let event = run.last().0;
        let elapsed = run.last().1;
        law_run_is_sound(init);
        law_success_is_the_switch(b, event, elapsed);
        if place(step) == place(b.step) {
            assert(step == b.step);
            assert(steps_of(run)[steps_of(run).len() - 1] == step);
        } else if comes_before(place(b.step), place(step)) {
            lemma_none_between(b, event, elapsed, step);
        } else {
            lemma_due_before(b, event, elapsed, step);
            law_nothing_is_left_out(init, step);
            let k = choose|k: int| 0 <= k < steps_of(init).len() && steps_of(init)[k] == step;
            assert(steps_of(run)[k] == step);
        }
    }
}

/// The number of files stored by the steps of a build.
pub open spec fn files_stored(steps: Seq<Step>) -> nat
    decreases steps.len(),
{
    if steps.len() == 0 {
        0
    } else {
        files_stored(steps.drop_last()) + if steps.last() is Register {
            1nat
        } else {
            0nat
        }
    }
}

/// The number of files stored at a step.
spec fn files_before(b: BuildView) -> nat {
    match b.step {
        Step::Scan | Step::Open => 0,
        Step::Register(i) => i as nat,
        _ => b.files.len(),
    }
}

proof fn lemma_files_stored(run: Seq<(Event, u64)>)
    requires
        is_run(run),
        state_after(run).step != Step::Failed,
    ensures
        files_stored(steps_of(run)) == files_before(state_after(run)),
    decreases run.len(),
{
    if run.len() > 0 {
        let init = run.drop_last();
        let b = state_after(init);
        law_run_is_sound(init);
        law_success_is_the_switch(b, run.last().0, run.last().1);
        law_steps_in_turn(b, run.last().0, run.last().1);
        lemma_files_stored(init);
        assert(steps_of(run).drop_last() =~= steps_of(init));
        law_display_agrees(b, run.last().0, run.last().1);
    }
}

/// A finished build has stored as many files as discovery has found, which is the number that it records
/// about itself and that the status report shows.
pub proof fn law_files_stored_as_discovered(run: Seq<(Event, u64)>)
    requires
        is_run(run),
        state_after(run).step == Step::Finished,
    ensures
        files_stored(steps_of(run)) == state_after(run).files.len(),
{
    lemma_files_stored(run);
}

/// Whether two runs consist of the same events, at whatever times.
pub open spec fn same_events(a: Seq<(Event, u64)>, b: Seq<(Event, u64)>) -> bool {
    a.len() == b.len() && forall|i: int| 0 <= i < a.len() ==> (#[trigger] a[i]).0 == b[i].0
}

/// A repeated build takes the same course: equal events lead through the same steps, whatever the times
/// at which they come, and both end with the same files, assets and bound scripts.
pub proof fn law_repeated_build_takes_the_same_course(a: Seq<(Event, u64)>, b: Seq<(Event, u64)>)
    requires
        is_run(a),
        is_run(b),
        same_events(a, b),
    ensures
        steps_of(a) == steps_of(b),
        state_after(a).step == state_after(b).step,
        state_after(a).files == state_after(b).files,
        state_after(a).roots == state_after(b).roots,
        state_after(a).bound == state_after(b).bound,
    decreases a.len(),
{
    if a.len() > 0 {
        let x = a.drop_last();
        let y = b.drop_last();
        assert(same_events(x, y)) by {
            assert forall|i: int| 0 <= i < x.len() implies (#[trigger] x[i]).0 == y[i].0 by {
                assert(a[i].0 == b[i].0);
            }
        }
        law_repeated_build_takes_the_same_course(x, y);
        assert(a[a.len() - 1].0 == b[b.len() - 1].0);
        let event = a.last().0;
        assert(b.last().0 == event);
        if !(event is Failed) {
            law_steps_in_turn(state_after(x), event, a.last().1);
            law_steps_in_turn(state_after(y), event, b.last().1);
            assert(following(state_after(x), event) == following(state_after(y), event));
        }
    }
}

} // verus!
