//! What holds of every run of a plan, whatever its steps report.

use crate::plan;
use crate::plan::condition;
use crate::plan::schedule;
use crate::plan::schedule::{OutcomeView, PlanStepRecord, RecordView, RunView, StepOutcome};
use crate::plan::{PlanFile, StepResult, StepStatus};
use vstd::prelude::*;

verus! {

/// The ids of the results, in order.
pub open spec fn result_ids(results: Seq<plan::StepView>) -> Seq<Seq<char>> {
    results.map_values(|r: plan::StepView| r.id)
}

/// The last trace line of the step `id`.
pub open spec fn last_record(log: Seq<RecordView>, id: Seq<char>) -> Option<RecordView>
    decreases log.len(),
{
    if log.len() == 0 {
        None
    } else if log.last().step_id == id {
        Some(log.last())
    } else {
        last_record(log.drop_last(), id)
    }
}

/// Whether a step's last trace line and its result carry the same verdict, and neither stands
/// without the other.
pub open spec fn agree_on(run: RunView, id: Seq<char>) -> bool {
    match (last_record(run.log, id), plan::result_of(run.results, id)) {
        (None, None) => true,
        (Some(line), Some(result)) => line.status == result.status && line.error == result.error,
        _ => false,
    }
}

/// What every reachable state of a run keeps: no step has two results, a run that was not stopped
/// holds results of declared steps only, and the trace agrees with the results.
pub open spec fn sound(steps: Seq<plan::DefView>, run: RunView) -> bool {
    &&& result_ids(run.results).no_duplicates()
    &&& run.failed is None ==> forall|i: int|
        0 <= i < run.results.len() ==> plan::ids_of(steps).contains(
            (#[trigger] run.results[i]).id,
        )
    &&& forall|id: Seq<char>| #[trigger] agree_on(run, id)
}

proof fn lemma_settled_is_member(results: Seq<plan::StepView>, id: Seq<char>)
    ensures
        schedule::settled(results, id) == result_ids(results).contains(id),
    decreases results.len(),
{
    let ids = result_ids(results);
    if results.len() > 0 {
        let rest = results.drop_first();
        lemma_settled_is_member(rest, id);
        assert(result_ids(rest) =~= ids.drop_first());
        if results[0].id == id {
            assert(ids[0] == id);
        } else {
            if ids.contains(id) {
                let k = choose|k: int| 0 <= k < ids.len() && ids[k] == id;
                assert(ids.drop_first()[k - 1] == id);
            }
            if ids.drop_first().contains(id) {
                let k = choose|k: int|
                    0 <= k < ids.drop_first().len() && ids.drop_first()[k] == id;
                assert(ids[k + 1] == id);
            }
        }
    }
}

proof fn lemma_put_ids(results: Seq<plan::StepView>, r: plan::StepView)
    ensures
        result_ids(schedule::put(results, r)) == (if schedule::settled(results, r.id) {
            result_ids(results)
        } else {
            result_ids(results).push(r.id)
        }),
    decreases results.len(),
{
    let after = schedule::put(results, r);
    if results.len() == 0 {
        assert(result_ids(after) =~= result_ids(results).push(r.id));
    } else if results[0].id == r.id {
        assert(result_ids(after) =~= result_ids(results));
    } else {
        lemma_put_ids(results.drop_first(), r);
        let rest = schedule::put(results.drop_first(), r);
        assert(result_ids(after) =~= seq![results[0].id] + result_ids(rest));
        assert(seq![results[0].id] + result_ids(results.drop_first()) =~= result_ids(results));
        assert(seq![results[0].id] + result_ids(results.drop_first()).push(r.id) =~= result_ids(
            results,
        ).push(r.id));
    }
}

/// Settling a step and logging the same verdict keeps a run sound.
proof fn lemma_sound_after(
    steps: Seq<plan::DefView>,
    run: RunView,
    result: plan::StepView,
    line: RecordView,
    failed: Option<Seq<char>>,
)
    requires
        sound(steps, run),
        line.step_id == result.id,
        line.status == result.status,
        line.error == result.error,
        run.failed is None,
        failed is Some || plan::ids_of(steps).contains(result.id),
    ensures
        sound(
            steps,
            RunView {
                results: schedule::put(run.results, result),
                failed,
                log: run.log.push(line),
            },
        ),
{
    let after = RunView {
        results: schedule::put(run.results, result),
        failed,
        log: run.log.push(line),
    };
    lemma_put_ids(run.results, result);
    lemma_settled_is_member(run.results, result.id);
    let ids = result_ids(run.results);
    let after_ids = result_ids(after.results);
    assert forall|a: int, b: int| 0 <= a < b < after_ids.len() implies after_ids[a]
        != after_ids[b] by {
        if !schedule::settled(run.results, result.id) && b == ids.len() {
            assert(ids.contains(ids[a]));
        }
    }
    if failed is None {
        assert forall|i: int| 0 <= i < after.results.len() implies plan::ids_of(steps).contains(
            (#[trigger] after.results[i]).id,
        ) by {
            assert(after_ids[i] == after.results[i].id);
            if i < ids.len() {
                assert(ids[i] == run.results[i].id);
                assert(plan::ids_of(steps).contains(run.results[i].id));
            }
        }
    }
    assert forall|id: Seq<char>| #[trigger] agree_on(after, id) by {
        assert(agree_on(run, id));
        schedule::lemma_put(run.results, result, id);
        assert(after.log.last() == line);
        assert(after.log.drop_last() =~= run.log);
    }
}

proof fn lemma_ids_contain(steps: Seq<plan::DefView>, i: int)
    requires
        0 <= i < steps.len(),
    ensures
        plan::ids_of(steps).contains(steps[i].id),
{
    assert(plan::ids_of(steps)[i] == steps[i].id);
}

proof fn lemma_pass_sound(
    plan_id: Seq<char>,
    steps: Seq<plan::DefView>,
    i: int,
    run: RunView,
    ready: Seq<int>,
)
    requires
        0 <= i <= steps.len(),
        sound(steps, run),
        run.failed is None,
    ensures
        sound(steps, schedule::pass(plan_id, steps, i, run, ready).0),
    decreases steps.len() - i,
{
    if i < steps.len() {
        let step = steps[i];
        lemma_ids_contain(steps, i);
        if schedule::settled(run.results, step.id) || !schedule::unblocked(
            step.depends_on,
            run.results,
        ) {
            lemma_pass_sound(plan_id, steps, i + 1, run, ready);
        } else {
            match condition::verdict(step.condition, run.results) {
                Ok(true) => lemma_pass_sound(plan_id, steps, i + 1, run, ready.push(i)),
                Ok(false) => {
                    lemma_sound_after(
                        steps,
                        run,
                        schedule::bare(step.id, StepStatus::Skipped, None),
                        schedule::undispatched(
                            plan_id,
                            step.id,
                            plan::kind_word(step),
                            StepStatus::Skipped,
                            None,
                        ),
                        None,
                    );
                    let next = schedule::settle_bare(
                        run,
                        plan_id,
                        step,
                        StepStatus::Skipped,
                        None,
                    );
                    lemma_pass_sound(plan_id, steps, i + 1, next, ready);
                },
                Err(e) => {
                    lemma_sound_after(
                        steps,
                        run,
                        schedule::bare(step.id, StepStatus::Failed, Some(e)),
                        schedule::undispatched(
                            plan_id,
                            step.id,
                            plan::kind_word(step),
                            StepStatus::Failed,
                            Some(e),
                        ),
                        Some(step.id),
                    );
                },
            }
        }
    }
}

/// When no step is left unsettled the table is as long as the plan.
proof fn lemma_all_settled_fills(steps: Seq<plan::DefView>, results: Seq<plan::StepView>)
    requires
        plan::ids_of(steps).no_duplicates(),
        forall|i: int|
            0 <= i < steps.len() ==> schedule::settled(results, (#[trigger] steps[i]).id),
    ensures
        results.len() >= steps.len(),
{
    broadcast use vstd::seq_lib::seq_to_set_is_finite;

    let declared = plan::ids_of(steps);
    let held = result_ids(results);
    assert(declared.to_set().subset_of(held.to_set())) by {
        assert forall|id: Seq<char>| declared.to_set().contains(id) implies held.to_set().contains(
            id,
        ) by {
            let k = choose|k: int| 0 <= k < declared.len() && declared[k] == id;
            assert(schedule::settled(results, steps[k].id));
            lemma_settled_is_member(results, id);
        }
    }
    declared.unique_seq_to_set();
    held.lemma_cardinality_of_set();
    vstd::set_lib::lemma_len_subset(declared.to_set(), held.to_set());
}

proof fn lemma_first_unsettled(steps: Seq<plan::DefView>, results: Seq<plan::StepView>, i: int)
    requires
        0 <= i <= steps.len(),
        schedule::first_unsettled(steps, results, i) is None,
    ensures
        forall|k: int|
            i <= k < steps.len() ==> schedule::settled(results, (#[trigger] steps[k]).id),
    decreases steps.len() - i,
{
    if i < steps.len() {
        lemma_first_unsettled(steps, results, i + 1);
    }
}

proof fn lemma_first_unsettled_in_range(
    steps: Seq<plan::DefView>,
    results: Seq<plan::StepView>,
    i: int,
)
    requires
        0 <= i <= steps.len(),
        schedule::first_unsettled(steps, results, i) is Some,
    ensures
        i <= schedule::first_unsettled(steps, results, i)->0 < steps.len(),
    decreases steps.len() - i,
{
    if i < steps.len() && schedule::settled(results, steps[i].id) {
        lemma_first_unsettled_in_range(steps, results, i + 1);
    }
}

/// A pass that settles nothing leaves the run as it was.
proof fn lemma_wave_sound(plan_id: Seq<char>, steps: Seq<plan::DefView>, run: RunView)
    requires
        plan::ids_of(steps).no_duplicates(),
        sound(steps, run),
    ensures
        ({
            let (after, ready) = schedule::wave(plan_id, steps, run);
            &&& sound(steps, after)
            &&& ready.len() == 0 && after.failed is None ==> after.results.len() >= steps.len()
            &&& ready.len() > 0 ==> after.failed is None
        }),
    decreases schedule::remaining(steps, run),
{
    if run.failed is None && run.results.len() < steps.len() {
        let (after, ready) = schedule::pass(plan_id, steps, 0, run, Seq::empty());
        lemma_pass_sound(plan_id, steps, 0, run, Seq::empty());
        if after.failed is None && ready.len() == 0 {
            if after.results.len() > run.results.len() {
                lemma_wave_sound(plan_id, steps, after);
            } else {
                match schedule::first_unsettled(steps, after.results, 0) {
                    Some(k) => {
                        lemma_first_unsettled_in_range(steps, after.results, 0);
                        lemma_sound_after(
                            steps,
                            after,
                            schedule::bare(
                                steps[k].id,
                                StepStatus::Failed,
                                Some(schedule::blocked_reason()),
                            ),
                            schedule::undispatched(
                                plan_id,
                                steps[k].id,
                                plan::kind_word(steps[k]),
                                StepStatus::Failed,
                                Some(schedule::blocked_reason()),
                            ),
                            Some(steps[k].id),
                        );
                    },
                    None => {
                        lemma_first_unsettled(steps, after.results, 0);
                        lemma_all_settled_fills(steps, after.results);
                    },
                }
            }
        }
    }
}

proof fn lemma_absorb_wave_sound(
    run: RunView,
    plan_id: Seq<char>,
    steps: Seq<plan::DefView>,
    ready: Seq<int>,
    outcomes: Seq<Option<OutcomeView>>,
    j: int,
)
    requires
        0 <= j <= ready.len(),
        sound(steps, run),
        forall|k: int| 0 <= k < ready.len() ==> 0 <= (#[trigger] ready[k]) < steps.len(),
    ensures
        sound(steps, schedule::absorb_wave(run, plan_id, steps, ready, outcomes, j)),
    decreases ready.len() - j,
{
    if j < ready.len() && run.failed is None {
        match (if j < outcomes.len() {
            outcomes[j]
        } else {
            None
        }) {
            None => {
                let reason = Some("step dispatch thread panicked"@);
                lemma_sound_after(
                    steps,
                    run,
                    schedule::bare("unknown"@, StepStatus::Failed, reason),
                    schedule::undispatched(
                        plan_id,
                        "unknown"@,
                        "unknown"@,
                        StepStatus::Failed,
                        reason,
                    ),
                    Some("unknown"@),
                );
            },
            Some(o) => {
                let step = steps[ready[j]];
                lemma_ids_contain(steps, ready[j]);
                let (result, stops) = schedule::under_policy(
                    step.on_error,
                    schedule::reported(step.id, o),
                );
                let next = schedule::absorb(run, plan_id, step, o);
                lemma_sound_after(steps, run, result, next.log.last(), next.failed);
                assert(next.log =~= run.log.push(next.log.last()));
                lemma_absorb_wave_sound(next, plan_id, steps, ready, outcomes, j + 1);
            },
        }
    }
}

/// Whatever the steps of a plan report, its run ends sound, and it ends unstopped only when the
/// table is as long as the plan.
pub proof fn every_run_ends_sound<
    W: Fn(&PlanFile, &Vec<usize>, &Vec<StepResult>, &Vec<PlanStepRecord>) -> Vec<
        Option<StepOutcome>,
    >,
>(run_wave: W, plan: &PlanFile, run: RunView, waves: Seq<Seq<Option<OutcomeView>>>, end: RunView)
    requires
        plan::ids_of(plan::def_views(plan.steps@)).no_duplicates(),
        sound(plan::def_views(plan.steps@), run),
        schedule::comes_to(run_wave, plan, run, waves, end),
    ensures
        sound(plan::def_views(plan.steps@), end),
        end.failed is None ==> end.results.len() >= plan.steps@.len(),
    decreases waves.len(),
{
    let steps = plan::def_views(plan.steps@);
    let (surveyed, ready) = schedule::wave(plan.id@, steps, run);
    lemma_wave_sound(plan.id@, steps, run);
    if ready.len() > 0 {
        waves_dispatch_only_unblocked_steps(plan.id@, steps, run);
        lemma_absorb_wave_sound(surveyed, plan.id@, steps, ready, waves[0], 0);
        every_run_ends_sound(
            run_wave,
            plan,
            schedule::absorb_wave(surveyed, plan.id@, steps, ready, waves[0], 0),
            waves.drop_first(),
            end,
        );
    }
}

/// A plan that completed has settled every step it declares, each exactly once.
pub proof fn a_completed_plan_settled_every_step<
    W: Fn(&PlanFile, &Vec<usize>, &Vec<StepResult>, &Vec<PlanStepRecord>) -> Vec<
        Option<StepOutcome>,
    >,
>(run_wave: W, plan: &PlanFile, waves: Seq<Seq<Option<OutcomeView>>>, end: RunView)
    requires
        plan::ids_of(plan::def_views(plan.steps@)).no_duplicates(),
        schedule::comes_to(run_wave, plan, schedule::fresh(), waves, end),
        end.failed is None,
    ensures
        end.results.len() == plan.steps@.len(),
        result_ids(end.results).no_duplicates(),
        forall|i: int|
            0 <= i < plan.steps@.len() ==> schedule::settled(
                end.results,
                (#[trigger] plan.steps@[i])@.id,
            ),
{
    broadcast use vstd::seq_lib::seq_to_set_is_finite;

    let steps = plan::def_views(plan.steps@);
    lemma_fresh_sound(steps);
    every_run_ends_sound(run_wave, plan, schedule::fresh(), waves, end);
    let declared = plan::ids_of(steps);
    let held = result_ids(end.results);
    assert(held.to_set().subset_of(declared.to_set())) by {
        assert forall|id: Seq<char>| held.to_set().contains(id) implies declared.to_set().contains(
            id,
        ) by {
            let k = choose|k: int| 0 <= k < held.len() && held[k] == id;
            assert(declared.contains(end.results[k].id));
        }
    }
    declared.unique_seq_to_set();
    held.unique_seq_to_set();
    vstd::set_lib::lemma_len_subset(held.to_set(), declared.to_set());
    vstd::set_lib::lemma_subset_equality(held.to_set(), declared.to_set());
    assert forall|i: int| 0 <= i < plan.steps@.len() implies schedule::settled(
        end.results,
        (#[trigger] plan.steps@[i])@.id,
    ) by {
        let id = plan.steps@[i]@.id;
        assert(steps[i].id == id);
        assert(declared[i] == id);
        assert(declared.to_set().contains(id));
        lemma_settled_is_member(end.results, id);
    }
}

proof fn lemma_fresh_sound(steps: Seq<plan::DefView>)
    ensures
        sound(steps, schedule::fresh()),
{
    assert forall|id: Seq<char>| #[trigger] agree_on(schedule::fresh(), id) by {}
}

/// The trace and the report never disagree about what a step settled as.
pub proof fn the_trace_agrees_with_the_report<
    W: Fn(&PlanFile, &Vec<usize>, &Vec<StepResult>, &Vec<PlanStepRecord>) -> Vec<
        Option<StepOutcome>,
    >,
>(
    run_wave: W,
    plan: &PlanFile,
    waves: Seq<Seq<Option<OutcomeView>>>,
    end: RunView,
    id: Seq<char>,
)
    requires
        plan::ids_of(plan::def_views(plan.steps@)).no_duplicates(),
        schedule::comes_to(run_wave, plan, schedule::fresh(), waves, end),
    ensures
        agree_on(end, id),
{
    let steps = plan::def_views(plan.steps@);
    lemma_fresh_sound(steps);
    every_run_ends_sound(run_wave, plan, schedule::fresh(), waves, end);
}

/// A step is dispatched only while it has no result and all its dependencies have one, and no wave
/// dispatches a step twice.
pub proof fn waves_dispatch_only_unblocked_steps(
    plan_id: Seq<char>,
    steps: Seq<plan::DefView>,
    run: RunView,
)
    requires
        plan::ids_of(steps).no_duplicates(),
    ensures
        ({
            let (after, ready) = schedule::wave(plan_id, steps, run);
            &&& forall|j: int|
                0 <= j < ready.len() ==> 0 <= (#[trigger] ready[j]) < steps.len()
                    && !schedule::settled(after.results, steps[ready[j]].id)
                    && schedule::unblocked(steps[ready[j]].depends_on, after.results)
            &&& ready.no_duplicates()
        }),
{
    schedule::lemma_wave(plan_id, steps, run);
}

/// A step whose condition does not hold is settled as skipped and is never part of the wave.
pub proof fn a_false_condition_skips_its_step(
    plan_id: Seq<char>,
    steps: Seq<plan::DefView>,
    i: int,
    run: RunView,
    ready: Seq<int>,
)
    requires
        0 <= i < steps.len(),
        !schedule::settled(run.results, steps[i].id),
        schedule::unblocked(steps[i].depends_on, run.results),
        condition::verdict(steps[i].condition, run.results) == Ok::<bool, Seq<char>>(false),
    ensures
        schedule::pass(plan_id, steps, i, run, ready) == schedule::pass(
            plan_id,
            steps,
            i + 1,
            schedule::settle_bare(run, plan_id, steps[i], StepStatus::Skipped, None),
            ready,
        ),
{
}

/// No step runs before what it depends on: whatever is dispatched has no result yet, and each of
/// its dependencies has one.
pub proof fn no_step_runs_before_its_dependencies(
    plan_id: Seq<char>,
    steps: Seq<plan::DefView>,
    run: RunView,
    j: int,
    d: int,
)
    requires
        plan::ids_of(steps).no_duplicates(),
        0 <= j < schedule::wave(plan_id, steps, run).1.len(),
    ensures
        ({
            let (after, ready) = schedule::wave(plan_id, steps, run);
            let step = steps[ready[j]];
            &&& 0 <= ready[j] < steps.len()
            &&& !exists|k: int| 0 <= k < after.results.len() && (#[trigger] after.results[k]).id
                == step.id
            &&& 0 <= d < step.depends_on.len() ==> exists|k: int|
                0 <= k < after.results.len() && (#[trigger] after.results[k]).id
                    == step.depends_on[d]
        }),
{
    waves_dispatch_only_unblocked_steps(plan_id, steps, run);
    let (after, ready) = schedule::wave(plan_id, steps, run);
    let step = steps[ready[j]];
    schedule::a_result_is_found_under_its_id(after.results, step.id);
    if 0 <= d < step.depends_on.len() {
        assert(schedule::settled(after.results, step.depends_on[d]));
        schedule::a_result_is_found_under_its_id(after.results, step.depends_on[d]);
    }
}

/// No step that can run is left out: in a survey that does not stop the plan, a step without a
/// condition that has no result while its dependencies all have one is dispatched.
pub proof fn no_ready_step_is_left_out(
    plan_id: Seq<char>,
    steps: Seq<plan::DefView>,
    run: RunView,
    k: int,
)
    requires
        0 <= k < steps.len(),
        plan::ids_of(steps).no_duplicates(),
        steps[k].condition is None,
        !schedule::settled(run.results, steps[k].id),
        forall|d: int|
            0 <= d < steps[k].depends_on.len() ==> exists|m: int|
                0 <= m < run.results.len() && (#[trigger] run.results[m]).id
                    == #[trigger] steps[k].depends_on[d],
        schedule::pass(plan_id, steps, 0, run, Seq::empty()).0.failed is None,
    ensures
        schedule::pass(plan_id, steps, 0, run, Seq::empty()).1.contains(k),
{
    assert forall|d: int| 0 <= d < steps[k].depends_on.len() implies schedule::settled(
        run.results,
        #[trigger] steps[k].depends_on[d],
    ) by {
        schedule::a_result_is_found_under_its_id(run.results, steps[k].depends_on[d]);
    }
    lemma_pass_reaches(plan_id, steps, 0, run, Seq::empty(), k);
}

proof fn lemma_pass_reaches(
    plan_id: Seq<char>,
    steps: Seq<plan::DefView>,
    i: int,
    run: RunView,
    ready: Seq<int>,
    k: int,
)
    requires
        0 <= i <= steps.len(),
        0 <= k < steps.len(),
        plan::ids_of(steps).no_duplicates(),
        steps[k].condition is None,
        i <= k ==> !schedule::settled(run.results, steps[k].id) && schedule::unblocked(
            steps[k].depends_on,
            run.results,
        ),
        i > k ==> ready.contains(k),
        schedule::pass(plan_id, steps, i, run, ready).0.failed is None,
    ensures
        schedule::pass(plan_id, steps, i, run, ready).1.contains(k),
    decreases steps.len() - i,
{
    if i < steps.len() {
        let step = steps[i];
        if schedule::settled(run.results, step.id) || !schedule::unblocked(
            step.depends_on,
            run.results,
        ) {
            lemma_pass_reaches(plan_id, steps, i + 1, run, ready, k);
        } else {
            match condition::verdict(step.condition, run.results) {
                Ok(true) => {
                    let next = ready.push(i);
                    if i > k {
                        let m = choose|m: int| 0 <= m < ready.len() && ready[m] == k;
                        assert(next[m] == k);
                    } else if i == k {
                        assert(next[ready.len() as int] == k);
                    }
                    lemma_pass_reaches(plan_id, steps, i + 1, run, next, k);
                },
                Ok(false) => {
                    let r = schedule::bare(step.id, StepStatus::Skipped, None);
                    let next = schedule::settle_bare(run, plan_id, step, StepStatus::Skipped, None);
                    if i < k {
                        assert(plan::ids_of(steps)[i] != plan::ids_of(steps)[k]);
                        schedule::lemma_put(run.results, r, steps[k].id);
                        assert forall|d: int|
                            0 <= d < steps[k].depends_on.len() implies schedule::settled(
                            next.results,
                            #[trigger] steps[k].depends_on[d],
                        ) by {
                            assert(schedule::settled(run.results, steps[k].depends_on[d]));
                            schedule::lemma_put(run.results, r, steps[k].depends_on[d]);
                        }
                    }
                    lemma_pass_reaches(plan_id, steps, i + 1, next, ready, k);
                },
                Err(_) => {},
            }
        }
    }
}

/// A condition that cannot be evaluated stops the plan at its step, which fails with the reason,
/// and nothing behind it is surveyed.
pub proof fn a_broken_condition_stops_the_plan(
    plan_id: Seq<char>,
    steps: Seq<plan::DefView>,
    i: int,
    run: RunView,
    ready: Seq<int>,
    other: Seq<char>,
)
    requires
        0 <= i < steps.len(),
        !schedule::settled(run.results, steps[i].id),
        schedule::unblocked(steps[i].depends_on, run.results),
        condition::verdict(steps[i].condition, run.results) is Err,
        other != steps[i].id,
    ensures
        ({
            let after = schedule::pass(plan_id, steps, i, run, ready).0;
            let why = condition::verdict(steps[i].condition, run.results)->Err_0;
            &&& after.failed == Some(steps[i].id)
            &&& plan::result_of(after.results, steps[i].id) == Some(
                plan::StepView {
                    id: steps[i].id,
                    status: StepStatus::Failed,
                    output: None,
                    error: Some(why),
                },
            )
            &&& plan::result_of(after.results, other) == plan::result_of(run.results, other)
            &&& after.log.len() == run.log.len() + 1
            &&& after.log.last().step_id == steps[i].id
            &&& after.log.last().status is Failed
            &&& after.log.last().attempts == 0
        }),
{
    let why = condition::verdict(steps[i].condition, run.results)->Err_0;
    let r = schedule::bare(steps[i].id, StepStatus::Failed, Some(why));
    schedule::lemma_put(run.results, r, steps[i].id);
    schedule::lemma_put(run.results, r, other);
}

/// A step that is passed over by its condition is settled as skipped, with no output and no error,
/// and no other step's result changes.
pub proof fn a_skipped_step_is_settled_as_skipped(
    plan_id: Seq<char>,
    step: plan::DefView,
    run: RunView,
    other: Seq<char>,
)
    requires
        other != step.id,
    ensures
        ({
            let after = schedule::settle_bare(run, plan_id, step, StepStatus::Skipped, None);
            &&& plan::result_of(after.results, step.id) == Some(
                plan::StepView {
                    id: step.id,
                    status: StepStatus::Skipped,
                    output: None,
                    error: None,
                },
            )
            &&& plan::result_of(after.results, other) == plan::result_of(run.results, other)
            &&& after.failed == run.failed
            &&& after.log.len() == run.log.len() + 1
            &&& after.log.last().step_id == step.id
            &&& after.log.last().status is Skipped
            &&& after.log.last().plan_id == plan_id
        }),
{
    let r = schedule::bare(step.id, StepStatus::Skipped, None);
    schedule::lemma_put(run.results, r, step.id);
    schedule::lemma_put(run.results, r, other);
}

/// A plan in which nothing can run stops, and the first step without a result takes the blame.
pub proof fn a_blocked_plan_blames_its_first_open_step(
    plan_id: Seq<char>,
    steps: Seq<plan::DefView>,
    run: RunView,
    k: int,
)
    requires
        0 <= k < steps.len(),
        !schedule::settled(run.results, steps[k].id),
        forall|j: int| 0 <= j < k ==> schedule::settled(run.results, (#[trigger] steps[j]).id),
    ensures
        schedule::blocked(plan_id, steps, run).failed == Some(steps[k].id),
        plan::result_of(schedule::blocked(plan_id, steps, run).results, steps[k].id) is Some,
        plan::result_of(
            schedule::blocked(plan_id, steps, run).results,
            steps[k].id,
        )->0.status is Failed,
{
    lemma_first_open(steps, run.results, 0, k);
    let r = schedule::bare(steps[k].id, StepStatus::Failed, Some(schedule::blocked_reason()));
    schedule::lemma_put(run.results, r, steps[k].id);
}

proof fn lemma_first_open(
    steps: Seq<plan::DefView>,
    results: Seq<plan::StepView>,
    i: int,
    k: int,
)
    requires
        0 <= i <= k < steps.len(),
        !schedule::settled(results, steps[k].id),
        forall|j: int| i <= j < k ==> schedule::settled(results, (#[trigger] steps[j]).id),
    ensures
        schedule::first_unsettled(steps, results, i) == Some(k),
    decreases k - i,
{
    if i < k {
        assert(schedule::settled(results, steps[i].id));
        lemma_first_open(steps, results, i + 1, k);
    }
}

/// When nothing is ready and nothing was settled, the wave stops the plan: it is never left
/// unfinished in silence.
pub proof fn a_wave_runs_settles_or_stops(
    plan_id: Seq<char>,
    steps: Seq<plan::DefView>,
    run: RunView,
)
    requires
        run.failed is None,
        run.results.len() < steps.len(),
    ensures
        ({
            let (after, ready) = schedule::wave(plan_id, steps, run);
            ready.len() > 0 || after.failed is Some || after.results.len() >= steps.len()
        }),
    decreases schedule::remaining(steps, run),
{
    let (after, ready) = schedule::pass(plan_id, steps, 0, run, Seq::empty());
    if after.failed is None && ready.len() == 0 && after.results.len() > run.results.len() {
        if after.results.len() < steps.len() {
            a_wave_runs_settles_or_stops(plan_id, steps, after);
        }
    }
}

/// The outcomes of a wave are all taken, each for the step it is of, as long as none stops the
/// plan; a worker that vanished stops it.
pub proof fn every_outcome_of_a_wave_is_taken(
    run: RunView,
    plan_id: Seq<char>,
    steps: Seq<plan::DefView>,
    ready: Seq<int>,
    outcomes: Seq<Option<schedule::OutcomeView>>,
    j: int,
    k: int,
)
    requires
        0 <= j <= k < ready.len(),
        outcomes.len() == ready.len(),
        run.failed is None,
        forall|m: int| 0 <= m < ready.len() ==> 0 <= #[trigger] ready[m] < steps.len(),
        forall|m: int, n: int|
            0 <= m < n < ready.len() ==> steps[#[trigger] ready[m]].id != steps[
                #[trigger] ready[n]].id,
        forall|m: int|
            j <= m < ready.len() ==> (#[trigger] outcomes[m]) is Some && outcomes[m]->0.status
                !is Failed,
    ensures
        ({
            let after = schedule::absorb_wave(run, plan_id, steps, ready, outcomes, j);
            &&& after.failed is None
            &&& after.log.len() == run.log.len() + ready.len() - j
            &&& plan::result_of(after.results, steps[ready[k]].id) == Some(
                plan::StepView {
                    id: steps[ready[k]].id,
                    status: outcomes[k]->0.status,
                    output: outcomes[k]->0.output,
                    error: outcomes[k]->0.error,
                },
            )
        }),
    decreases ready.len() - j,
{
    let step = steps[ready[j]];
    let o = outcomes[j]->0;
    assert(outcomes[j] is Some && outcomes[j]->0.status !is Failed);
    let next = schedule::absorb(run, plan_id, step, o);
    schedule::an_outcome_settles_its_step(run, plan_id, step, o, step.id);
    if j < k {
        every_outcome_of_a_wave_is_taken(next, plan_id, steps, ready, outcomes, j + 1, k);
    } else {
        lemma_others_stay(next, plan_id, steps, ready, outcomes, j + 1, step.id);
    }
}

proof fn lemma_others_stay(
    run: RunView,
    plan_id: Seq<char>,
    steps: Seq<plan::DefView>,
    ready: Seq<int>,
    outcomes: Seq<Option<schedule::OutcomeView>>,
    j: int,
    id: Seq<char>,
)
    requires
        0 <= j <= ready.len(),
        outcomes.len() == ready.len(),
        run.failed is None,
        forall|m: int| j <= m < ready.len() ==> steps[#[trigger] ready[m]].id != id,
        forall|m: int|
            j <= m < ready.len() ==> (#[trigger] outcomes[m]) is Some && outcomes[m]->0.status
                !is Failed,
    ensures
        ({
            let after = schedule::absorb_wave(run, plan_id, steps, ready, outcomes, j);
            &&& after.failed is None
            &&& after.log.len() == run.log.len() + ready.len() - j
            &&& plan::result_of(after.results, id) == plan::result_of(run.results, id)
        }),
    decreases ready.len() - j,
{
    if j < ready.len() {
        let step = steps[ready[j]];
        let o = outcomes[j]->0;
        assert(outcomes[j] is Some && outcomes[j]->0.status !is Failed);
        schedule::an_outcome_settles_its_step(run, plan_id, step, o, id);
        lemma_others_stay(
            schedule::absorb(run, plan_id, step, o),
            plan_id,
            steps,
            ready,
            outcomes,
            j + 1,
            id,
        );
    }
}

/// A worker that vanished without a report stops the plan, whatever the policies of its step.
pub proof fn a_vanished_worker_stops_the_plan(
    run: RunView,
    plan_id: Seq<char>,
    steps: Seq<plan::DefView>,
    ready: Seq<int>,
    outcomes: Seq<Option<schedule::OutcomeView>>,
    j: int,
)
    requires
        0 <= j < ready.len(),
        j < outcomes.len() ==> outcomes[j] is None,
        run.failed is None,
    ensures
        ({
            let after = schedule::absorb_wave(run, plan_id, steps, ready, outcomes, j);
            &&& after.failed is Some
            &&& after.log.len() == run.log.len() + 1
            &&& after.log.last().status is Failed
        }),
{
}

/// What stops a wave is the last outcome of it that is taken.
pub proof fn what_stops_a_wave_is_taken_last(
    run: RunView,
    plan_id: Seq<char>,
    steps: Seq<plan::DefView>,
    ready: Seq<int>,
    outcomes: Seq<Option<schedule::OutcomeView>>,
    j: int,
)
    requires
        0 <= j < ready.len(),
        j < outcomes.len(),
        outcomes[j] is Some,
        outcomes[j]->0.status is Failed,
        steps[ready[j]].on_error == "fail"@,
        run.failed is None,
    ensures
        ({
            let after = schedule::absorb_wave(run, plan_id, steps, ready, outcomes, j);
            &&& after.failed == Some(steps[ready[j]].id)
            &&& after.log.len() == run.log.len() + 1
            &&& plan::result_of(after.results, steps[ready[j]].id) is Some
            &&& plan::result_of(after.results, steps[ready[j]].id)->0.status is Failed
        }),
{
    reveal_with_fuel(schedule::absorb_wave, 2);
    let step = steps[ready[j]];
    let o = outcomes[j]->0;
    schedule::a_failure_is_handled_as_declared(step.on_error, schedule::reported(step.id, o));
    schedule::an_outcome_settles_its_step(run, plan_id, step, o, step.id);
    schedule::lemma_put(
        run.results,
        schedule::under_policy(step.on_error, schedule::reported(step.id, o)).0,
        step.id,
    );
}

} // verus!
