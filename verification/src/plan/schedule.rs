//! The scheduler itself: which steps are ready, what each outcome settles as, and when a plan is
//! over.

use crate::json;
use crate::json::Json;
use crate::plan;
use crate::plan::condition;
use crate::plan::{PlanFile, SchedulerContext, StepDef, StepResult, StepStatus};
use crate::text;
use vstd::prelude::*;

verus! {

// ── Records ──────────────────────────────────────────────────────────────────

/// The terminal trace line of one step.
#[derive(Debug, PartialEq, Eq)]
pub struct PlanStepRecord {
    pub plan_id: String,
    pub step_id: String,
    pub kind: String,
    pub status: StepStatus,
    pub attempts: u32,
    pub duration_ms: u64,
    pub error: Option<String>,
    pub input: Option<Json>,
    pub state_effect: Option<String>,
    pub resource_id: Option<String>,
}

/// What a [`PlanStepRecord`] stands for.
pub struct RecordView {
    pub plan_id: Seq<char>,
    pub step_id: Seq<char>,
    pub kind: Seq<char>,
    pub status: StepStatus,
    pub attempts: u32,
    pub duration_ms: u64,
    pub error: Option<Seq<char>>,
    pub input: Option<json::JsonView>,
    pub state_effect: Option<Seq<char>>,
    pub resource_id: Option<Seq<char>>,
}

impl View for PlanStepRecord {
    type V = RecordView;

    open spec fn view(&self) -> RecordView {
        RecordView {
            plan_id: self.plan_id@,
            step_id: self.step_id@,
            kind: self.kind@,
            status: self.status,
            attempts: self.attempts,
            duration_ms: self.duration_ms,
            error: text::opt_text(self.error),
            input: json::owned_view(self.input),
            state_effect: text::opt_text(self.state_effect),
            resource_id: text::opt_text(self.resource_id),
        }
    }
}

/// What a list of records stands for.
pub open spec fn record_views(log: Seq<PlanStepRecord>) -> Seq<RecordView> {
    log.map_values(|r: PlanStepRecord| r@)
}

/// What a worker reports of the step it ran.
#[derive(Debug, PartialEq, Eq)]
pub struct StepOutcome {
    pub status: StepStatus,
    pub output: Option<String>,
    pub error: Option<String>,
    pub attempts: u32,
    pub duration_ms: u64,
    /// The interpolated input a tool step dispatched.
    pub input: Option<Json>,
    /// What the tool declared about the call.
    pub state_effect: Option<String>,
    pub resource_id: Option<String>,
}

/// What a [`StepOutcome`] stands for.
pub struct OutcomeView {
    pub status: StepStatus,
    pub output: Option<Seq<char>>,
    pub error: Option<Seq<char>>,
    pub attempts: u32,
    pub duration_ms: u64,
    pub input: Option<json::JsonView>,
    pub state_effect: Option<Seq<char>>,
    pub resource_id: Option<Seq<char>>,
}

impl View for StepOutcome {
    type V = OutcomeView;

    open spec fn view(&self) -> OutcomeView {
        OutcomeView {
            status: self.status,
            output: text::opt_text(self.output),
            error: text::opt_text(self.error),
            attempts: self.attempts,
            duration_ms: self.duration_ms,
            input: json::owned_view(self.input),
            state_effect: text::opt_text(self.state_effect),
            resource_id: text::opt_text(self.resource_id),
        }
    }
}

/// What the outcomes of a wave stand for; nothing for a worker that never reported.
pub open spec fn outcome_views(v: Seq<Option<StepOutcome>>) -> Seq<Option<OutcomeView>> {
    v.map_values(
        |o: Option<StepOutcome>|
            match o {
                Some(x) => Some(x@),
                None => None,
            },
    )
}

// ── The state of a run ───────────────────────────────────────────────────────

/// A plan in progress: what has settled, in the order it settled, the step that stopped the plan,
/// and the trace line of every step that settled.
#[derive(Debug, PartialEq, Eq)]
pub struct PlanRun {
    pub results: Vec<StepResult>,
    pub failed_step: Option<String>,
    pub log: Vec<PlanStepRecord>,
}

/// What a [`PlanRun`] stands for.
pub struct RunView {
    pub results: Seq<plan::StepView>,
    pub failed: Option<Seq<char>>,
    pub log: Seq<RecordView>,
}

impl View for PlanRun {
    type V = RunView;

    open spec fn view(&self) -> RunView {
        RunView {
            results: plan::step_views(self.results@),
            failed: text::opt_text(self.failed_step),
            log: record_views(self.log@),
        }
    }
}

/// A run before its first step.
pub open spec fn fresh() -> RunView {
    RunView { results: Seq::empty(), failed: None, log: Seq::empty() }
}

/// Whether the step `id` has settled.
pub open spec fn settled(results: Seq<plan::StepView>, id: Seq<char>) -> bool {
    plan::result_of(results, id) is Some
}

/// `results` with `r` in it: in the place of an earlier result of the same step, else at the end.
pub open spec fn put(results: Seq<plan::StepView>, r: plan::StepView) -> Seq<plan::StepView>
    decreases results.len(),
{
    if results.len() == 0 {
        seq![r]
    } else if results[0].id == r.id {
        results.update(0, r)
    } else {
        seq![results[0]] + put(results.drop_first(), r)
    }
}

/// What reads back of a result that was put: it, and every other one as before.
pub proof fn lemma_put(results: Seq<plan::StepView>, r: plan::StepView, id: Seq<char>)
    ensures
        plan::result_of(put(results, r), id) == (if id == r.id {
            Some(r)
        } else {
            plan::result_of(results, id)
        }),
        put(results, r).len() == (if settled(results, r.id) {
            results.len()
        } else {
            results.len() + 1
        }),
    decreases results.len(),
{
    reveal_with_fuel(plan::result_of, 2);
    let after = put(results, r);
    if results.len() == 0 {
        assert(after.drop_first().len() == 0);
    } else if results[0].id == r.id {
        assert(after.drop_first() =~= results.drop_first());
    } else {
        lemma_put(results.drop_first(), r, id);
        assert(after.drop_first() =~= put(results.drop_first(), r));
        assert(after[0] == results[0]);
    }
}

proof fn lemma_put_at(results: Seq<plan::StepView>, r: plan::StepView, at: int)
    requires
        0 <= at <= results.len(),
        forall|j: int| 0 <= j < at ==> (#[trigger] results[j]).id != r.id,
        at < results.len() ==> results[at].id == r.id,
    ensures
        put(results, r) == (if at < results.len() {
            results.update(at, r)
        } else {
            results.push(r)
        }),
    decreases at,
{
    if at == 0 {
        if results.len() == 0 {
            assert(seq![r] =~= results.push(r));
        }
    } else {
        assert(results[0].id != r.id);
        let rest = results.drop_first();
        assert forall|j: int| 0 <= j < at - 1 implies (#[trigger] rest[j]).id != r.id by {
            assert(results[j + 1].id != r.id);
        }
        lemma_put_at(rest, r, at - 1);
        assert(put(results, r) =~= (if at < results.len() {
            results.update(at, r)
        } else {
            results.push(r)
        }));
    }
}

/// Puts a result into the table: in the place of an earlier one of the same step, else at the end.
pub fn insert_result(results: &mut Vec<StepResult>, result: StepResult)
    ensures
        plan::step_views(final(results)@) == put(plan::step_views(old(results)@), result@),
{
    let ghost before = plan::step_views(results@);
    match plan::position_of(results.as_slice(), result.step_id.as_str()) {
        Some(i) => {
            proof {
                assert forall|j: int| 0 <= j < i implies (#[trigger] before[j]).id
                    != result@.id by {
                    assert(results@[j]@.id != result@.id);
                }
                lemma_put_at(before, result@, i as int);
            }
            results.set(i, result);
            proof {
                assert(plan::step_views(results@) =~= before.update(i as int, result@));
            }
        },
        None => {
            proof {
                assert forall|j: int| 0 <= j < before.len() implies (#[trigger] before[j]).id
                    != result@.id by {
                    assert(results@[j]@.id != result@.id);
                }
                lemma_put_at(before, result@, before.len() as int);
            }
            results.push(result);
            proof {
                assert(plan::step_views(results@) =~= before.push(result@));
            }
        },
    }
}

/// A result without output.
pub open spec fn bare(id: Seq<char>, status: StepStatus, error: Option<Seq<char>>) -> plan::StepView {
    plan::StepView { id, status, output: None, error }
}

/// A failed result.
pub fn failed(step_id: &str, error: String) -> (r: StepResult)
    ensures
        r@ == bare(step_id@, StepStatus::Failed, Some(error@)),
{
    StepResult {
        step_id: step_id.to_owned(),
        status: StepStatus::Failed,
        output: None,
        error: Some(error),
    }
}

/// The trace line of a step that settled without being dispatched: no attempt is claimed.
pub open spec fn undispatched(
    plan_id: Seq<char>,
    step_id: Seq<char>,
    kind: Seq<char>,
    status: StepStatus,
    error: Option<Seq<char>>,
) -> RecordView {
    RecordView {
        plan_id,
        step_id,
        kind,
        status,
        attempts: 0,
        duration_ms: 0,
        error,
        input: None,
        state_effect: None,
        resource_id: None,
    }
}

/// The run after a step settled without being dispatched.
pub open spec fn settle_bare(
    run: RunView,
    plan_id: Seq<char>,
    step: plan::DefView,
    status: StepStatus,
    error: Option<Seq<char>>,
) -> RunView {
    RunView {
        results: put(run.results, bare(step.id, status, error)),
        failed: run.failed,
        log: run.log.push(undispatched(plan_id, step.id, plan::kind_word(step), status, error)),
    }
}

/// The run stopped by the step `id`.
pub open spec fn stopped(run: RunView, id: Seq<char>) -> RunView {
    RunView { results: run.results, failed: Some(id), log: run.log }
}

// ── Which steps are ready ────────────────────────────────────────────────────

/// Whether every dependency of a step has settled.
pub open spec fn unblocked(deps: Seq<Seq<char>>, results: Seq<plan::StepView>) -> bool {
    forall|i: int| 0 <= i < deps.len() ==> settled(results, #[trigger] deps[i])
}

/// One pass over the steps from `i` on. A step that has not settled and whose dependencies all
/// have is ready when its condition holds, settles as skipped when it does not, and stops the plan
/// when the condition cannot be evaluated. A step skipped in a pass counts as settled for the
/// steps behind it.
pub open spec fn pass(
    plan_id: Seq<char>,
    steps: Seq<plan::DefView>,
    i: int,
    run: RunView,
    ready: Seq<int>,
) -> (RunView, Seq<int>)
    decreases steps.len() - i,
{
    if i < 0 || i >= steps.len() {
        (run, ready)
    } else {
        let step = steps[i];
        if settled(run.results, step.id) || !unblocked(step.depends_on, run.results) {
            pass(plan_id, steps, i + 1, run, ready)
        } else {
            match condition::verdict(step.condition, run.results) {
                Ok(true) => pass(plan_id, steps, i + 1, run, ready.push(i)),
                Ok(false) => pass(
                    plan_id,
                    steps,
                    i + 1,
                    settle_bare(run, plan_id, step, StepStatus::Skipped, None),
                    ready,
                ),
                Err(e) => (
                    stopped(
                        settle_bare(run, plan_id, step, StepStatus::Failed, Some(e)),
                        step.id,
                    ),
                    ready,
                ),
            }
        }
    }
}

/// The first step from `i` on that has not settled.
pub open spec fn first_unsettled(
    steps: Seq<plan::DefView>,
    results: Seq<plan::StepView>,
    i: int,
) -> Option<int>
    decreases steps.len() - i,
{
    if i < 0 || i >= steps.len() {
        None
    } else if !settled(results, steps[i].id) {
        Some(i)
    } else {
        first_unsettled(steps, results, i + 1)
    }
}

/// Why a plan with nothing ready and nothing left to skip stops.
pub open spec fn blocked_reason() -> Seq<char> {
    "plan is blocked by a dependency cycle or missing dependency"@
}

/// The run stopped because no step can be scheduled: the first unsettled step takes the blame.
pub open spec fn blocked(plan_id: Seq<char>, steps: Seq<plan::DefView>, run: RunView) -> RunView {
    match first_unsettled(steps, run.results, 0) {
        Some(k) => stopped(
            settle_bare(run, plan_id, steps[k], StepStatus::Failed, Some(blocked_reason())),
            steps[k].id,
        ),
        None => RunView {
            results: put(run.results, bare("plan"@, StepStatus::Failed, Some(blocked_reason()))),
            failed: Some("plan"@),
            log: run.log,
        },
    }
}

/// How much is left to settle.
pub open spec fn remaining(steps: Seq<plan::DefView>, run: RunView) -> nat {
    if run.results.len() < steps.len() {
        (steps.len() - run.results.len()) as nat
    } else {
        0
    }
}

/// The next wave: the run as the passes left it and the steps to dispatch together. Passes repeat
/// while they only skip steps; an empty wave means that the plan is over.
pub open spec fn wave(plan_id: Seq<char>, steps: Seq<plan::DefView>, run: RunView) -> (
    RunView,
    Seq<int>,
)
    decreases remaining(steps, run),
{
    if run.failed is Some || run.results.len() >= steps.len() {
        (run, Seq::empty())
    } else {
        let (after, ready) = pass(plan_id, steps, 0, run, Seq::empty());
        if after.failed is Some {
            (after, Seq::empty())
        } else if ready.len() > 0 {
            (after, ready)
        } else if after.results.len() > run.results.len() {
            wave(plan_id, steps, after)
        } else {
            (blocked(plan_id, steps, after), Seq::empty())
        }
    }
}

/// The indices of a wave as integers.
pub open spec fn indices(v: Seq<usize>) -> Seq<int> {
    v.map_values(|i: usize| i as int)
}

impl PlanRun {
    /// A run before its first step.
    pub fn new() -> (r: Self)
        ensures
            r@ == fresh(),
    {
        let r = PlanRun { results: Vec::new(), failed_step: None, log: Vec::new() };
        proof {
            assert(r@.results =~= fresh().results);
            assert(r@.log =~= fresh().log);
        }
        r
    }

    /// Whether the step `id` has settled.
    fn has_settled(&self, id: &str) -> (r: bool)
        ensures
            r == settled(self@.results, id@),
    {
        plan::position_of(self.results.as_slice(), id).is_some()
    }

    /// Whether every dependency has settled.
    fn is_unblocked(&self, deps: &[String]) -> (r: bool)
        ensures
            r == unblocked(text::texts(deps@), self@.results),
    {
        let ghost all = text::texts(deps@);
        let mut i: usize = 0;
        while i < deps.len()
            invariant
                i <= deps@.len(),
                all == text::texts(deps@),
                forall|j: int| 0 <= j < i ==> settled(self@.results, #[trigger] all[j]),
            decreases deps@.len() - i,
        {
            proof {
                assert(all[i as int] == deps@[i as int]@);
            }
            if !self.has_settled(deps[i].as_str()) {
                return false;
            }
            i += 1;
        }
        true
    }

    /// Settles a step without dispatching it.
    fn settle_undispatched(
        &mut self,
        plan_id: &str,
        step: &StepDef,
        status: StepStatus,
        error: Option<String>,
    )
        ensures
            final(self)@ == settle_bare(
                old(self)@,
                plan_id@,
                step@,
                status,
                text::opt_text(error),
            ),
    {
        let ghost before = self@;
        let copy = text::clone_opt(&error);
        insert_result(
            &mut self.results,
            StepResult { step_id: step.id.clone(), status, output: None, error: copy },
        );
        let record = PlanStepRecord {
            plan_id: plan_id.to_owned(),
            step_id: step.id.clone(),
            kind: plan::step_kind_name(step).to_owned(),
            status,
            attempts: 0,
            duration_ms: 0,
            error,
            input: None,
            state_effect: None,
            resource_id: None,
        };
        let ghost line = record@;
        self.log.push(record);
        proof {
            assert(self@.log =~= before.log.push(line));
        }
    }

    /// One pass over the steps, collecting those that are ready.
    fn survey(&mut self, plan: &PlanFile) -> (ready: Vec<usize>)
        requires
            old(self)@.failed is None,
        ensures
            (final(self)@, indices(ready@)) == pass(
                plan.id@,
                plan::def_views(plan.steps@),
                0,
                old(self)@,
                Seq::empty(),
            ),
            forall|j: int| 0 <= j < ready@.len() ==> (#[trigger] ready@[j]) < plan.steps@.len(),
    {
        let ghost steps = plan::def_views(plan.steps@);
        let ghost start = self@;
        let mut ready: Vec<usize> = Vec::new();
        let mut i: usize = 0;
        proof {
            assert(indices(ready@) =~= Seq::empty());
        }
        while i < plan.steps.len()
            invariant
                i <= plan.steps@.len(),
                steps == plan::def_views(plan.steps@),
                self@.failed is None,
                start == old(self)@,
                pass(plan.id@, steps, i as int, self@, indices(ready@)) == pass(
                    plan.id@,
                    steps,
                    0,
                    start,
                    Seq::empty(),
                ),
                forall|j: int|
                    0 <= j < ready@.len() ==> (#[trigger] ready@[j]) < plan.steps@.len(),
            decreases plan.steps@.len() - i,
        {
            let step = &plan.steps[i];
            proof {
                assert(steps[i as int] == step@);
            }
            if self.has_settled(step.id.as_str()) || !self.is_unblocked(
                step.depends_on.as_slice(),
            ) {
                i += 1;
                continue ;
            }
            let verdict = match &step.condition {
                Some(c) => condition::evaluate(Some(c.as_str()), self.results.as_slice()),
                None => condition::evaluate(None, self.results.as_slice()),
            };
            match verdict {
                Ok(true) => {
                    let ghost before = indices(ready@);
                    ready.push(i);
                    proof {
                        assert(indices(ready@) =~= before.push(i as int));
                    }
                },
                Ok(false) => {
                    self.settle_undispatched(plan.id.as_str(), step, StepStatus::Skipped, None);
                },
                Err(e) => {
                    self.settle_undispatched(plan.id.as_str(), step, StepStatus::Failed, Some(e));
                    self.failed_step = Some(step.id.clone());
                    return ready;
                },
            }
            i += 1;
        }
        ready
    }

    /// Stops the plan because no step can be scheduled.
    fn block(&mut self, plan: &PlanFile)
        ensures
            final(self)@ == blocked(plan.id@, plan::def_views(plan.steps@), old(self)@),
    {
        let ghost steps = plan::def_views(plan.steps@);
        let ghost start = self@;
        let mut i: usize = 0;
        while i < plan.steps.len()
            invariant
                i <= plan.steps@.len(),
                steps == plan::def_views(plan.steps@),
                self@ == start,
                start == old(self)@,
                first_unsettled(steps, start.results, i as int) == first_unsettled(
                    steps,
                    start.results,
                    0,
                ),
            decreases plan.steps@.len() - i,
        {
            let step = &plan.steps[i];
            proof {
                assert(steps[i as int] == step@);
            }
            if !self.has_settled(step.id.as_str()) {
                self.settle_undispatched(
                    plan.id.as_str(),
                    step,
                    StepStatus::Failed,
                    Some("plan is blocked by a dependency cycle or missing dependency".to_owned()),
                );
                self.failed_step = Some(step.id.clone());
                return ;
            }
            i += 1;
        }
        insert_result(
            &mut self.results,
            failed(
                "plan",
                "plan is blocked by a dependency cycle or missing dependency".to_owned(),
            ),
        );
        self.failed_step = Some("plan".to_owned());
    }

    /// The steps to dispatch together next; none when the plan is over.
    pub fn next_wave(&mut self, plan: &PlanFile) -> (ready: Vec<usize>)
        ensures
            (final(self)@, indices(ready@)) == wave(
                plan.id@,
                plan::def_views(plan.steps@),
                old(self)@,
            ),
            forall|j: int| 0 <= j < ready@.len() ==> (#[trigger] ready@[j]) < plan.steps@.len(),
    {
        let ghost steps = plan::def_views(plan.steps@);
        let ghost start = self@;
        loop
            invariant
                steps == plan::def_views(plan.steps@),
                wave(plan.id@, steps, self@) == wave(plan.id@, steps, start),
                start == old(self)@,
            decreases remaining(steps, self@),
        {
            if self.failed_step.is_some() || self.results.len() >= plan.steps.len() {
                let none: Vec<usize> = Vec::new();
                proof {
                    assert(indices(none@) =~= Seq::empty());
                }
                return none;
            }
            let settled_before: usize = self.results.len();
            let ghost before = self@;
            let ready = self.survey(plan);
            proof {
                assert(before.results.len() == settled_before);
            }
            if self.failed_step.is_some() {
                let none: Vec<usize> = Vec::new();
                proof {
                    assert(indices(none@) =~= Seq::empty());
                }
                return none;
            }
            if ready.len() > 0 {
                return ready;
            }
            proof {
                assert(indices(ready@) =~= Seq::empty());
            }
            if self.results.len() > settled_before {
                continue ;
            }
            self.block(plan);
            return ready;
        }
    }
}


// ── What an outcome settles as ───────────────────────────────────────────────

/// What a step's result becomes under its `on_error`, and whether it stops the plan. A step that
/// did not fail settles as it is.
pub open spec fn under_policy(on_error: Seq<char>, r: plan::StepView) -> (plan::StepView, bool) {
    if r.status != StepStatus::Failed {
        (r, false)
    } else if on_error == "fail"@ {
        (r, true)
    } else if on_error == "skip"@ {
        (bare(r.id, StepStatus::Skipped, r.error), false)
    } else if on_error == "continue"@ {
        (r, false)
    } else {
        (
            plan::StepView {
                id: r.id,
                status: r.status,
                output: r.output,
                error: Some("invalid on_error policy '"@ + on_error + "'"@),
            },
            true,
        )
    }
}

/// The result a worker's outcome gives its step.
pub open spec fn reported(id: Seq<char>, o: OutcomeView) -> plan::StepView {
    plan::StepView { id, status: o.status, output: o.output, error: o.error }
}

/// The run after a worker reported `o` of a step. The `on_error` policy is applied before the step
/// is recorded either way, so the result and the trace line carry the same verdict.
pub open spec fn absorb(
    run: RunView,
    plan_id: Seq<char>,
    step: plan::DefView,
    o: OutcomeView,
) -> RunView {
    let (result, stops) = under_policy(step.on_error, reported(step.id, o));
    RunView {
        results: put(run.results, result),
        failed: if stops {
            Some(step.id)
        } else {
            run.failed
        },
        log: run.log.push(
            RecordView {
                plan_id,
                step_id: step.id,
                kind: plan::kind_word(step),
                status: result.status,
                attempts: o.attempts,
                duration_ms: o.duration_ms,
                error: result.error,
                input: o.input,
                state_effect: o.state_effect,
                resource_id: o.resource_id,
            },
        ),
    }
}

/// The run after a worker vanished without a report. What it leaves names no declared step, and
/// the plan stops.
pub open spec fn lost(run: RunView, plan_id: Seq<char>) -> RunView {
    let reason = Some("step dispatch thread panicked"@);
    RunView {
        results: put(run.results, bare("unknown"@, StepStatus::Failed, reason)),
        failed: Some("unknown"@),
        log: run.log.push(
            undispatched(plan_id, "unknown"@, "unknown"@, StepStatus::Failed, reason),
        ),
    }
}

/// The run after the outcomes of a wave from the `j`th on, in the order the steps were dispatched.
/// The first one that stops the plan is the last one read.
pub open spec fn absorb_wave(
    run: RunView,
    plan_id: Seq<char>,
    steps: Seq<plan::DefView>,
    ready: Seq<int>,
    outcomes: Seq<Option<OutcomeView>>,
    j: int,
) -> RunView
    decreases ready.len() - j,
{
    if j < 0 || j >= ready.len() || run.failed is Some {
        run
    } else {
        match (if j < outcomes.len() {
            outcomes[j]
        } else {
            None
        }) {
            None => lost(run, plan_id),
            Some(o) => absorb_wave(
                absorb(run, plan_id, steps[ready[j]], o),
                plan_id,
                steps,
                ready,
                outcomes,
                j + 1,
            ),
        }
    }
}

/// What a step's result becomes under its `on_error`, and whether it stops the plan.
pub fn apply_policy(on_error: &str, result: StepResult) -> (r: (StepResult, bool))
    ensures
        (r.0@, r.1) == under_policy(on_error@, result@),
        r.0.step_id@ == result.step_id@,
        !(result.status is Failed) ==> r.0@ == result@ && !r.1,
        result.status is Failed ==> (r.1 <==> on_error@ != "skip"@ && on_error@ != "continue"@),
        result.status is Failed && on_error@ == "skip"@ ==> r.0.status is Skipped && r.0.output
            is None,
        result.status is Failed && on_error@ != "skip"@ ==> r.0.status is Failed,
{
    proof {
        a_failure_is_handled_as_declared(on_error@, result@);
    }
    if result.status != StepStatus::Failed {
        return (result, false);
    }
    if text::same(on_error, "fail") {
        (result, true)
    } else if text::same(on_error, "skip") {
        (
            StepResult {
                step_id: result.step_id,
                status: StepStatus::Skipped,
                output: None,
                error: result.error,
            },
            false,
        )
    } else if text::same(on_error, "continue") {
        (result, false)
    } else {
        let message = text::cat3("invalid on_error policy '", on_error, "'");
        (
            StepResult {
                step_id: result.step_id,
                status: result.status,
                output: result.output,
                error: Some(message),
            },
            true,
        )
    }
}

impl PlanRun {
    /// Settles a dispatched step with what its worker reported.
    pub fn settle(&mut self, plan_id: &str, step: &StepDef, outcome: StepOutcome)
        ensures
            final(self)@ == absorb(old(self)@, plan_id@, step@, outcome@),
    {
        let ghost before = self@;
        let (result, stops) = apply_policy(
            step.on_error.as_str(),
            StepResult {
                step_id: step.id.clone(),
                status: outcome.status,
                output: outcome.output,
                error: outcome.error,
            },
        );
        let record = PlanStepRecord {
            plan_id: plan_id.to_owned(),
            step_id: step.id.clone(),
            kind: plan::step_kind_name(step).to_owned(),
            status: result.status,
            attempts: outcome.attempts,
            duration_ms: outcome.duration_ms,
            error: text::clone_opt(&result.error),
            input: outcome.input,
            state_effect: outcome.state_effect,
            resource_id: outcome.resource_id,
        };
        let ghost line = record@;
        self.log.push(record);
        insert_result(&mut self.results, result);
        if stops {
            self.failed_step = Some(step.id.clone());
        }
        proof {
            assert(self@.log =~= before.log.push(line));
        }
    }

    /// Stops the plan because a worker vanished without a report.
    pub fn lose(&mut self, plan_id: &str)
        ensures
            final(self)@ == lost(old(self)@, plan_id@),
    {
        let ghost before = self@;
        let record = PlanStepRecord {
            plan_id: plan_id.to_owned(),
            step_id: "unknown".to_owned(),
            kind: "unknown".to_owned(),
            status: StepStatus::Failed,
            attempts: 0,
            duration_ms: 0,
            error: Some("step dispatch thread panicked".to_owned()),
            input: None,
            state_effect: None,
            resource_id: None,
        };
        let ghost line = record@;
        self.log.push(record);
        insert_result(
            &mut self.results,
            failed("unknown", "step dispatch thread panicked".to_owned()),
        );
        self.failed_step = Some("unknown".to_owned());
        proof {
            assert(self@.log =~= before.log.push(line));
        }
    }

    /// Settles the steps of a wave with what their workers reported, in dispatch order.
    pub fn settle_wave(
        &mut self,
        plan: &PlanFile,
        ready: &Vec<usize>,
        outcomes: Vec<Option<StepOutcome>>,
    )
        requires
            forall|j: int| 0 <= j < ready@.len() ==> (#[trigger] ready@[j]) < plan.steps@.len(),
        ensures
            final(self)@ == absorb_wave(
                old(self)@,
                plan.id@,
                plan::def_views(plan.steps@),
                indices(ready@),
                outcome_views(outcomes@),
                0,
            ),
    {
        let ghost steps = plan::def_views(plan.steps@);
        let ghost start = self@;
        let ghost all = outcome_views(outcomes@);
        let ghost order = indices(ready@);
        let mut rest: Vec<Option<StepOutcome>> = reversed(outcomes);
        let mut j: usize = 0;
        while j < ready.len()
            invariant
                j <= ready@.len(),
                forall|k: int|
                    0 <= k < ready@.len() ==> (#[trigger] ready@[k]) < plan.steps@.len(),
                steps == plan::def_views(plan.steps@),
                order == indices(ready@),
                all == outcome_views(outcomes@),
                start == old(self)@,
                outcome_views(rest@).reverse() == (if j <= all.len() {
                    all.skip(j as int)
                } else {
                    Seq::empty()
                }),
                absorb_wave(self@, plan.id@, steps, order, all, j as int) == absorb_wave(
                    start,
                    plan.id@,
                    steps,
                    order,
                    all,
                    0,
                ),
            decreases ready@.len() - j,
        {
            if self.failed_step.is_some() {
                return ;
            }
            let ghost left = outcome_views(rest@);
            proof {
                assert(left.reverse().len() == rest@.len());
            }
            let next = rest.pop();
            proof {
                if left.len() > 0 {
                    assert(left.reverse()[0] == left.last());
                    assert(all.skip(j as int)[0] == all[j as int]);
                    assert(outcome_views(rest@) =~= left.drop_last());
                    assert(left.drop_last().reverse() =~= left.reverse().drop_first());
                    assert(all.skip(j as int).drop_first() =~= all.skip(j + 1));
                } else {
                    assert(outcome_views(rest@) =~= Seq::empty());
                    assert(outcome_views(rest@).reverse() =~= Seq::empty());
                    if j + 1 <= all.len() {
                        assert(all.skip(j as int).len() == 0);
                    }
                }
            }
            match next {
                Some(Some(outcome)) => {
                    let step = &plan.steps[ready[j]];
                    proof {
                        assert(steps[order[j as int]] == step@);
                    }
                    self.settle(plan.id.as_str(), step, outcome);
                },
                _ => {
                    self.lose(plan.id.as_str());
                    return ;
                },
            }
            j += 1;
        }
    }
}

/// The outcomes back to front, so that the first one can be taken from the end.
fn reversed(v: Vec<Option<StepOutcome>>) -> (r: Vec<Option<StepOutcome>>)
    ensures
        outcome_views(r@).reverse() == outcome_views(v@),
{
    let ghost all = outcome_views(v@);
    let mut from = v;
    let mut out: Vec<Option<StepOutcome>> = Vec::new();
    proof {
        assert(outcome_views(out@).reverse() =~= Seq::empty());
        assert(outcome_views(from@) + Seq::<Option<OutcomeView>>::empty() =~= all);
    }
    while from.len() > 0
        invariant
            outcome_views(from@) + outcome_views(out@).reverse() == all,
        decreases from@.len(),
    {
        let ghost left = outcome_views(from@);
        let ghost right = outcome_views(out@);
        let o = from.pop().unwrap();
        out.push(o);
        proof {
            assert(outcome_views(from@) =~= left.drop_last());
            assert(outcome_views(out@) =~= right.push(left.last()));
            assert(left.drop_last() + right.push(left.last()).reverse() =~= left
                + right.reverse());
        }
    }
    proof {
        assert(outcome_views(from@) =~= Seq::empty());
        assert(Seq::<Option<OutcomeView>>::empty() + outcome_views(out@).reverse()
            =~= outcome_views(out@).reverse());
    }
    out
}


// ── The report ───────────────────────────────────────────────────────────────

/// What a plan came to.
#[derive(Debug, PartialEq, Eq)]
pub struct ExecutionReport {
    pub results: Vec<StepResult>,
    pub completed: bool,
    pub failed_step: Option<String>,
}

/// The closing trace line of a plan.
#[derive(Debug, PartialEq, Eq)]
pub struct PlanEndRecord {
    pub plan_id: String,
    pub outcome: String,
    pub failed_step: Option<String>,
    pub steps_total: usize,
    pub steps_succeeded: usize,
    pub steps_failed: usize,
    pub steps_skipped: usize,
    pub reason: Option<String>,
}

/// A plan's report with everything its trace carries.
#[derive(Debug, PartialEq, Eq)]
pub struct Execution {
    pub report: ExecutionReport,
    pub log: Vec<PlanStepRecord>,
    pub end: PlanEndRecord,
}

/// What an [`Execution`] stands for.
pub struct ExecutionView {
    pub results: Seq<plan::StepView>,
    pub completed: bool,
    pub failed_step: Option<Seq<char>>,
    pub log: Seq<RecordView>,
    pub plan_id: Seq<char>,
    pub outcome: Seq<char>,
    pub end_failed_step: Option<Seq<char>>,
    pub total: nat,
    pub succeeded: nat,
    pub failed: nat,
    pub skipped: nat,
    pub reason: Option<Seq<char>>,
}

impl View for Execution {
    type V = ExecutionView;

    open spec fn view(&self) -> ExecutionView {
        ExecutionView {
            results: plan::step_views(self.report.results@),
            completed: self.report.completed,
            failed_step: text::opt_text(self.report.failed_step),
            log: record_views(self.log@),
            plan_id: self.end.plan_id@,
            outcome: self.end.outcome@,
            end_failed_step: text::opt_text(self.end.failed_step),
            total: self.end.steps_total as nat,
            succeeded: self.end.steps_succeeded as nat,
            failed: self.end.steps_failed as nat,
            skipped: self.end.steps_skipped as nat,
            reason: text::opt_text(self.end.reason),
        }
    }
}

/// How many results have a status.
pub open spec fn count(results: Seq<plan::StepView>, status: StepStatus) -> nat
    decreases results.len(),
{
    if results.len() == 0 {
        0
    } else if results.last().status == status {
        count(results.drop_last(), status) + 1
    } else {
        count(results.drop_last(), status)
    }
}

/// How many results have a status.
pub fn count_status(results: &[StepResult], status: StepStatus) -> (r: usize)
    ensures
        r == count(plan::step_views(results@), status),
        r <= results@.len(),
{
    let ghost all = plan::step_views(results@);
    let mut n: usize = 0;
    let mut i: usize = 0;
    proof {
        assert(all.take(0).len() == 0);
    }
    while i < results.len()
        invariant
            n <= i <= results@.len(),
            all == plan::step_views(results@),
            n == count(all.take(i as int), status),
        decreases results@.len() - i,
    {
        proof {
            assert(all.take(i + 1).drop_last() =~= all.take(i as int));
            assert(all.take(i + 1).last() == results@[i as int]@);
        }
        if results[i].status == status {
            n += 1;
        }
        i += 1;
    }
    proof {
        assert(all.take(all.len() as int) =~= all);
    }
    n
}

/// The report of a plan that was refused before any step ran: one failed result, under the name
/// that takes the blame.
pub open spec fn refusal(
    plan_id: Seq<char>,
    total: nat,
    blamed: Seq<char>,
    reason: Seq<char>,
) -> ExecutionView {
    ExecutionView {
        results: seq![bare(blamed, StepStatus::Failed, Some(reason))],
        completed: false,
        failed_step: Some(blamed),
        log: Seq::empty(),
        plan_id,
        outcome: "failed"@,
        end_failed_step: Some(blamed),
        total,
        succeeded: 0,
        failed: 0,
        skipped: 0,
        reason: Some(reason),
    }
}

/// The report of a plan that ran.
pub open spec fn closing(plan_id: Seq<char>, total: nat, run: RunView) -> ExecutionView {
    ExecutionView {
        results: run.results,
        completed: run.failed is None,
        failed_step: run.failed,
        log: run.log,
        plan_id,
        outcome: if run.failed is None {
            "completed"@
        } else {
            "failed"@
        },
        end_failed_step: run.failed,
        total,
        succeeded: count(run.results, StepStatus::Success),
        failed: count(run.results, StepStatus::Failed),
        skipped: count(run.results, StepStatus::Skipped),
        reason: None,
    }
}

/// The report and the trace for a plan refused before any step ran.
pub fn refused_before_any_step(
    plan_id: &str,
    steps_total: usize,
    blamed: &str,
    reason: String,
) -> (r: Execution)
    ensures
        r@ == refusal(plan_id@, steps_total as nat, blamed@, reason@),
        !r.report.completed,
        r.report.failed_step is Some && r.report.failed_step->0@ == blamed@,
        r.report.results@.len() == 1,
        r.report.results@[0].step_id@ == blamed@,
        r.report.results@[0].status is Failed,
        r.report.results@[0].error is Some && r.report.results@[0].error->0@ == reason@,
        r.end.outcome@ == "failed"@,
        r.end.reason is Some && r.end.reason->0@ == reason@,
        r.log@.len() == 0,
        r.end.plan_id@ == plan_id@,
        r.end.steps_total == steps_total,
        r.end.steps_succeeded == 0 && r.end.steps_failed == 0 && r.end.steps_skipped == 0,
        r.end.failed_step is Some && r.end.failed_step->0@ == blamed@,
        r.report.results@[0].output is None,
{
    let copy = reason.clone();
    let mut results: Vec<StepResult> = Vec::new();
    results.push(failed(blamed, reason));
    let r = Execution {
        report: ExecutionReport {
            results,
            completed: false,
            failed_step: Some(blamed.to_owned()),
        },
        log: Vec::new(),
        end: PlanEndRecord {
            plan_id: plan_id.to_owned(),
            outcome: "failed".to_owned(),
            failed_step: Some(blamed.to_owned()),
            steps_total,
            steps_succeeded: 0,
            steps_failed: 0,
            steps_skipped: 0,
            reason: Some(copy),
        },
    };
    proof {
        assert(r@.results =~= seq![bare(blamed@, StepStatus::Failed, Some(copy@))]);
        assert(r@.log =~= Seq::empty());
    }
    r
}

impl PlanRun {
    /// Closes the run: the report, the trace lines and the closing line.
    pub fn finish(self, plan_id: &str, steps_total: usize) -> (r: Execution)
        ensures
            r@ == closing(plan_id@, steps_total as nat, self@),
            r.report.results@ == self.results@,
            r.report.completed <==> self.failed_step is None,
            r.report.failed_step is Some <==> self.failed_step is Some,
            r.report.failed_step is Some ==> r.report.failed_step->0@ == self.failed_step->0@,
            r.end.outcome@ == (if self.failed_step is None {
                "completed"@
            } else {
                "failed"@
            }),
            r.end.steps_total == steps_total,
            r.end.steps_succeeded + r.end.steps_failed + r.end.steps_skipped
                == self.results@.len(),
            r.log@ == self.log@,
            r.end.steps_succeeded == count(plan::step_views(self.results@), StepStatus::Success),
            r.end.steps_failed == count(plan::step_views(self.results@), StepStatus::Failed),
            r.end.steps_skipped == count(plan::step_views(self.results@), StepStatus::Skipped),
            r.end.plan_id@ == plan_id@,
            r.end.reason is None,
            text::opt_text(r.end.failed_step) == text::opt_text(self.failed_step),
    {
        proof {
            every_result_is_counted_once(plan::step_views(self.results@));
        }
        let steps_succeeded: usize = count_status(self.results.as_slice(), StepStatus::Success);
        let steps_failed: usize = count_status(self.results.as_slice(), StepStatus::Failed);
        let steps_skipped: usize = count_status(self.results.as_slice(), StepStatus::Skipped);
        let completed = self.failed_step.is_none();
        let copy = text::clone_opt(&self.failed_step);
        Execution {
            report: ExecutionReport {
                results: self.results,
                completed,
                failed_step: self.failed_step,
            },
            log: self.log,
            end: PlanEndRecord {
                plan_id: plan_id.to_owned(),
                outcome: if completed {
                    "completed".to_owned()
                } else {
                    "failed".to_owned()
                },
                failed_step: copy,
                steps_total,
                steps_succeeded,
                steps_failed,
                steps_skipped,
                reason: None,
            },
        }
    }
}

// ── Running a plan ───────────────────────────────────────────────────────────

/// What became of the plan file.
#[derive(Debug, PartialEq, Eq)]
pub enum PlanLoad {
    Unreadable { path: String, error: String },
    Unparsable { error: String },
    Loaded(PlanFile),
}

/// Whether `o` is what the host reported when it was handed the steps `ready` with the results and
/// the trace lines so far.
pub open spec fn wave_reported<
    W: Fn(&PlanFile, &Vec<usize>, &Vec<StepResult>, &Vec<PlanStepRecord>) -> Vec<
        Option<StepOutcome>,
    >,
>(
    run_wave: W,
    plan: &PlanFile,
    ready: Seq<int>,
    surveyed: RunView,
    o: Seq<Option<OutcomeView>>,
) -> bool {
    exists|
        v: Vec<usize>,
        t: Vec<StepResult>,
        l: Vec<PlanStepRecord>,
        out: Vec<Option<StepOutcome>>,
    |
        {
            &&& indices(v@) == ready
            &&& plan::step_views(t@) == surveyed.results
            &&& record_views(l@) == surveyed.log
            &&& outcome_views(out@) == o
            &&& #[trigger] call_ensures(run_wave, (plan, &v, &t, &l), out)
        }
}

/// Whether the run comes to `end` when the host reports the outcomes `waves`, wave by wave.
pub open spec fn comes_to<
    W: Fn(&PlanFile, &Vec<usize>, &Vec<StepResult>, &Vec<PlanStepRecord>) -> Vec<
        Option<StepOutcome>,
    >,
>(
    run_wave: W,
    plan: &PlanFile,
    run: RunView,
    waves: Seq<Seq<Option<OutcomeView>>>,
    end: RunView,
) -> bool
    decreases waves.len(),
{
    let steps = plan::def_views(plan.steps@);
    let (surveyed, ready) = wave(plan.id@, steps, run);
    if ready.len() == 0 {
        waves.len() == 0 && end == surveyed
    } else {
        &&& waves.len() > 0
        &&& wave_reported(run_wave, plan, ready, surveyed, waves[0])
        &&& comes_to(
            run_wave,
            plan,
            absorb_wave(surveyed, plan.id@, steps, ready, waves[0], 0),
            waves.drop_first(),
            end,
        )
    }
}

proof fn lemma_comes_to_step<
    W: Fn(&PlanFile, &Vec<usize>, &Vec<StepResult>, &Vec<PlanStepRecord>) -> Vec<
        Option<StepOutcome>,
    >,
>(
    run_wave: W,
    plan: &PlanFile,
    run: RunView,
    first: Seq<Option<OutcomeView>>,
    rest: Seq<Seq<Option<OutcomeView>>>,
    end: RunView,
)
    requires
        wave(plan.id@, plan::def_views(plan.steps@), run).1.len() > 0,
        wave_reported(
            run_wave,
            plan,
            wave(plan.id@, plan::def_views(plan.steps@), run).1,
            wave(plan.id@, plan::def_views(plan.steps@), run).0,
            first,
        ),
        comes_to(
            run_wave,
            plan,
            absorb_wave(
                wave(plan.id@, plan::def_views(plan.steps@), run).0,
                plan.id@,
                plan::def_views(plan.steps@),
                wave(plan.id@, plan::def_views(plan.steps@), run).1,
                first,
                0,
            ),
            rest,
            end,
        ),
    ensures
        comes_to(run_wave, plan, run, seq![first] + rest, end),
{
    let all = seq![first] + rest;
    assert(all[0] == first);
    assert(all.drop_first() =~= rest);
}

/// A pass settles steps and unsettles none.
proof fn lemma_pass_grows(
    plan_id: Seq<char>,
    steps: Seq<plan::DefView>,
    i: int,
    run: RunView,
    ready: Seq<int>,
)
    ensures
        pass(plan_id, steps, i, run, ready).0.results.len() >= run.results.len(),
    decreases steps.len() - i,
{
    if 0 <= i < steps.len() {
        let step = steps[i];
        if settled(run.results, step.id) || !unblocked(step.depends_on, run.results) {
            lemma_pass_grows(plan_id, steps, i + 1, run, ready);
        } else {
            match condition::verdict(step.condition, run.results) {
                Ok(true) => lemma_pass_grows(plan_id, steps, i + 1, run, ready.push(i)),
                Ok(false) => {
                    lemma_put(run.results, bare(step.id, StepStatus::Skipped, None), step.id);
                    lemma_pass_grows(
                        plan_id,
                        steps,
                        i + 1,
                        settle_bare(run, plan_id, step, StepStatus::Skipped, None),
                        ready,
                    );
                },
                Err(e) => {
                    lemma_put(run.results, bare(step.id, StepStatus::Failed, Some(e)), step.id);
                },
            }
        }
    }
}

/// Where a pass ends, the steps it found ready have not settled and their dependencies all have.
proof fn lemma_pass_ready(
    plan_id: Seq<char>,
    steps: Seq<plan::DefView>,
    i: int,
    run: RunView,
    ready: Seq<int>,
)
    requires
        0 <= i <= steps.len(),
        plan::ids_of(steps).no_duplicates(),
        forall|j: int|
            0 <= j < ready.len() ==> 0 <= (#[trigger] ready[j]) < i && !settled(
                run.results,
                steps[ready[j]].id,
            ) && unblocked(steps[ready[j]].depends_on, run.results),
        forall|j: int, k: int|
            0 <= j < k < ready.len() ==> #[trigger] ready[j] < #[trigger] ready[k],
    ensures
        ({
            let (after, found) = pass(plan_id, steps, i, run, ready);
            &&& forall|j: int|
                0 <= j < found.len() ==> 0 <= (#[trigger] found[j]) < steps.len() && !settled(
                    after.results,
                    steps[found[j]].id,
                ) && unblocked(steps[found[j]].depends_on, after.results)
            &&& forall|j: int, k: int|
                0 <= j < k < found.len() ==> #[trigger] found[j] < #[trigger] found[k]
        }),
    decreases steps.len() - i,
{
    if i < steps.len() {
        let step = steps[i];
        assert(forall|j: int|
            0 <= j < i ==> #[trigger] plan::ids_of(steps)[j] != plan::ids_of(steps)[i]);
        if settled(run.results, step.id) || !unblocked(step.depends_on, run.results) {
            lemma_pass_ready(plan_id, steps, i + 1, run, ready);
        } else {
            match condition::verdict(step.condition, run.results) {
                Ok(true) => lemma_pass_ready(plan_id, steps, i + 1, run, ready.push(i)),
                Ok(false) => {
                    let next = settle_bare(run, plan_id, step, StepStatus::Skipped, None);
                    lemma_put_frame(
                        run.results,
                        bare(step.id, StepStatus::Skipped, None),
                        steps,
                        ready,
                        i,
                    );
                    lemma_pass_ready(plan_id, steps, i + 1, next, ready);
                },
                Err(e) => {
                    lemma_put_frame(
                        run.results,
                        bare(step.id, StepStatus::Failed, Some(e)),
                        steps,
                        ready,
                        i,
                    );
                },
            }
        }
    }
}

proof fn lemma_put_frame(
    results: Seq<plan::StepView>,
    r: plan::StepView,
    steps: Seq<plan::DefView>,
    ready: Seq<int>,
    i: int,
)
    requires
        0 <= i < steps.len(),
        r.id == steps[i].id,
        forall|j: int| 0 <= j < i ==> #[trigger] plan::ids_of(steps)[j] != plan::ids_of(steps)[i],
        forall|j: int|
            0 <= j < ready.len() ==> 0 <= (#[trigger] ready[j]) < i && !settled(
                results,
                steps[ready[j]].id,
            ) && unblocked(steps[ready[j]].depends_on, results),
    ensures
        forall|j: int|
            0 <= j < ready.len() ==> 0 <= (#[trigger] ready[j]) < i && !settled(
                put(results, r),
                steps[ready[j]].id,
            ) && unblocked(steps[ready[j]].depends_on, put(results, r)),
{
    assert forall|j: int| 0 <= j < ready.len() implies 0 <= (#[trigger] ready[j]) < i && !settled(
        put(results, r),
        steps[ready[j]].id,
    ) && unblocked(steps[ready[j]].depends_on, put(results, r)) by {
        let k = ready[j];
        assert(plan::ids_of(steps)[k] != plan::ids_of(steps)[i]);
        lemma_put(results, r, steps[k].id);
        let deps = steps[k].depends_on;
        assert forall|d: int| 0 <= d < deps.len() implies settled(
            put(results, r),
            #[trigger] deps[d],
        ) by {
            lemma_put(results, r, deps[d]);
        }
    }
}

/// Absorbing a wave settles its first step or stops the plan, and unsettles nothing.
proof fn lemma_absorb_wave_grows(
    run: RunView,
    plan_id: Seq<char>,
    steps: Seq<plan::DefView>,
    ready: Seq<int>,
    outcomes: Seq<Option<OutcomeView>>,
    j: int,
)
    requires
        0 <= j <= ready.len(),
    ensures
        ({
            let after = absorb_wave(run, plan_id, steps, ready, outcomes, j);
            &&& after.results.len() >= run.results.len()
            &&& j < ready.len() && run.failed is None && !settled(
                run.results,
                steps[ready[j]].id,
            ) ==> after.failed is Some || after.results.len() > run.results.len()
        }),
    decreases ready.len() - j,
{
    if j < ready.len() && run.failed is None {
        match (if j < outcomes.len() {
            outcomes[j]
        } else {
            None
        }) {
            None => {
                lemma_put(
                    run.results,
                    bare("unknown"@, StepStatus::Failed, Some("step dispatch thread panicked"@)),
                    "unknown"@,
                );
            },
            Some(o) => {
                let step = steps[ready[j]];
                let (result, _stops) = under_policy(step.on_error, reported(step.id, o));
                lemma_put(run.results, result, step.id);
                lemma_absorb_wave_grows(
                    absorb(run, plan_id, step, o),
                    plan_id,
                    steps,
                    ready,
                    outcomes,
                    j + 1,
                );
            },
        }
    }
}

/// A wave that dispatches leaves room to settle and dispatches only unsettled steps.
pub proof fn lemma_wave(plan_id: Seq<char>, steps: Seq<plan::DefView>, run: RunView)
    requires
        plan::ids_of(steps).no_duplicates(),
    ensures
        ({
            let (after, ready) = wave(plan_id, steps, run);
            &&& after.results.len() >= run.results.len()
            &&& ready.len() > 0 ==> run.failed is None && after.failed is None
                && run.results.len() < steps.len()
            &&& forall|j: int|
                0 <= j < ready.len() ==> 0 <= (#[trigger] ready[j]) < steps.len() && !settled(
                    after.results,
                    steps[ready[j]].id,
                ) && unblocked(steps[ready[j]].depends_on, after.results)
            &&& forall|j: int, k: int|
                0 <= j < k < ready.len() ==> #[trigger] ready[j] < #[trigger] ready[k]
        }),
    decreases remaining(steps, run),
{
    if run.failed is None && run.results.len() < steps.len() {
        let (after, ready) = pass(plan_id, steps, 0, run, Seq::empty());
        lemma_pass_grows(plan_id, steps, 0, run, Seq::empty());
        lemma_pass_ready(plan_id, steps, 0, run, Seq::empty());
        if after.failed is None && ready.len() == 0 {
            if after.results.len() > run.results.len() {
                lemma_wave(plan_id, steps, after);
            } else {
                match first_unsettled(steps, after.results, 0) {
                    Some(k) => {
                        lemma_put(
                            after.results,
                            bare(steps[k].id, StepStatus::Failed, Some(blocked_reason())),
                            steps[k].id,
                        );
                    },
                    None => {
                        lemma_put(
                            after.results,
                            bare("plan"@, StepStatus::Failed, Some(blocked_reason())),
                            "plan"@,
                        );
                    },
                }
            }
        }
    }
}

proof fn lemma_declared_once(
    steps: Seq<plan::DefView>,
    i: int,
    tools: Seq<Seq<char>>,
    binaries: Seq<Seq<char>>,
)
    requires
        0 <= i <= steps.len(),
        plan::declaration_fault(steps, i, tools, binaries) is None,
        plan::ids_of(steps.take(i)).no_duplicates(),
    ensures
        plan::ids_of(steps).no_duplicates(),
    decreases steps.len() - i,
{
    if i < steps.len() {
        let before = plan::ids_of(steps.take(i));
        assert(!before.contains(steps[i].id));
        let after = plan::ids_of(steps.take(i + 1));
        assert(after =~= before.push(steps[i].id));
        assert forall|a: int, b: int| 0 <= a < b < after.len() implies after[a] != after[b] by {
            if b == i {
                assert(before[a] == after[a]);
                assert(before.contains(before[a]));
            } else {
                assert(before[a] == after[a] && before[b] == after[b]);
            }
        }
        lemma_declared_once(steps, i + 1, tools, binaries);
    } else {
        assert(steps.take(i) =~= steps);
    }
}

/// No two steps of an accepted plan share an id.
pub proof fn accepted_plans_name_steps_apart(
    steps: Seq<plan::DefView>,
    tools: Seq<Seq<char>>,
    binaries: Seq<Seq<char>>,
)
    requires
        plan::plan_fault(steps, tools, binaries) is None,
    ensures
        plan::ids_of(steps).no_duplicates(),
{
    assert(plan::ids_of(steps.take(0)).no_duplicates());
    lemma_declared_once(steps, 0, tools, binaries);
}

/// Whether `r` is what becomes of a loaded plan: a refusal that names the first fault, a refusal
/// the host gave, or the report of some run of it.
pub open spec fn outcome_of_plan<
    P: Fn(&PlanFile) -> Result<(), String>,
    W: Fn(&PlanFile, &Vec<usize>, &Vec<StepResult>, &Vec<PlanStepRecord>) -> Vec<
        Option<StepOutcome>,
    >,
>(plan: &PlanFile, ctx: &SchedulerContext, prepare: P, run_wave: W, r: ExecutionView) -> bool {
    let steps = plan::def_views(plan.steps@);
    match plan::plan_fault(
        steps,
        text::texts(ctx.installed_tools@),
        text::texts(ctx.shell_allow@),
    ) {
        Some(fault) => r == refusal(plan.id@, steps.len(), fault.0, fault.1),
        None => exists|host: Result<(), String>| #[trigger]
            call_ensures(prepare, (plan,), host) && match host {
                Err(reason) => r == refusal(plan.id@, steps.len(), "plan"@, reason@),
                Ok(_) => exists|waves: Seq<Seq<Option<OutcomeView>>>, end: RunView| #[trigger]
                    comes_to(run_wave, plan, fresh(), waves, end) && r == closing(
                        plan.id@,
                        steps.len(),
                        end,
                    ),
            },
    }
}

/// Runs a plan: `prepare` readies the host once the plan has been accepted, and `run_wave` runs the
/// steps it is handed side by side and reports their outcomes in the same order, with nothing in
/// the place of a worker that vanished. It is handed the results and the trace lines so far.
pub fn execute<
    P: Fn(&PlanFile) -> Result<(), String>,
    W: Fn(&PlanFile, &Vec<usize>, &Vec<StepResult>, &Vec<PlanStepRecord>) -> Vec<
        Option<StepOutcome>,
    >,
>(load: PlanLoad, ctx: &SchedulerContext, prepare: P, run_wave: W) -> (r: Execution)
    requires
        forall|p: &PlanFile| #[trigger] call_requires(prepare, (p,)),
        forall|p: &PlanFile, v: &Vec<usize>, t: &Vec<StepResult>, l: &Vec<PlanStepRecord>| #[trigger]
            call_requires(run_wave, (p, v, t, l)),
    ensures
        match load {
            PlanLoad::Unreadable { path, error } => r@ == refusal(
                ""@,
                0,
                "plan"@,
                "failed to read plan file "@ + path@ + ": "@ + error@,
            ),
            PlanLoad::Unparsable { error } => r@ == refusal(
                ""@,
                0,
                "plan"@,
                "failed to parse plan JSON: "@ + error@,
            ),
            PlanLoad::Loaded(plan) => outcome_of_plan(&plan, ctx, prepare, run_wave, r@),
        },
{
    let plan = match load {
        PlanLoad::Unreadable { path, error } => {
            let reason = text::cat4(
                "failed to read plan file ",
                path.as_str(),
                ": ",
                error.as_str(),
            );
            return refused_before_any_step("", 0, "plan", reason);
        },
        PlanLoad::Unparsable { error } => {
            let reason = text::cat2("failed to parse plan JSON: ", error.as_str());
            return refused_before_any_step("", 0, "plan", reason);
        },
        PlanLoad::Loaded(plan) => plan,
    };
    let ghost steps = plan::def_views(plan.steps@);
    if let Err((step_id, reason)) = plan::validate_plan(&plan, ctx) {
        return refused_before_any_step(
            plan.id.as_str(),
            plan.steps.len(),
            step_id.as_str(),
            reason,
        );
    }
    proof {
        accepted_plans_name_steps_apart(
            steps,
            text::texts(ctx.installed_tools@),
            text::texts(ctx.shell_allow@),
        );
    }
    let host = prepare(&plan);
    if let Err(reason) = host {
        return refused_before_any_step(plan.id.as_str(), plan.steps.len(), "plan", reason);
    }
    let mut run = PlanRun::new();
    let ghost mut waves: Seq<Seq<Option<OutcomeView>>> = Seq::empty();
    proof {
        assert forall|rest: Seq<Seq<Option<OutcomeView>>>, end: RunView| #[trigger]
            comes_to(run_wave, &plan, run@, rest, end) implies comes_to(
            run_wave,
            &plan,
            fresh(),
            waves + rest,
            end,
        ) by {
            assert(waves + rest =~= rest);
        }
    }
    loop
        invariant_except_break
            forall|rest: Seq<Seq<Option<OutcomeView>>>, end: RunView| #[trigger]
                comes_to(run_wave, &plan, run@, rest, end) ==> comes_to(
                    run_wave,
                    &plan,
                    fresh(),
                    waves + rest,
                    end,
                ),
        invariant
            steps == plan::def_views(plan.steps@),
            plan::ids_of(steps).no_duplicates(),
            forall|p: &PlanFile, v: &Vec<usize>, t: &Vec<StepResult>, l: &Vec<PlanStepRecord>| #[trigger]
                call_requires(run_wave, (p, v, t, l)),
        ensures
            exists|end: RunView|
                comes_to(run_wave, &plan, fresh(), waves, end) && run@ == end,
        decreases
                (if run@.failed is Some {
                    0
                } else {
                    remaining(steps, run@) + 1
                }),
    {
        let ghost before = run@;
        let ready = run.next_wave(&plan);
        let ghost surveyed = run@;
        proof {
            lemma_wave(plan.id@, steps, before);
            assert(indices(ready@).len() == ready@.len());
        }
        if ready.len() == 0 {
            proof {
                let none: Seq<Seq<Option<OutcomeView>>> = Seq::empty();
                assert(comes_to(run_wave, &plan, before, none, surveyed));
                assert(waves + none =~= waves);
                assert(comes_to(run_wave, &plan, fresh(), waves, surveyed));
            }
            break ;
        }
        let outcomes = run_wave(&plan, &ready, &run.results, &run.log);
        let ghost reported_now = outcome_views(outcomes@);
        proof {
            assert(wave_reported(
                run_wave,
                &plan,
                indices(ready@),
                surveyed,
                reported_now,
            ));
        }
        run.settle_wave(&plan, &ready, outcomes);
        proof {
            lemma_absorb_wave_grows(surveyed, plan.id@, steps, indices(ready@), reported_now, 0);
            let old_waves = waves;
            waves = waves.push(reported_now);
            assert forall|rest: Seq<Seq<Option<OutcomeView>>>, end: RunView| #[trigger]
                comes_to(run_wave, &plan, run@, rest, end) implies comes_to(
                run_wave,
                &plan,
                fresh(),
                waves + rest,
                end,
            ) by {
                lemma_comes_to_step(run_wave, &plan, before, reported_now, rest, end);
                assert(comes_to(run_wave, &plan, before, seq![reported_now] + rest, end));
                assert(old_waves + (seq![reported_now] + rest) =~= waves + rest);
            }
        }
    }
    let done = run.finish(plan.id.as_str(), plan.steps.len());
    done
}

/// Every result is counted under exactly one status, and one more result counts for one more.
pub proof fn every_result_is_counted_once(results: Seq<plan::StepView>)
    ensures
        count(results, StepStatus::Success) + count(results, StepStatus::Failed) + count(
            results,
            StepStatus::Skipped,
        ) == results.len(),
        forall|r: plan::StepView, status: StepStatus|
            #[trigger] count(results.push(r), status) == count(results, status) + (if r.status
                == status {
                1int
            } else {
                0
            }),
    decreases results.len(),
{
    if results.len() > 0 {
        every_result_is_counted_once(results.drop_last());
    }
    assert forall|r: plan::StepView, status: StepStatus| #[trigger]
        count(results.push(r), status) == count(results, status) + (if r.status == status {
            1int
        } else {
            0
        }) by {
        assert(results.push(r).drop_last() =~= results);
    }
}

/// What a failure comes to is what its step declared: `fail` stops the plan, `continue` keeps the
/// failure and goes on, `skip` turns it into a skip and goes on, and any other word stops the plan.
/// A step that did not fail is left as it is.
pub proof fn a_failure_is_handled_as_declared(on_error: Seq<char>, r: plan::StepView)
    ensures
        r.status !is Failed ==> under_policy(on_error, r) == (r, false),
        r.status is Failed && on_error == "fail"@ ==> under_policy(on_error, r) == (r, true),
        r.status is Failed && on_error == "continue"@ ==> under_policy(on_error, r) == (r, false),
        r.status is Failed && on_error == "skip"@ ==> !under_policy(on_error, r).1 && under_policy(
            on_error,
            r,
        ).0.status is Skipped && under_policy(on_error, r).0.id == r.id && under_policy(
            on_error,
            r,
        ).0.error == r.error && under_policy(on_error, r).0.output is None,
        r.status is Failed && on_error != "fail"@ && on_error != "continue"@ && on_error
            != "skip"@ ==> under_policy(on_error, r).1 && under_policy(on_error, r).0.status
            is Failed,
{
    reveal_strlit("fail");
    reveal_strlit("skip");
    reveal_strlit("continue");
    assert("fail"@[0] == 'f' && "skip"@[0] == 's' && "continue"@[0] == 'c');
}

/// What a worker reports of a step is what the step settles as, the run stops exactly when the
/// policy says so, and no other step's result changes.
pub proof fn an_outcome_settles_its_step(
    run: RunView,
    plan_id: Seq<char>,
    step: plan::DefView,
    o: OutcomeView,
    other: Seq<char>,
)
    requires
        run.failed is None,
    ensures
        ({
            let after = absorb(run, plan_id, step, o);
            &&& o.status !is Failed ==> plan::result_of(after.results, step.id) == Some(
                plan::StepView { id: step.id, status: o.status, output: o.output, error: o.error },
            ) && after.failed is None
            &&& o.status is Failed ==> (after.failed is Some <==> step.on_error != "skip"@
                && step.on_error != "continue"@)
            &&& after.failed is Some ==> after.failed == Some(step.id)
            &&& other != step.id ==> plan::result_of(after.results, other) == plan::result_of(
                run.results,
                other,
            )
            &&& after.log.len() == run.log.len() + 1
            &&& after.log.last().step_id == step.id
            &&& after.log.last().attempts == o.attempts
            &&& after.log.last().duration_ms == o.duration_ms
            &&& after.log.last().input == o.input
            &&& after.log.last().state_effect == o.state_effect
            &&& after.log.last().resource_id == o.resource_id
            &&& after.log.last().plan_id == plan_id
        }),
{
    a_failure_is_handled_as_declared(step.on_error, reported(step.id, o));
    let result = under_policy(step.on_error, reported(step.id, o)).0;
    lemma_put(run.results, result, step.id);
    lemma_put(run.results, result, other);
    reveal_strlit("fail");
    reveal_strlit("skip");
    reveal_strlit("continue");
    assert("fail"@[0] == 'f' && "skip"@[0] == 's' && "continue"@[0] == 'c');
}

/// A result is found under its own id, and only there.
pub proof fn a_result_is_found_under_its_id(results: Seq<plan::StepView>, id: Seq<char>)
    ensures
        settled(results, id) <==> exists|k: int|
            0 <= k < results.len() && (#[trigger] results[k]).id == id,
        settled(results, id) ==> plan::result_of(results, id)->0.id == id,
    decreases results.len(),
{
    if results.len() > 0 && results[0].id != id {
        let rest = results.drop_first();
        a_result_is_found_under_its_id(rest, id);
        if settled(rest, id) {
            let k = choose|k: int| 0 <= k < rest.len() && (#[trigger] rest[k]).id == id;
            assert(results[k + 1].id == id);
        }
        if exists|k: int| 0 <= k < results.len() && (#[trigger] results[k]).id == id {
            let k = choose|k: int| 0 <= k < results.len() && (#[trigger] results[k]).id == id;
            assert(rest[k - 1].id == id);
        }
    } else if results.len() > 0 {
        assert(results[0].id == id);
    }
}

/// The trace line of an outcome says what its step was settled as, and why.
pub proof fn an_outcome_is_logged_as_it_is_settled(
    run: RunView,
    plan_id: Seq<char>,
    step: plan::DefView,
    o: OutcomeView,
)
    ensures
        ({
            let after = absorb(run, plan_id, step, o);
            let settled = plan::result_of(after.results, step.id);
            let line = after.log.last();
            &&& settled is Some
            &&& settled->0.id == step.id
            &&& line.status == settled->0.status
            &&& line.error == settled->0.error
            &&& line.kind == plan::kind_word(step)
            &&& after.log.drop_last() == run.log
            &&& o.status is Failed && step.on_error == "skip"@ ==> settled->0.status is Skipped
                && settled->0.output is None && settled->0.error == o.error
            &&& o.status is Failed && (step.on_error == "fail"@ || step.on_error == "continue"@)
                ==> settled->0.status is Failed && settled->0.output == o.output
                && settled->0.error == o.error
        }),
{
    let (result, _) = under_policy(step.on_error, reported(step.id, o));
    a_failure_is_handled_as_declared(step.on_error, reported(step.id, o));
    lemma_put(run.results, result, step.id);
    assert(absorb(run, plan_id, step, o).log.drop_last() =~= run.log);
}

} // verus!
