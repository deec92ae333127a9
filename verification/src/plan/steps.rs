//! One step: what is dispatched for it, what the reply makes of it, and how often it is tried.

use crate::codec;
use crate::errors;
use crate::errors::RuntimeError;
use crate::json;
use crate::json::Json;
use crate::plan;
use crate::plan::schedule::StepOutcome;
use crate::plan::{PlanFile, SchedulerContext, StepDef, StepKind, StepResult, StepStatus};
use crate::text;
use vstd::prelude::*;

verus! {

// ── The shape of a plan ──────────────────────────────────────────────────────

/// One step as the opening trace line describes it.
#[derive(Debug, PartialEq, Eq)]
pub struct PlanStepShape {
    pub step_id: String,
    pub kind: String,
    pub depends_on: Vec<String>,
    pub has_condition: bool,
}

/// What a [`PlanStepShape`] stands for.
pub struct ShapeView {
    pub step_id: Seq<char>,
    pub kind: Seq<char>,
    pub depends_on: Seq<Seq<char>>,
    pub has_condition: bool,
}

impl View for PlanStepShape {
    type V = ShapeView;

    open spec fn view(&self) -> ShapeView {
        ShapeView {
            step_id: self.step_id@,
            kind: self.kind@,
            depends_on: text::texts(self.depends_on@),
            has_condition: self.has_condition,
        }
    }
}

/// How the opening trace line describes a step.
pub open spec fn shape_of(step: plan::DefView) -> ShapeView {
    ShapeView {
        step_id: step.id,
        kind: plan::kind_word(step),
        depends_on: step.depends_on,
        has_condition: step.condition is Some,
    }
}

/// The graph as authored, for the opening trace line.
pub fn plan_shape(plan: &PlanFile) -> (r: Vec<PlanStepShape>)
    ensures
        r@.len() == plan.steps@.len(),
        forall|i: int| 0 <= i < r@.len() ==> (#[trigger] r@[i])@ == shape_of(plan.steps@[i]@),
        forall|i: int|
            0 <= i < r@.len() ==> (#[trigger] r@[i]).step_id@ == plan.steps@[i].id@ && text::texts(
                r@[i].depends_on@,
            ) == text::texts(plan.steps@[i].depends_on@) && r@[i].has_condition
                == plan.steps@[i].condition is Some && r@[i].kind@ == plan::kind_word(
                plan.steps@[i]@,
            ),
{
    let mut out: Vec<PlanStepShape> = Vec::new();
    let mut i: usize = 0;
    while i < plan.steps.len()
        invariant
            i <= plan.steps@.len(),
            out@.len() == i,
            forall|j: int| 0 <= j < i ==> (#[trigger] out@[j])@ == shape_of(plan.steps@[j]@),
        decreases plan.steps@.len() - i,
    {
        let step = &plan.steps[i];
        out.push(
            PlanStepShape {
                step_id: step.id.clone(),
                kind: plan::step_kind_name(step).to_owned(),
                depends_on: text::clone_texts(step.depends_on.as_slice()),
                has_condition: step.condition.is_some(),
            },
        );
        i += 1;
    }
    out
}

// ── What is dispatched ───────────────────────────────────────────────────────

/// What a step asks of the host.
#[derive(Debug, PartialEq, Eq)]
pub enum Dispatch {
    /// Invoke a tool with the interpolated input, given as text and, unless it is null, as a value
    /// for the trace.
    Tool { name: String, input_json: String, input: Option<Json> },
    /// Run a binary with arguments.
    Shell { binary: String, args: Vec<String> },
    /// Delegate a task to a capsule.
    Capsule { capsule: String, version: String, task: String, roost_url: String },
}

/// What a [`Dispatch`] stands for.
pub enum DispatchView {
    Tool { name: Seq<char>, input_json: Seq<char>, input: Option<json::JsonView> },
    Shell { binary: Seq<char>, args: Seq<Seq<char>> },
    Capsule { capsule: Seq<char>, version: Seq<char>, task: Seq<char>, roost_url: Seq<char> },
}

impl View for Dispatch {
    type V = DispatchView;

    open spec fn view(&self) -> DispatchView {
        match *self {
            Dispatch::Tool { name, input_json, input } => DispatchView::Tool {
                name: name@,
                input_json: input_json@,
                input: json::owned_view(input),
            },
            Dispatch::Shell { binary, args } => DispatchView::Shell {
                binary: binary@,
                args: text::texts(args@),
            },
            Dispatch::Capsule { capsule, version, task, roost_url } => DispatchView::Capsule {
                capsule: capsule@,
                version: version@,
                task: task@,
                roost_url: roost_url@,
            },
        }
    }
}

/// The version declared for `capsule`, by the first entry that names it.
pub open spec fn declared_version(versions: Seq<(String, String)>, capsule: Seq<char>) -> Option<
    Seq<char>,
>
    decreases versions.len(),
{
    if versions.len() == 0 {
        None
    } else if versions[0].0@ == capsule {
        Some(versions[0].1@)
    } else {
        declared_version(versions.drop_first(), capsule)
    }
}

/// The version a capsule is delegated to at: the declared one, else `0.1.0`.
pub open spec fn version_of(versions: Seq<(String, String)>, capsule: Seq<char>) -> Seq<char> {
    match declared_version(versions, capsule) {
        Some(v) => v,
        None => "0.1.0"@,
    }
}

/// The version a capsule is delegated to at.
fn capsule_version(ctx: &SchedulerContext, capsule: &str) -> (r: String)
    ensures
        r@ == version_of(ctx.capsule_versions@, capsule@),
{
    let ghost all = ctx.capsule_versions@;
    let mut i: usize = 0;
    proof {
        assert(all.skip(0) =~= all);
    }
    while i < ctx.capsule_versions.len()
        invariant
            i <= ctx.capsule_versions@.len(),
            all == ctx.capsule_versions@,
            declared_version(all.skip(i as int), capsule@) == declared_version(all, capsule@),
        decreases ctx.capsule_versions@.len() - i,
    {
        proof {
            assert(all.skip(i as int)[0] == all[i as int]);
            assert(all.skip(i as int).drop_first() =~= all.skip(i + 1));
        }
        if text::same(ctx.capsule_versions[i].0.as_str(), capsule) {
            return ctx.capsule_versions[i].1.clone();
        }
        i += 1;
    }
    "0.1.0".to_owned()
}

/// What a capsule step needs besides its task, in the order it is asked for.
pub open spec fn capsule_dispatch(
    capsule: Seq<char>,
    task: Seq<char>,
    ctx: SchedulerContext,
) -> Result<DispatchView, Seq<char>> {
    match text::opt_text(ctx.roost_url) {
        Some(url) => if text::trim(url).len() == 0 {
            Err("MURMUR_ROOST_URL is not set; capsule steps require mur-roost"@)
        } else if !ctx.holds_spawn_credential {
            Err(
                "this session holds no spawn credential; a capsule step requires one, and mur-roost mints it only for a session whose manifest declares capabilities.spawn.allow"@,
            )
        } else {
            Ok(
                DispatchView::Capsule {
                    capsule,
                    version: version_of(ctx.capsule_versions@, capsule),
                    task,
                    roost_url: url,
                },
            )
        },
        None => Err("MURMUR_ROOST_URL is not set; capsule steps require mur-roost"@),
    }
}

/// What one attempt of a step dispatches, or why it fails before any dispatch. The input is
/// interpolated first, whatever the kind.
pub open spec fn dispatch_of(
    step: plan::DefView,
    ctx: SchedulerContext,
    results: Seq<plan::StepView>,
) -> Result<DispatchView, Seq<char>> {
    match plan::interpolation(step.input, results) {
        Err(e) => Err(e),
        Ok(input) => match plan::kind_of(step) {
            Err(e) => Err(e),
            Ok(StepKind::Tool) => Ok(
                DispatchView::Tool {
                    name: step.tool->0,
                    input_json: json::render(input),
                    input: if input == json::JsonView::Null {
                        None
                    } else {
                        Some(input)
                    },
                },
            ),
            Ok(StepKind::Shell) => if step.shell->0.len() == 0 {
                Err("shell command is empty"@)
            } else {
                Ok(
                    DispatchView::Shell {
                        binary: step.shell->0[0],
                        args: step.shell->0.drop_first(),
                    },
                )
            },
            Ok(StepKind::Spawn) => match plan::task_text(input) {
                Err(e) => Err(e),
                Ok(task) => capsule_dispatch(step.capsule->0, task, ctx),
            },
        },
    }
}

/// The binary and the arguments of a command's words.
pub fn parse_shell_command(words: &[String]) -> (r: Option<(String, Vec<String>)>)
    ensures
        match r {
            Some(p) => words@.len() > 0 && p.0@ == words@[0]@ && text::texts(p.1@) == text::texts(
                words@,
            ).drop_first(),
            None => words@.len() == 0,
        },
        r is Some ==> (r->0).1@.len() == words@.len() - 1 && forall|j: int|
            0 <= j < words@.len() - 1 ==> (#[trigger] (r->0).1@[j])@ == words@[j + 1]@,
{
    if words.len() == 0 {
        return None;
    }
    let mut args: Vec<String> = Vec::new();
    let mut i: usize = 1;
    while i < words.len()
        invariant
            1 <= i <= words@.len(),
            args@.len() == i - 1,
            forall|j: int| 0 <= j < args@.len() ==> (#[trigger] args@[j])@ == words@[j + 1]@,
        decreases words@.len() - i,
    {
        args.push(words[i].clone());
        i += 1;
    }
    proof {
        assert(text::texts(args@) =~= text::texts(words@).drop_first());
    }
    Some((words[0].clone(), args))
}

/// What one attempt of a step dispatches, or why it fails before any dispatch.
pub fn prepare_step(step: &StepDef, ctx: &SchedulerContext, results: &[StepResult]) -> (r: Result<
    Dispatch,
    String,
>)
    ensures
        match (r, dispatch_of(step@, *ctx, plan::step_views(results@))) {
            (Ok(d), Ok(v)) => d@ == v,
            (Err(e), Err(f)) => e@ == f,
            _ => false,
        },
        r is Ok ==> plan::interpolation(step.input@, plan::step_views(results@)) is Ok,
        r matches Ok(Dispatch::Tool { name, input_json, .. }) ==> step.tool is Some && name@
            == step.tool->0@ && input_json@ == json::render(
            plan::interpolation(step.input@, plan::step_views(results@))->Ok_0,
        ),
        r matches Ok(Dispatch::Shell { binary, args }) ==> step.shell is Some
            && step.shell->0@.len() > 0 && binary@ == step.shell->0@[0]@ && args@.len()
            == step.shell->0@.len() - 1 && forall|i: int|
            0 <= i < args@.len() ==> (#[trigger] args@[i])@ == step.shell->0@[i + 1]@,
        r matches Ok(Dispatch::Capsule { capsule, task, roost_url, .. }) ==> step.capsule is Some
            && capsule@ == step.capsule->0@ && ctx.holds_spawn_credential && ctx.roost_url is Some
            && roost_url@ == ctx.roost_url->0@ && plan::task_text(
            plan::interpolation(step.input@, plan::step_views(results@))->Ok_0,
        ) == Ok::<Seq<char>, Seq<char>>(task@),
        r matches Ok(Dispatch::Capsule { version, .. }) ==> version@ == version_of(
            ctx.capsule_versions@,
            step.capsule->0@,
        ),
        r matches Ok(Dispatch::Tool { input, .. }) ==> (input is None <==> plan::interpolation(
            step.input@,
            plan::step_views(results@),
        )->Ok_0 is Null),
        plan::interpolation(step.input@, plan::step_views(results@)) is Ok && step.tool is Some
            && step.shell is None && step.capsule is None ==> r is Ok && r->Ok_0 is Tool,
        plan::interpolation(step.input@, plan::step_views(results@)) is Ok && step.tool is None
            && step.shell is Some && step.capsule is None ==> (r is Ok <==> step.shell->0@.len()
            > 0),
        plan::interpolation(step.input@, plan::step_views(results@)) is Ok && step.tool is None
            && step.shell is None && step.capsule is Some ==> (r is Ok <==> plan::task_text(
            plan::interpolation(step.input@, plan::step_views(results@))->Ok_0,
        ) is Ok && ctx.roost_url is Some && text::trim(ctx.roost_url->0@).len() > 0
            && ctx.holds_spawn_credential),
{
    let input = match plan::interpolate_value(&step.input, results) {
        Ok(input) => input,
        Err(e) => return Err(e),
    };
    match plan::infer_kind(step) {
        Err(e) => Err(e),
        Ok(StepKind::Tool) => {
            let name = match &step.tool {
                Some(name) => name.clone(),
                None => String::new(),
            };
            let input_json = json::write(&input);
            let input = match input {
                Json::Null => None,
                other => Some(other),
            };
            Ok(Dispatch::Tool { name, input_json, input })
        },
        Ok(StepKind::Shell) => match &step.shell {
            Some(words) => match parse_shell_command(words.as_slice()) {
                Some((binary, args)) => Ok(Dispatch::Shell { binary, args }),
                None => Err("shell command is empty".to_owned()),
            },
            None => Err("shell command is empty".to_owned()),
        },
        Ok(StepKind::Spawn) => {
            let capsule = match &step.capsule {
                Some(capsule) => capsule.clone(),
                None => String::new(),
            };
            let task = match plan::capsule_task_text(&input) {
                Ok(task) => task,
                Err(e) => return Err(e),
            };
            let roost_url = match &ctx.roost_url {
                Some(url) => if text::is_blank(url.as_str()) {
                    return Err(
                        "MURMUR_ROOST_URL is not set; capsule steps require mur-roost".to_owned(),
                    );
                } else {
                    url.clone()
                },
                None => return Err(
                    "MURMUR_ROOST_URL is not set; capsule steps require mur-roost".to_owned(),
                ),
            };
            if !ctx.holds_spawn_credential {
                return Err(
                    "this session holds no spawn credential; a capsule step requires one, and mur-roost mints it only for a session whose manifest declares capabilities.spawn.allow".to_owned(),
                );
            }
            let version = capsule_version(ctx, capsule.as_str());
            Ok(Dispatch::Capsule { capsule, version, task, roost_url })
        },
    }
}

// ── What a reply makes of a step ─────────────────────────────────────────────

/// What a tool answered.
#[derive(Debug, PartialEq, Eq)]
pub struct ToolReply {
    pub passed: bool,
    pub summary: Option<String>,
    pub data: Option<String>,
    pub data_path: Option<String>,
}

/// What reading the file a tool named came to: its bytes, or the refusal's code and detail.
#[derive(Debug, PartialEq, Eq)]
pub enum DataRead {
    Bytes(Vec<u8>),
    Refused { code: String, detail: String },
}

/// The verdict of an attempt: a success with an output, or a failure with an error.
pub open spec fn outcome_view(r: Result<Option<String>, String>) -> Result<
    Option<Seq<char>>,
    Seq<char>,
> {
    match r {
        Ok(o) => Ok(text::opt_text(o)),
        Err(e) => Err(e@),
    }
}

/// Whether the host has to read the file a tool named: only a tool that passed and sent no data in
/// band has its file read.
pub open spec fn needs_data_file(reply: ToolReply) -> bool {
    reply.passed && reply.data is None && reply.data_path is Some
}

/// The file the host has to read before a tool's verdict is known.
pub fn data_file(reply: &ToolReply) -> (r: Option<String>)
    ensures
        text::opt_text(r) == (if needs_data_file(*reply) {
            text::opt_text(reply.data_path)
        } else {
            None
        }),
        r is Some <==> reply.passed && reply.data is None && reply.data_path is Some,
        r is Some ==> r->0@ == reply.data_path->0@,
{
    if reply.passed && reply.data.is_none() {
        text::clone_opt(&reply.data_path)
    } else {
        None
    }
}

/// The verdict of a tool step. A tool that passed gives its in-band data, else the text of the file
/// it named, else nothing; one that did not pass fails with its summary, else its data.
pub open spec fn tool_outcome(
    tool: Seq<char>,
    reply: Result<ToolReply, String>,
    read: DataRead,
) -> Result<Option<Seq<char>>, Seq<char>> {
    match reply {
        Err(e) => Err(e@),
        Ok(r) => if r.passed {
            match (text::opt_text(r.data), text::opt_text(r.data_path)) {
                (Some(data), _) => Ok(Some(data)),
                (None, None) => Ok(None),
                (None, Some(path)) => match read {
                    DataRead::Bytes(bytes) => Ok(Some(codec::lossy_text(bytes@))),
                    DataRead::Refused { code, detail } => Err(
                        "tool '"@ + tool + "' named data_path '"@ + path + "', which was refused ("@
                            + code@ + "): "@ + detail@,
                    ),
                },
            }
        } else {
            match (text::opt_text(r.summary), text::opt_text(r.data)) {
                (Some(s), _) => Err(s),
                (None, Some(d)) => Err(d),
                (None, None) => Err("tool step failed"@),
            }
        },
    }
}

/// The verdict of a tool step. `read` is what reading [`data_file`] came to, and is looked at only
/// where there is one.
pub fn tool_verdict(tool: &str, reply: Result<ToolReply, String>, read: DataRead) -> (r: Result<
    Option<String>,
    String,
>)
    ensures
        outcome_view(r) == tool_outcome(tool@, reply, read),
        reply is Err ==> r is Err && r->Err_0@ == reply->Err_0@,
        reply is Ok && !reply->Ok_0.passed ==> r is Err,
        reply is Ok && !reply->Ok_0.passed && reply->Ok_0.summary is Some ==> r->Err_0@
            == reply->Ok_0.summary->0@,
        reply is Ok && !reply->Ok_0.passed && reply->Ok_0.summary is None && reply->Ok_0.data
            is Some ==> r->Err_0@ == reply->Ok_0.data->0@,
        reply is Ok && reply->Ok_0.passed && reply->Ok_0.data is Some ==> r is Ok && r->Ok_0 is Some
            && r->Ok_0->0@ == reply->Ok_0.data->0@,
        reply is Ok && reply->Ok_0.passed && reply->Ok_0.data is None && reply->Ok_0.data_path
            is None ==> r is Ok && r->Ok_0 is None,
        reply is Ok && reply->Ok_0.passed && reply->Ok_0.data is None && reply->Ok_0.data_path
            is Some ==> (r is Ok <==> read is Bytes) && (read is Bytes ==> r->Ok_0 is Some
            && r->Ok_0->0@ == codec::lossy_text(read->Bytes_0@)),
{
    let reply = match reply {
        Err(e) => return Err(e),
        Ok(reply) => reply,
    };
    if reply.passed {
        match (reply.data, reply.data_path) {
            (Some(data), _) => Ok(Some(data)),
            (None, None) => Ok(None),
            (None, Some(path)) => match read {
                DataRead::Bytes(bytes) => Ok(Some(codec::decode_lossy(bytes.as_slice()))),
                DataRead::Refused { code, detail } => {
                    let e = RuntimeError::ToolDataPathRefused {
                        tool: tool.to_owned(),
                        path,
                        code,
                        detail,
                    };
                    Err(e.message())
                },
            },
        }
    } else {
        match (reply.summary, reply.data) {
            (Some(s), _) => Err(s),
            (None, Some(d)) => Err(d),
            (None, None) => Err("tool step failed".to_owned()),
        }
    }
}

/// What a command came to.
#[derive(Debug, PartialEq, Eq)]
pub struct ShellReply {
    pub binary: String,
    pub exit_code: i32,
    pub stdout: String,
    pub stderr: String,
    /// The host resource limit the command was killed for exceeding.
    pub resource_limit_hit: Option<String>,
}

/// The decimal form of an integer.
pub open spec fn signed_decimal(n: int) -> Seq<char> {
    if n < 0 {
        "-"@ + text::decimal((-n) as nat)
    } else {
        text::decimal(n as nat)
    }
}

/// The decimal form of an integer.
fn signed_text(n: i32) -> (r: String)
    ensures
        r@ == signed_decimal(n as int),
{
    let wide: i64 = n as i64;
    if wide < 0 {
        text::cat2("-", text::decimal_of((-wide) as u64).as_str())
    } else {
        text::decimal_of(wide as u64)
    }
}

/// The verdict of a shell step: its output when it exits with zero, the limit's name when it was
/// killed for one, else what it wrote to standard error.
pub open spec fn shell_outcome(reply: Result<ShellReply, String>) -> Result<
    Option<Seq<char>>,
    Seq<char>,
> {
    match reply {
        Err(e) => Err(e@),
        Ok(r) => if r.exit_code == 0 {
            Ok(Some(r.stdout@))
        } else {
            match text::opt_text(r.resource_limit_hit) {
                Some(limit) => Err(
                    "shell command '"@ + r.binary@ + "' exceeded the host resource limit '"@ + limit
                        + "': "@ + (if text::trim(r.stderr@).len() == 0 {
                        "exit code "@ + signed_decimal(r.exit_code as int)
                    } else {
                        r.stderr@
                    }),
                ),
                None => Err(r.stderr@),
            }
        },
    }
}

/// The verdict of a shell step.
pub fn shell_verdict(reply: Result<ShellReply, String>) -> (r: Result<Option<String>, String>)
    ensures
        outcome_view(r) == shell_outcome(reply),
        r is Ok <==> reply is Ok && reply->Ok_0.exit_code == 0,
        r is Ok ==> r->Ok_0 is Some && r->Ok_0->0@ == reply->Ok_0.stdout@,
        reply is Err ==> r->Err_0@ == reply->Err_0@,
        r is Err && reply is Ok && reply->Ok_0.resource_limit_hit is None ==> r->Err_0@
            == reply->Ok_0.stderr@,
{
    let reply = match reply {
        Err(e) => return Err(e),
        Ok(reply) => reply,
    };
    if reply.exit_code == 0 {
        return Ok(Some(reply.stdout));
    }
    match reply.resource_limit_hit {
        Some(limit) => {
            let detail = if text::is_blank(reply.stderr.as_str()) {
                text::cat2("exit code ", signed_text(reply.exit_code).as_str())
            } else {
                reply.stderr
            };
            let e = RuntimeError::ShellResourceLimitExceeded {
                binary: reply.binary,
                limit,
                detail,
            };
            Err(e.message())
        },
        None => Err(reply.stderr),
    }
}

/// The verdict of a capsule step: the child's output, as its success or as its failure.
pub fn capsule_verdict(completed: bool, output: String) -> (r: Result<Option<String>, String>)
    ensures
        outcome_view(r) == (if completed {
            Ok(Some(output@))
        } else {
            Err(output@)
        }),
{
    if completed {
        Ok(Some(output))
    } else {
        Err(output)
    }
}

/// The outcome of one attempt that declares nothing about itself.
pub fn plain_outcome(verdict: Result<Option<String>, String>, duration_ms: u64) -> (r: StepOutcome)
    ensures
        r@.attempts == 1,
        r@.duration_ms == duration_ms,
        r@.input is None,
        r@.state_effect is None,
        r@.resource_id is None,
        match outcome_view(verdict) {
            Ok(output) => r@.status == StepStatus::Success && r@.output == output
                && r@.error is None,
            Err(e) => r@.status == StepStatus::Failed && r@.output is None && r@.error == Some(e),
        },
{
    let (status, output, error) = match verdict {
        Ok(output) => (StepStatus::Success, output, None),
        Err(e) => (StepStatus::Failed, None, Some(e)),
    };
    StepOutcome {
        status,
        output,
        error,
        attempts: 1,
        duration_ms,
        input: None,
        state_effect: None,
        resource_id: None,
    }
}

// ── Retries ──────────────────────────────────────────────────────────────────

/// How often a step is tried at most.
pub open spec fn allowed_attempts(retries: u32) -> int {
    if retries < u32::MAX {
        retries + 1
    } else {
        u32::MAX as int
    }
}

/// Whether the `n`th attempt was made and failed.
pub open spec fn attempt_failed<F: Fn(u32) -> StepOutcome>(run_once: F, n: u32) -> bool {
    exists|o: StepOutcome| #[trigger]
        call_ensures(run_once, (n,), o) && o.status == StepStatus::Failed
}

/// Tries a step until it does not fail or its attempts are used up. `run_once` is handed the
/// number of the attempt, from one on.
pub fn execute_step_with_retries<F: Fn(u32) -> StepOutcome>(retries: u32, run_once: F) -> (r:
    StepOutcome)
    requires
        forall|n: u32| #[trigger] call_requires(run_once, (n,)),
    ensures
        1 <= r.attempts <= allowed_attempts(retries),
        r.status == StepStatus::Failed ==> r.attempts == allowed_attempts(retries),
        r.attempts <= retries + 1,
        r.status == StepStatus::Failed && retries < u32::MAX ==> r.attempts == retries + 1,
        exists|o: StepOutcome| #[trigger]
            call_ensures(run_once, (r.attempts,), o) && r == (StepOutcome {
                attempts: r.attempts,
                ..o
            }),
        forall|n: u32| 1 <= n < r.attempts ==> #[trigger] attempt_failed(run_once, n),
{
    let limit: u32 = if retries < u32::MAX {
        retries + 1
    } else {
        retries
    };
    let mut attempt: u32 = 1;
    loop
        invariant
            1 <= attempt <= limit,
            limit == allowed_attempts(retries),
            forall|n: u32| #[trigger] call_requires(run_once, (n,)),
            forall|n: u32| 1 <= n < attempt ==> #[trigger] attempt_failed(run_once, n),
        decreases limit - attempt,
    {
        let o = run_once(attempt);
        if o.status != StepStatus::Failed || attempt == limit {
            return StepOutcome {
                status: o.status,
                output: o.output,
                error: o.error,
                attempts: attempt,
                duration_ms: o.duration_ms,
                input: o.input,
                state_effect: o.state_effect,
                resource_id: o.resource_id,
            };
        }
        attempt += 1;
    }
}

/// A capsule is delegated to at the version declared for it, by the first entry that names it, and
/// at `0.1.0` when none does.
pub proof fn the_declared_version_is_used(versions: Seq<(String, String)>, i: int)
    requires
        0 <= i < versions.len(),
        forall|j: int| 0 <= j < i ==> (#[trigger] versions[j]).0@ != versions[i].0@,
    ensures
        version_of(versions, versions[i].0@) == versions[i].1@,
        forall|capsule: Seq<char>|
            (forall|j: int|
                0 <= j < versions.len() ==> (#[trigger] versions[j]).0@ != capsule) ==> #[trigger]
            version_of(versions, capsule) == "0.1.0"@,
    decreases i,
{
    assert forall|capsule: Seq<char>|
        (forall|j: int|
            0 <= j < versions.len() ==> (#[trigger] versions[j]).0@ != capsule) implies #[trigger]
        version_of(versions, capsule) == "0.1.0"@ by {
        lemma_undeclared(versions, capsule);
    }
    if i > 0 {
        let rest = versions.drop_first();
        assert(versions[0].0@ != versions[i].0@);
        assert forall|j: int| 0 <= j < i - 1 implies (#[trigger] rest[j]).0@ != rest[i - 1].0@ by {
            assert(rest[j] == versions[j + 1]);
        }
        the_declared_version_is_used(rest, i - 1);
    }
}

proof fn lemma_undeclared(versions: Seq<(String, String)>, capsule: Seq<char>)
    requires
        forall|j: int| 0 <= j < versions.len() ==> (#[trigger] versions[j]).0@ != capsule,
    ensures
        declared_version(versions, capsule) is None,
    decreases versions.len(),
{
    if versions.len() > 0 {
        let rest = versions.drop_first();
        assert(versions[0].0@ != capsule);
        assert forall|j: int| 0 <= j < rest.len() implies (#[trigger] rest[j]).0@ != capsule by {
            assert(rest[j] == versions[j + 1]);
        }
        lemma_undeclared(rest, capsule);
    }
}

} // verus!
