//! The plan scheduler: a validated graph of steps, run wave by wave.

use crate::json;
use crate::json::Json;
use crate::text;
use vstd::prelude::*;

pub mod condition;
pub mod laws;
pub mod schedule;
pub mod steps;

verus! {

/// How a step settled.
#[derive(Debug, Clone, Copy, PartialEq, Eq, Structural)]
pub enum StepStatus {
    Success,
    Failed,
    Skipped,
}

impl StepStatus {
    /// The word a condition and a trace line carry for this status.
    pub open spec fn word(self) -> Seq<char> {
        match self {
            StepStatus::Success => "success"@,
            StepStatus::Failed => "failed"@,
            StepStatus::Skipped => "skipped"@,
        }
    }

    /// The word a condition and a trace line carry for this status.
    pub fn as_str(&self) -> (r: &'static str)
        ensures
            r@ == self.word(),
            self is Success ==> r@ == "success"@,
            self is Failed ==> r@ == "failed"@,
            self is Skipped ==> r@ == "skipped"@,
    {
        match self {
            StepStatus::Success => "success",
            StepStatus::Failed => "failed",
            StepStatus::Skipped => "skipped",
        }
    }
}

/// What one step settled as.
#[derive(Debug, PartialEq, Eq)]
pub struct StepResult {
    pub step_id: String,
    pub status: StepStatus,
    pub output: Option<String>,
    pub error: Option<String>,
}

/// What a [`StepResult`] stands for.
pub struct StepView {
    pub id: Seq<char>,
    pub status: StepStatus,
    pub output: Option<Seq<char>>,
    pub error: Option<Seq<char>>,
}

impl View for StepResult {
    type V = StepView;

    open spec fn view(&self) -> StepView {
        StepView {
            id: self.step_id@,
            status: self.status,
            output: text::opt_text(self.output),
            error: text::opt_text(self.error),
        }
    }
}

impl Clone for StepResult {
    fn clone(&self) -> (r: Self)
        ensures
            r@ == self@,
    {
        StepResult {
            step_id: self.step_id.clone(),
            status: self.status,
            output: text::clone_opt(&self.output),
            error: text::clone_opt(&self.error),
        }
    }
}

/// What a list of results stands for.
pub open spec fn step_views(results: Seq<StepResult>) -> Seq<StepView> {
    results.map_values(|r: StepResult| r@)
}

/// The result of the step `id`, when it has settled.
pub open spec fn result_of(results: Seq<StepView>, id: Seq<char>) -> Option<StepView>
    decreases results.len(),
{
    if results.len() == 0 {
        None
    } else if results[0].id == id {
        Some(results[0])
    } else {
        result_of(results.drop_first(), id)
    }
}

/// Where the result of the step `id` stands, when it has settled.
pub fn position_of(results: &[StepResult], id: &str) -> (r: Option<usize>)
    ensures
        match r {
            Some(i) => i < results@.len() && results@[i as int]@.id == id@ && result_of(
                step_views(results@),
                id@,
            ) == Some(results@[i as int]@) && (forall|j: int|
                0 <= j < i ==> (#[trigger] results@[j])@.id != id@),
            None => result_of(step_views(results@), id@) is None && (forall|j: int|
                0 <= j < results@.len() ==> (#[trigger] results@[j])@.id != id@),
        },
{
    let ghost all = step_views(results@);
    let mut i: usize = 0;
    proof {
        assert(all.skip(0) =~= all);
    }
    while i < results.len()
        invariant
            i <= results@.len(),
            all == step_views(results@),
            result_of(all.skip(i as int), id@) == result_of(all, id@),
            forall|j: int| 0 <= j < i ==> (#[trigger] results@[j])@.id != id@,
        decreases results@.len() - i,
    {
        proof {
            assert(all.skip(i as int)[0] == results@[i as int]@);
            assert(all.skip(i as int).drop_first() =~= all.skip(i + 1));
        }
        if text::same(results[i].step_id.as_str(), id) {
            return Some(i);
        }
        i += 1;
    }
    None
}


// ── What a plan declares ─────────────────────────────────────────────────────

/// One declared step.
#[derive(Debug, PartialEq, Eq)]
pub struct StepDef {
    pub id: String,
    /// The tool the step invokes.
    pub tool: Option<String>,
    /// The words of the command the step runs.
    pub shell: Option<Vec<String>>,
    /// The capsule the step delegates to.
    pub capsule: Option<String>,
    pub input: Json,
    pub depends_on: Vec<String>,
    /// The step's `if`.
    pub condition: Option<String>,
    pub on_error: String,
    pub retries: u32,
}

/// A plan as declared.
#[derive(Debug, PartialEq, Eq)]
pub struct PlanFile {
    pub id: String,
    pub steps: Vec<StepDef>,
}

/// What a [`StepDef`] stands for.
pub struct DefView {
    pub id: Seq<char>,
    pub tool: Option<Seq<char>>,
    pub shell: Option<Seq<Seq<char>>>,
    pub capsule: Option<Seq<char>>,
    pub input: json::JsonView,
    pub depends_on: Seq<Seq<char>>,
    pub condition: Option<Seq<char>>,
    pub on_error: Seq<char>,
    pub retries: u32,
}

impl View for StepDef {
    type V = DefView;

    open spec fn view(&self) -> DefView {
        DefView {
            id: self.id@,
            tool: text::opt_text(self.tool),
            shell: match self.shell {
                Some(words) => Some(text::texts(words@)),
                None => None,
            },
            capsule: text::opt_text(self.capsule),
            input: self.input@,
            depends_on: text::texts(self.depends_on@),
            condition: text::opt_text(self.condition),
            on_error: self.on_error@,
            retries: self.retries,
        }
    }
}

/// What a list of declared steps stands for.
pub open spec fn def_views(steps: Seq<StepDef>) -> Seq<DefView> {
    steps.map_values(|s: StepDef| s@)
}

/// What the scheduler knows of the session a plan runs in.
#[derive(Debug, PartialEq, Eq)]
pub struct SchedulerContext {
    pub workdir: String,
    /// The binaries `capabilities.shell.allow` names.
    pub shell_allow: Vec<String>,
    pub installed_tools: Vec<String>,
    /// The version each capsule is delegated to at.
    pub capsule_versions: Vec<(String, String)>,
    pub current_session_id: Option<String>,
    /// Where the delegation referee answers, when the session was told.
    pub roost_url: Option<String>,
    /// Whether the session holds the credential a `capsule` step presents.
    pub holds_spawn_credential: bool,
}

/// What a step does.
#[derive(Debug, Clone, Copy, PartialEq, Eq, Structural)]
pub enum StepKind {
    Tool,
    Shell,
    Spawn,
}

impl StepKind {
    /// The name a trace line carries for this kind.
    pub open spec fn word(self) -> Seq<char> {
        match self {
            StepKind::Tool => "tool"@,
            StepKind::Shell => "shell"@,
            StepKind::Spawn => "capsule"@,
        }
    }

    /// The name a trace line carries for this kind: the plan key its author wrote.
    pub fn as_str(self) -> (r: &'static str)
        ensures
            r@ == self.word(),
            self is Tool ==> r@ == "tool"@,
            self is Shell ==> r@ == "shell"@,
            self is Spawn ==> r@ == "capsule"@,
    {
        match self {
            StepKind::Tool => "tool",
            StepKind::Shell => "shell",
            StepKind::Spawn => "capsule",
        }
    }
}

/// The kind of a step that declares exactly one of tool, shell and capsule.
pub open spec fn kind_of(step: DefView) -> Result<StepKind, Seq<char>> {
    match (step.tool is Some, step.shell is Some, step.capsule is Some) {
        (true, false, false) => Ok(StepKind::Tool),
        (false, true, false) => Ok(StepKind::Shell),
        (false, false, true) => Ok(StepKind::Spawn),
        (false, false, false) => Err("step must declare exactly one of tool, shell, or capsule"@),
        _ => Err("step declares more than one of tool, shell, or capsule"@),
    }
}

/// The kind of a step that declares exactly one of tool, shell and capsule.
pub fn infer_kind(step: &StepDef) -> (r: Result<StepKind, String>)
    ensures
        match (r, kind_of(step@)) {
            (Ok(k), Ok(l)) => k == l,
            (Err(e), Err(f)) => e@ == f,
            _ => false,
        },
        r == Ok::<StepKind, String>(StepKind::Tool) <==> step.tool is Some && step.shell is None
            && step.capsule is None,
        r == Ok::<StepKind, String>(StepKind::Shell) <==> step.tool is None && step.shell is Some
            && step.capsule is None,
        r == Ok::<StepKind, String>(StepKind::Spawn) <==> step.tool is None && step.shell is None
            && step.capsule is Some,
{
    match (step.tool.is_some(), step.shell.is_some(), step.capsule.is_some()) {
        (true, false, false) => Ok(StepKind::Tool),
        (false, true, false) => Ok(StepKind::Shell),
        (false, false, true) => Ok(StepKind::Spawn),
        (false, false, false) => Err(
            "step must declare exactly one of tool, shell, or capsule".to_owned(),
        ),
        _ => Err("step declares more than one of tool, shell, or capsule".to_owned()),
    }
}

/// The name a step's trace lines carry for its kind.
pub open spec fn kind_word(step: DefView) -> Seq<char> {
    match kind_of(step) {
        Ok(kind) => kind.word(),
        Err(_) => "unknown"@,
    }
}

/// The name a step's trace lines carry for its kind: `"unknown"` for a step that declares none or
/// several of tool, shell and capsule.
pub fn step_kind_name(step: &StepDef) -> (r: &'static str)
    ensures
        r@ == kind_word(step@),
        step.tool is Some && step.shell is None && step.capsule is None ==> r@ == "tool"@,
        step.tool is None && step.shell is Some && step.capsule is None ==> r@ == "shell"@,
        step.tool is None && step.shell is None && step.capsule is Some ==> r@ == "capsule"@,
        !(step.tool is Some && step.shell is None && step.capsule is None) && !(step.tool is None
            && step.shell is Some && step.capsule is None) && !(step.tool is None
            && step.shell is None && step.capsule is Some) ==> r@ == "unknown"@,
{
    match infer_kind(step) {
        Ok(kind) => kind.as_str(),
        Err(_) => "unknown",
    }
}

// ── The task text of a capsule step ──────────────────────────────────────────

/// The keys of `entries` other than `"objective"`.
pub open spec fn other_keys(entries: Seq<(Seq<char>, json::JsonView)>) -> Seq<Seq<char>>
    decreases entries.len(),
{
    if entries.len() == 0 {
        Seq::empty()
    } else if entries.last().0 == "objective"@ {
        other_keys(entries.drop_last())
    } else {
        other_keys(entries.drop_last()).push(entries.last().0)
    }
}

/// The task text a capsule step hands to the child: a string verbatim, or the one text of an
/// object that holds `"objective"` and nothing else. Every other shape is refused.
pub open spec fn task_text(input: json::JsonView) -> Result<Seq<char>, Seq<char>> {
    let accepts = "capsule step input must be a string or { \"objective\": \"<text>\" }"@;
    match input {
        json::JsonView::Text(s) => Ok(s),
        json::JsonView::Object(entries) => if other_keys(entries).len() > 0 {
            Err(
                "capsule step input has keys the child cannot receive: "@ + text::join(
                    text::ordered(other_keys(entries)),
                    ", "@,
                )
                    + "; nothing on the receiving side parses a task envelope, so put the whole instruction in \"objective\""@,
            )
        } else {
            match json::entry_in(entries, "objective"@) {
                Some(json::JsonView::Text(s)) => Ok(s),
                Some(_) => Err("capsule step input \"objective\" must be a string"@),
                None => Err(accepts),
            }
        },
        json::JsonView::Null => Err(
            "capsule step has no input; its input is the task text the child receives, given as a string or as { \"objective\": \"<text>\" }"@,
        ),
        json::JsonView::Bool(_) => Err(accepts + ", not a boolean"@),
        json::JsonView::Number(_) => Err(accepts + ", not a number"@),
        json::JsonView::Array(_) => Err(accepts + ", not an array"@),
    }
}

/// The keys of an object's entries other than `"objective"`.
fn unaccepted_keys(entries: &[(String, Json)]) -> (r: Vec<String>)
    ensures
        text::texts(r@) == other_keys(json::entry_views(entries@)),
{
    let mut out: Vec<String> = Vec::new();
    let ghost all = json::entry_views(entries@);
    let mut i: usize = 0;
    proof {
        assert(text::texts(out@) =~= other_keys(all.take(0)));
    }
    while i < entries.len()
        invariant
            i <= entries@.len(),
            all == json::entry_views(entries@),
            text::texts(out@) == other_keys(all.take(i as int)),
        decreases entries@.len() - i,
    {
        let ghost before = text::texts(out@);
        proof {
            assert(all.take(i + 1).drop_last() =~= all.take(i as int));
            assert(all.take(i + 1).last().0 == entries@[i as int].0@);
        }
        if !text::same(entries[i].0.as_str(), "objective") {
            out.push(entries[i].0.clone());
            proof {
                assert(text::texts(out@) =~= before.push(entries@[i as int].0@));
            }
        }
        i += 1;
    }
    proof {
        assert(all.take(all.len() as int) =~= all);
    }
    out
}

/// The task text a capsule step hands to the child capsule, or the reason its input cannot become
/// task text.
pub fn capsule_task_text(input: &Json) -> (r: Result<String, String>)
    ensures
        text::result_text(r) == task_text(input@),
        input is Text ==> r is Ok && r->Ok_0@ == input->Text_0@,
        r is Ok && input is Object ==> json::text_entry(input@, "objective"@) == Some(r->Ok_0@)
            && forall|i: int|
            0 <= i < input->Object_0@.len() ==> (#[trigger] input->Object_0@[i]).0@ == "objective"@,
        r is Ok ==> input is Text || input is Object,
        input is Object && json::text_entry(input@, "objective"@) is Some && (forall|i: int|
            0 <= i < input->Object_0@.len() ==> (#[trigger] input->Object_0@[i]).0@
                == "objective"@) ==> r is Ok,
{
    proof {
        if input is Object {
            let views = json::entry_views(input->Object_0@);
            if forall|i: int|
                0 <= i < input->Object_0@.len() ==> (#[trigger] input->Object_0@[i]).0@
                    == "objective"@ {
                assert forall|i: int| 0 <= i < views.len() implies (#[trigger] views[i]).0
                    == "objective"@ by {
                    assert(views[i].0 == input->Object_0@[i].0@);
                }
                lemma_no_other_key(views);
            }
            if other_keys(views).len() == 0 {
                lemma_only_objective(views);
                assert forall|i: int| 0 <= i < input->Object_0@.len() implies (
                #[trigger] input->Object_0@[i]).0@ == "objective"@ by {
                    assert(views[i].0 == "objective"@);
                }
            }
        }
    }
    match input {
        Json::Text(s) => Ok(s.clone()),
        Json::Object(entries) => {
            let unknown = unaccepted_keys(entries.as_slice());
            if unknown.len() > 0 {
                let listed = text::in_order(unknown.as_slice());
                return Err(
                    text::cat3(
                        "capsule step input has keys the child cannot receive: ",
                        text::joined(listed.as_slice(), ", ").as_str(),
                        "; nothing on the receiving side parses a task envelope, so put the whole instruction in \"objective\"",
                    ),
                );
            }
            match json::get(input, "objective") {
                Some(Json::Text(s)) => Ok(s.clone()),
                Some(_) => Err("capsule step input \"objective\" must be a string".to_owned()),
                None => Err(
                    "capsule step input must be a string or { \"objective\": \"<text>\" }".to_owned(),
                ),
            }
        },
        Json::Null => Err(
            "capsule step has no input; its input is the task text the child receives, given as a string or as { \"objective\": \"<text>\" }".to_owned(),
        ),
        Json::Bool(_) => Err(not_accepted(", not a boolean")),
        Json::Number(_) => Err(not_accepted(", not a number")),
        Json::Array(_) => Err(not_accepted(", not an array")),
    }
}

fn not_accepted(what: &str) -> (r: String)
    ensures
        r@ == "capsule step input must be a string or { \"objective\": \"<text>\" }"@ + what@,
{
    text::cat2("capsule step input must be a string or { \"objective\": \"<text>\" }", what)
}

// ── References ───────────────────────────────────────────────────────────────

/// The texts inside a value that begin with `$`, in order.
pub open spec fn references(value: json::JsonView) -> Seq<Seq<char>>
    decreases value,
{
    match value {
        json::JsonView::Text(s) => if text::begins(s, '$') {
            seq![s]
        } else {
            Seq::empty()
        },
        json::JsonView::Array(items) => item_references(items),
        json::JsonView::Object(entries) => entry_references(entries),
        _ => Seq::empty(),
    }
}

/// The references inside the items of an array.
pub open spec fn item_references(items: Seq<json::JsonView>) -> Seq<Seq<char>>
    decreases items,
{
    if items.len() == 0 {
        Seq::empty()
    } else {
        item_references(items.drop_last()) + references(items.last())
    }
}

/// The references inside the entries of an object.
pub open spec fn entry_references(entries: Seq<(Seq<char>, json::JsonView)>) -> Seq<Seq<char>>
    decreases entries,
{
    if entries.len() == 0 {
        Seq::empty()
    } else {
        entry_references(entries.drop_last()) + references(entries.last().1)
    }
}

/// Appends the texts inside `value` that begin with `$`, in order.
pub fn collect_references(value: &Json, out: &mut Vec<String>)
    ensures
        text::texts(final(out)@) == text::texts(old(out)@) + references(value@),
    decreases value,
{
    let ghost before = text::texts(out@);
    match value {
        Json::Text(s) => {
            if text::begins_with(s.as_str(), '$') {
                out.push(s.clone());
                proof {
                    assert(text::texts(out@) =~= before + seq![s@]);
                }
            } else {
                proof {
                    assert(text::texts(out@) =~= before + references(value@));
                }
            }
        },
        Json::Array(items) => {
            let ghost all = json::item_views(items@);
            let mut i: usize = 0;
            proof {
                assert(text::texts(out@) =~= before + item_references(all.take(0)));
            }
            while i < items.len()
                invariant
                    i <= items@.len(),
                    all == json::item_views(items@),
                    *value == Json::Array(*items),
                    text::texts(out@) == before + item_references(all.take(i as int)),
                decreases items@.len() - i,
            {
                proof {
                    assert(all.take(i + 1).drop_last() =~= all.take(i as int));
                    assert(all.take(i + 1).last() == items@[i as int]@);
                    assert(decreases_to!(value => value->Array_0));
                    assert(decreases_to!(items => items@));
                    assert(decreases_to!(items@ => items@[i as int]));
                }
                collect_references(&items[i], out);
                proof {
                    assert(text::texts(out@) =~= before + item_references(all.take(i + 1)));
                }
                i += 1;
            }
            proof {
                assert(all.take(all.len() as int) =~= all);
            }
        },
        Json::Object(entries) => {
            let ghost all = json::entry_views(entries@);
            let mut i: usize = 0;
            proof {
                assert(text::texts(out@) =~= before + entry_references(all.take(0)));
            }
            while i < entries.len()
                invariant
                    i <= entries@.len(),
                    all == json::entry_views(entries@),
                    *value == Json::Object(*entries),
                    text::texts(out@) == before + entry_references(all.take(i as int)),
                decreases entries@.len() - i,
            {
                proof {
                    assert(all.take(i + 1).drop_last() =~= all.take(i as int));
                    assert(all.take(i + 1).last().1 == entries@[i as int].1@);
                    assert(decreases_to!(value => value->Object_0));
                    assert(decreases_to!(entries => entries@));
                    assert(decreases_to!(entries@ => entries@[i as int]));
                    assert(decreases_to!(entries@[i as int] => entries@[i as int].1));
                }
                collect_references(&entries[i].1, out);
                proof {
                    assert(text::texts(out@) =~= before + entry_references(all.take(i + 1)));
                }
                i += 1;
            }
            proof {
                assert(all.take(all.len() as int) =~= all);
            }
        },
        _ => {
            proof {
                assert(text::texts(out@) =~= before + references(value@));
            }
        },
    }
}

/// A value with every text that begins with `$` replaced by what it refers to; the first reference
/// that cannot be read fails the whole.
pub open spec fn interpolation(
    value: json::JsonView,
    results: Seq<StepView>,
) -> Result<json::JsonView, Seq<char>>
    decreases value,
{
    match value {
        json::JsonView::Text(s) => if text::begins(s, '$') {
            match condition::reference_value(s, results) {
                Ok(v) => Ok(json::JsonView::Text(v)),
                Err(e) => Err(e),
            }
        } else {
            Ok(value)
        },
        json::JsonView::Array(items) => match item_interpolation(items, results) {
            Ok(done) => Ok(json::JsonView::Array(done)),
            Err(e) => Err(e),
        },
        json::JsonView::Object(entries) => match entry_interpolation(entries, results) {
            Ok(done) => Ok(json::JsonView::Object(done)),
            Err(e) => Err(e),
        },
        _ => Ok(value),
    }
}

/// The interpolation of the items of an array.
pub open spec fn item_interpolation(
    items: Seq<json::JsonView>,
    results: Seq<StepView>,
) -> Result<Seq<json::JsonView>, Seq<char>>
    decreases items,
{
    if items.len() == 0 {
        Ok(Seq::empty())
    } else {
        match item_interpolation(items.drop_last(), results) {
            Err(e) => Err(e),
            Ok(done) => match interpolation(items.last(), results) {
                Err(e) => Err(e),
                Ok(v) => Ok(done.push(v)),
            },
        }
    }
}

/// The interpolation of the entries of an object; keys stay as they are.
pub open spec fn entry_interpolation(
    entries: Seq<(Seq<char>, json::JsonView)>,
    results: Seq<StepView>,
) -> Result<Seq<(Seq<char>, json::JsonView)>, Seq<char>>
    decreases entries,
{
    if entries.len() == 0 {
        Ok(Seq::empty())
    } else {
        match entry_interpolation(entries.drop_last(), results) {
            Err(e) => Err(e),
            Ok(done) => match interpolation(entries.last().1, results) {
                Err(e) => Err(e),
                Ok(v) => Ok(done.push((entries.last().0, v))),
            },
        }
    }
}

proof fn lemma_item_interpolation_stops(
    items: Seq<json::JsonView>,
    results: Seq<StepView>,
    n: int,
)
    requires
        0 <= n <= items.len(),
        item_interpolation(items.take(n), results) is Err,
    ensures
        item_interpolation(items, results) == item_interpolation(items.take(n), results),
    decreases items.len() - n,
{
    if n < items.len() {
        assert(items.take(n + 1).drop_last() =~= items.take(n));
        lemma_item_interpolation_stops(items, results, n + 1);
    } else {
        assert(items.take(n) =~= items);
    }
}

proof fn lemma_entry_interpolation_stops(
    entries: Seq<(Seq<char>, json::JsonView)>,
    results: Seq<StepView>,
    n: int,
)
    requires
        0 <= n <= entries.len(),
        entry_interpolation(entries.take(n), results) is Err,
    ensures
        entry_interpolation(entries, results) == entry_interpolation(entries.take(n), results),
    decreases entries.len() - n,
{
    if n < entries.len() {
        assert(entries.take(n + 1).drop_last() =~= entries.take(n));
        lemma_entry_interpolation_stops(entries, results, n + 1);
    } else {
        assert(entries.take(n) =~= entries);
    }
}

/// A copy of `value` with every text that begins with `$` replaced by what it refers to.
pub fn interpolate_value(value: &Json, results: &[StepResult]) -> (r: Result<Json, String>)
    ensures
        match (r, interpolation(value@, step_views(results@))) {
            (Ok(j), Ok(v)) => j@ == v,
            (Err(e), Err(f)) => e@ == f,
            _ => false,
        },
    decreases value,
{
    let ghost table = step_views(results@);
    match value {
        Json::Text(s) => if text::begins_with(s.as_str(), '$') {
            match condition::resolve_reference(s.as_str(), results) {
                Ok(v) => Ok(Json::Text(v)),
                Err(e) => Err(e),
            }
        } else {
            Ok(Json::Text(s.clone()))
        },
        Json::Array(items) => {
            let mut out: Vec<Json> = Vec::new();
            let ghost all = json::item_views(items@);
            let mut i: usize = 0;
            proof {
                assert(json::item_views(out@) =~= Seq::empty());
            }
            while i < items.len()
                invariant
                    i <= items@.len(),
                    all == json::item_views(items@),
                    *value == Json::Array(*items),
                    table == step_views(results@),
                    item_interpolation(all.take(i as int), table) == Ok::<_, Seq<char>>(
                        json::item_views(out@),
                    ),
                decreases items@.len() - i,
            {
                let ghost before = json::item_views(out@);
                proof {
                    assert(all.take(i + 1).drop_last() =~= all.take(i as int));
                    assert(all.take(i + 1).last() == items@[i as int]@);
                    assert(decreases_to!(value => value->Array_0));
                    assert(decreases_to!(items => items@));
                    assert(decreases_to!(items@ => items@[i as int]));
                }
                match interpolate_value(&items[i], results) {
                    Ok(v) => {
                        out.push(v);
                        proof {
                            assert(json::item_views(out@) =~= before.push(v@));
                        }
                    },
                    Err(e) => {
                        proof {
                            lemma_item_interpolation_stops(all, table, i + 1);
                        }
                        return Err(e);
                    },
                }
                i += 1;
            }
            proof {
                assert(all.take(all.len() as int) =~= all);
            }
            Ok(Json::Array(out))
        },
        Json::Object(entries) => {
            let mut out: Vec<(String, Json)> = Vec::new();
            let ghost all = json::entry_views(entries@);
            let mut i: usize = 0;
            proof {
                assert(json::entry_views(out@) =~= Seq::empty());
            }
            while i < entries.len()
                invariant
                    i <= entries@.len(),
                    all == json::entry_views(entries@),
                    *value == Json::Object(*entries),
                    table == step_views(results@),
                    entry_interpolation(all.take(i as int), table) == Ok::<_, Seq<char>>(
                        json::entry_views(out@),
                    ),
                decreases entries@.len() - i,
            {
                let ghost before = json::entry_views(out@);
                proof {
                    assert(all.take(i + 1).drop_last() =~= all.take(i as int));
                    assert(all.take(i + 1).last() == (
                        entries@[i as int].0@,
                        entries@[i as int].1@,
                    ));
                    assert(decreases_to!(value => value->Object_0));
                    assert(decreases_to!(entries => entries@));
                    assert(decreases_to!(entries@ => entries@[i as int]));
                    assert(decreases_to!(entries@[i as int] => entries@[i as int].1));
                }
                match interpolate_value(&entries[i].1, results) {
                    Ok(v) => {
                        let ghost done = v@;
                        out.push((entries[i].0.clone(), v));
                        proof {
                            assert(json::entry_views(out@) =~= before.push(
                                (entries@[i as int].0@, done),
                            ));
                        }
                    },
                    Err(e) => {
                        proof {
                            lemma_entry_interpolation_stops(all, table, i + 1);
                        }
                        return Err(e);
                    },
                }
                i += 1;
            }
            proof {
                assert(all.take(all.len() as int) =~= all);
            }
            Ok(Json::Object(out))
        },
        Json::Null => Ok(Json::Null),
        Json::Bool(b) => Ok(Json::Bool(*b)),
        Json::Number(n) => Ok(Json::Number(json::clone_number(n))),
    }
}


/// Interpolation replaces a text with a text, so an input that can become task text still can
/// after it.
pub proof fn interpolation_keeps_the_task_shape(input: json::JsonView, results: Seq<StepView>)
    requires
        task_text(input) is Ok,
        interpolation(input, results) is Ok,
    ensures
        task_text(interpolation(input, results)->Ok_0) is Ok,
{
    match input {
        json::JsonView::Object(entries) => {
            lemma_only_objective(entries);
            let done = entry_interpolation(entries, results)->Ok_0;
            lemma_entry_interpolation_keys(entries, results);
            assert(interpolation(input, results)->Ok_0 == json::JsonView::Object(done));
            lemma_other_keys_of_same_keys(entries, done);
            lemma_entry_interpolation_at(entries, results, 0);
            assert(json::entry_in(entries, "objective"@) == Some(entries[0].1));
            assert(json::entry_in(done, "objective"@) == Some(done[0].1));
        },
        _ => {},
    }
}

proof fn lemma_only_objective(entries: Seq<(Seq<char>, json::JsonView)>)
    requires
        other_keys(entries).len() == 0,
    ensures
        forall|i: int| 0 <= i < entries.len() ==> (#[trigger] entries[i]).0 == "objective"@,
    decreases entries.len(),
{
    if entries.len() > 0 {
        lemma_only_objective(entries.drop_last());
        assert forall|i: int| 0 <= i < entries.len() implies (#[trigger] entries[i]).0
            == "objective"@ by {
            if i < entries.len() - 1 {
                assert(entries.drop_last()[i] == entries[i]);
            }
        }
    }
}

proof fn lemma_other_keys_of_same_keys(
    a: Seq<(Seq<char>, json::JsonView)>,
    b: Seq<(Seq<char>, json::JsonView)>,
)
    requires
        a.len() == b.len(),
        forall|i: int| 0 <= i < a.len() ==> (#[trigger] a[i]).0 == b[i].0,
    ensures
        other_keys(a) == other_keys(b),
    decreases a.len(),
{
    if a.len() > 0 {
        assert forall|i: int| 0 <= i < a.len() - 1 implies (#[trigger] a.drop_last()[i]).0
            == b.drop_last()[i].0 by {
            assert(a[i].0 == b[i].0);
        }
        assert(a[a.len() - 1].0 == b[b.len() - 1].0);
        lemma_other_keys_of_same_keys(a.drop_last(), b.drop_last());
    }
}

proof fn lemma_entry_interpolation_keys(
    entries: Seq<(Seq<char>, json::JsonView)>,
    results: Seq<StepView>,
)
    requires
        entry_interpolation(entries, results) is Ok,
    ensures
        entry_interpolation(entries, results)->Ok_0.len() == entries.len(),
        forall|i: int|
            0 <= i < entries.len() ==> (#[trigger] entries[i]).0 == entry_interpolation(
                entries,
                results,
            )->Ok_0[i].0,
    decreases entries.len(),
{
    if entries.len() > 0 {
        lemma_entry_interpolation_keys(entries.drop_last(), results);
        let done = entry_interpolation(entries.drop_last(), results)->Ok_0;
        assert forall|i: int| 0 <= i < entries.len() implies (#[trigger] entries[i]).0
            == entry_interpolation(entries, results)->Ok_0[i].0 by {
            if i < entries.len() - 1 {
                assert(entries.drop_last()[i].0 == done[i].0);
            }
        }
    }
}

proof fn lemma_entry_interpolation_at(
    entries: Seq<(Seq<char>, json::JsonView)>,
    results: Seq<StepView>,
    at: int,
)
    requires
        0 <= at < entries.len(),
        entry_interpolation(entries, results) is Ok,
    ensures
        entry_interpolation(entries, results)->Ok_0.len() == entries.len(),
        interpolation(entries[at].1, results) is Ok,
        entry_interpolation(entries, results)->Ok_0[at].1 == interpolation(
            entries[at].1,
            results,
        )->Ok_0,
    decreases entries.len(),
{
    lemma_entry_interpolation_keys(entries, results);
    if at < entries.len() - 1 {
        assert(entries.drop_last()[at] == entries[at]);
        lemma_entry_interpolation_at(entries.drop_last(), results, at);
    } else {
        lemma_entry_interpolation_keys(entries.drop_last(), results);
    }
}

// ── Validation ───────────────────────────────────────────────────────────────

/// The step and the field a `$step.field` reference names.
pub open spec fn reference_parts(reference: Seq<char>) -> Option<(Seq<char>, Seq<char>)> {
    if !text::begins(reference, '$') {
        None
    } else {
        let name = reference.drop_first();
        match name.index_of_last('.') {
            None => None,
            Some(dot) => Some((name.take(dot), name.skip(dot + 1))),
        }
    }
}

/// The step and the field a `$step.field` reference names.
pub fn parse_reference(reference: &str) -> (r: Option<(String, String)>)
    ensures
        match (r, reference_parts(reference@)) {
            (Some(p), Some(q)) => p.0@ == q.0 && p.1@ == q.1,
            (None, None) => true,
            _ => false,
        },
{
    let s = text::chars_of(reference);
    if s.len() == 0 || s[0] != '$' {
        return None;
    }
    let n = text::chars_of(text::slice_text(&s, 1, s.len()).as_str());
    proof {
        assert(n@ =~= reference@.drop_first());
        n@.index_of_last_ensures('.');
    }
    match text::find_last(&n, '.') {
        None => None,
        Some(dot) => {
            let step_id = text::slice_text(&n, 0, dot);
            let field = text::slice_text(&n, dot + 1, n.len());
            proof {
                assert(step_id@ =~= n@.take(dot as int));
                assert(field@ =~= n@.skip(dot + 1));
            }
            Some((step_id, field))
        },
    }
}

/// Whether `c` is a parenthesis.
pub open spec fn is_paren(c: char) -> bool {
    c == '(' || c == ')'
}

/// `s` without the parentheses at its end.
pub open spec fn without_closing(s: Seq<char>) -> Seq<char>
    decreases s.len(),
{
    if s.len() > 0 && is_paren(s.last()) {
        without_closing(s.drop_last())
    } else {
        s
    }
}

/// `s` without the parentheses at either end.
pub open spec fn without_parens(s: Seq<char>) -> Seq<char> {
    without_closing(s.skip(text::run(s, |c: char| is_paren(c)) as int))
}

/// `s` without the parentheses at either end.
fn trim_parens(s: &str) -> (r: String)
    ensures
        r@ == without_parens(s@),
{
    let chars = text::chars_of(s);
    let mut from: usize = 0;
    while from < chars.len() && (chars[from] == '(' || chars[from] == ')')
        invariant
            from <= chars@.len(),
            forall|j: int| 0 <= j < from ==> is_paren(#[trigger] chars@[j]),
        decreases chars@.len() - from,
    {
        from += 1;
    }
    proof {
        text::lemma_run_is(chars@, |c: char| is_paren(c), from as nat);
    }
    let ghost t = chars@.skip(from as int);
    let mut to: usize = chars.len();
    proof {
        assert(chars@.subrange(from as int, to as int) =~= t);
    }
    while to > from && (chars[to - 1] == '(' || chars[to - 1] == ')')
        invariant
            from <= to <= chars@.len(),
            without_closing(chars@.subrange(from as int, to as int)) == without_closing(t),
        decreases to,
    {
        proof {
            assert(chars@.subrange(from as int, to as int).drop_last() =~= chars@.subrange(
                from as int,
                to - 1,
            ));
        }
        to -= 1;
    }
    text::slice_text(&chars, from, to)
}

/// The references among the words of a condition, parentheses around them left out.
pub open spec fn condition_references(words: Seq<Seq<char>>) -> Seq<Seq<char>>
    decreases words.len(),
{
    if words.len() == 0 {
        Seq::empty()
    } else if text::begins(words.last(), '$') {
        condition_references(words.drop_last()).push(without_parens(words.last()))
    } else {
        condition_references(words.drop_last())
    }
}

/// Every reference a step makes: those of its input, then those of its condition.
pub open spec fn step_references(step: DefView) -> Seq<Seq<char>> {
    references(step.input) + match step.condition {
        Some(c) => condition_references(text::words(c)),
        None => Seq::empty(),
    }
}

/// Every reference a step makes.
fn references_of(step: &StepDef) -> (r: Vec<String>)
    ensures
        text::texts(r@) == step_references(step@),
{
    let mut out: Vec<String> = Vec::new();
    collect_references(&step.input, &mut out);
    let ghost first = references(step.input@);
    proof {
        assert(text::texts(out@) =~= first);
    }
    match &step.condition {
        Some(c) => {
            let words = text::split_words(c.as_str());
            let ghost all = text::words(c@);
            let mut i: usize = 0;
            proof {
                assert(text::texts(out@) =~= first + condition_references(all.take(0)));
            }
            while i < words.len()
                invariant
                    i <= words@.len(),
                    text::texts(words@) == all,
                    text::texts(out@) == first + condition_references(all.take(i as int)),
                decreases words@.len() - i,
            {
                let ghost before = text::texts(out@);
                proof {
                    assert(all.take(i + 1).drop_last() =~= all.take(i as int));
                    assert(all.take(i + 1).last() == words@[i as int]@);
                }
                if text::begins_with(words[i].as_str(), '$') {
                    let name = trim_parens(words[i].as_str());
                    out.push(name);
                    proof {
                        assert(text::texts(out@) =~= before.push(name@));
                        assert(before.push(name@) =~= first + condition_references(
                            all.take(i as int),
                        ).push(name@));
                    }
                }
                i += 1;
            }
            proof {
                assert(all.take(all.len() as int) =~= all);
            }
        },
        None => {
            proof {
                assert(first + Seq::<Seq<char>>::empty() =~= first);
            }
        },
    }
    out
}

/// What is wrong with the first bad reference of `refs`: a step that no plan step is, or a field
/// other than output and status. A text that is no reference at all is passed over.
pub open spec fn reference_fault(refs: Seq<Seq<char>>, ids: Seq<Seq<char>>) -> Option<Seq<char>>
    decreases refs.len(),
{
    if refs.len() == 0 {
        None
    } else {
        match reference_parts(refs[0]) {
            None => reference_fault(refs.drop_first(), ids),
            Some(p) => if !ids.contains(p.0) {
                Some("unknown reference '"@ + refs[0] + "'"@)
            } else if p.1 != "output"@ && p.1 != "status"@ {
                Some("unknown reference field '"@ + p.1 + "'"@)
            } else {
                reference_fault(refs.drop_first(), ids)
            },
        }
    }
}

/// What is wrong with the first dependency of `deps` that no plan step is.
pub open spec fn dependency_fault(deps: Seq<Seq<char>>, ids: Seq<Seq<char>>) -> Option<Seq<char>>
    decreases deps.len(),
{
    if deps.len() == 0 {
        None
    } else if !ids.contains(deps[0]) {
        Some("unknown dependency '"@ + deps[0] + "'"@)
    } else {
        dependency_fault(deps.drop_first(), ids)
    }
}

/// What is wrong with what a step names: its dependencies first, then its references.
pub open spec fn link_fault(step: DefView, ids: Seq<Seq<char>>) -> Option<Seq<char>> {
    match dependency_fault(step.depends_on, ids) {
        Some(e) => Some(e),
        None => reference_fault(step_references(step), ids),
    }
}

/// What is wrong with a step's own declaration: a repeated id, then its kind, then what that kind
/// needs, then its `on_error`.
pub open spec fn step_fault(
    step: DefView,
    earlier: Seq<Seq<char>>,
    tools: Seq<Seq<char>>,
    binaries: Seq<Seq<char>>,
) -> Option<Seq<char>> {
    let policy = if step.on_error == "fail"@ || step.on_error == "skip"@ || step.on_error
        == "continue"@ {
        None
    } else {
        Some("invalid on_error policy '"@ + step.on_error + "'"@)
    };
    if earlier.contains(step.id) {
        Some("duplicate step id '"@ + step.id + "'"@)
    } else {
        match kind_of(step) {
            Err(e) => Some(e),
            Ok(StepKind::Tool) => if !tools.contains(step.tool->0) {
                Some("tool '"@ + step.tool->0 + "' is not installed"@)
            } else {
                policy
            },
            Ok(StepKind::Shell) => if step.shell->0.len() == 0 {
                Some("shell command is empty"@)
            } else if !binaries.contains(step.shell->0[0]) {
                Some("binary '"@ + step.shell->0[0] + "' is not in capabilities.shell.allow"@)
            } else {
                policy
            },
            Ok(StepKind::Spawn) => match task_text(step.input) {
                Err(e) => Some(e),
                Ok(_) => policy,
            },
        }
    }
}

/// The ids of the steps, in order.
pub open spec fn ids_of(steps: Seq<DefView>) -> Seq<Seq<char>> {
    steps.map_values(|s: DefView| s.id)
}

/// The first step from `i` on whose own declaration is wrong, and what is wrong with it.
pub open spec fn declaration_fault(
    steps: Seq<DefView>,
    i: int,
    tools: Seq<Seq<char>>,
    binaries: Seq<Seq<char>>,
) -> Option<(Seq<char>, Seq<char>)>
    decreases steps.len() - i,
{
    if i < 0 || i >= steps.len() {
        None
    } else {
        match step_fault(steps[i], ids_of(steps.take(i)), tools, binaries) {
            Some(e) => Some((steps[i].id, e)),
            None => declaration_fault(steps, i + 1, tools, binaries),
        }
    }
}

/// The first step from `i` on that names something no plan step is, and what is wrong with it.
pub open spec fn linkage_fault(steps: Seq<DefView>, i: int, ids: Seq<Seq<char>>) -> Option<
    (Seq<char>, Seq<char>),
>
    decreases steps.len() - i,
{
    if i < 0 || i >= steps.len() {
        None
    } else {
        match link_fault(steps[i], ids) {
            Some(e) => Some((steps[i].id, e)),
            None => linkage_fault(steps, i + 1, ids),
        }
    }
}

/// The first fault of a plan: every declaration is read before any link between steps.
pub open spec fn plan_fault(
    steps: Seq<DefView>,
    tools: Seq<Seq<char>>,
    binaries: Seq<Seq<char>>,
) -> Option<(Seq<char>, Seq<char>)> {
    match declaration_fault(steps, 0, tools, binaries) {
        Some(f) => Some(f),
        None => linkage_fault(steps, 0, ids_of(steps)),
    }
}

/// What is wrong with a step's own declaration.
fn check_step(step: &StepDef, earlier: &[String], ctx: &SchedulerContext) -> (r: Option<String>)
    ensures
        text::opt_text(r) == step_fault(
            step@,
            text::texts(earlier@),
            text::texts(ctx.installed_tools@),
            text::texts(ctx.shell_allow@),
        ),
{
    if text::list_contains(earlier, step.id.as_str()) {
        return Some(text::cat3("duplicate step id '", step.id.as_str(), "'"));
    }
    match infer_kind(step) {
        Err(e) => return Some(e),
        Ok(StepKind::Tool) => if let Some(tool) = &step.tool {
            if !text::list_contains(ctx.installed_tools.as_slice(), tool.as_str()) {
                return Some(text::cat3("tool '", tool.as_str(), "' is not installed"));
            }
        },
        Ok(StepKind::Shell) => if let Some(words) = &step.shell {
            if words.len() == 0 {
                return Some("shell command is empty".to_owned());
            }
            if !text::list_contains(ctx.shell_allow.as_slice(), words[0].as_str()) {
                return Some(
                    text::cat3(
                        "binary '",
                        words[0].as_str(),
                        "' is not in capabilities.shell.allow",
                    ),
                );
            }
        },
        Ok(StepKind::Spawn) => if let Err(e) = capsule_task_text(&step.input) {
            return Some(e);
        },
    }
    if text::same(step.on_error.as_str(), "fail") || text::same(step.on_error.as_str(), "skip")
        || text::same(step.on_error.as_str(), "continue") {
        None
    } else {
        Some(text::cat3("invalid on_error policy '", step.on_error.as_str(), "'"))
    }
}

/// What is wrong with the first bad reference a step makes.
fn validate_references(step: &StepDef, ids: &[String]) -> (r: Option<String>)
    ensures
        text::opt_text(r) == reference_fault(step_references(step@), text::texts(ids@)),
{
    let refs = references_of(step);
    let ghost all = text::texts(refs@);
    let ghost known = text::texts(ids@);
    let mut i: usize = 0;
    proof {
        assert(all.skip(0) =~= all);
    }
    while i < refs.len()
        invariant
            i <= refs@.len(),
            all == text::texts(refs@),
            known == text::texts(ids@),
            all == step_references(step@),
            reference_fault(all.skip(i as int), known) == reference_fault(all, known),
        decreases refs@.len() - i,
    {
        proof {
            assert(all.skip(i as int)[0] == refs@[i as int]@);
            assert(all.skip(i as int).drop_first() =~= all.skip(i + 1));
        }
        if let Some((step_id, field)) = parse_reference(refs[i].as_str()) {
            if !text::list_contains(ids, step_id.as_str()) {
                return Some(text::cat3("unknown reference '", refs[i].as_str(), "'"));
            }
            if !text::same(field.as_str(), "output") && !text::same(field.as_str(), "status") {
                return Some(text::cat3("unknown reference field '", field.as_str(), "'"));
            }
        }
        i += 1;
    }
    None
}

/// What is wrong with the first dependency of a step that no plan step is.
fn check_dependencies(step: &StepDef, ids: &[String]) -> (r: Option<String>)
    ensures
        text::opt_text(r) == dependency_fault(step@.depends_on, text::texts(ids@)),
{
    let ghost all = text::texts(step.depends_on@);
    let ghost known = text::texts(ids@);
    let mut i: usize = 0;
    proof {
        assert(all.skip(0) =~= all);
    }
    while i < step.depends_on.len()
        invariant
            i <= step.depends_on@.len(),
            all == text::texts(step.depends_on@),
            known == text::texts(ids@),
            dependency_fault(all.skip(i as int), known) == dependency_fault(all, known),
        decreases step.depends_on@.len() - i,
    {
        proof {
            assert(all.skip(i as int)[0] == step.depends_on@[i as int]@);
            assert(all.skip(i as int).drop_first() =~= all.skip(i + 1));
        }
        if !text::list_contains(ids, step.depends_on[i].as_str()) {
            return Some(text::cat3("unknown dependency '", step.depends_on[i].as_str(), "'"));
        }
        i += 1;
    }
    None
}

/// What a fault stands for.
pub open spec fn fault_view(r: Result<(), (String, String)>) -> Option<(Seq<char>, Seq<char>)> {
    match r {
        Ok(_) => None,
        Err(f) => Some((f.0@, f.1@)),
    }
}

/// Refuses a plan whose steps cannot all be scheduled, naming the first step at fault.
pub fn validate_plan(plan: &PlanFile, ctx: &SchedulerContext) -> (r: Result<(), (String, String)>)
    ensures
        fault_view(r) == plan_fault(
            def_views(plan.steps@),
            text::texts(ctx.installed_tools@),
            text::texts(ctx.shell_allow@),
        ),
{
    let ghost steps = def_views(plan.steps@);
    let ghost tools = text::texts(ctx.installed_tools@);
    let ghost binaries = text::texts(ctx.shell_allow@);
    let mut ids: Vec<String> = Vec::new();
    let mut i: usize = 0;
    proof {
        assert(text::texts(ids@) =~= ids_of(steps.take(0)));
    }
    while i < plan.steps.len()
        invariant
            i <= plan.steps@.len(),
            steps == def_views(plan.steps@),
            tools == text::texts(ctx.installed_tools@),
            binaries == text::texts(ctx.shell_allow@),
            text::texts(ids@) == ids_of(steps.take(i as int)),
            declaration_fault(steps, i as int, tools, binaries) == declaration_fault(
                steps,
                0,
                tools,
                binaries,
            ),
        decreases plan.steps@.len() - i,
    {
        if let Some(e) = check_step(&plan.steps[i], ids.as_slice(), ctx) {
            return Err((plan.steps[i].id.clone(), e));
        }
        let ghost before = text::texts(ids@);
        ids.push(plan.steps[i].id.clone());
        proof {
            assert(text::texts(ids@) =~= before.push(steps[i as int].id));
            assert(ids_of(steps.take(i + 1)) =~= ids_of(steps.take(i as int)).push(
                steps[i as int].id,
            ));
        }
        i += 1;
    }
    proof {
        assert(steps.take(steps.len() as int) =~= steps);
    }
    let mut j: usize = 0;
    while j < plan.steps.len()
        invariant
            j <= plan.steps@.len(),
            steps == def_views(plan.steps@),
            tools == text::texts(ctx.installed_tools@),
            binaries == text::texts(ctx.shell_allow@),
            declaration_fault(steps, 0, tools, binaries) is None,
            text::texts(ids@) == ids_of(steps),
            linkage_fault(steps, j as int, ids_of(steps)) == linkage_fault(
                steps,
                0,
                ids_of(steps),
            ),
        decreases plan.steps@.len() - j,
    {
        if let Some(e) = check_dependencies(&plan.steps[j], ids.as_slice()) {
            return Err((plan.steps[j].id.clone(), e));
        }
        if let Some(e) = validate_references(&plan.steps[j], ids.as_slice()) {
            return Err((plan.steps[j].id.clone(), e));
        }
        j += 1;
    }
    Ok(())
}

// ── Laws of validation ───────────────────────────────────────────────────────

/// A step's own declaration is accepted exactly when its id is new, it declares one thing to do
/// that the session can do, and its `on_error` is one of the three.
pub proof fn what_a_declaration_needs(
    step: DefView,
    earlier: Seq<Seq<char>>,
    tools: Seq<Seq<char>>,
    binaries: Seq<Seq<char>>,
)
    ensures
        step_fault(step, earlier, tools, binaries) is None <==> {
            &&& !earlier.contains(step.id)
            &&& step.on_error == "fail"@ || step.on_error == "skip"@ || step.on_error
                == "continue"@
            &&& {
                ||| step.tool is Some && step.shell is None && step.capsule is None
                    && tools.contains(step.tool->0)
                ||| step.tool is None && step.shell is Some && step.capsule is None
                    && step.shell->0.len() > 0 && binaries.contains(step.shell->0[0])
                ||| step.tool is None && step.shell is None && step.capsule is Some && task_text(
                    step.input,
                ) is Ok
            }
        },
{
}

/// What a step names is accepted exactly when every dependency is a step of the plan, and every
/// reference names the output or the status of one.
pub proof fn what_a_link_needs(step: DefView, ids: Seq<Seq<char>>)
    ensures
        link_fault(step, ids) is None <==> (forall|i: int|
            0 <= i < step.depends_on.len() ==> ids.contains(#[trigger] step.depends_on[i])) && (
        forall|i: int|
            0 <= i < step_references(step).len() ==> match reference_parts(
                #[trigger] step_references(step)[i],
            ) {
                Some((id, field)) => ids.contains(id) && (field == "output"@ || field
                    == "status"@),
                None => true,
            }),
{
    lemma_dependencies(step.depends_on, ids);
    lemma_references(step_references(step), ids);
}

proof fn lemma_dependencies(deps: Seq<Seq<char>>, ids: Seq<Seq<char>>)
    ensures
        dependency_fault(deps, ids) is None <==> forall|i: int|
            0 <= i < deps.len() ==> ids.contains(#[trigger] deps[i]),
    decreases deps.len(),
{
    if deps.len() > 0 {
        let rest = deps.drop_first();
        lemma_dependencies(rest, ids);
        if dependency_fault(deps, ids) is None {
            assert forall|i: int| 0 <= i < deps.len() implies ids.contains(#[trigger] deps[i]) by {
                if i > 0 {
                    assert(rest[i - 1] == deps[i]);
                }
            }
        }
        if forall|i: int| 0 <= i < deps.len() ==> ids.contains(#[trigger] deps[i]) {
            assert(ids.contains(deps[0]));
            assert forall|i: int| 0 <= i < rest.len() implies ids.contains(#[trigger] rest[i]) by {
                assert(rest[i] == deps[i + 1]);
            }
        }
    }
}

spec fn reference_is_good(reference: Seq<char>, ids: Seq<Seq<char>>) -> bool {
    match reference_parts(reference) {
        Some((id, field)) => ids.contains(id) && (field == "output"@ || field == "status"@),
        None => true,
    }
}

proof fn lemma_references(refs: Seq<Seq<char>>, ids: Seq<Seq<char>>)
    ensures
        reference_fault(refs, ids) is None <==> forall|i: int|
            0 <= i < refs.len() ==> reference_is_good(#[trigger] refs[i], ids),
    decreases refs.len(),
{
    if refs.len() > 0 {
        let rest = refs.drop_first();
        lemma_references(rest, ids);
        if reference_fault(refs, ids) is None {
            assert forall|i: int| 0 <= i < refs.len() implies reference_is_good(
                #[trigger] refs[i],
                ids,
            ) by {
                if i > 0 {
                    assert(rest[i - 1] == refs[i]);
                }
            }
        }
        if forall|i: int| 0 <= i < refs.len() ==> reference_is_good(#[trigger] refs[i], ids) {
            assert(reference_is_good(refs[0], ids));
            assert forall|i: int| 0 <= i < rest.len() implies reference_is_good(
                #[trigger] rest[i],
                ids,
            ) by {
                assert(rest[i] == refs[i + 1]);
            }
        }
    }
}

/// The step that a fault is laid to.
pub open spec fn blamed(fault: Option<(Seq<char>, Seq<char>)>) -> Option<Seq<char>> {
    match fault {
        Some((id, _)) => Some(id),
        None => None,
    }
}

/// A plan is accepted exactly when every step's own declaration is, each with the ids of the steps
/// in front of it taken, and what every step names.
pub proof fn a_plan_is_accepted_when_every_step_is(
    steps: Seq<DefView>,
    tools: Seq<Seq<char>>,
    binaries: Seq<Seq<char>>,
)
    ensures
        plan_fault(steps, tools, binaries) is None <==> forall|i: int|
            0 <= i < steps.len() ==> step_fault(
                #[trigger] steps[i],
                ids_of(steps.take(i)),
                tools,
                binaries,
            ) is None && link_fault(steps[i], ids_of(steps)) is None,
        plan_fault(steps, tools, binaries) is Some ==> exists|i: int|
            0 <= i < steps.len() && Some((#[trigger] steps[i]).id) == blamed(
                plan_fault(steps, tools, binaries),
            ),
{
    lemma_declarations(steps, 0, tools, binaries);
    lemma_links(steps, 0, ids_of(steps));
}

proof fn lemma_declarations(
    steps: Seq<DefView>,
    from: int,
    tools: Seq<Seq<char>>,
    binaries: Seq<Seq<char>>,
)
    requires
        0 <= from,
    ensures
        declaration_fault(steps, from, tools, binaries) is None <==> forall|i: int|
            from <= i < steps.len() ==> step_fault(
                #[trigger] steps[i],
                ids_of(steps.take(i)),
                tools,
                binaries,
            ) is None,
        declaration_fault(steps, from, tools, binaries) is Some ==> exists|i: int|
            0 <= i < steps.len() && Some((#[trigger] steps[i]).id) == blamed(
                declaration_fault(steps, from, tools, binaries),
            ),
    decreases steps.len() - from,
{
    if from < steps.len() {
        lemma_declarations(steps, from + 1, tools, binaries);
        assert(steps[from] == steps[from]);
    }
}

proof fn lemma_links(steps: Seq<DefView>, from: int, ids: Seq<Seq<char>>)
    requires
        0 <= from,
    ensures
        linkage_fault(steps, from, ids) is None <==> forall|i: int|
            from <= i < steps.len() ==> link_fault(#[trigger] steps[i], ids) is None,
        linkage_fault(steps, from, ids) is Some ==> exists|i: int|
            0 <= i < steps.len() && Some((#[trigger] steps[i]).id) == blamed(
                linkage_fault(steps, from, ids),
            ),
    decreases steps.len() - from,
{
    if from < steps.len() {
        lemma_links(steps, from + 1, ids);
        assert(steps[from] == steps[from]);
    }
}

/// Interpolation changes a text that begins with `$` and nothing else: each item of an array and
/// each entry of an object comes to what it comes to on its own, in its own place and under its
/// own key.
pub proof fn interpolation_goes_item_by_item(
    items: Seq<json::JsonView>,
    entries: Seq<(Seq<char>, json::JsonView)>,
    results: Seq<StepView>,
    i: int,
)
    ensures
        interpolation(json::JsonView::Array(items), results) is Ok && 0 <= i < items.len() ==> {
            let done = interpolation(json::JsonView::Array(items), results)->Ok_0;
            &&& done is Array && done->Array_0.len() == items.len()
            &&& interpolation(items[i], results) == Ok::<json::JsonView, Seq<char>>(
                done->Array_0[i],
            )
        },
        interpolation(json::JsonView::Object(entries), results) is Ok && 0 <= i < entries.len()
            ==> {
            let done = interpolation(json::JsonView::Object(entries), results)->Ok_0;
            &&& done is Object && done->Object_0.len() == entries.len()
            &&& done->Object_0[i].0 == entries[i].0
            &&& interpolation(entries[i].1, results) == Ok::<json::JsonView, Seq<char>>(
                done->Object_0[i].1,
            )
        },
{
    if item_interpolation(items, results) is Ok && 0 <= i < items.len() {
        lemma_items_done(items, results, i);
    }
    if entry_interpolation(entries, results) is Ok && 0 <= i < entries.len() {
        lemma_entries_done(entries, results, i);
    }
}

proof fn lemma_items_done(items: Seq<json::JsonView>, results: Seq<StepView>, i: int)
    requires
        item_interpolation(items, results) is Ok,
        0 <= i < items.len(),
    ensures
        item_interpolation(items, results)->Ok_0.len() == items.len(),
        interpolation(items[i], results) == Ok::<json::JsonView, Seq<char>>(
            item_interpolation(items, results)->Ok_0[i],
        ),
    decreases items.len(),
{
    if i < items.len() - 1 {
        lemma_items_done(items.drop_last(), results, i);
    } else if items.len() > 1 {
        lemma_items_done(items.drop_last(), results, 0);
    } else {
        assert(item_interpolation(items.drop_last(), results)->Ok_0.len() == 0);
    }
}

proof fn lemma_entries_done(
    entries: Seq<(Seq<char>, json::JsonView)>,
    results: Seq<StepView>,
    i: int,
)
    requires
        entry_interpolation(entries, results) is Ok,
        0 <= i < entries.len(),
    ensures
        entry_interpolation(entries, results)->Ok_0.len() == entries.len(),
        entry_interpolation(entries, results)->Ok_0[i].0 == entries[i].0,
        interpolation(entries[i].1, results) == Ok::<json::JsonView, Seq<char>>(
            entry_interpolation(entries, results)->Ok_0[i].1,
        ),
    decreases entries.len(),
{
    if i < entries.len() - 1 {
        lemma_entries_done(entries.drop_last(), results, i);
    } else if entries.len() > 1 {
        lemma_entries_done(entries.drop_last(), results, 0);
    } else {
        assert(entry_interpolation(entries.drop_last(), results)->Ok_0.len() == 0);
    }
}

/// A text that does not begin with `$` is left as it is, and one that does becomes what it refers
/// to.
pub proof fn only_references_are_replaced(s: Seq<char>, results: Seq<StepView>)
    ensures
        !text::begins(s, '$') ==> interpolation(json::JsonView::Text(s), results) == Ok::<
            json::JsonView,
            Seq<char>,
        >(json::JsonView::Text(s)),
        text::begins(s, '$') && condition::operand_value(s, results) is Ok ==> interpolation(
            json::JsonView::Text(s),
            results,
        ) == Ok::<json::JsonView, Seq<char>>(
            json::JsonView::Text(condition::operand_value(s, results)->Ok_0),
        ),
        text::begins(s, '$') && condition::operand_value(s, results) is Err ==> interpolation(
            json::JsonView::Text(s),
            results,
        ) is Err,
{
}

/// Every text inside a value that begins with `$` is one of its references, and they come in the
/// order written.
pub proof fn references_add_up(
    s: Seq<char>,
    items: Seq<json::JsonView>,
    more: Seq<json::JsonView>,
    key: Seq<char>,
    entries: Seq<(Seq<char>, json::JsonView)>,
    value: json::JsonView,
)
    ensures
        text::begins(s, '$') ==> references(json::JsonView::Text(s)) == seq![s],
        !text::begins(s, '$') ==> references(json::JsonView::Text(s)).len() == 0,
        references(json::JsonView::Array(items + more)) == references(
            json::JsonView::Array(items),
        ) + references(json::JsonView::Array(more)),
        references(json::JsonView::Array(seq![value])) == references(value),
        references(json::JsonView::Object(entries.push((key, value)))) == references(
            json::JsonView::Object(entries),
        ) + references(value),
    decreases more.len(),
{
    let none = Seq::<json::JsonView>::empty();
    assert(entries.push((key, value)).drop_last() =~= entries);
    assert(seq![value].drop_last() =~= none);
    assert(item_references(none).len() == 0);
    assert(item_references(seq![value]) =~= references(value));
    if more.len() == 0 {
        assert(items + more =~= items);
        assert(item_references(items) + item_references(more) =~= item_references(items));
    } else {
        references_add_up(s, items, more.drop_last(), key, entries, value);
        assert((items + more).drop_last() =~= items + more.drop_last());
        assert((items + more).last() == more.last());
        assert(item_references(items + more) =~= item_references(items) + item_references(more));
    }
}

/// A reference names what stands between the dollar sign and its last dot, and what stands behind
/// that dot.
pub proof fn a_reference_parts_at_its_last_dot(id: Seq<char>, field: Seq<char>)
    requires
        !field.contains('.'),
    ensures
        reference_parts(seq!['$'] + (id + seq!['.'] + field)) == Some((id, field)),
        reference_parts(seq!['$'] + field) is None,
        forall|s: Seq<char>| !text::begins(s, '$') ==> #[trigger] reference_parts(s) is None,
{
    let name = id + seq!['.'] + field;
    let whole = seq!['$'] + name;
    assert(whole.drop_first() =~= name);
    assert(whole[0] == '$');
    name.index_of_last_ensures('.');
    assert(name[id.len() as int] == '.');
    assert(name.contains('.'));
    let dot = name.index_of_last('.')->0;
    if dot > id.len() {
        assert(field[dot - id.len() - 1] == name[dot]);
        assert(field.contains('.'));
    }
    assert(dot == id.len());
    assert(name.take(dot) =~= id);
    assert(name.skip(dot + 1) =~= field);
    let bare = seq!['$'] + field;
    assert(bare.drop_first() =~= field);
    field.index_of_last_ensures('.');
}

/// The references of a step are those of its input, then those of its condition, which are found
/// word by word: every word of the condition that begins with `$`, without the parentheses at its
/// end.
pub proof fn a_condition_is_searched_word_by_word(
    step: DefView,
    a: Seq<char>,
    b: Seq<char>,
    word: Seq<char>,
)
    requires
        step.condition is None,
        word.len() > 0,
        word[0] == '$',
        forall|i: int| 0 <= i < word.len() ==> !is_paren(#[trigger] word[i]) && !text::is_space(
            word[i],
        ),
    ensures
        step_references(step) == references(step.input),
        step_references(DefView { condition: Some(word), ..step }) == references(step.input) + seq![
            word,
        ],
        step_references(DefView { condition: Some(word.push(')')), ..step }) == references(
            step.input,
        ) + seq![word],
        condition_references(text::words(a + seq![' '] + b)) == condition_references(
            text::words(a),
        ) + condition_references(text::words(b)),
{
    let none = Seq::<Seq<char>>::empty();
    assert(references(step.input) + none =~= references(step.input));
    text::words_add_up(a, ' ', b);
    lemma_condition_references(text::words(a), text::words(b));
    text::words_add_up(word, ' ', b);
    let closed = word.push(')');
    assert forall|i: int| 0 <= i < closed.len() implies !text::is_space(#[trigger] closed[i]) by {
        if i < word.len() {
            assert(closed[i] == word[i]);
        }
    }
    text::words_add_up(closed, ' ', b);
    text::lemma_run_is(word, |c: char| is_paren(c), 0);
    text::lemma_run_is(closed, |c: char| is_paren(c), 0);
    assert(word.skip(0) =~= word);
    assert(closed.skip(0) =~= closed);
    assert(closed.drop_last() =~= word);
    assert(!is_paren(word[word.len() - 1]));
    assert(without_closing(word) == word);
    assert(without_parens(word) == word);
    assert(without_parens(closed) == word);
    assert(seq![word].drop_last() =~= none);
    assert(seq![closed].drop_last() =~= none);
    assert(condition_references(none) =~= none);
    assert(condition_references(seq![word]) =~= seq![word]);
    assert(closed[0] == '$');
    assert(condition_references(seq![closed]) =~= seq![word]);
}

proof fn lemma_condition_references(a: Seq<Seq<char>>, b: Seq<Seq<char>>)
    ensures
        condition_references(a + b) == condition_references(a) + condition_references(b),
    decreases b.len(),
{
    if b.len() == 0 {
        assert(a + b =~= a);
        assert(condition_references(a) + condition_references(b) =~= condition_references(a));
    } else {
        lemma_condition_references(a, b.drop_last());
        assert((a + b).drop_last() =~= a + b.drop_last());
        assert((a + b).last() == b.last());
        assert(condition_references(a + b) =~= condition_references(a) + condition_references(b));
    }
}

proof fn lemma_no_other_key(entries: Seq<(Seq<char>, json::JsonView)>)
    requires
        forall|i: int| 0 <= i < entries.len() ==> (#[trigger] entries[i]).0 == "objective"@,
    ensures
        other_keys(entries).len() == 0,
    decreases entries.len(),
{
    if entries.len() > 0 {
        assert forall|i: int| 0 <= i < entries.drop_last().len() implies (
        #[trigger] entries.drop_last()[i]).0 == "objective"@ by {
            assert(entries.drop_last()[i] == entries[i]);
        }
        assert(entries.last() == entries[entries.len() - 1]);
        lemma_no_other_key(entries.drop_last());
    }
}

/// The first step whose declaration is at fault is blamed, with its fault; where none is, the first
/// whose links are.
pub proof fn the_first_fault_is_blamed(
    steps: Seq<DefView>,
    tools: Seq<Seq<char>>,
    binaries: Seq<Seq<char>>,
    i: int,
)
    requires
        0 <= i < steps.len(),
    ensures
        (forall|j: int|
            0 <= j < i ==> step_fault(#[trigger] steps[j], ids_of(steps.take(j)), tools, binaries)
                is None) && step_fault(steps[i], ids_of(steps.take(i)), tools, binaries) is Some
            ==> plan_fault(steps, tools, binaries) == Some(
            (steps[i].id, step_fault(steps[i], ids_of(steps.take(i)), tools, binaries)->0),
        ),
        (forall|j: int|
            0 <= j < steps.len() ==> step_fault(
                #[trigger] steps[j],
                ids_of(steps.take(j)),
                tools,
                binaries,
            ) is None) && (forall|j: int|
            0 <= j < i ==> link_fault(#[trigger] steps[j], ids_of(steps)) is None) && link_fault(
            steps[i],
            ids_of(steps),
        ) is Some ==> plan_fault(steps, tools, binaries) == Some(
            (steps[i].id, link_fault(steps[i], ids_of(steps))->0),
        ),
{
    if (forall|j: int|
        0 <= j < i ==> step_fault(#[trigger] steps[j], ids_of(steps.take(j)), tools, binaries)
            is None) {
        lemma_declared_so_far(steps, 0, i, tools, binaries);
    }
    if (forall|j: int|
        0 <= j < steps.len() ==> step_fault(
            #[trigger] steps[j],
            ids_of(steps.take(j)),
            tools,
            binaries,
        ) is None) {
        lemma_declared_so_far(steps, 0, steps.len() as int, tools, binaries);
    }
    if (forall|j: int| 0 <= j < i ==> link_fault(#[trigger] steps[j], ids_of(steps)) is None) {
        lemma_linked_so_far(steps, 0, i, ids_of(steps));
    }
}

proof fn lemma_declared_so_far(
    steps: Seq<DefView>,
    k: int,
    i: int,
    tools: Seq<Seq<char>>,
    binaries: Seq<Seq<char>>,
)
    requires
        0 <= k <= i <= steps.len(),
        forall|j: int|
            k <= j < i ==> step_fault(#[trigger] steps[j], ids_of(steps.take(j)), tools, binaries)
                is None,
    ensures
        declaration_fault(steps, k, tools, binaries) == declaration_fault(
            steps,
            i,
            tools,
            binaries,
        ),
    decreases i - k,
{
    if k < i {
        lemma_declared_so_far(steps, k + 1, i, tools, binaries);
    }
}

proof fn lemma_linked_so_far(steps: Seq<DefView>, k: int, i: int, ids: Seq<Seq<char>>)
    requires
        0 <= k <= i <= steps.len(),
        forall|j: int| k <= j < i ==> link_fault(#[trigger] steps[j], ids) is None,
    ensures
        linkage_fault(steps, k, ids) == linkage_fault(steps, i, ids),
    decreases i - k,
{
    if k < i {
        lemma_linked_so_far(steps, k + 1, i, ids);
    }
}

} // verus!
