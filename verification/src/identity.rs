//! The capsule's door: who it says it is, what it answers, and how it decides what to do with each
//! request. Sockets, channels and the task registry are somebody else's; what they say comes in as
//! plain values.

use crate::a2a::IncomingTask;
use crate::codec;
use crate::errors::RuntimeError;
use crate::ids;
use crate::json;
use crate::json::{Json, JsonView};
use crate::origin;
use crate::origin::{TaskOrigin, TaskProvenance};
use crate::outgoing;
use crate::peer_handoff;
use crate::peer_handoff::ResourceResponse;
use crate::text;
use vstd::prelude::*;

verus! {

/// Who a capsule is.
#[derive(Debug, PartialEq, Eq)]
pub struct CapsuleIdentity {
    pub capsule_name: String,
    pub capsule_version: String,
    pub session_id: String,
    pub capsule_url: String,
}

// ── Binding ──────────────────────────────────────────────────────────────────

/// What asking for a listener came to.
#[derive(Debug, PartialEq, Eq)]
pub enum BindResult {
    Bound(u16),
    /// Bound, but the port could not be read back.
    PortUnreadable(String),
    /// The address is taken.
    InUse(String),
    Failed(String),
}

/// The address to bind: the asked port, or whichever the operating system assigns.
pub fn bind_address(addr: &str, internal_port: Option<u16>) -> (r: String)
    ensures
        r@ == addr@ + ":"@ + text::decimal(
            (match internal_port {
                Some(p) => p,
                None => 0,
            }) as nat,
        ),
{
    let port: u16 = match internal_port {
        Some(p) => p,
        None => 0,
    };
    text::cat3(addr, ":", text::decimal_of(port as u64).as_str())
}

/// Whether a result says what binding came to. A taken port is reported as such only to a caller
/// that asked for it by number.
pub open spec fn bind_says(
    internal_port: Option<u16>,
    outcome: BindResult,
    r: Result<u16, RuntimeError>,
) -> bool {
    match outcome {
        BindResult::Bound(port) => r == Ok::<u16, RuntimeError>(port),
        BindResult::PortUnreadable(e) => r matches Err(RuntimeError::Runtime(m)) && m@
            == "failed to read bound port: "@ + e@,
        BindResult::InUse(e) => match internal_port {
            Some(port) => r == Err::<u16, RuntimeError>(RuntimeError::PortInUse { port }),
            None => r matches Err(RuntimeError::Runtime(m)) && m@
                == "failed to bind agent-card port: "@ + e@,
        },
        BindResult::Failed(e) => r matches Err(RuntimeError::Runtime(m)) && m@
            == "failed to bind agent-card port: "@ + e@,
    }
}

/// The bound port, or why there is none.
pub fn bind_local_port(internal_port: Option<u16>, outcome: BindResult) -> (r: Result<
    u16,
    RuntimeError,
>)
    ensures
        bind_says(internal_port, outcome, r),
        r is Ok <==> outcome is Bound,
        outcome is Bound ==> r == Ok::<u16, RuntimeError>(outcome->Bound_0),
        (r matches Err(RuntimeError::PortInUse { .. })) <==> outcome is InUse
            && internal_port is Some,
        outcome is InUse && internal_port is Some ==> r == Err::<u16, RuntimeError>(
            RuntimeError::PortInUse { port: internal_port->0 },
        ),
{
    match outcome {
        BindResult::Bound(port) => Ok(port),
        BindResult::PortUnreadable(e) => Err(
            RuntimeError::Runtime(text::cat2("failed to read bound port: ", e.as_str())),
        ),
        BindResult::InUse(e) => match internal_port {
            Some(port) => Err(RuntimeError::PortInUse { port }),
            None => Err(
                RuntimeError::Runtime(text::cat2("failed to bind agent-card port: ", e.as_str())),
            ),
        },
        BindResult::Failed(e) => Err(
            RuntimeError::Runtime(text::cat2("failed to bind agent-card port: ", e.as_str())),
        ),
    }
}

// ── The method table ─────────────────────────────────────────────────────────

/// `lifecycle.task_acceptance`: how many tasks a session takes.
#[derive(Debug, Clone, Copy, PartialEq, Eq, Structural)]
pub enum TaskAcceptance {
    NoTasks,
    Single,
    Queue,
}

/// A JSON-RPC method the door answers. This is the whole table: dispatch and the agent card both
/// go by it.
#[derive(Debug, Clone, Copy, PartialEq, Eq, Structural)]
pub enum DoorMethod {
    MessageSend,
    MessageStream,
    StreamWatch,
    TasksGet,
    TasksCancel,
    SessionStop,
}

/// Every method, in the order the card lists them.
pub open spec fn all_methods() -> Seq<DoorMethod> {
    seq![
        DoorMethod::MessageSend,
        DoorMethod::MessageStream,
        DoorMethod::StreamWatch,
        DoorMethod::TasksGet,
        DoorMethod::TasksCancel,
        DoorMethod::SessionStop,
    ]
}

/// Whether a method is served under an acceptance: a capsule that takes no tasks serves neither
/// method that starts one.
pub open spec fn served(method: DoorMethod, acceptance: TaskAcceptance) -> bool {
    !(acceptance is NoTasks && (method is MessageSend || method is MessageStream))
}

/// The method a name resolves to, exactly and only when it is served.
pub open spec fn resolved(name: Seq<char>, acceptance: TaskAcceptance) -> Option<DoorMethod> {
    let found = if name == DoorMethod::MessageSend.name() {
        Some(DoorMethod::MessageSend)
    } else if name == DoorMethod::MessageStream.name() {
        Some(DoorMethod::MessageStream)
    } else if name == DoorMethod::StreamWatch.name() {
        Some(DoorMethod::StreamWatch)
    } else if name == DoorMethod::TasksGet.name() {
        Some(DoorMethod::TasksGet)
    } else if name == DoorMethod::TasksCancel.name() {
        Some(DoorMethod::TasksCancel)
    } else if name == DoorMethod::SessionStop.name() {
        Some(DoorMethod::SessionStop)
    } else {
        None
    };
    match found {
        Some(method) => if served(method, acceptance) {
            Some(method)
        } else {
            None
        },
        None => None,
    }
}

impl DoorMethod {
    /// The wire name.
    pub open spec fn name(self) -> Seq<char> {
        match self {
            DoorMethod::MessageSend => "message/send"@,
            DoorMethod::MessageStream => "message/stream"@,
            DoorMethod::StreamWatch => "stream/watch"@,
            DoorMethod::TasksGet => "tasks/get"@,
            DoorMethod::TasksCancel => "tasks/cancel"@,
            DoorMethod::SessionStop => "session/stop"@,
        }
    }

    /// Every method, in the order the card lists them.
    pub fn all() -> (r: Vec<DoorMethod>)
        ensures
            r@ == all_methods(),
    {
        let r = vec![
            DoorMethod::MessageSend,
            DoorMethod::MessageStream,
            DoorMethod::StreamWatch,
            DoorMethod::TasksGet,
            DoorMethod::TasksCancel,
            DoorMethod::SessionStop,
        ];
        proof {
            assert(r@ =~= all_methods());
        }
        r
    }

    /// The wire name.
    pub fn wire_name(self) -> (r: &'static str)
        ensures
            r@ == self.name(),
            self is MessageSend ==> r@ == "message/send"@,
            self is MessageStream ==> r@ == "message/stream"@,
            self is StreamWatch ==> r@ == "stream/watch"@,
            self is TasksGet ==> r@ == "tasks/get"@,
            self is TasksCancel ==> r@ == "tasks/cancel"@,
            self is SessionStop ==> r@ == "session/stop"@,
    {
        match self {
            DoorMethod::MessageSend => "message/send",
            DoorMethod::MessageStream => "message/stream",
            DoorMethod::StreamWatch => "stream/watch",
            DoorMethod::TasksGet => "tasks/get",
            DoorMethod::TasksCancel => "tasks/cancel",
            DoorMethod::SessionStop => "session/stop",
        }
    }

    /// The method this door answers for a request's `method`, or `None` when it answers that there
    /// is no such method. No case folding and no trimming.
    pub fn resolve(method: &str, acceptance: TaskAcceptance) -> (r: Option<DoorMethod>)
        ensures
            r == resolved(method@, acceptance),
            r == Some(DoorMethod::MessageSend) <==> method@ == "message/send"@ && !(
            acceptance is NoTasks),
            r == Some(DoorMethod::MessageStream) <==> method@ == "message/stream"@ && !(
            acceptance is NoTasks),
            r == Some(DoorMethod::StreamWatch) <==> method@ == "stream/watch"@,
            r == Some(DoorMethod::TasksGet) <==> method@ == "tasks/get"@,
            r == Some(DoorMethod::TasksCancel) <==> method@ == "tasks/cancel"@,
            r == Some(DoorMethod::SessionStop) <==> method@ == "session/stop"@,
    {
        proof {
            names_resolve_to_their_methods(DoorMethod::MessageSend, acceptance);
            names_resolve_to_their_methods(DoorMethod::MessageStream, acceptance);
            names_resolve_to_their_methods(DoorMethod::StreamWatch, acceptance);
            names_resolve_to_their_methods(DoorMethod::TasksGet, acceptance);
            names_resolve_to_their_methods(DoorMethod::TasksCancel, acceptance);
            names_resolve_to_their_methods(DoorMethod::SessionStop, acceptance);
        }
        let takes_tasks = match acceptance {
            TaskAcceptance::NoTasks => false,
            _ => true,
        };
        if text::same(method, DoorMethod::MessageSend.wire_name()) {
            if takes_tasks {
                Some(DoorMethod::MessageSend)
            } else {
                None
            }
        } else if text::same(method, DoorMethod::MessageStream.wire_name()) {
            if takes_tasks {
                Some(DoorMethod::MessageStream)
            } else {
                None
            }
        } else if text::same(method, DoorMethod::StreamWatch.wire_name()) {
            Some(DoorMethod::StreamWatch)
        } else if text::same(method, DoorMethod::TasksGet.wire_name()) {
            Some(DoorMethod::TasksGet)
        } else if text::same(method, DoorMethod::TasksCancel.wire_name()) {
            Some(DoorMethod::TasksCancel)
        } else if text::same(method, DoorMethod::SessionStop.wire_name()) {
            Some(DoorMethod::SessionStop)
        } else {
            None
        }
    }
}

/// The names of those of a list of methods that are served.
pub open spec fn served_names(methods: Seq<DoorMethod>, acceptance: TaskAcceptance) -> Seq<
    Seq<char>,
>
    decreases methods.len(),
{
    if methods.len() == 0 {
        Seq::empty()
    } else if served(methods.last(), acceptance) {
        served_names(methods.drop_last(), acceptance).push(methods.last().name())
    } else {
        served_names(methods.drop_last(), acceptance)
    }
}

/// The names of every served method, in card order.
pub fn served_methods(acceptance: TaskAcceptance) -> (r: Vec<String>)
    ensures
        text::texts(r@) == served_names(all_methods(), acceptance),
{
    let methods = DoorMethod::all();
    let ghost all = all_methods();
    let mut out: Vec<String> = Vec::new();
    let mut i: usize = 0;
    proof {
        assert(text::texts(out@) =~= served_names(all.take(0), acceptance));
    }
    while i < methods.len()
        invariant
            i <= methods@.len(),
            methods@ == all,
            text::texts(out@) == served_names(all.take(i as int), acceptance),
        decreases methods@.len() - i,
    {
        proof {
            assert(all.take(i + 1).drop_last() =~= all.take(i as int));
            assert(all.take(i + 1).last() == all[i as int]);
            names_resolve_to_their_methods(all[i as int], acceptance);
        }
        let name = methods[i].wire_name();
        if DoorMethod::resolve(name, acceptance).is_some() {
            let ghost before = out@;
            out.push(name.to_owned());
            proof {
                assert(text::texts(out@) =~= text::texts(before).push(name@));
            }
        }
        i += 1;
    }
    proof {
        assert(all.take(all.len() as int) =~= all);
    }
    out
}

/// Every method resolves from its own name exactly when it is served, and no two share a name.
pub proof fn names_resolve_to_their_methods(method: DoorMethod, acceptance: TaskAcceptance)
    ensures
        resolved(method.name(), acceptance) == (if served(method, acceptance) {
            Some(method)
        } else {
            None
        }),
{
    reveal_strlit("message/send");
    reveal_strlit("message/stream");
    reveal_strlit("stream/watch");
    reveal_strlit("tasks/get");
    reveal_strlit("tasks/cancel");
    reveal_strlit("session/stop");
    assert("message/send"@.len() == 12 && "stream/watch"@.len() == 12 && "tasks/cancel"@.len()
        == 12 && "session/stop"@.len() == 12);
    assert("message/stream"@.len() == 14 && "tasks/get"@.len() == 9);
    assert("message/send"@[0] == 'm' && "tasks/cancel"@[0] == 't');
    assert("stream/watch"@[1] == 't' && "session/stop"@[1] == 'e');
    assert("stream/watch"@[0] == 's' && "session/stop"@[0] == 's');
}

// ── The agent card ───────────────────────────────────────────────────────────

/// Which HTTP planes the manifest declares.
#[derive(Debug, Clone, Copy, PartialEq, Eq, Structural)]
pub struct DeclaredPlanes {
    /// The operator plane serves content.
    pub files: bool,
    /// The peer plane serves content.
    pub peer_files: bool,
}

/// An installed artifact, as far as the card reads it.
#[derive(Debug, PartialEq, Eq)]
pub struct InstalledArtifactSummary {
    pub name: String,
    /// Whether the model sees it.
    pub llm_visible: bool,
}

/// What a capsule may do, as far as the card reads it.
#[derive(Debug, PartialEq, Eq)]
pub struct CapabilityPolicy {
    pub shell_allow: Vec<String>,
    pub network_allow: Vec<String>,
}

/// Texts as JSON values.
pub open spec fn text_values(v: Seq<Seq<char>>) -> Seq<JsonView> {
    v.map_values(|s: Seq<char>| JsonView::Text(s))
}

/// Texts as a JSON array.
pub fn text_array(v: &[String]) -> (r: Json)
    ensures
        r@ == JsonView::Array(text_values(text::texts(v@))),
{
    let ghost all = text_values(text::texts(v@));
    let mut out = json::empty_array();
    let mut i: usize = 0;
    proof {
        assert(all.take(0) =~= Seq::<JsonView>::empty());
    }
    while i < v.len()
        invariant
            i <= v@.len(),
            all == text_values(text::texts(v@)),
            out is Array,
            out@ == JsonView::Array(all.take(i as int)),
        decreases v@.len() - i,
    {
        proof {
            assert(all.take(i + 1) =~= all.take(i as int).push(all[i as int]));
        }
        out = json::with_item(out, json::text_value(v[i].as_str()));
        i += 1;
    }
    proof {
        assert(all.take(all.len() as int) =~= all);
    }
    out
}

/// The names of the artifacts the model sees.
pub open spec fn visible_names(artifacts: Seq<InstalledArtifactSummary>) -> Seq<Seq<char>>
    decreases artifacts.len(),
{
    if artifacts.len() == 0 {
        Seq::empty()
    } else if artifacts.last().llm_visible {
        visible_names(artifacts.drop_last()).push(artifacts.last().name@)
    } else {
        visible_names(artifacts.drop_last())
    }
}

/// The declared planes, in card order.
pub open spec fn plane_names(planes: DeclaredPlanes) -> Seq<Seq<char>> {
    let files = if planes.files {
        Seq::<Seq<char>>::empty().push("files"@)
    } else {
        Seq::empty()
    };
    if planes.peer_files {
        files.push("peer_files"@)
    } else {
        files
    }
}

/// The agent card.
pub open spec fn card_of(
    identity: CapsuleIdentity,
    artifacts: Seq<InstalledArtifactSummary>,
    policy: CapabilityPolicy,
    acceptance: TaskAcceptance,
    planes: DeclaredPlanes,
) -> JsonView {
    let methods = served_names(all_methods(), acceptance);
    let capabilities = json::none().push(
        ("tools"@, JsonView::Array(text_values(visible_names(artifacts)))),
    ).push(("shell"@, JsonView::Bool(policy.shell_allow@.len() > 0))).push(
        ("network"@, JsonView::Bool(policy.network_allow@.len() > 0)),
    ).push(
        ("streaming"@, JsonView::Bool(methods.contains(DoorMethod::MessageStream.name()))),
    );
    let serves = json::none().push(("methods"@, JsonView::Array(text_values(methods)))).push(
        ("planes"@, JsonView::Array(text_values(plane_names(planes)))),
    );
    JsonView::Object(
        json::none().push(("name"@, JsonView::Text(identity.capsule_name@))).push(
            ("version"@, JsonView::Text(identity.capsule_version@)),
        ).push(("url"@, JsonView::Text(identity.capsule_url@))).push(
            ("session_id"@, JsonView::Text(identity.session_id@)),
        ).push(("capabilities"@, JsonView::Object(capabilities))).push(
            ("serves"@, JsonView::Object(serves)),
        ),
    )
}

fn visible_tools(artifacts: &[InstalledArtifactSummary]) -> (r: Vec<String>)
    ensures
        text::texts(r@) == visible_names(artifacts@),
{
    let mut out: Vec<String> = Vec::new();
    let mut i: usize = 0;
    proof {
        assert(text::texts(out@) =~= visible_names(artifacts@.take(0)));
    }
    while i < artifacts.len()
        invariant
            i <= artifacts@.len(),
            text::texts(out@) == visible_names(artifacts@.take(i as int)),
        decreases artifacts@.len() - i,
    {
        proof {
            assert(artifacts@.take(i + 1).drop_last() =~= artifacts@.take(i as int));
        }
        if artifacts[i].llm_visible {
            let ghost before = out@;
            out.push(artifacts[i].name.clone());
            proof {
                assert(text::texts(out@) =~= text::texts(before).push(artifacts@[i as int].name@));
            }
        }
        i += 1;
    }
    proof {
        assert(artifacts@.take(artifacts@.len() as int) =~= artifacts@);
    }
    out
}

/// The agent card. `capabilities` is what this capsule may do; `serves` is what this door answers,
/// by the resolver's own table.
pub fn build_agent_card(
    identity: &CapsuleIdentity,
    installed_artifacts: &[InstalledArtifactSummary],
    capability_policy: &CapabilityPolicy,
    task_acceptance: TaskAcceptance,
    planes: DeclaredPlanes,
) -> (r: Json)
    ensures
        r@ == card_of(
            *identity,
            installed_artifacts@,
            *capability_policy,
            task_acceptance,
            planes,
        ),
        json::text_entry(r@, "name"@) == Some(identity.capsule_name@),
        json::text_entry(r@, "version"@) == Some(identity.capsule_version@),
        json::text_entry(r@, "url"@) == Some(identity.capsule_url@),
        json::text_entry(r@, "session_id"@) == Some(identity.session_id@),
        json::entry(r@, "capabilities"@) is Some,
        json::entry(json::entry(r@, "capabilities"@)->0, "shell"@) == Some(
            JsonView::Bool(capability_policy.shell_allow@.len() > 0),
        ),
        json::entry(json::entry(r@, "capabilities"@)->0, "network"@) == Some(
            JsonView::Bool(capability_policy.network_allow@.len() > 0),
        ),
        json::entry(json::entry(r@, "capabilities"@)->0, "streaming"@) == Some(
            JsonView::Bool(task_acceptance !is NoTasks),
        ),
        json::entry(json::entry(r@, "capabilities"@)->0, "tools"@) matches Some(
            JsonView::Array(tools),
        ) && tools.len() <= installed_artifacts@.len() && tools == text_values(
            visible_names(installed_artifacts@),
        ) && forall|name: Seq<char>|
            #![trigger tools.contains(JsonView::Text(name))]
            tools.contains(JsonView::Text(name)) <==> exists|i: int|
                0 <= i < installed_artifacts@.len() && (#[trigger] installed_artifacts@[i]).llm_visible
                    && installed_artifacts@[i].name@ == name,
        json::entry(r@, "serves"@) is Some,
        json::entry(json::entry(r@, "serves"@)->0, "methods"@) matches Some(
            JsonView::Array(methods),
        ) && forall|method: DoorMethod|
            #![trigger method.name()]
            methods.contains(JsonView::Text(method.name())) <==> !(task_acceptance is NoTasks && (
            method is MessageSend || method is MessageStream)),
        json::entry(json::entry(r@, "serves"@)->0, "planes"@) matches Some(
            JsonView::Array(listed),
        ) && listed.len() <= 2 && (planes.files ==> listed[0] == JsonView::Text("files"@)) && (
        listed.contains(JsonView::Text("files"@)) <==> planes.files) && (listed.contains(
            JsonView::Text("peer_files"@),
        ) <==> planes.peer_files),
{
    let tools = visible_tools(installed_artifacts);
    let methods = served_methods(task_acceptance);
    let streaming = text::list_contains(
        methods.as_slice(),
        DoorMethod::MessageStream.wire_name(),
    );
    let mut declared: Vec<String> = Vec::new();
    proof {
        assert(text::texts(declared@) =~= Seq::<Seq<char>>::empty());
    }
    let ghost first = declared@;
    if planes.files {
        declared.push("files".to_owned());
        proof {
            assert(text::texts(declared@) =~= text::texts(first).push("files"@));
        }
    }
    let ghost second = declared@;
    if planes.peer_files {
        declared.push("peer_files".to_owned());
        proof {
            assert(text::texts(declared@) =~= text::texts(second).push("peer_files"@));
        }
    }
    let mut capabilities = json::empty_object();
    capabilities = json::with(capabilities, "tools", text_array(tools.as_slice()));
    capabilities = json::with(
        capabilities,
        "shell",
        Json::Bool(capability_policy.shell_allow.len() > 0),
    );
    capabilities = json::with(
        capabilities,
        "network",
        Json::Bool(capability_policy.network_allow.len() > 0),
    );
    capabilities = json::with(capabilities, "streaming", Json::Bool(streaming));
    let mut serves = json::empty_object();
    serves = json::with(serves, "methods", text_array(methods.as_slice()));
    serves = json::with(serves, "planes", text_array(declared.as_slice()));
    let mut card = json::empty_object();
    card = json::with(card, "name", json::text_value(identity.capsule_name.as_str()));
    card = json::with(card, "version", json::text_value(identity.capsule_version.as_str()));
    card = json::with(card, "url", json::text_value(identity.capsule_url.as_str()));
    card = json::with(card, "session_id", json::text_value(identity.session_id.as_str()));
    card = json::with(card, "capabilities", capabilities);
    let card = json::with(card, "serves", serves);
    proof {
        lemma_card_entries(
            *identity,
            installed_artifacts@,
            *capability_policy,
            task_acceptance,
            planes,
        );
        the_card_lists_what_the_resolver_serves(DoorMethod::MessageStream, task_acceptance);
        assert forall|name: Seq<char>|
            #![trigger text_values(visible_names(installed_artifacts@)).contains(JsonView::Text(name))]
            text_values(visible_names(installed_artifacts@)).contains(JsonView::Text(name))
                <==> exists|i: int|
                0 <= i < installed_artifacts@.len()
                    && (#[trigger] installed_artifacts@[i]).llm_visible
                    && installed_artifacts@[i].name@ == name by {
            lemma_text_values(visible_names(installed_artifacts@), name);
            lemma_visible_names(installed_artifacts@, name);
        }
        let served = served_names(all_methods(), task_acceptance);
        assert forall|method: DoorMethod|
            #![trigger method.name()]
            text_values(served).contains(JsonView::Text(method.name())) <==> !(task_acceptance
                is NoTasks && (method is MessageSend || method is MessageStream)) by {
            lemma_text_values(served, method.name());
            the_card_lists_what_the_resolver_serves(method, task_acceptance);
            names_resolve_to_their_methods(method, task_acceptance);
        }
        lemma_text_values(plane_names(planes), "files"@);
        lemma_text_values(plane_names(planes), "peer_files"@);
        lemma_plane_names(planes);
        lemma_no_more_names(installed_artifacts@);
    }
    card
}

proof fn lemma_text_values(v: Seq<Seq<char>>, s: Seq<char>)
    ensures
        text_values(v).contains(JsonView::Text(s)) <==> v.contains(s),
{
    if v.contains(s) {
        let i = choose|i: int| 0 <= i < v.len() && v[i] == s;
        assert(text_values(v)[i] == JsonView::Text(s));
    }
    if text_values(v).contains(JsonView::Text(s)) {
        let i = choose|i: int| 0 <= i < v.len() && text_values(v)[i] == JsonView::Text(s);
        assert(v[i] == s);
    }
}

proof fn lemma_no_more_names(artifacts: Seq<InstalledArtifactSummary>)
    ensures
        visible_names(artifacts).len() <= artifacts.len(),
    decreases artifacts.len(),
{
    if artifacts.len() > 0 {
        lemma_no_more_names(artifacts.drop_last());
    }
}

proof fn lemma_visible_names(artifacts: Seq<InstalledArtifactSummary>, name: Seq<char>)
    ensures
        visible_names(artifacts).contains(name) <==> exists|i: int|
            0 <= i < artifacts.len() && (#[trigger] artifacts[i]).llm_visible && artifacts[i].name@
                == name,
    decreases artifacts.len(),
{
    if artifacts.len() > 0 {
        let front = artifacts.drop_last();
        let before = visible_names(front);
        let after = visible_names(artifacts);
        let last = artifacts.last();
        lemma_visible_names(front, name);
        if before.contains(name) {
            let i = choose|i: int| 0 <= i < before.len() && before[i] == name;
            assert(after[i] == name);
            let k = choose|k: int|
                0 <= k < front.len() && (#[trigger] front[k]).llm_visible && front[k].name@ == name;
            assert(artifacts[k] == front[k]);
        }
        assert(artifacts[artifacts.len() - 1] == last);
        if last.llm_visible && last.name@ == name {
            assert(after[before.len() as int] == name);
        }
        if after.contains(name) {
            let i = choose|i: int| 0 <= i < after.len() && after[i] == name;
            if i < before.len() {
                assert(before[i] == name);
            }
        }
        if exists|i: int|
            0 <= i < artifacts.len() && (#[trigger] artifacts[i]).llm_visible && artifacts[i].name@
                == name {
            let k = choose|k: int|
                0 <= k < artifacts.len() && (#[trigger] artifacts[k]).llm_visible
                    && artifacts[k].name@ == name;
            if k < front.len() {
                assert(front[k] == artifacts[k]);
            }
        }
    }
}

proof fn lemma_plane_names(planes: DeclaredPlanes)
    ensures
        plane_names(planes).contains("files"@) <==> planes.files,
        plane_names(planes).contains("peer_files"@) <==> planes.peer_files,
{
    reveal_strlit("files");
    reveal_strlit("peer_files");
    assert("files"@.len() == 5 && "peer_files"@.len() == 10);
    let names = plane_names(planes);
    if planes.files {
        assert(names[0] == "files"@);
    }
    if planes.peer_files {
        assert(names[names.len() - 1] == "peer_files"@);
    }
}

proof fn lemma_card_entries(
    identity: CapsuleIdentity,
    artifacts: Seq<InstalledArtifactSummary>,
    policy: CapabilityPolicy,
    acceptance: TaskAcceptance,
    planes: DeclaredPlanes,
)
    ensures
        ({
            let card = card_of(identity, artifacts, policy, acceptance, planes);
            let methods = served_names(all_methods(), acceptance);
            &&& json::text_entry(card, "name"@) == Some(identity.capsule_name@)
            &&& json::text_entry(card, "version"@) == Some(identity.capsule_version@)
            &&& json::text_entry(card, "url"@) == Some(identity.capsule_url@)
            &&& json::text_entry(card, "session_id"@) == Some(identity.session_id@)
            &&& json::entry(card, "capabilities"@) is Some
            &&& json::entry(card, "serves"@) is Some
            &&& json::entry(json::entry(card, "capabilities"@)->0, "tools"@) == Some(
                JsonView::Array(text_values(visible_names(artifacts))),
            )
            &&& json::entry(json::entry(card, "capabilities"@)->0, "shell"@) == Some(
                JsonView::Bool(policy.shell_allow@.len() > 0),
            )
            &&& json::entry(json::entry(card, "capabilities"@)->0, "network"@) == Some(
                JsonView::Bool(policy.network_allow@.len() > 0),
            )
            &&& json::entry(json::entry(card, "capabilities"@)->0, "streaming"@) == Some(
                JsonView::Bool(methods.contains(DoorMethod::MessageStream.name())),
            )
            &&& json::entry(json::entry(card, "serves"@)->0, "methods"@) == Some(
                JsonView::Array(text_values(methods)),
            )
            &&& json::entry(json::entry(card, "serves"@)->0, "planes"@) == Some(
                JsonView::Array(text_values(plane_names(planes))),
            )
        }),
{
    reveal_strlit("name");
    reveal_strlit("version");
    reveal_strlit("url");
    reveal_strlit("session_id");
    reveal_strlit("capabilities");
    reveal_strlit("serves");
    reveal_strlit("tools");
    reveal_strlit("shell");
    reveal_strlit("network");
    reveal_strlit("streaming");
    reveal_strlit("methods");
    reveal_strlit("planes");
    assert("name"@.len() == 4 && "version"@.len() == 7 && "url"@.len() == 3 && "session_id"@.len()
        == 10 && "capabilities"@.len() == 12 && "serves"@.len() == 6);
    assert("tools"@[0] == 't' && "shell"@[0] == 's' && "network"@[0] == 'n' && "streaming"@.len()
        == 9 && "shell"@.len() == 5);
    assert("methods"@[0] == 'm' && "planes"@[0] == 'p');
    let card = card_of(identity, artifacts, policy, acceptance, planes);
    let all = card->Object_0;
    let one = all.drop_first();
    let two = one.drop_first();
    let three = two.drop_first();
    let four = three.drop_first();
    let five = four.drop_first();
    assert(one[0] == all[1] && two[0] == all[2] && three[0] == all[3] && four[0] == all[4]
        && five[0] == all[5]);
    reveal_with_fuel(json::entry_in, 7);
    let can = json::entry(card, "capabilities"@)->0->Object_0;
    assert(can.drop_first()[0] == can[1]);
    assert(can.drop_first().drop_first()[0] == can[2]);
    assert(can.drop_first().drop_first().drop_first()[0] == can[3]);
    let serves = json::entry(card, "serves"@)->0->Object_0;
    assert(serves.drop_first()[0] == serves[1]);
}

// ── Reading a request ────────────────────────────────────────────────────────

/// The names of the two headers a completion carries, and the prefix of the operator plane.
#[derive(Debug, PartialEq, Eq)]
pub struct DoorNames {
    pub delegation_id_header: String,
    pub completion_session_header: String,
    pub resource_prefix: String,
}

/// The method and path of a request line; empty where it has none.
pub open spec fn request_parts(line: Seq<char>) -> (Seq<char>, Seq<char>) {
    let words = text::words(line);
    (
        if words.len() > 0 {
            words[0]
        } else {
            Seq::empty()
        },
        if words.len() > 1 {
            words[1]
        } else {
            Seq::empty()
        },
    )
}

/// The method and path of a request line.
pub fn parse_request_line(line: &str) -> (r: (String, String))
    ensures
        (r.0@, r.1@) == request_parts(line@),
{
    let words = text::split_words(line);
    let ghost all = text::words(line@);
    proof {
        assert(all == text::texts(words@));
        assert(all.len() == words@.len());
        reveal_strlit("");
        assert(""@ =~= Seq::<char>::empty());
    }
    let method = if words.len() > 0 {
        proof {
            assert(all[0] == words@[0]@);
        }
        words[0].clone()
    } else {
        "".to_owned()
    };
    let path = if words.len() > 1 {
        proof {
            assert(all[1] == words@[1]@);
        }
        words[1].clone()
    } else {
        "".to_owned()
    };
    (method, path)
}

/// What the headers of a request say, as far as the door reads them.
#[derive(Debug, PartialEq, Eq)]
pub struct RequestHead {
    pub content_length: u64,
    pub is_json: bool,
    pub traceparent: Option<String>,
    pub last_event_id: Option<u64>,
    pub audience: Option<String>,
    pub task_origin: Option<String>,
    pub task_trust: Option<String>,
    pub delegation_id: Option<String>,
    pub completion_session: Option<String>,
}

/// What a [`RequestHead`] stands for.
#[verifier::ext_equal]
pub struct RequestView {
    pub content_length: u64,
    pub is_json: bool,
    pub traceparent: Option<Seq<char>>,
    pub last_event_id: Option<u64>,
    pub audience: Option<Seq<char>>,
    pub task_origin: Option<Seq<char>>,
    pub task_trust: Option<Seq<char>>,
    pub delegation_id: Option<Seq<char>>,
    pub completion_session: Option<Seq<char>>,
}

impl View for RequestHead {
    type V = RequestView;

    open spec fn view(&self) -> RequestView {
        RequestView {
            content_length: self.content_length,
            is_json: self.is_json,
            traceparent: text::opt_text(self.traceparent),
            last_event_id: self.last_event_id,
            audience: text::opt_text(self.audience),
            task_origin: text::opt_text(self.task_origin),
            task_trust: text::opt_text(self.task_trust),
            delegation_id: text::opt_text(self.delegation_id),
            completion_session: text::opt_text(self.completion_session),
        }
    }
}

/// A head without headers.
pub open spec fn bare_head() -> RequestView {
    RequestView {
        content_length: 0,
        is_json: false,
        traceparent: None,
        last_event_id: None,
        audience: None,
        task_origin: None,
        task_trust: None,
        delegation_id: None,
        completion_session: None,
    }
}

/// The value of a header line of that name, trimmed; the line is already in lower case.
pub open spec fn value_of(lower: Seq<char>, name: Seq<char>) -> Option<Seq<char>> {
    let front = name + ":"@;
    if front.is_prefix_of(lower) {
        Some(text::trim(lower.skip(front.len() as int)))
    } else {
        None
    }
}

/// A number a header value writes.
pub open spec fn number_in(value: Seq<char>, max: nat) -> Option<u64> {
    match text::unsigned(value, max) {
        Some(n) => Some(n as u64),
        None => None,
    }
}

/// A head with one more header line read into it. The whole line is in ASCII lower case, and the
/// first of the known names it carries is the one that counts.
pub open spec fn absorbed(
    head: RequestView,
    line: Seq<char>,
    delegation: Seq<char>,
    completion: Seq<char>,
) -> RequestView {
    let lower = text::lowered(line);
    match value_of(lower, "content-length"@) {
        Some(v) => RequestView {
            content_length: match number_in(v, usize::MAX as nat) {
                Some(n) => n,
                None => 0,
            },
            ..head
        },
        None => if "content-type:"@.is_prefix_of(lower) && text::holds(
            lower,
            "application/json"@,
        ) {
            RequestView { is_json: true, ..head }
        } else {
            match value_of(lower, "traceparent"@) {
                Some(v) => RequestView { traceparent: Some(v), ..head },
                None => match value_of(lower, "last-event-id"@) {
                    Some(v) => RequestView {
                        last_event_id: number_in(v, u64::MAX as nat),
                        ..head
                    },
                    None => absorbed_claims(head, lower, delegation, completion),
                },
            }
        },
    }
}

/// The part of [`absorbed`] that reads what a peer claims.
pub open spec fn absorbed_claims(
    head: RequestView,
    lower: Seq<char>,
    delegation: Seq<char>,
    completion: Seq<char>,
) -> RequestView {
    match value_of(lower, peer_handoff::AUDIENCE_HEADER@) {
        Some(v) => RequestView { audience: Some(v), ..head },
        None => match value_of(lower, origin::PEER_ORIGIN_HEADER@) {
            Some(v) => RequestView { task_origin: Some(v), ..head },
            None => match value_of(lower, origin::PEER_TRUST_HEADER@) {
                Some(v) => RequestView { task_trust: Some(v), ..head },
                None => match value_of(lower, delegation) {
                    Some(v) => RequestView { delegation_id: Some(v), ..head },
                    None => match value_of(lower, completion) {
                        Some(v) => RequestView { completion_session: Some(v), ..head },
                        None => head,
                    },
                },
            },
        },
    }
}

/// The head that a list of header lines makes, up to the first blank one.
pub open spec fn head_of(
    lines: Seq<Seq<char>>,
    delegation: Seq<char>,
    completion: Seq<char>,
) -> RequestView
    decreases lines.len(),
{
    if lines.len() == 0 {
        bare_head()
    } else {
        let before = head_of(lines.drop_last(), delegation, completion);
        if outgoing::ended(lines.drop_last()) || text::trim(lines.last()).len() == 0 {
            before
        } else {
            absorbed(before, lines.last(), delegation, completion)
        }
    }
}

fn header_value(lower: &str, name: &str) -> (r: Option<String>)
    ensures
        text::opt_text(r) == value_of(lower@, name@),
{
    let front = text::cat2(name, ":");
    match text::strip_prefix(lower, front.as_str()) {
        Some(rest) => Some(text::trimmed(rest.as_str())),
        None => None,
    }
}

impl RequestHead {
    /// A head without headers.
    pub fn new() -> (r: Self)
        ensures
            r@ == bare_head(),
    {
        RequestHead {
            content_length: 0,
            is_json: false,
            traceparent: None,
            last_event_id: None,
            audience: None,
            task_origin: None,
            task_trust: None,
            delegation_id: None,
            completion_session: None,
        }
    }

    /// Reads one more header line into this head.
    pub fn absorb(&mut self, line: &str, names: &DoorNames)
        ensures
            final(self)@ == absorbed(
                old(self)@,
                line@,
                names.delegation_id_header@,
                names.completion_session_header@,
            ),
    {
        let lowered_line = text::ascii_lowered(line);
        let lower = lowered_line.as_str();
        if let Some(v) = header_value(lower, "content-length") {
            self.content_length = match text::parse_up_to(v.as_str(), usize::MAX as u64) {
                Some(n) => n,
                None => 0,
            };
        } else if text::starts_with(lower, "content-type:") && text::contains(
            lower,
            "application/json",
        ) {
            self.is_json = true;
        } else if let Some(v) = header_value(lower, "traceparent") {
            self.traceparent = Some(v);
        } else if let Some(v) = header_value(lower, "last-event-id") {
            self.last_event_id = text::parse_u64(v.as_str());
        } else if let Some(v) = header_value(lower, peer_handoff::AUDIENCE_HEADER) {
            self.audience = Some(v);
        } else if let Some(v) = header_value(lower, origin::PEER_ORIGIN_HEADER) {
            self.task_origin = Some(v);
        } else if let Some(v) = header_value(lower, origin::PEER_TRUST_HEADER) {
            self.task_trust = Some(v);
        } else if let Some(v) = header_value(lower, names.delegation_id_header.as_str()) {
            self.delegation_id = Some(v);
        } else if let Some(v) = header_value(lower, names.completion_session_header.as_str()) {
            self.completion_session = Some(v);
        }
    }

    /// The head that a list of header lines makes, up to the first blank one.
    pub fn read(lines: &[String], names: &DoorNames) -> (r: Self)
        ensures
            r@ == head_of(
                text::texts(lines@),
                names.delegation_id_header@,
                names.completion_session_header@,
            ),
    {
        let ghost all = text::texts(lines@);
        let ghost delegation = names.delegation_id_header@;
        let ghost completion = names.completion_session_header@;
        let mut head = RequestHead::new();
        let mut i: usize = 0;
        let mut done = false;
        while i < lines.len()
            invariant
                i <= lines@.len(),
                all == text::texts(lines@),
                delegation == names.delegation_id_header@,
                completion == names.completion_session_header@,
                head@ == head_of(all.take(i as int), delegation, completion),
                done == outgoing::ended(all.take(i as int)),
            decreases lines@.len() - i,
        {
            let blank = text::is_blank(lines[i].as_str());
            proof {
                let longer = all.take(i + 1);
                assert(longer.drop_last() =~= all.take(i as int));
                assert(longer.last() == lines@[i as int]@);
                if done {
                    let j = choose|j: int|
                        0 <= j < all.take(i as int).len() && text::trim(
                            #[trigger] all.take(i as int)[j],
                        ).len() == 0;
                    assert(longer[j] == all.take(i as int)[j]);
                }
                if blank {
                    assert(longer[i as int] == lines@[i as int]@);
                }
                if !done && !blank {
                    assert forall|j: int| 0 <= j < longer.len() implies text::trim(
                        #[trigger] longer[j],
                    ).len() != 0 by {
                        if j < i {
                            assert(longer[j] == all.take(i as int)[j]);
                        }
                    }
                }
            }
            if !done && !blank {
                head.absorb(lines[i].as_str(), names);
            }
            done = done || blank;
            i += 1;
        }
        proof {
            assert(all.take(all.len() as int) =~= all);
        }
        head
    }

    /// The provenance of a task this request starts, classified once at the door.
    pub fn provenance(&self) -> (r: TaskProvenance)
        ensures
            r.spec_origin() == origin::wire_origin(self@.task_origin),
            r.spec_trust() == origin::derived_trust(
                origin::wire_origin(self@.task_origin),
                origin::wire_trust(self@.task_trust),
            ),
    {
        let claimed = match &self.task_origin {
            Some(s) => Some(s.as_str()),
            None => None,
        };
        let trust = match &self.task_trust {
            Some(s) => Some(s.as_str()),
            None => None,
        };
        origin::from_wire(claimed, trust)
    }

    /// The delegation this request reports on. It means something only on a completion, and is
    /// ignored on everything else.
    pub fn delegation(&self) -> (r: Option<String>)
        ensures
            text::opt_text(r) == (if origin::wire_origin(self@.task_origin)
                == TaskOrigin::Completion {
                self@.delegation_id
            } else {
                None
            }),
    {
        match self.provenance().origin() {
            TaskOrigin::Completion => text::clone_opt(&self.delegation_id),
            _ => None,
        }
    }
}

// ── Routing ──────────────────────────────────────────────────────────────────

/// Where a request goes.
#[derive(Debug, Clone, Copy, PartialEq, Eq, Structural)]
pub enum Route {
    /// The peer plane, whatever the method.
    Peer,
    /// The operator plane, whatever the method.
    Resource,
    /// The agent card.
    Card,
    /// JSON-RPC: the body has to be read.
    Rpc,
    NotFound,
}

/// Where a request goes. The two planes are routed on their paths alone, the peer plane first.
pub open spec fn route_of(
    method: Seq<char>,
    path: Seq<char>,
    is_json: bool,
    content_length: u64,
    resource_prefix: Seq<char>,
) -> Route {
    if peer_handoff::on_peer_plane(path) {
        Route::Peer
    } else if resource_prefix.is_prefix_of(path) {
        Route::Resource
    } else if method == "GET"@ && path == "/.well-known/agent-card.json"@ {
        Route::Card
    } else if method == "POST"@ && (path == "/"@ || path == ""@) && is_json && content_length > 0 {
        Route::Rpc
    } else {
        Route::NotFound
    }
}

/// Where a request goes.
pub fn route(method: &str, path: &str, head: &RequestHead, names: &DoorNames) -> (r: Route)
    ensures
        r == route_of(
            method@,
            path@,
            head.is_json,
            head.content_length,
            names.resource_prefix@,
        ),
        r is Peer <==> peer_handoff::on_peer_plane(path@),
        r is Resource <==> !peer_handoff::on_peer_plane(path@)
            && names.resource_prefix@.is_prefix_of(path@),
        r is Card ==> method@ == "GET"@ && path@ == "/.well-known/agent-card.json"@,
        method@ == "GET"@ && path@ == "/.well-known/agent-card.json"@ ==> !(r is Rpc) && !(
        r is NotFound),
        r is Rpc ==> method@ == "POST"@ && (path@ == "/"@ || path@ == ""@) && head.is_json
            && head.content_length > 0,
        method@ == "POST"@ && (path@ == "/"@ || path@ == ""@) && head.is_json
            && head.content_length > 0 ==> !(r is NotFound),
{
    if peer_handoff::is_peer_path(path) {
        Route::Peer
    } else if text::starts_with(path, names.resource_prefix.as_str()) {
        Route::Resource
    } else if text::same(method, "GET") && text::same(path, "/.well-known/agent-card.json") {
        Route::Card
    } else if text::same(method, "POST") && (text::same(path, "/") || text::same(path, ""))
        && head.is_json && head.content_length > 0 {
        Route::Rpc
    } else {
        Route::NotFound
    }
}

/// A task as it is reported.
#[derive(Debug, PartialEq, Eq)]
pub struct A2aTask {
    pub id: String,
    pub context_id: String,
    pub state: String,
    pub artifacts: Option<Json>,
}

/// What a [`A2aTask`] stands for.
#[verifier::ext_equal]
pub struct TaskView {
    pub id: Seq<char>,
    pub context_id: Seq<char>,
    pub state: Seq<char>,
    pub artifacts: Option<JsonView>,
}

impl View for A2aTask {
    type V = TaskView;

    open spec fn view(&self) -> TaskView {
        TaskView {
            id: self.id@,
            context_id: self.context_id@,
            state: self.state@,
            artifacts: json::owned_view(self.artifacts),
        }
    }
}

/// What an optional task stands for.
pub open spec fn opt_task(o: Option<A2aTask>) -> Option<TaskView> {
    match o {
        Some(t) => Some(t@),
        None => None,
    }
}

/// What a JSON-RPC reply carries.
#[derive(Debug, PartialEq, Eq)]
pub enum ReplyBody {
    Task(A2aTask),
    Value(Json),
    Error { code: i64, message: String },
}

/// A JSON-RPC reply.
#[derive(Debug, PartialEq, Eq)]
pub struct RpcReply {
    pub id: Json,
    pub body: ReplyBody,
}

/// What a [`ReplyBody`] stands for.
pub enum BodyView {
    Task(TaskView),
    Value(JsonView),
    Error { code: int, message: Seq<char> },
}

/// What a [`RpcReply`] stands for.
pub struct ReplyView {
    pub id: JsonView,
    pub body: BodyView,
}

impl View for RpcReply {
    type V = ReplyView;

    open spec fn view(&self) -> ReplyView {
        ReplyView {
            id: self.id@,
            body: match self.body {
                ReplyBody::Task(t) => BodyView::Task(t@),
                ReplyBody::Value(v) => BodyView::Value(v@),
                ReplyBody::Error { code, message } => BodyView::Error {
                    code: code as int,
                    message: message@,
                },
            },
        }
    }
}

/// The reply that refuses a request.
pub open spec fn error_reply(id: JsonView, code: int, message: Seq<char>) -> ReplyView {
    ReplyView { id, body: BodyView::Error { code, message } }
}

/// The reply that carries a task.
pub open spec fn task_reply(id: JsonView, task: TaskView) -> ReplyView {
    ReplyView { id, body: BodyView::Task(task) }
}

fn refuse(id: Json, code: i64, message: &str) -> (r: RpcReply)
    ensures
        r@ == error_reply(id@, code as int, message@),
        r.id == id,
        r.body matches ReplyBody::Error { code: c, message: m } && c == code && m@ == message@,
{
    RpcReply { id, body: ReplyBody::Error { code, message: message.to_owned() } }
}

/// A JSON-RPC request.
#[derive(Debug, PartialEq, Eq)]
pub struct JsonRpcRequest {
    pub id: Json,
    pub method: String,
    pub params: Json,
}

/// What is done with the body of a JSON-RPC request.
#[derive(Debug, PartialEq, Eq)]
pub enum Dispatch {
    /// One reply, and nothing else.
    Reply(RpcReply),
    /// A method that replies with one body.
    Single(DoorMethod, JsonRpcRequest),
    /// The connection becomes the stream of a task.
    Stream(JsonRpcRequest),
    /// The connection becomes an observer's.
    Watch,
}

/// The id of a request, null where there is no request.
pub open spec fn id_of_request(req: Option<JsonRpcRequest>) -> JsonView {
    match req {
        Some(r) => r.id@,
        None => JsonView::Null,
    }
}

/// Whether a completion is addressed to another session than this one.
pub open spec fn misaddressed(
    task_origin: Option<Seq<char>>,
    completion_session: Option<Seq<char>>,
    session_id: Seq<char>,
) -> bool {
    origin::wire_origin(task_origin) == TaskOrigin::Completion && completion_session != Some(
        session_id,
    )
}

/// Whether a dispatch is the right one: a completion for another session is refused first, then a
/// body that is no request, then a method that is not served.
pub open spec fn right_dispatch(
    head: RequestView,
    session_id: Seq<char>,
    acceptance: TaskAcceptance,
    req: Option<JsonRpcRequest>,
    r: Dispatch,
) -> bool {
    if misaddressed(head.task_origin, head.completion_session, session_id) {
        let addressed = match head.completion_session {
            Some(s) => s,
            None => "<unaddressed>"@,
        };
        r is Reply && r->Reply_0@ == error_reply(
            id_of_request(req),
            -32004,
            "completion is addressed to session "@ + addressed
                + ", which is not the session running here"@,
        )
    } else {
        match req {
            None => r is Reply && r->Reply_0@ == error_reply(
                JsonView::Null,
                -32700,
                "Parse error"@,
            ),
            Some(request) => match resolved(request.method@, acceptance) {
                None => r is Reply && r->Reply_0@ == error_reply(
                    request.id@,
                    -32601,
                    "Method not found"@,
                ),
                Some(DoorMethod::MessageStream) => r == Dispatch::Stream(request),
                Some(DoorMethod::StreamWatch) => r is Watch,
                Some(method) => r == Dispatch::Single(method, request),
            },
        }
    }
}

/// Decides what is done with the body of a JSON-RPC request. `req` is that body as a request, or
/// nothing when it is none.
pub fn dispatch(
    head: &RequestHead,
    session_id: &str,
    acceptance: TaskAcceptance,
    req: Option<JsonRpcRequest>,
) -> (r: Dispatch)
    ensures
        right_dispatch(head@, session_id@, acceptance, req, r),
        r is Reply ==> r->Reply_0.body is Error,
        r is Reply && r->Reply_0.body->code == -32004 <==> head.task_origin is Some
            && head.task_origin->0@ == "completion"@ && !(head.completion_session is Some
            && head.completion_session->0@ == session_id@),
        r is Reply && r->Reply_0.body->code == -32700 ==> req is None,
        r is Reply && r->Reply_0.body->code == -32601 ==> req is Some && req->0.method@
            != "stream/watch"@ && req->0.method@ != "tasks/get"@ && req->0.method@
            != "tasks/cancel"@ && req->0.method@ != "session/stop"@,
        r is Reply ==> r->Reply_0.body->code == -32004 || r->Reply_0.body->code == -32700
            || r->Reply_0.body->code == -32601,
        r is Reply && req is Some ==> r->Reply_0.id == req->0.id,
        head.task_origin is None && req is None ==> r is Reply && r->Reply_0.body->code == -32700,
        head.task_origin is None && req is Some && req->0.method@ == "message/stream"@ && !(
        acceptance is NoTasks) ==> r == Dispatch::Stream(req->0),
        head.task_origin is None && req is Some && req->0.method@ == "stream/watch"@
            ==> r is Watch,
        head.task_origin is None && req is Some && req->0.method@ == "message/send"@ && !(
        acceptance is NoTasks) ==> r == Dispatch::Single(DoorMethod::MessageSend, req->0),
        head.task_origin is None && req is Some && req->0.method@ == "tasks/get"@ ==> r
            == Dispatch::Single(DoorMethod::TasksGet, req->0),
        head.task_origin is None && req is Some && req->0.method@ == "tasks/cancel"@ ==> r
            == Dispatch::Single(DoorMethod::TasksCancel, req->0),
        head.task_origin is None && req is Some && req->0.method@ == "session/stop"@ ==> r
            == Dispatch::Single(DoorMethod::SessionStop, req->0),
        r is Stream ==> req == Some(r->Stream_0) && req->0.method@ == "message/stream"@ && !(
        acceptance is NoTasks),
        r is Watch ==> req is Some && req->0.method@ == "stream/watch"@,
        r is Single ==> req == Some(r->Single_1) && !(r->Single_0 is MessageStream)
            && !(r->Single_0 is StreamWatch),
        r matches Dispatch::Single(DoorMethod::MessageSend, _) ==> req->0.method@
            == "message/send"@ && !(acceptance is NoTasks),
        r matches Dispatch::Single(DoorMethod::TasksGet, _) ==> req->0.method@ == "tasks/get"@,
        r matches Dispatch::Single(DoorMethod::TasksCancel, _) ==> req->0.method@
            == "tasks/cancel"@,
        r matches Dispatch::Single(DoorMethod::SessionStop, _) ==> req->0.method@
            == "session/stop"@,
{
    proof {
        origin::origins_round_trip(TaskOrigin::Completion);
    }
    let is_completion = match head.provenance().origin() {
        TaskOrigin::Completion => true,
        _ => false,
    };
    let addressed_here = match &head.completion_session {
        Some(s) => text::same(s.as_str(), session_id),
        None => false,
    };
    if is_completion && !addressed_here {
        let id = match req {
            Some(request) => request.id,
            None => Json::Null,
        };
        let addressed = match &head.completion_session {
            Some(s) => s.as_str(),
            None => "<unaddressed>",
        };
        let message = text::cat3(
            "completion is addressed to session ",
            addressed,
            ", which is not the session running here",
        );
        return Dispatch::Reply(refuse(id, -32004, message.as_str()));
    }
    match req {
        None => Dispatch::Reply(refuse(Json::Null, -32700, "Parse error")),
        Some(request) => match DoorMethod::resolve(request.method.as_str(), acceptance) {
            None => Dispatch::Reply(refuse(request.id, -32601, "Method not found")),
            Some(DoorMethod::MessageStream) => Dispatch::Stream(request),
            Some(DoorMethod::StreamWatch) => Dispatch::Watch,
            Some(method) => Dispatch::Single(method, request),
        },
    }
}

// ── Messages ─────────────────────────────────────────────────────────────────

/// A message as it arrived.
#[derive(Debug, PartialEq, Eq)]
pub struct A2aMessage {
    pub message_id: String,
    pub context_id: Option<String>,
    pub text: String,
}

/// The value a request's message is read from: its `message`, and the whole of its params when it
/// has none.
pub open spec fn message_value(params: JsonView) -> JsonView {
    match json::entry(params, "message"@) {
        Some(v) => v,
        None => params,
    }
}

/// The value a request's message is read from.
pub fn message_of_params(params: &Json) -> (r: &Json)
    ensures
        r@ == message_value(params@),
        json::entry(params@, "message"@) is Some ==> Some(r@) == json::entry(params@, "message"@),
        json::entry(params@, "message"@) is None ==> r == params,
{
    match json::get(params, "message") {
        Some(v) => v,
        None => params,
    }
}

/// What became of offering a message to a task that waits for input.
#[derive(Debug, PartialEq, Eq)]
pub enum InputDelivery {
    /// No task waits, or the one that does would not take it.
    NotDelivered,
    /// Delivered, and the task as it now is, where it can still be found.
    Delivered(Option<A2aTask>),
}

/// What happens to a message that arrived by `message/send`, before it is queued.
#[derive(Debug, PartialEq, Eq)]
pub enum SendStep {
    /// The reply is settled.
    Reply(RpcReply),
    /// The message goes on to be accepted or rejected.
    Accept(Json, A2aMessage),
}

/// Whether a step is the right one for a message: one that cannot be read is refused, one that was
/// delivered as input is answered with the task it went to, and every other goes on.
pub open spec fn right_send(
    id: JsonView,
    message: Result<A2aMessage, String>,
    delivery: InputDelivery,
    r: SendStep,
) -> bool {
    match message {
        Err(e) => r is Reply && r->Reply_0@ == error_reply(
            id,
            -32602,
            "Invalid params: "@ + e@,
        ),
        Ok(m) => match delivery {
            InputDelivery::Delivered(Some(task)) => r is Reply && r->Reply_0@ == task_reply(
                id,
                task@,
            ),
            _ => r is Accept && r->Accept_0@ == id && r->Accept_1 == m,
        },
    }
}

/// Takes a `message/send` as far as the question of accepting it. `message` is the message as it
/// was read, or why it could not be; `delivery` is what offering it as input came to.
pub fn receive_message(id: Json, message: Result<A2aMessage, String>, delivery: InputDelivery) -> (r:
    SendStep)
    ensures
        right_send(id@, message, delivery, r),
        r is Accept <==> message is Ok && !(delivery matches InputDelivery::Delivered(Some(_))),
        r is Accept ==> r->Accept_0 == id && r->Accept_1 == message->Ok_0,
        r is Reply ==> r->Reply_0.id == id,
        message is Err ==> r->Reply_0.body is Error && r->Reply_0.body->code == -32602,
        message is Ok && r is Reply ==> r->Reply_0.body == ReplyBody::Task(
            delivery->Delivered_0->0,
        ),
{
    match message {
        Err(e) => {
            let words = text::cat2("Invalid params: ", e.as_str());
            SendStep::Reply(refuse(id, -32602, words.as_str()))
        },
        Ok(m) => match delivery {
            InputDelivery::Delivered(Some(task)) => SendStep::Reply(
                RpcReply { id, body: ReplyBody::Task(task) },
            ),
            _ => SendStep::Accept(id, m),
        },
    }
}

/// The ids of a task that a message starts: a new task id, and the message's own context or a new
/// one.
pub fn task_ids(message: &A2aMessage) -> (r: (String, String))
    ensures
        exists|id: Seq<char>| ids::is_id(id) && r.0@ == #[trigger] ("tsk_"@ + id),
        match message.context_id {
            Some(c) => r.1@ == c@,
            None => exists|id: Seq<char>| ids::is_id(id) && r.1@ == #[trigger] ("ctx_"@ + id),
        },
{
    let first = ids::ordered_id();
    let task_id = text::cat2("tsk_", first.as_str());
    let context_id = match &message.context_id {
        Some(c) => c.clone(),
        None => {
            let second = ids::ordered_id();
            let made = text::cat2("ctx_", second.as_str());
            proof {
                assert(ids::is_id(second@) && made@ == "ctx_"@ + second@);
            }
            made
        },
    };
    (task_id, context_id)
}

/// The task a message starts.
pub open spec fn started(
    message: A2aMessage,
    task_id: Seq<char>,
    context_id: Seq<char>,
    traceparent: Option<Seq<char>>,
    provenance: TaskProvenance,
    delegation_id: Option<Seq<char>>,
    r: IncomingTask,
) -> bool {
    &&& r.task_id@ == task_id
    &&& r.context_id@ == context_id
    &&& r.message_id@ == message.message_id@
    &&& r.message_text@ == message.text@
    &&& text::opt_text(r.traceparent) == traceparent
    &&& r.provenance == provenance
    &&& text::opt_text(r.delegation_id) == delegation_id
}

/// The task a message starts, to be sent to the agent loop.
pub fn incoming_task(
    message: A2aMessage,
    task_id: &str,
    context_id: &str,
    traceparent: Option<String>,
    provenance: TaskProvenance,
    delegation_id: Option<String>,
) -> (r: IncomingTask)
    ensures
        started(
            message,
            task_id@,
            context_id@,
            text::opt_text(traceparent),
            provenance,
            text::opt_text(delegation_id),
            r,
        ),
        r.task_id@ == task_id@ && r.context_id@ == context_id@,
        r.message_id == message.message_id && r.message_text == message.text,
        r.traceparent == traceparent && r.provenance == provenance && r.delegation_id
            == delegation_id,
{
    IncomingTask {
        task_id: task_id.to_owned(),
        context_id: context_id.to_owned(),
        message_id: message.message_id,
        message_text: message.text,
        traceparent,
        provenance,
        delegation_id,
    }
}

/// What became of a message that asked to be queued.
#[derive(Debug, Clone, Copy, PartialEq, Eq, Structural)]
pub enum Admission {
    /// The capsule is busy.
    Busy,
    /// Queued, and handed to the agent loop.
    Queued,
    /// Queued, but the agent loop would not take it.
    SendFailed,
}

/// The reply to a message that asked to be queued. A queue entry that could not be handed on has
/// to be taken back.
pub open spec fn admission_reply(
    id: JsonView,
    task_id: Seq<char>,
    context_id: Seq<char>,
    outcome: Admission,
) -> ReplyView {
    match outcome {
        Admission::Busy => task_reply(
            id,
            TaskView { id: task_id, context_id, state: "rejected"@, artifacts: None },
        ),
        Admission::Queued => task_reply(
            id,
            TaskView { id: task_id, context_id, state: "submitted"@, artifacts: None },
        ),
        Admission::SendFailed => error_reply(id, -32603, "internal error: queue send failed"@),
    }
}

/// The reply to a `message/send` that asked to be queued, and whether the queue entry has to be
/// taken back.
pub fn reply_to_message(id: Json, task_id: String, context_id: String, outcome: Admission) -> (r: (
    RpcReply,
    bool,
))
    ensures
        r.0@ == admission_reply(id@, task_id@, context_id@, outcome),
        r.1 == (outcome == Admission::SendFailed),
        r.0.id == id,
        outcome is SendFailed <==> r.0.body is Error,
        outcome is Queued ==> r.0.body is Task && r.0.body->Task_0.id == task_id
            && r.0.body->Task_0.context_id == context_id && r.0.body->Task_0.state@ == "submitted"@
            && r.0.body->Task_0.artifacts is None,
        outcome is Busy ==> r.0.body is Task && r.0.body->Task_0.id == task_id
            && r.0.body->Task_0.context_id == context_id && r.0.body->Task_0.state@ == "rejected"@
            && r.0.body->Task_0.artifacts is None,
{
    match outcome {
        Admission::Busy => (
            RpcReply {
                id,
                body: ReplyBody::Task(
                    A2aTask {
                        id: task_id,
                        context_id,
                        state: "rejected".to_owned(),
                        artifacts: None,
                    },
                ),
            },
            false,
        ),
        Admission::Queued => (
            RpcReply {
                id,
                body: ReplyBody::Task(
                    A2aTask {
                        id: task_id,
                        context_id,
                        state: "submitted".to_owned(),
                        artifacts: None,
                    },
                ),
            },
            false,
        ),
        Admission::SendFailed => (refuse(id, -32603, "internal error: queue send failed"), true),
    }
}

// ── Tasks and the session ────────────────────────────────────────────────────

/// The reply to a `tasks/get`.
pub open spec fn get_reply(id: JsonView, found: Option<TaskView>) -> ReplyView {
    match found {
        Some(task) => task_reply(id, task),
        None => error_reply(id, -32001, "Task not found"@),
    }
}

/// The reply to a `tasks/get`, with the task it found.
pub fn reply_to_get(id: Json, found: Option<A2aTask>) -> (r: RpcReply)
    ensures
        r@ == get_reply(id@, opt_task(found)),
        r.id == id,
        found is Some ==> r.body == ReplyBody::Task(found->0),
        found is None ==> r.body is Error && r.body->code == -32001,
{
    match found {
        Some(task) => RpcReply { id, body: ReplyBody::Task(task) },
        None => refuse(id, -32001, "Task not found"),
    }
}

/// What asking a task to stop came to.
#[derive(Debug, Clone, Copy, PartialEq, Eq, Structural)]
pub enum CancelOutcome {
    /// No such task.
    Unknown,
    /// It had ended already.
    AlreadyTerminal,
    /// It is recorded as canceled.
    Accepted,
}

/// The task a `tasks/cancel` names.
pub fn task_to_cancel(params: &Json) -> (r: Option<String>)
    ensures
        text::opt_text(r) == json::text_entry(params@, "id"@),
{
    json::get_text(params, "id")
}

/// The reply to a `tasks/cancel` that names no task.
pub fn cancel_without_id(id: Json) -> (r: RpcReply)
    ensures
        r@ == error_reply(id@, -32602, "Invalid params: tasks/cancel requires an id"@),
{
    refuse(id, -32602, "Invalid params: tasks/cancel requires an id")
}

/// The reply to a `tasks/cancel`: only a task this capsule never held is an error. A task that had
/// ended is returned unchanged; one that is stopped now carries what is still running.
pub open spec fn cancel_reply(
    id: JsonView,
    outcome: CancelOutcome,
    found: Option<TaskView>,
    residue: Option<JsonView>,
) -> ReplyView {
    match (outcome, found) {
        (CancelOutcome::AlreadyTerminal, Some(task)) => task_reply(id, task),
        (CancelOutcome::Accepted, Some(task)) => task_reply(
            id,
            TaskView {
                artifacts: match residue {
                    Some(artifact) => Some(
                        JsonView::Array(Seq::<JsonView>::empty().push(artifact)),
                    ),
                    None => None,
                },
                ..task
            },
        ),
        _ => error_reply(id, -32001, "Task not found"@),
    }
}

/// The reply to a `tasks/cancel`.
pub fn reply_to_cancel(
    id: Json,
    outcome: CancelOutcome,
    found: Option<A2aTask>,
    residue: Option<Json>,
) -> (r: RpcReply)
    ensures
        r@ == cancel_reply(id@, outcome, opt_task(found), json::owned_view(residue)),
        r.id == id,
        r.body is Error <==> outcome is Unknown || found is None,
        r.body is Error ==> r.body->code == -32001,
        outcome is AlreadyTerminal && found is Some ==> r.body == ReplyBody::Task(found->0),
        outcome is Accepted && found is Some ==> {
            &&& r.body is Task
            &&& r.body->Task_0.id == found->0.id
            &&& r.body->Task_0.context_id == found->0.context_id
            &&& r.body->Task_0.state == found->0.state
            &&& r.body->Task_0.artifacts is Some <==> residue is Some
            &&& residue is Some ==> r.body->Task_0.artifacts->0@ == JsonView::Array(
                seq![residue->0@],
            )
        },
{
    match (outcome, found) {
        (CancelOutcome::AlreadyTerminal, Some(task)) => RpcReply { id, body: ReplyBody::Task(task) },
        (CancelOutcome::Accepted, Some(task)) => {
            let artifacts = match residue {
                Some(artifact) => Some(json::with_item(json::empty_array(), artifact)),
                None => None,
            };
            RpcReply {
                id,
                body: ReplyBody::Task(
                    A2aTask {
                        id: task.id,
                        context_id: task.context_id,
                        state: task.state,
                        artifacts,
                    },
                ),
            }
        },
        _ => refuse(id, -32001, "Task not found"),
    }
}

/// What a `session/stop` reports: three keys, all three always present.
pub open spec fn stop_report(
    session_id: Seq<char>,
    canceled: Seq<Seq<char>>,
    residue: Seq<JsonView>,
) -> JsonView {
    JsonView::Object(
        json::none().push(("session_id"@, JsonView::Text(session_id))).push(
            ("canceled"@, JsonView::Array(text_values(canceled))),
        ).push(("residue"@, JsonView::Array(residue))),
    )
}

/// The reply to a `session/stop`.
pub open spec fn stop_reply(
    id: JsonView,
    session_id: Seq<char>,
    canceled: Seq<Seq<char>>,
    residue: Seq<JsonView>,
) -> ReplyView {
    ReplyView { id, body: BodyView::Value(stop_report(session_id, canceled, residue)) }
}

/// The reply to a `session/stop`: the tasks this call canceled, and what is left running.
pub fn reply_to_stop(id: Json, session_id: &str, canceled: &[String], residue: Vec<Json>) -> (r:
    RpcReply)
    ensures
        r@ == stop_reply(id@, session_id@, text::texts(canceled@), json::item_views(residue@)),
        r.id == id,
        r.body is Value,
        json::text_entry(r.body->Value_0@, "session_id"@) == Some(session_id@),
        json::entry(r.body->Value_0@, "canceled"@) == Some(
            JsonView::Array(text_values(text::texts(canceled@))),
        ),
        json::entry(r.body->Value_0@, "residue"@) == Some(
            JsonView::Array(json::item_views(residue@)),
        ),
{
    proof {
        lemma_stop_entries(session_id@, text::texts(canceled@), json::item_views(residue@));
    }
    let mut report = json::empty_object();
    report = json::with(report, "session_id", json::text_value(session_id));
    report = json::with(report, "canceled", text_array(canceled));
    report = json::with(report, "residue", Json::Array(residue));
    RpcReply { id, body: ReplyBody::Value(report) }
}

// ── Streams ──────────────────────────────────────────────────────────────────

/// What a connection that became a stream is.
#[derive(Debug, Clone, Copy, PartialEq, Eq, Structural)]
pub enum StreamRole {
    /// It submitted a task, and ends with it.
    Submitter,
    /// It only watches, and stays across tasks.
    Observer,
}

/// What reaches a stream.
#[derive(Debug, PartialEq, Eq)]
pub enum LiveEvent {
    Heartbeat,
    /// A frame, the id it carries if any, and whether it ends a task.
    Frame { frame: String, id: Option<u64>, is_final: bool },
    /// The capsule is gone.
    Closed,
    /// This many frames were lost.
    Lagged(u64),
}

/// What a stream does about it.
#[derive(Debug, PartialEq, Eq)]
pub enum StreamAction {
    /// Nothing: the frame was written before.
    Skip,
    WriteHeartbeat,
    /// Write these bytes and go on.
    Write(String),
    /// Write these bytes and end.
    WriteAndClose(String),
    Close,
}

/// What a [`StreamAction`] stands for.
pub enum ActionView {
    Skip,
    WriteHeartbeat,
    Write(Seq<char>),
    WriteAndClose(Seq<char>),
    Close,
}

impl View for StreamAction {
    type V = ActionView;

    open spec fn view(&self) -> ActionView {
        match *self {
            StreamAction::Skip => ActionView::Skip,
            StreamAction::WriteHeartbeat => ActionView::WriteHeartbeat,
            StreamAction::Write(s) => ActionView::Write(s@),
            StreamAction::WriteAndClose(s) => ActionView::WriteAndClose(s@),
            StreamAction::Close => ActionView::Close,
        }
    }
}

/// The frame that tells a connection how many it lost. It carries no id.
pub open spec fn lagged_frame(missed: u64) -> Seq<char> {
    "event: lagged\ndata: {\"missed\":"@ + text::decimal(missed as nat) + "}\n\n"@
}

/// The frame that tells a connection how many it lost.
pub fn format_lagged_event(missed: u64) -> (r: String)
    ensures
        r@ == lagged_frame(missed),
        ("event: lagged\ndata: {\"missed\":"@ + text::decimal(missed as nat)).is_prefix_of(r@),
{
    text::cat3(
        "event: lagged\ndata: {\"missed\":",
        text::decimal_of(missed).as_str(),
        "}\n\n",
    )
}

/// Whether a frame is new on a connection that wrote up to `last`: one without an id always is.
pub open spec fn is_new(last: Option<u64>, id: Option<u64>) -> bool {
    match (last, id) {
        (Some(l), Some(n)) => n > l,
        _ => true,
    }
}

/// The highest id written once a frame has been.
pub open spec fn after_frame(last: Option<u64>, id: Option<u64>) -> Option<u64> {
    match id {
        Some(n) => if is_new(last, id) {
            Some(n)
        } else {
            last
        },
        None => last,
    }
}

/// What a stream does about an event, and the highest id it has written then. A frame that was
/// already replayed is not written again; the end of a task ends its submitter's stream and never
/// an observer's.
pub open spec fn stream_step(role: StreamRole, last: Option<u64>, event: LiveEvent) -> (
    ActionView,
    Option<u64>,
) {
    match event {
        LiveEvent::Heartbeat => (ActionView::WriteHeartbeat, last),
        LiveEvent::Frame { frame, id, is_final } => if !is_new(last, id) {
            (ActionView::Skip, last)
        } else if is_final && role == StreamRole::Submitter {
            (ActionView::WriteAndClose(frame@), after_frame(last, id))
        } else {
            (ActionView::Write(frame@), after_frame(last, id))
        },
        LiveEvent::Closed => (
            match role {
                StreamRole::Submitter => ActionView::Close,
                StreamRole::Observer => ActionView::WriteAndClose(
                    "event: capsule-closed\ndata: {}\n\n"@,
                ),
            },
            last,
        ),
        LiveEvent::Lagged(n) => (ActionView::Write(lagged_frame(n)), last),
    }
}

/// Decides what a stream does about an event.
pub fn on_live_event(role: StreamRole, last: Option<u64>, event: LiveEvent) -> (r: (
    StreamAction,
    Option<u64>,
))
    ensures
        (r.0@, r.1) == stream_step(role, last, event),
        event is Heartbeat ==> r.0 is WriteHeartbeat && r.1 == last,
        event is Lagged ==> r.0 is Write && r.1 == last,
        event is Closed ==> r.1 == last && (role is Submitter ==> r.0 is Close) && (role is Observer
            ==> r.0 is WriteAndClose),
        event matches LiveEvent::Frame { frame, id, is_final } ==> {
            &&& r.0 is Skip <==> last is Some && id is Some && id->0 <= last->0
            &&& r.0 is Skip ==> r.1 == last
            &&& !(r.0 is Skip) ==> r.1 == (if id is Some {
                id
            } else {
                last
            })
            &&& !(r.0 is Skip) && is_final && role is Submitter ==> r.0
                == StreamAction::WriteAndClose(frame)
            &&& !(r.0 is Skip) && !(is_final && role is Submitter) ==> r.0 == StreamAction::Write(
                frame,
            )
        },
{
    match event {
        LiveEvent::Heartbeat => (StreamAction::WriteHeartbeat, last),
        LiveEvent::Frame { frame, id, is_final } => {
            let fresh = match (last, id) {
                (Some(l), Some(n)) => n > l,
                _ => true,
            };
            if !fresh {
                return (StreamAction::Skip, last);
            }
            let next = match id {
                Some(n) => Some(n),
                None => last,
            };
            if is_final && role == StreamRole::Submitter {
                (StreamAction::WriteAndClose(frame), next)
            } else {
                (StreamAction::Write(frame), next)
            }
        },
        LiveEvent::Closed => match role {
            StreamRole::Submitter => (StreamAction::Close, last),
            StreamRole::Observer => (
                StreamAction::WriteAndClose("event: capsule-closed\ndata: {}\n\n".to_owned()),
                last,
            ),
        },
        LiveEvent::Lagged(n) => (StreamAction::Write(format_lagged_event(n)), last),
    }
}

/// The id of the last replayed frame that has one.
pub open spec fn last_replayed(frame_ids: Seq<Option<u64>>) -> Option<u64>
    decreases frame_ids.len(),
{
    if frame_ids.len() == 0 {
        None
    } else {
        match frame_ids.last() {
            Some(n) => Some(n),
            None => last_replayed(frame_ids.drop_last()),
        }
    }
}

/// Where a live stream picks up behind a replay: at the id of its last frame that has one.
pub fn replayed_to(frame_ids: &[Option<u64>]) -> (r: Option<u64>)
    ensures
        r == last_replayed(frame_ids@),
        r is None <==> forall|i: int| 0 <= i < frame_ids@.len() ==> frame_ids@[i] is None,
        r is Some ==> exists|i: int|
            0 <= i < frame_ids@.len() && #[trigger] frame_ids@[i] == r && forall|j: int|
                i < j < frame_ids@.len() ==> frame_ids@[j] is None,
{
    proof {
        lemma_last_replayed(frame_ids@);
    }
    let mut last: Option<u64> = None;
    let mut i: usize = 0;
    while i < frame_ids.len()
        invariant
            i <= frame_ids@.len(),
            last == last_replayed(frame_ids@.take(i as int)),
        decreases frame_ids@.len() - i,
    {
        proof {
            assert(frame_ids@.take(i + 1).drop_last() =~= frame_ids@.take(i as int));
        }
        if let Some(n) = frame_ids[i] {
            last = Some(n);
        }
        i += 1;
    }
    proof {
        assert(frame_ids@.take(frame_ids@.len() as int) =~= frame_ids@);
    }
    last
}

/// Where a stream's replay starts, if it replays at all: a submitter only when it reconnects, an
/// observer always.
pub open spec fn replay_start(role: StreamRole, last_event_id: Option<u64>) -> Option<u64> {
    match role {
        StreamRole::Submitter => last_event_id,
        StreamRole::Observer => Some(
            match last_event_id {
                Some(n) => n,
                None => 0,
            },
        ),
    }
}

/// Where a stream's replay starts, if it replays at all.
pub fn replay_from(role: StreamRole, last_event_id: Option<u64>) -> (r: Option<u64>)
    ensures
        r == replay_start(role, last_event_id),
        last_event_id is Some ==> r == last_event_id,
        last_event_id is None && role is Submitter ==> r is None,
        last_event_id is None && role is Observer ==> r == Some(0u64),
{
    match role {
        StreamRole::Submitter => last_event_id,
        StreamRole::Observer => match last_event_id {
            Some(n) => Some(n),
            None => Some(0),
        },
    }
}

/// `lifecycle.conversation`: whether turns remember one another.
#[derive(Debug, Clone, Copy, PartialEq, Eq, Structural)]
pub enum ConversationMode {
    Stateless,
    Threaded,
}

/// The word for a conversation mode.
pub open spec fn mode_word(mode: ConversationMode) -> Seq<char> {
    match mode {
        ConversationMode::Stateless => "stateless"@,
        ConversationMode::Threaded => "threaded"@,
    }
}

/// How the first frame an observer gets reads.
pub open spec fn ack_text(mode: ConversationMode) -> Seq<char> {
    "event: connection-ack\ndata: {\"role\":\"observer\",\"conversation_mode\":\""@ + mode_word(mode)
        + "\"}\n\n"@
}

/// The first frame an observer gets: it names the capsule's conversation mode.
pub fn connection_ack(mode: ConversationMode) -> (r: String)
    ensures
        r@ == ack_text(mode),
        mode is Stateless ==> r@
            == "event: connection-ack\ndata: {\"role\":\"observer\",\"conversation_mode\":\""@
            + "stateless"@ + "\"}\n\n"@,
        mode is Threaded ==> r@
            == "event: connection-ack\ndata: {\"role\":\"observer\",\"conversation_mode\":\""@
            + "threaded"@ + "\"}\n\n"@,
{
    let word = match mode {
        ConversationMode::Stateless => "stateless",
        ConversationMode::Threaded => "threaded",
    };
    text::cat3(
        "event: connection-ack\ndata: {\"role\":\"observer\",\"conversation_mode\":\"",
        word,
        "\"}\n\n",
    )
}

/// How the head of every stream reads.
pub open spec fn stream_head_text() -> Seq<char> {
    "HTTP/1.1 200 OK\r\ncontent-type: text/event-stream\r\ncache-control: no-cache\r\nconnection: keep-alive\r\n\r\n"@
}

/// The head of every stream.
pub fn stream_head() -> (r: String)
    ensures
        r@ == stream_head_text(),
{
    "HTTP/1.1 200 OK\r\ncontent-type: text/event-stream\r\ncache-control: no-cache\r\nconnection: keep-alive\r\n\r\n".to_owned()
}

/// A frame without an id: it has no place in the session's sequence.
pub open spec fn unnumbered_frame(name: Seq<char>, data: Seq<char>) -> Seq<char> {
    "event: "@ + name + "\ndata: "@ + data + "\n\n"@
}

/// A frame without an id.
pub fn format_unnumbered_sse_event(name: &str, data: &str) -> (r: String)
    ensures
        r@ == unnumbered_frame(name@, data@),
        ("event: "@ + name@ + "\n"@).is_prefix_of(r@),
        ("\ndata: "@ + data@ + "\n\n"@).is_suffix_of(r@),
{
    proof {
        reveal_strlit("\n");
        reveal_strlit("\ndata: ");
    }
    text::cat5("event: ", name, "\ndata: ", data, "\n\n")
}

/// What a stream writes in place of a task that was never started.
pub open spec fn refusal_frame(outcome: Admission, task_id: Seq<char>, context_id: Seq<char>) -> Option<
    Seq<char>,
> {
    match outcome {
        Admission::Queued => None,
        Admission::Busy => Some(rejected_frame(task_id, Some(context_id))),
        Admission::SendFailed => Some(
            "event: error\ndata: {\"error\":\"internal error: queue send failed\"}\n\n"@,
        ),
    }
}

/// The frame of a rejected task.
pub open spec fn rejected_frame(task_id: Seq<char>, context_id: Option<Seq<char>>) -> Seq<char> {
    let status = json::none().push(("state"@, JsonView::Text("rejected"@))).push(
        ("message"@, JsonView::Text("task rejected: capsule is busy"@)),
    );
    unnumbered_frame(
        "status"@,
        json::render(
            JsonView::Object(
                json::none().push(("id"@, JsonView::Text(task_id))).push(
                    ("contextId"@, json::nullable(context_id)),
                ).push(("status"@, JsonView::Object(status))).push(
                    ("final"@, JsonView::Bool(true)),
                ),
            ),
        ),
    )
}

/// The `rejected` status of a task the capsule is too busy to accept. It goes to one connection
/// and is never buffered, so it carries no id.
pub fn format_rejected_event(task_id: &str, context_id: &Option<String>) -> (r: String)
    ensures
        r@ == rejected_frame(task_id@, text::opt_text(*context_id)),
        exists|event: JsonView|
            #![trigger json::render(event)]
            r@ == "event: "@ + "status"@ + "\ndata: "@ + json::render(event) + "\n\n"@
                && tells_rejection(event, task_id@, text::opt_text(*context_id)),
{
    proof {
        lemma_rejection_entries(task_id@, text::opt_text(*context_id));
    }
    let mut status = json::empty_object();
    status = json::with(status, "state", json::text_value("rejected"));
    status = json::with(status, "message", json::text_value("task rejected: capsule is busy"));
    let mut event = json::empty_object();
    event = json::with(event, "id", json::text_value(task_id));
    event = json::with(event, "contextId", json::nullable_text(context_id));
    event = json::with(event, "status", status);
    event = json::with(event, "final", Json::Bool(true));
    format_unnumbered_sse_event("status", json::write(&event).as_str())
}

/// Whether an event tells that a task was rejected, and that nothing follows.
pub open spec fn tells_rejection(
    event: JsonView,
    task_id: Seq<char>,
    context_id: Option<Seq<char>>,
) -> bool {
    &&& json::text_entry(event, "id"@) == Some(task_id)
    &&& json::entry(event, "contextId"@) == Some(
        match context_id {
            Some(c) => JsonView::Text(c),
            None => JsonView::Null,
        },
    )
    &&& json::entry(event, "status"@) is Some
    &&& json::text_entry(json::entry(event, "status"@)->0, "state"@) == Some("rejected"@)
    &&& json::entry(event, "final"@) == Some(JsonView::Bool(true))
}

proof fn lemma_rejection_entries(task_id: Seq<char>, context_id: Option<Seq<char>>)
    ensures
        exists|event: JsonView|
            #![trigger json::render(event)]
            rejected_frame(task_id, context_id) == "event: "@ + "status"@ + "\ndata: "@
                + json::render(event) + "\n\n"@ && tells_rejection(event, task_id, context_id),
{
    reveal_strlit("id");
    reveal_strlit("contextId");
    reveal_strlit("status");
    reveal_strlit("final");
    reveal_strlit("state");
    reveal_strlit("message");
    assert("id"@.len() == 2 && "contextId"@.len() == 9 && "status"@.len() == 6 && "final"@.len()
        == 5 && "state"@.len() == 5 && "message"@.len() == 7);
    let status = json::none().push(("state"@, JsonView::Text("rejected"@))).push(
        ("message"@, JsonView::Text("task rejected: capsule is busy"@)),
    );
    let a = json::none().push(("id"@, JsonView::Text(task_id)));
    let b = a.push(("contextId"@, json::nullable(context_id)));
    let c = b.push(("status"@, JsonView::Object(status)));
    let d = c.push(("final"@, JsonView::Bool(true)));
    let event = JsonView::Object(d);
    reveal_with_fuel(json::entry_in, 5);
    assert(d[0].0 == "id"@ && d[1].0 == "contextId"@ && d[2].0 == "status"@ && d[3].0 == "final"@);
    assert(status[0].0 == "state"@ && status[1].0 == "message"@);
    assert(rejected_frame(task_id, context_id) == "event: "@ + "status"@ + "\ndata: "@
        + json::render(event) + "\n\n"@);
    assert(tells_rejection(event, task_id, context_id));
}

/// What a stream writes, and ends with, when its task was not started; nothing when it was.
pub fn stream_refusal(outcome: Admission, task_id: &str, context_id: &str) -> (r: Option<String>)
    ensures
        text::opt_text(r) == refusal_frame(outcome, task_id@, context_id@),
        r is None <==> outcome is Queued,
        outcome is Busy ==> exists|event: JsonView|
            #![trigger json::render(event)]
            r->0@ == "event: "@ + "status"@ + "\ndata: "@ + json::render(event) + "\n\n"@
                && tells_rejection(event, task_id@, Some(context_id@)),
        outcome is SendFailed ==> r->0@
            == "event: error\ndata: {\"error\":\"internal error: queue send failed\"}\n\n"@,
{
    match outcome {
        Admission::Queued => None,
        Admission::Busy => Some(format_rejected_event(task_id, &Some(context_id.to_owned()))),
        Admission::SendFailed => Some(
            "event: error\ndata: {\"error\":\"internal error: queue send failed\"}\n\n".to_owned(),
        ),
    }
}

/// How the frame reads that ends a stream whose message could not be read.
pub open spec fn parse_error_frame(why: Seq<char>) -> Seq<char> {
    "event: error\ndata: {\"error\":\"Invalid params: "@ + why + "\"}\n\n"@
}

/// What a stream writes, and ends with, when its message could not be read.
pub fn stream_parse_error(why: &str) -> (r: String)
    ensures
        r@ == parse_error_frame(why@),
        ("event: error\ndata: {\"error\":\"Invalid params: "@ + why@).is_prefix_of(r@),
{
    text::cat3("event: error\ndata: {\"error\":\"Invalid params: ", why, "\"}\n\n")
}

// ── Responses ────────────────────────────────────────────────────────────────

/// How a response that carries a JSON text reads.
pub open spec fn card_text(card_json: Seq<char>) -> Seq<char> {
    "HTTP/1.1 200 OK\r\ncontent-type: application/json\r\ncontent-length: "@ + text::decimal(
        codec::utf8(card_json).len(),
    ) + "\r\nconnection: close\r\n\r\n"@ + card_json
}

/// How the response to what the door does not know reads.
pub open spec fn not_found_text() -> Seq<char> {
    "HTTP/1.1 404 Not Found\r\ncontent-length: 0\r\nconnection: close\r\n\r\n"@
}

/// The response that carries the agent card.
pub fn card_response(card_json: &str) -> (r: String)
    ensures
        r@ == card_text(card_json@),
        card_json@.is_suffix_of(r@),
        ("HTTP/1.1 200 OK\r\ncontent-type: application/json\r\ncontent-length: "@ + text::decimal(
            codec::utf8(card_json@).len(),
        ) + "\r\n"@).is_prefix_of(r@),
{
    proof {
        reveal_strlit("\r\n");
        reveal_strlit("\r\nconnection: close\r\n\r\n");
    }
    text::cat4(
        "HTTP/1.1 200 OK\r\ncontent-type: application/json\r\ncontent-length: ",
        text::decimal_of(card_json.as_bytes().len() as u64).as_str(),
        "\r\nconnection: close\r\n\r\n",
        card_json,
    )
}

/// The response to what the door does not know.
pub fn not_found_response() -> (r: String)
    ensures
        r@ == not_found_text(),
{
    "HTTP/1.1 404 Not Found\r\ncontent-length: 0\r\nconnection: close\r\n\r\n".to_owned()
}

/// The head of a plane response. The connection closes behind every one of them.
pub open spec fn plane_head(
    status: u16,
    reason: Seq<char>,
    headers: Seq<(Seq<char>, Seq<char>)>,
) -> Seq<char> {
    "HTTP/1.1 "@ + text::decimal(status as nat) + " "@ + reason + "\r\n"@
        + outgoing::header_lines(headers) + "connection: close\r\n\r\n"@
}

proof fn lemma_head_starts(
    status: u16,
    reason: Seq<char>,
    headers: Seq<(Seq<char>, Seq<char>)>,
)
    ensures
        codec::utf8(
            "HTTP/1.1 "@ + text::decimal(status as nat) + " "@ + reason + "\r\n"@,
        ).is_prefix_of(codec::utf8(plane_head(status, reason, headers))),
{
    let line = "HTTP/1.1 "@ + text::decimal(status as nat) + " "@ + reason + "\r\n"@;
    let rest = outgoing::header_lines(headers) + "connection: close\r\n\r\n"@;
    assert(plane_head(status, reason, headers) =~= line + rest);
    codec::bytes_follow(line, rest);
}

/// One plane response as bytes on the wire, `reason` being the phrase of its status.
pub fn framed_bytes(response: &ResourceResponse, reason: &str) -> (r: Vec<u8>)
    ensures
        r@ == codec::utf8(plane_head(response.status, reason@, response@.headers)) + response@.body,
        response@.body.is_suffix_of(r@),
        codec::utf8(
            "HTTP/1.1 "@ + text::decimal(response.status as nat) + " "@ + reason@ + "\r\n"@,
        ).is_prefix_of(r@),
{
    proof {
        lemma_head_starts(response.status, reason@, response@.headers);
    }
    let mut head = text::cat5(
        "HTTP/1.1 ",
        text::decimal_of(response.status as u64).as_str(),
        " ",
        reason,
        "\r\n",
    );
    let ghost start = head@;
    let ghost all = response@.headers;
    let mut i: usize = 0;
    proof {
        assert(start + outgoing::header_lines(all.take(0)) =~= start);
    }
    while i < response.headers.len()
        invariant
            i <= response.headers@.len(),
            all == response@.headers,
            head@ == start + outgoing::header_lines(all.take(i as int)),
        decreases response.headers@.len() - i,
    {
        let line = outgoing::write_header(
            response.headers[i].0.as_str(),
            response.headers[i].1.as_str(),
        );
        head.append(line.as_str());
        proof {
            assert(all.take(i + 1).drop_last() =~= all.take(i as int));
            assert(all.take(i + 1).last() == all[i as int]);
            assert(start + outgoing::header_lines(all.take(i as int)) + line@ =~= start + (
            outgoing::header_lines(all.take(i as int)) + line@));
        }
        i += 1;
    }
    proof {
        assert(all.take(all.len() as int) =~= all);
    }
    head.append("connection: close\r\n\r\n");
    let mut bytes = peer_handoff::body_of(head.as_str());
    codec::append(&mut bytes, response.body.as_slice());
    bytes
}

// ── Laws ─────────────────────────────────────────────────────────────────────

proof fn lemma_served_names(methods: Seq<DoorMethod>, acceptance: TaskAcceptance, m: DoorMethod)
    ensures
        served_names(methods, acceptance).contains(m.name()) <==> served(m, acceptance)
            && methods.contains(m),
    decreases methods.len(),
{
    if methods.len() == 0 {
    } else {
        let front = methods.drop_last();
        let last = methods.last();
        let before = served_names(front, acceptance);
        let after = served_names(methods, acceptance);
        lemma_served_names(front, acceptance, m);
        if methods.contains(m) {
            let i = choose|i: int| 0 <= i < methods.len() && methods[i] == m;
            if i < front.len() {
                assert(front[i] == m);
            }
        }
        if front.contains(m) {
            let i = choose|i: int| 0 <= i < front.len() && front[i] == m;
            assert(methods[i] == m);
        }
        assert(methods[methods.len() - 1] == last);
        if before.contains(m.name()) {
            let i = choose|i: int| 0 <= i < before.len() && before[i] == m.name();
            assert(after[i] == m.name());
        }
        if served(last, acceptance) {
            assert(after[before.len() as int] == last.name());
            if last.name() == m.name() {
                names_resolve_to_their_methods(last, TaskAcceptance::Queue);
                names_resolve_to_their_methods(m, TaskAcceptance::Queue);
                assert(last == m);
            }
            if after.contains(m.name()) {
                let i = choose|i: int| 0 <= i < after.len() && after[i] == m.name();
                if i < before.len() {
                    assert(before[i] == m.name());
                }
            }
        }
    }
}

/// The card lists exactly what the resolver serves: a method is listed if and only if its own name
/// resolves.
pub proof fn the_card_lists_what_the_resolver_serves(method: DoorMethod, acceptance: TaskAcceptance)
    ensures
        served_names(all_methods(), acceptance).contains(method.name()) <==> resolved(
            method.name(),
            acceptance,
        ) is Some,
        served_names(all_methods(), acceptance).contains(DoorMethod::MessageStream.name()) <==> !(
        acceptance is NoTasks),
{
    lemma_served_names(all_methods(), acceptance, method);
    lemma_served_names(all_methods(), acceptance, DoorMethod::MessageStream);
    names_resolve_to_their_methods(method, acceptance);
    let all = all_methods();
    assert(all[0] is MessageSend && all[1] is MessageStream && all[2] is StreamWatch
        && all[3] is TasksGet && all[4] is TasksCancel && all[5] is SessionStop);
    match method {
        DoorMethod::MessageSend => {
            assert(all[0] == method);
        },
        DoorMethod::MessageStream => {
            assert(all[1] == method);
        },
        DoorMethod::StreamWatch => {
            assert(all[2] == method);
        },
        DoorMethod::TasksGet => {
            assert(all[3] == method);
        },
        DoorMethod::TasksCancel => {
            assert(all[4] == method);
        },
        DoorMethod::SessionStop => {
            assert(all[5] == method);
        },
    }
    assert(all[1] == DoorMethod::MessageStream);
}

/// A completion is answered only by the session it names: under any other, whatever the body says,
/// it is refused.
pub proof fn a_completion_reaches_only_its_session(
    head: RequestView,
    session_id: Seq<char>,
    acceptance: TaskAcceptance,
    req: Option<JsonRpcRequest>,
    r: Dispatch,
)
    requires
        head.task_origin == Some(TaskOrigin::Completion.word()),
        head.completion_session != Some(session_id),
        right_dispatch(head, session_id, acceptance, req, r),
    ensures
        r is Reply,
        r->Reply_0@.body is Error,
        r->Reply_0@.body->code == -32004,
{
    origin::origins_round_trip(TaskOrigin::Completion);
}

/// The ids a stream writes only go up, so no frame is written twice, replayed or live.
pub proof fn written_ids_only_go_up(role: StreamRole, last: Option<u64>, event: LiveEvent)
    ensures
        match (last, stream_step(role, last, event).1) {
            (Some(before), Some(after)) => before <= after,
            (Some(_), None) => false,
            _ => true,
        },
        event is Frame && event->id is Some && last is Some && event->id->0 <= last->0
            ==> stream_step(role, last, event).0 is Skip,
        event is Frame && event->id is Some && !(stream_step(role, last, event).0 is Skip)
            ==> stream_step(role, last, event).1 == event->id,
{
}

/// The end of a task never ends an observer's stream; only the end of the capsule does.
pub proof fn an_observer_stays_across_tasks(last: Option<u64>, event: LiveEvent)
    ensures
        stream_step(StreamRole::Observer, last, event).0 is WriteAndClose || stream_step(
            StreamRole::Observer,
            last,
            event,
        ).0 is Close ==> event is Closed,
{
}

proof fn lemma_stop_entries(session_id: Seq<char>, canceled: Seq<Seq<char>>, residue: Seq<JsonView>)
    ensures
        json::text_entry(stop_report(session_id, canceled, residue), "session_id"@) == Some(
            session_id,
        ),
        json::entry(stop_report(session_id, canceled, residue), "canceled"@) == Some(
            JsonView::Array(text_values(canceled)),
        ),
        json::entry(stop_report(session_id, canceled, residue), "residue"@) == Some(
            JsonView::Array(residue),
        ),
{
    reveal_strlit("session_id");
    reveal_strlit("canceled");
    reveal_strlit("residue");
    assert("session_id"@[0] == 's' && "canceled"@[0] == 'c' && "residue"@[0] == 'r');
    reveal_with_fuel(json::entry_in, 4);
    let entries = stop_report(session_id, canceled, residue)->Object_0;
    assert(entries[0].0 == "session_id"@ && entries[1].0 == "canceled"@ && entries[2].0
        == "residue"@);
}

proof fn lemma_last_replayed(frame_ids: Seq<Option<u64>>)
    ensures
        last_replayed(frame_ids) is None <==> forall|i: int|
            0 <= i < frame_ids.len() ==> frame_ids[i] is None,
        last_replayed(frame_ids) is Some ==> exists|i: int|
            0 <= i < frame_ids.len() && #[trigger] frame_ids[i] == last_replayed(frame_ids)
                && forall|j: int| i < j < frame_ids.len() ==> frame_ids[j] is None,
    decreases frame_ids.len(),
{
    if frame_ids.len() > 0 {
        let front = frame_ids.drop_last();
        lemma_last_replayed(front);
        if frame_ids.last() is Some {
            assert(frame_ids[frame_ids.len() - 1] == last_replayed(frame_ids));
        } else {
            assert(forall|j: int| 0 <= j < front.len() ==> front[j] == frame_ids[j]);
            if last_replayed(front) is Some {
                let i = choose|i: int|
                    0 <= i < front.len() && #[trigger] front[i] == last_replayed(front)
                        && forall|j: int| i < j < front.len() ==> front[j] is None;
                assert(frame_ids[i] == last_replayed(frame_ids));
                assert forall|j: int| i < j < frame_ids.len() implies frame_ids[j] is None by {
                    if j < front.len() {
                        assert(front[j] is None);
                    }
                }
            } else {
                assert forall|i: int| 0 <= i < frame_ids.len() implies frame_ids[i] is None by {
                    if i < front.len() {
                        assert(front[i] is None);
                    }
                }
            }
        }
    }
}

/// A request line gives its first two words, whatever follows them.
pub proof fn a_request_line_gives_its_method_and_path(
    method: Seq<char>,
    path: Seq<char>,
    rest: Seq<char>,
)
    requires
        method.len() > 0,
        path.len() > 0,
        forall|i: int| 0 <= i < method.len() ==> !text::is_space(#[trigger] method[i]),
        forall|i: int| 0 <= i < path.len() ==> !text::is_space(#[trigger] path[i]),
    ensures
        request_parts(method + seq![' '] + (path + seq![' '] + rest)) == (method, path),
        request_parts(method + seq![' '] + path) == (method, path),
{
    text::words_add_up(path, ' ', rest);
    text::words_add_up(method, ' ', path);
    text::words_add_up(method, ' ', path + seq![' '] + rest);
}

/// What follows a blank line is no header: the head is the same without it.
pub proof fn headers_end_at_a_blank_line(
    lines: Seq<Seq<char>>,
    blank: Seq<char>,
    body: Seq<Seq<char>>,
    delegation: Seq<char>,
    completion: Seq<char>,
)
    requires
        text::trim(blank).len() == 0,
    ensures
        head_of(lines.push(blank) + body, delegation, completion) == head_of(
            lines,
            delegation,
            completion,
        ),
    decreases body.len(),
{
    let all = lines.push(blank) + body;
    if body.len() == 0 {
        assert(all =~= lines.push(blank));
        assert(all.drop_last() =~= lines);
    } else {
        let front = lines.push(blank) + body.drop_last();
        assert(all.drop_last() =~= front);
        assert(front[lines.len() as int] == blank);
        assert(outgoing::ended(front));
        headers_end_at_a_blank_line(lines, blank, body.drop_last(), delegation, completion);
    }
}

/// A header line sets the field of its name to what follows the colon, without the blanks around
/// it, and leaves every other field as it was.
pub proof fn a_header_sets_its_own_field(
    head: RequestView,
    line: Seq<char>,
    value: Seq<char>,
    delegation: Seq<char>,
    completion: Seq<char>,
)
    ensures
        text::lowered(line) == "content-length:"@ + value ==> absorbed(
            head,
            line,
            delegation,
            completion,
        ) == (RequestView {
            content_length: match text::unsigned(text::trim(value), usize::MAX as nat) {
                Some(n) => n as u64,
                None => 0,
            },
            ..head
        }),
        text::lowered(line) == "traceparent:"@ + value ==> absorbed(
            head,
            line,
            delegation,
            completion,
        ) == (RequestView { traceparent: Some(text::trim(value)), ..head }),
        text::lowered(line) == "last-event-id:"@ + value ==> absorbed(
            head,
            line,
            delegation,
            completion,
        ) == (RequestView {
            last_event_id: match text::unsigned(text::trim(value), u64::MAX as nat) {
                Some(n) => Some(n as u64),
                None => None,
            },
            ..head
        }),
        text::lowered(line) == "x-murmur-audience:"@ + value ==> absorbed(
            head,
            line,
            delegation,
            completion,
        ) == (RequestView { audience: Some(text::trim(value)), ..head }),
        text::lowered(line) == "x-murmur-task-origin:"@ + value ==> absorbed(
            head,
            line,
            delegation,
            completion,
        ) == (RequestView { task_origin: Some(text::trim(value)), ..head }),
        text::lowered(line) == "x-murmur-task-trust:"@ + value ==> absorbed(
            head,
            line,
            delegation,
            completion,
        ) == (RequestView { task_trust: Some(text::trim(value)), ..head }),
{
    reveal_strlit(":");
    reveal_strlit("content-length");
    reveal_strlit("content-length:");
    reveal_strlit("content-type:");
    reveal_strlit("traceparent");
    reveal_strlit("traceparent:");
    reveal_strlit("last-event-id");
    reveal_strlit("last-event-id:");
    reveal_strlit("x-murmur-audience");
    reveal_strlit("x-murmur-audience:");
    reveal_strlit("x-murmur-task-origin");
    reveal_strlit("x-murmur-task-origin:");
    reveal_strlit("x-murmur-task-trust");
    reveal_strlit("x-murmur-task-trust:");
    lemma_header_value("content-length"@, "content-length:"@, value);
    lemma_header_value("traceparent"@, "traceparent:"@, value);
    lemma_header_value("last-event-id"@, "last-event-id:"@, value);
    lemma_header_value("x-murmur-audience"@, "x-murmur-audience:"@, value);
    lemma_header_value("x-murmur-task-origin"@, "x-murmur-task-origin:"@, value);
    lemma_header_value("x-murmur-task-trust"@, "x-murmur-task-trust:"@, value);
    let lower = text::lowered(line);
    if lower == "traceparent:"@ + value {
        assert(lower[0] == 't');
        lemma_other_header("content-length"@, lower, 0);
        assert("content-type:"@[0] != lower[0]);
    }
    if lower == "last-event-id:"@ + value {
        assert(lower[0] == 'l');
        lemma_other_header("content-length"@, lower, 0);
        lemma_other_header("traceparent"@, lower, 0);
        assert("content-type:"@[0] != lower[0]);
    }
    if lower == "x-murmur-audience:"@ + value || lower == "x-murmur-task-origin:"@ + value || lower
        == "x-murmur-task-trust:"@ + value {
        assert(lower[0] == 'x');
        lemma_other_header("content-length"@, lower, 0);
        lemma_other_header("traceparent"@, lower, 0);
        lemma_other_header("last-event-id"@, lower, 0);
        assert("content-type:"@[0] != lower[0]);
    }
    if lower == "x-murmur-task-origin:"@ + value {
        assert(lower[9] == 't');
        lemma_other_header("x-murmur-audience"@, lower, 9);
    }
    if lower == "x-murmur-task-trust:"@ + value {
        assert(lower[9] == 't');
        assert(lower[14] == 't');
        lemma_other_header("x-murmur-audience"@, lower, 9);
        lemma_other_header("x-murmur-task-origin"@, lower, 14);
    }
}

proof fn lemma_header_value(name: Seq<char>, front: Seq<char>, value: Seq<char>)
    requires
        front =~= name + ":"@,
    ensures
        value_of(front + value, name) == Some(text::trim(value)),
{
    assert((front + value).skip(front.len() as int) =~= value);
    assert(front.is_prefix_of(front + value));
}

proof fn lemma_other_header(name: Seq<char>, lower: Seq<char>, at: int)
    requires
        0 <= at < name.len(),
        at < lower.len() ==> name[at] != lower[at],
    ensures
        value_of(lower, name) is None,
{
    let front = name + ":"@;
    if front.is_prefix_of(lower) {
        assert(front[at] == name[at]);
        assert(lower[at] == front[at]);
    }
}

/// What is served is listed in one order: sending and streaming a message first, where tasks are
/// taken at all, then watching, reading, canceling and stopping.
pub proof fn served_methods_come_in_card_order(acceptance: TaskAcceptance)
    ensures
        served_names(all_methods(), acceptance) == (if acceptance is NoTasks {
            Seq::<Seq<char>>::empty()
        } else {
            seq!["message/send"@, "message/stream"@]
        }) + seq!["stream/watch"@, "tasks/get"@, "tasks/cancel"@, "session/stop"@],
{
    reveal_with_fuel(served_names, 7);
    let all = all_methods();
    assert(all.drop_last() =~= all.take(5));
    assert(all.take(5).drop_last() =~= all.take(4));
    assert(all.take(4).drop_last() =~= all.take(3));
    assert(all.take(3).drop_last() =~= all.take(2));
    assert(all.take(2).drop_last() =~= all.take(1));
    assert(all.take(1).drop_last() =~= all.take(0));
    assert(all[0] == DoorMethod::MessageSend && all[1] == DoorMethod::MessageStream && all[2]
        == DoorMethod::StreamWatch && all[3] == DoorMethod::TasksGet && all[4]
        == DoorMethod::TasksCancel && all[5] == DoorMethod::SessionStop);
}

/// The tools on the card are the names of the visible artifacts, one for each and in their order.
pub proof fn visible_tools_add_up(
    front: Seq<InstalledArtifactSummary>,
    back: Seq<InstalledArtifactSummary>,
    artifact: InstalledArtifactSummary,
)
    ensures
        visible_names(front + back) == visible_names(front) + visible_names(back),
        visible_names(seq![artifact]) == (if artifact.llm_visible {
            seq![artifact.name@]
        } else {
            Seq::empty()
        }),
    decreases back.len(),
{
    let one = seq![artifact];
    assert(one.drop_last() =~= Seq::empty());
    assert(one.last() == artifact);
    assert(visible_names(one.drop_last()) =~= Seq::<Seq<char>>::empty());
    assert(visible_names(one) =~= (if artifact.llm_visible {
        seq![artifact.name@]
    } else {
        Seq::empty()
    }));
    if back.len() == 0 {
        assert(front + back =~= front);
        assert(visible_names(front) + visible_names(back) =~= visible_names(front));
    } else {
        visible_tools_add_up(front, back.drop_last(), artifact);
        assert((front + back).drop_last() =~= front + back.drop_last());
        assert(visible_names(front + back) =~= visible_names(front) + visible_names(back));
    }
}

/// Whether a card says under `key` that something is granted.
pub open spec fn tells_granted(card: JsonView, key: Seq<char>) -> bool {
    json::entry(card, "capabilities"@) is Some && json::entry(
        json::entry(card, "capabilities"@)->0,
        key,
    ) == Some(JsonView::Bool(true))
}

/// A card tells each grant under its own key: of shell binaries exactly when one is allowed, of
/// hosts exactly when one is allowed, and neither answer depends on the other grant.
pub proof fn a_card_tells_each_grant_under_its_own_key(
    identity: CapsuleIdentity,
    artifacts: Seq<InstalledArtifactSummary>,
    policy: CapabilityPolicy,
    other: CapabilityPolicy,
    acceptance: TaskAcceptance,
    planes: DeclaredPlanes,
)
    ensures
        ({
            let card = card_of(identity, artifacts, policy, acceptance, planes);
            let changed = card_of(identity, artifacts, other, acceptance, planes);
            &&& tells_granted(card, "shell"@) <==> policy.shell_allow@.len() > 0
            &&& tells_granted(card, "network"@) <==> policy.network_allow@.len() > 0
            &&& policy.shell_allow == other.shell_allow ==> tells_granted(card, "shell"@)
                == tells_granted(changed, "shell"@)
            &&& policy.network_allow == other.network_allow ==> tells_granted(card, "network"@)
                == tells_granted(changed, "network"@)
            &&& tells_granted(card, "streaming"@) <==> acceptance !is NoTasks
            &&& json::text_entry(card, "name"@) == Some(identity.capsule_name@)
            &&& json::text_entry(card, "version"@) == Some(identity.capsule_version@)
            &&& json::text_entry(card, "url"@) == Some(identity.capsule_url@)
            &&& json::text_entry(card, "session_id"@) == Some(identity.session_id@)
        }),
{
    lemma_card_entries(identity, artifacts, policy, acceptance, planes);
    lemma_card_entries(identity, artifacts, other, acceptance, planes);
    the_card_lists_what_the_resolver_serves(DoorMethod::MessageStream, acceptance);
    names_resolve_to_their_methods(DoorMethod::MessageStream, acceptance);
}

} // verus!
