//! One connection at the door, from its first line to its last byte.
//!
//! A connection is always waiting for one thing. What arrives and what it waited for decide what is
//! done next and what it waits for then; the session's tasks, its files and the socket are reached
//! only through what is done.

use crate::a2a::IncomingTask;
use crate::identity;
use crate::identity::{
    A2aMessage, A2aTask, ActionView, Admission, CancelOutcome, ConversationMode, Dispatch, DoorMethod, DoorNames,
    InputDelivery, JsonRpcRequest, LiveEvent, ReplyView, RequestHead, RequestView, Route, RpcReply, SendStep,
    StreamAction, StreamRole, TaskAcceptance,
};
use crate::ids;
use crate::json;
use crate::json::{Json, JsonView};
use crate::origin;
use crate::origin::{TaskOrigin, TrustClass};
use crate::peer_handoff;
use crate::text;
use vstd::prelude::*;

verus! {

/// What a door knows of the capsule behind it.
pub struct DoorFacts {
    pub card_json: String,
    pub session_id: String,
    pub acceptance: TaskAcceptance,
    pub mode: ConversationMode,
    pub names: DoorNames,
}

/// What a connection waits for.
#[derive(Debug, PartialEq, Eq)]
pub enum Waiting {
    /// The body of a JSON-RPC request.
    Body { head: RequestHead },
    /// The message a `message/send` carries.
    Message { head: RequestHead, id: Json },
    /// What offering the message as input came to.
    Delivery { head: RequestHead, id: Json, message: A2aMessage },
    /// Whether the task the message starts was queued.
    Admission { id: Json, task_id: String, context_id: String },
    /// The queue entry of a task that could not be handed on to be gone.
    Withdrawal { reply: RpcReply },
    /// The active task, for a `tasks/get` that names none.
    Active { id: Json },
    /// The task of a `tasks/get`.
    Task { id: Json },
    /// What asking a task to stop came to.
    Cancel { id: Json },
    /// What is left running behind a task that was stopped.
    CancelResidue { id: Json, task: A2aTask },
    /// The tasks a `session/stop` stopped.
    Stop { id: Json },
    /// What is left running behind a session that was stopped.
    StopResidue { id: Json, canceled: Vec<String> },
    /// The stream to be open. An observer has no params.
    Opening { role: StreamRole, head: RequestHead, params: Json },
    /// The replay to be written.
    Replay { role: StreamRole, head: RequestHead, params: Json },
    /// The message a `message/stream` carries.
    StreamMessage { head: RequestHead, last: Option<u64> },
    /// Whether the task of a `message/stream` was queued.
    StreamAdmission { task_id: String, context_id: String, last: Option<u64> },
    /// The queue entry of a stream's task that could not be handed on to be gone.
    StreamWithdrawal { frame: String },
    /// The next event of the session.
    Live { role: StreamRole, last: Option<u64> },
    /// Nothing: the connection is over.
    Nothing,
}

/// What arrives.
#[derive(Debug, PartialEq, Eq)]
pub enum Arrival {
    /// The whole body, as a request when it is one.
    Body(Option<JsonRpcRequest>),
    /// The message, or why there is none.
    Message(Result<A2aMessage, String>),
    Delivery(InputDelivery),
    Admission(Admission),
    Withdrawn,
    Active(Option<String>),
    Task(Option<A2aTask>),
    /// What asking a task to stop came to, and the task as it is then.
    Canceled(CancelOutcome, Option<A2aTask>),
    Residue(Option<Json>),
    AllCanceled(Vec<String>),
    ResidueItems(Vec<Json>),
    Opened,
    /// The ids of the frames that were replayed.
    Replayed(Vec<Option<u64>>),
    Live(LiveEvent),
    /// The client is gone.
    Gone,
}

/// What is done next.
#[derive(Debug, PartialEq, Eq)]
pub enum DoorAction {
    /// Write the peer plane's answer, and end.
    AnswerPeer,
    /// Write the operator plane's answer, and end.
    AnswerResource,
    /// Read a body of this many bytes.
    ReadBody(u64),
    /// Read a message out of this value.
    ReadMessage(Json),
    /// Offer this text to a task that waits for input.
    OfferInput(String),
    /// Queue what is to be done, if there is room.
    Admit(IncomingTask),
    /// Take the queue entry with this id back.
    Withdraw(String),
    FindActive,
    FindTask(String),
    CancelTask(String),
    ReadResidue,
    CancelAll,
    ReadResidueItems,
    /// Subscribe to the session's events, and only then write this.
    OpenStream(String),
    /// Write the frames after this id.
    Replay(u64),
    /// Wait for the session's next event.
    Wait,
    /// Write a heartbeat, and wait for the session's next event.
    WriteHeartbeat,
    /// Write this, and wait for the session's next event.
    Write(String),
    /// Write this, and end.
    WriteAndClose(String),
    /// Write this reply, and end.
    Reply(RpcReply),
    /// End.
    Close,
}

// ── The first step ───────────────────────────────────────────────────────────

/// Whether a connection starts right, by where its request goes.
pub open spec fn right_start(
    method: Seq<char>,
    path: Seq<char>,
    head: RequestView,
    facts: DoorFacts,
    next: Waiting,
    action: DoorAction,
) -> bool {
    match identity::route_of(
        method,
        path,
        head.is_json,
        head.content_length,
        facts.names.resource_prefix@,
    ) {
        Route::Peer => next is Nothing && action is AnswerPeer,
        Route::Resource => next is Nothing && action is AnswerResource,
        Route::Card => next is Nothing && action is WriteAndClose && action->WriteAndClose_0@
            == identity::card_text(facts.card_json@),
        Route::NotFound => next is Nothing && action is WriteAndClose && action->WriteAndClose_0@
            == identity::not_found_text(),
        Route::Rpc => {
            &&& next matches Waiting::Body { head: kept } && kept@ == head
            &&& action == DoorAction::ReadBody(head.content_length)
        },
    }
}

/// The first step of a connection, from its request line and its headers.
pub fn open_connection(request_line: &str, lines: &[String], facts: &DoorFacts) -> (r: (
    Waiting,
    DoorAction,
))
    ensures
        right_start(
            identity::request_parts(request_line@).0,
            identity::request_parts(request_line@).1,
            identity::head_of(
                text::texts(lines@),
                facts.names.delegation_id_header@,
                facts.names.completion_session_header@,
            ),
            *facts,
            r.0,
            r.1,
        ),
        r.1 is ReadBody || r.1 is AnswerPeer || r.1 is AnswerResource || r.1 is WriteAndClose,
        r.1 is ReadBody <==> r.0 is Body,
        r.1 is ReadBody ==> r.1->ReadBody_0 == r.0->Body_head.content_length
            && r.0->Body_head.content_length > 0 && r.0->Body_head.is_json
            && identity::request_parts(request_line@).0 == "POST"@,
        r.1 is AnswerPeer <==> peer_handoff::on_peer_plane(
            identity::request_parts(request_line@).1,
        ),
{
    let (method, path) = identity::parse_request_line(request_line);
    let head = RequestHead::read(lines, &facts.names);
    match identity::route(method.as_str(), path.as_str(), &head, &facts.names) {
        Route::Peer => (Waiting::Nothing, DoorAction::AnswerPeer),
        Route::Resource => (Waiting::Nothing, DoorAction::AnswerResource),
        Route::Card => (
            Waiting::Nothing,
            DoorAction::WriteAndClose(identity::card_response(facts.card_json.as_str())),
        ),
        Route::NotFound => (
            Waiting::Nothing,
            DoorAction::WriteAndClose(identity::not_found_response()),
        ),
        Route::Rpc => {
            let length: u64 = head.content_length;
            (Waiting::Body { head }, DoorAction::ReadBody(length))
        },
    }
}

// ── Starting a task ──────────────────────────────────────────────────────────

/// Whether `task` is the one a message starts: new ids, the message's own context when it names
/// one, and what the request's head says of where it comes from.
pub open spec fn starts(
    head: RequestView,
    message: A2aMessage,
    task_id: Seq<char>,
    context_id: Seq<char>,
    task: IncomingTask,
) -> bool {
    &&& exists|id: Seq<char>| ids::is_id(id) && task_id == #[trigger] ("tsk_"@ + id)
    &&& match message.context_id {
        Some(named) => context_id == named@,
        None => exists|id: Seq<char>| ids::is_id(id) && context_id == #[trigger] ("ctx_"@ + id),
    }
    &&& identity::started(
        message,
        task_id,
        context_id,
        head.traceparent,
        task.provenance,
        if origin::wire_origin(head.task_origin) == TaskOrigin::Completion {
            head.delegation_id
        } else {
            None
        },
        task,
    )
    &&& task.provenance.spec_origin() == origin::wire_origin(head.task_origin)
    &&& task.provenance.spec_trust() == origin::derived_trust(
        origin::wire_origin(head.task_origin),
        origin::wire_trust(head.task_trust),
    )
}

fn start_task(head: &RequestHead, message: A2aMessage) -> (r: (String, String, IncomingTask))
    ensures
        starts(head@, message, r.0@, r.1@, r.2),
{
    let (task_id, context_id) = identity::task_ids(&message);
    let task = identity::incoming_task(
        message,
        task_id.as_str(),
        context_id.as_str(),
        text::clone_opt(&head.traceparent),
        head.provenance(),
        head.delegation(),
    );
    (task_id, context_id, task)
}

// ── The steps ────────────────────────────────────────────────────────────────

/// Whether a connection ends with a reply.
pub open spec fn replies(next: Waiting, action: DoorAction, reply: ReplyView) -> bool {
    next is Nothing && action is Reply && action->Reply_0@ == reply
}

/// Whether a connection asks for a message.
pub open spec fn asks_for_message(action: DoorAction, params: JsonView) -> bool {
    action is ReadMessage && action->ReadMessage_0@ == identity::message_value(params)
}

/// Whether a method that replies with one body is taken up right.
pub open spec fn right_method(
    method: DoorMethod,
    request: JsonRpcRequest,
    head: RequestHead,
    next: Waiting,
    action: DoorAction,
) -> bool {
    let id = request.id;
    match method {
        DoorMethod::TasksGet => match json::text_entry(request.params@, "id"@) {
            Some(task) => next == (Waiting::Task { id }) && action is FindTask
                && action->FindTask_0@ == task,
            None => next == (Waiting::Active { id }) && action is FindActive,
        },
        DoorMethod::TasksCancel => match json::text_entry(request.params@, "id"@) {
            Some(task) => next == (Waiting::Cancel { id }) && action is CancelTask
                && action->CancelTask_0@ == task,
            None => replies(
                next,
                action,
                identity::error_reply(
                    id@,
                    -32602,
                    "Invalid params: tasks/cancel requires an id"@,
                ),
            ),
        },
        DoorMethod::SessionStop => next == (Waiting::Stop { id }) && action is CancelAll,
        _ => next == (Waiting::Message { head, id }) && asks_for_message(action, request.params@),
    }
}

/// Whether a body is taken up right: a completion for another session, a body that is no request
/// and a method that is not served are refused, in this order.
pub open spec fn right_body(
    head: RequestHead,
    req: Option<JsonRpcRequest>,
    facts: DoorFacts,
    next: Waiting,
    action: DoorAction,
) -> bool {
    exists|d: Dispatch|
        {
            &&& #[trigger] identity::right_dispatch(
                head@,
                facts.session_id@,
                facts.acceptance,
                req,
                d,
            )
            &&& match d {
                Dispatch::Reply(reply) => replies(next, action, reply@),
                Dispatch::Single(method, request) => right_method(
                    method,
                    request,
                    head,
                    next,
                    action,
                ),
                Dispatch::Stream(request) => {
                    &&& next == (Waiting::Opening {
                        role: StreamRole::Submitter,
                        head,
                        params: request.params,
                    })
                    &&& action is OpenStream
                    &&& action->OpenStream_0@ == identity::stream_head_text()
                },
                Dispatch::Watch => {
                    &&& next == (Waiting::Opening {
                        role: StreamRole::Observer,
                        head,
                        params: Json::Null,
                    })
                    &&& action is OpenStream
                    &&& action->OpenStream_0@ == identity::stream_head_text()
                        + identity::ack_text(facts.mode)
                },
            }
        }
}

fn message_in(params: Json) -> (r: Json)
    ensures
        r@ == identity::message_value(params@),
{
    match json::get(&params, "message") {
        Some(_) => match json::take(params, "message") {
            Some(message) => message,
            None => Json::Null,
        },
        None => params,
    }
}

fn take_up(method: DoorMethod, request: JsonRpcRequest, head: RequestHead) -> (r: (
    Waiting,
    DoorAction,
))
    ensures
        right_method(method, request, head, r.0, r.1),
        method is SessionStop ==> r.0 is Stop && r.1 is CancelAll,
        method is TasksGet ==> (r.1 is FindTask <==> json::text_entry(request.params@, "id"@) is Some)
            && (r.1 is FindActive <==> json::text_entry(request.params@, "id"@) is None),
        r.1 is FindTask ==> json::text_entry(request.params@, "id"@) == Some(r.1->FindTask_0@),
        r.1 is CancelTask ==> json::text_entry(request.params@, "id"@) == Some(
            r.1->CancelTask_0@,
        ),
        method is TasksCancel ==> (r.1 is CancelTask || r.1 is Reply) && (r.1 is Reply
            ==> r.1->Reply_0.body is Error && json::text_entry(request.params@, "id"@) is None),
        method is MessageSend ==> r.0 == (Waiting::Message { head, id: request.id }) && r.1
            is ReadMessage,
{
    let JsonRpcRequest { id, method: _, params } = request;
    match method {
        DoorMethod::TasksGet => match json::get_text(&params, "id") {
            Some(task) => (Waiting::Task { id }, DoorAction::FindTask(task)),
            None => (Waiting::Active { id }, DoorAction::FindActive),
        },
        DoorMethod::TasksCancel => match identity::task_to_cancel(&params) {
            Some(task) => (Waiting::Cancel { id }, DoorAction::CancelTask(task)),
            None => (Waiting::Nothing, DoorAction::Reply(identity::cancel_without_id(id))),
        },
        DoorMethod::SessionStop => (Waiting::Stop { id }, DoorAction::CancelAll),
        _ => (Waiting::Message { head, id }, DoorAction::ReadMessage(message_in(params))),
    }
}

fn on_body(head: RequestHead, req: Option<JsonRpcRequest>, facts: &DoorFacts) -> (r: (
    Waiting,
    DoorAction,
))
    ensures
        right_body(head, req, *facts, r.0, r.1),
{
    let d = identity::dispatch(&head, facts.session_id.as_str(), facts.acceptance, req);
    let ghost decided = d;
    let r = match d {
        Dispatch::Reply(reply) => (Waiting::Nothing, DoorAction::Reply(reply)),
        Dispatch::Single(method, request) => take_up(method, request, head),
        Dispatch::Stream(request) => (
            Waiting::Opening { role: StreamRole::Submitter, head, params: request.params },
            DoorAction::OpenStream(identity::stream_head()),
        ),
        Dispatch::Watch => {
            let mut opening = identity::stream_head();
            opening.append(identity::connection_ack(facts.mode).as_str());
            (
                Waiting::Opening { role: StreamRole::Observer, head, params: Json::Null },
                DoorAction::OpenStream(opening),
            )
        },
    };
    proof {
        assert(identity::right_dispatch(
            head@,
            facts.session_id@,
            facts.acceptance,
            req,
            decided,
        ));
    }
    r
}

/// Whether a stream goes on right once its replay, if any, is written: a submitter reads its
/// message, and an observer waits.
pub open spec fn right_follow(
    role: StreamRole,
    head: RequestHead,
    params: JsonView,
    last: Option<u64>,
    next: Waiting,
    action: DoorAction,
) -> bool {
    match role {
        StreamRole::Submitter => next == (Waiting::StreamMessage { head, last })
            && asks_for_message(action, params),
        StreamRole::Observer => next == (Waiting::Live { role, last }) && action is Wait,
    }
}

fn follow(role: StreamRole, head: RequestHead, params: Json, last: Option<u64>) -> (r: (
    Waiting,
    DoorAction,
))
    ensures
        right_follow(role, head, params@, last, r.0, r.1),
{
    match role {
        StreamRole::Submitter => (
            Waiting::StreamMessage { head, last },
            DoorAction::ReadMessage(message_in(params)),
        ),
        StreamRole::Observer => (Waiting::Live { role, last }, DoorAction::Wait),
    }
}

/// Whether a live event is taken right.
pub open spec fn right_live(
    role: StreamRole,
    last: Option<u64>,
    event: LiveEvent,
    next: Waiting,
    action: DoorAction,
) -> bool {
    let (done, reached) = identity::stream_step(role, last, event);
    let on = Waiting::Live { role, last: reached };
    match done {
        ActionView::Skip => next == on && action is Wait,
        ActionView::WriteHeartbeat => next == on && action is WriteHeartbeat,
        ActionView::Write(frame) => next == on && action is Write && action->Write_0@ == frame,
        ActionView::WriteAndClose(frame) => next is Nothing && action is WriteAndClose
            && action->WriteAndClose_0@ == frame,
        ActionView::Close => next is Nothing && action is Close,
    }
}

fn on_live(role: StreamRole, last: Option<u64>, event: LiveEvent) -> (r: (Waiting, DoorAction))
    ensures
        right_live(role, last, event, r.0, r.1),
{
    let (done, reached) = identity::on_live_event(role, last, event);
    match done {
        StreamAction::Skip => (Waiting::Live { role, last: reached }, DoorAction::Wait),
        StreamAction::WriteHeartbeat => (
            Waiting::Live { role, last: reached },
            DoorAction::WriteHeartbeat,
        ),
        StreamAction::Write(frame) => (
            Waiting::Live { role, last: reached },
            DoorAction::Write(frame),
        ),
        StreamAction::WriteAndClose(frame) => (Waiting::Nothing, DoorAction::WriteAndClose(frame)),
        StreamAction::Close => (Waiting::Nothing, DoorAction::Close),
    }
}

/// Whether a step is right: what was waited for and what arrived decide what is done and what is
/// waited for then. Anything else, and a client that is gone, ends the connection.
pub open spec fn right_step(
    waiting: Waiting,
    arrival: Arrival,
    facts: DoorFacts,
    next: Waiting,
    action: DoorAction,
) -> bool {
    match (waiting, arrival) {
        (Waiting::Body { head }, Arrival::Body(req)) => right_body(head, req, facts, next, action),
        (Waiting::Message { head, id }, Arrival::Message(read)) => match read {
            Ok(message) => next == (Waiting::Delivery { head, id, message }) && action is OfferInput
                && action->OfferInput_0@ == message.text@,
            Err(why) => replies(
                next,
                action,
                identity::error_reply(id@, -32602, "Invalid params: "@ + why@),
            ),
        },
        (Waiting::Delivery { head, id, message }, Arrival::Delivery(delivery)) => match delivery {
            InputDelivery::Delivered(Some(task)) => replies(
                next,
                action,
                identity::task_reply(id@, task@),
            ),
            _ => match (next, action) {
                (
                    Waiting::Admission { id: kept, task_id, context_id },
                    DoorAction::Admit(task),
                ) => kept@ == id@ && starts(head@, message, task_id@, context_id@, task),
                _ => false,
            },
        },
        (Waiting::Admission { id, task_id, context_id }, Arrival::Admission(outcome)) => {
            let reply = identity::admission_reply(id@, task_id@, context_id@, outcome);
            if outcome == Admission::SendFailed {
                match (next, action) {
                    (Waiting::Withdrawal { reply: kept }, DoorAction::Withdraw(task)) => kept@
                        == reply && task@ == task_id@,
                    _ => false,
                }
            } else {
                replies(next, action, reply)
            }
        },
        (Waiting::Withdrawal { reply }, Arrival::Withdrawn) => replies(next, action, reply@),
        (Waiting::Active { id }, Arrival::Active(active)) => match active {
            Some(task) => next == (Waiting::Task { id }) && action == DoorAction::FindTask(task),
            None => replies(next, action, identity::get_reply(id@, None)),
        },
        (Waiting::Task { id }, Arrival::Task(found)) => replies(
            next,
            action,
            identity::get_reply(id@, identity::opt_task(found)),
        ),
        (Waiting::Cancel { id }, Arrival::Canceled(outcome, found)) => match (outcome, found) {
            (CancelOutcome::Accepted, Some(task)) => next == (Waiting::CancelResidue { id, task })
                && action is ReadResidue,
            _ => replies(
                next,
                action,
                identity::cancel_reply(id@, outcome, identity::opt_task(found), None),
            ),
        },
        (Waiting::CancelResidue { id, task }, Arrival::Residue(residue)) => replies(
            next,
            action,
            identity::cancel_reply(
                id@,
                CancelOutcome::Accepted,
                Some(task@),
                json::owned_view(residue),
            ),
        ),
        (Waiting::Stop { id }, Arrival::AllCanceled(canceled)) => next == (Waiting::StopResidue {
            id,
            canceled,
        }) && action is ReadResidueItems,
        (Waiting::StopResidue { id, canceled }, Arrival::ResidueItems(items)) => replies(
            next,
            action,
            identity::stop_reply(
                id@,
                facts.session_id@,
                text::texts(canceled@),
                json::item_views(items@),
            ),
        ),
        (Waiting::Opening { role, head, params }, Arrival::Opened) => match identity::replay_start(
            role,
            head.last_event_id,
        ) {
            Some(from) => next == (Waiting::Replay { role, head, params })
                && action == DoorAction::Replay(from),
            None => right_follow(role, head, params@, None, next, action),
        },
        (Waiting::Replay { role, head, params }, Arrival::Replayed(ids)) => right_follow(
            role,
            head,
            params@,
            identity::last_replayed(ids@),
            next,
            action,
        ),
        (Waiting::StreamMessage { head, last }, Arrival::Message(read)) => match read {
            Ok(message) => match (next, action) {
                (
                    Waiting::StreamAdmission { task_id, context_id, last: kept },
                    DoorAction::Admit(task),
                ) => kept == last && starts(head@, message, task_id@, context_id@, task),
                _ => false,
            },
            Err(why) => next is Nothing && action is WriteAndClose && action->WriteAndClose_0@
                == identity::parse_error_frame(why@),
        },
        (
            Waiting::StreamAdmission { task_id, context_id, last },
            Arrival::Admission(outcome),
        ) => match identity::refusal_frame(outcome, task_id@, context_id@) {
            Some(frame) => if outcome == Admission::SendFailed {
                match (next, action) {
                    (Waiting::StreamWithdrawal { frame: kept }, DoorAction::Withdraw(task)) => kept@
                        == frame && task@ == task_id@,
                    _ => false,
                }
            } else {
                next is Nothing && action is WriteAndClose && action->WriteAndClose_0@ == frame
            },
            None => next == (Waiting::Live { role: StreamRole::Submitter, last })
                && action is Wait,
        },
        (Waiting::StreamWithdrawal { frame }, Arrival::Withdrawn) => next is Nothing
            && action is WriteAndClose && action->WriteAndClose_0@ == frame@,
        (Waiting::Live { role, last }, Arrival::Live(event)) => right_live(
            role,
            last,
            event,
            next,
            action,
        ),
        _ => next is Nothing && action is Close,
    }
}

/// Takes a connection one step on.
pub fn advance(waiting: Waiting, arrival: Arrival, facts: &DoorFacts) -> (r: (Waiting, DoorAction))
    ensures
        right_step(waiting, arrival, *facts, r.0, r.1),
        arrival is Gone || waiting is Nothing ==> r.0 is Nothing && r.1 is Close,
        waiting is Message && arrival is Message ==> match arrival->Message_0 {
            Ok(message) => r.0 == (Waiting::Delivery {
                head: waiting->Message_head,
                id: waiting->Message_id,
                message,
            }) && r.1 is OfferInput && r.1->OfferInput_0@ == message.text@,
            Err(_) => r.0 is Nothing && r.1 is Reply && r.1->Reply_0.id@ == waiting->Message_id@
                && r.1->Reply_0.body is Error && r.1->Reply_0.body->code == -32602,
        },
        waiting is Delivery && arrival is Delivery ==> match arrival->Delivery_0 {
            InputDelivery::Delivered(Some(task)) => r.0 is Nothing && r.1 is Reply
                && r.1->Reply_0.id@ == waiting->Delivery_id@ && r.1->Reply_0@.body
                == identity::BodyView::Task(task@),
            _ => r.0 is Admission && r.1 is Admit && r.0->Admission_id@ == waiting->Delivery_id@
                && r.1->Admit_0.task_id@ == r.0->Admission_task_id@ && r.1->Admit_0.context_id@
                == r.0->Admission_context_id@ && r.1->Admit_0.message_text@
                == waiting->Delivery_message.text@ && r.1->Admit_0.message_id@
                == waiting->Delivery_message.message_id@,
        },
        waiting is Admission && arrival is Admission ==> match arrival->Admission_0 {
            Admission::SendFailed => r.0 is Withdrawal && r.1 is Withdraw && r.1->Withdraw_0@
                == waiting->Admission_task_id@,
            Admission::Queued => r.0 is Nothing && r.1 is Reply && r.1->Reply_0.body is Task
                && r.1->Reply_0.body->Task_0.state@ == "submitted"@
                && r.1->Reply_0.body->Task_0.id@ == waiting->Admission_task_id@,
            Admission::Busy => r.0 is Nothing && r.1 is Reply && r.1->Reply_0.body is Task
                && r.1->Reply_0.body->Task_0.state@ == "rejected"@
                && r.1->Reply_0.body->Task_0.id@ == waiting->Admission_task_id@,
        },
        waiting is Active && arrival is Active ==> match arrival->Active_0 {
            Some(task) => r.0 is Task && r.1 == DoorAction::FindTask(task),
            None => r.0 is Nothing && r.1 is Reply && r.1->Reply_0.body is Error,
        },
        waiting is Task && arrival is Task ==> r.0 is Nothing && r.1 is Reply && r.1->Reply_0.id@
            == waiting->Task_id@ && match arrival->Task_0 {
            Some(task) => r.1->Reply_0@.body == identity::BodyView::Task(task@),
            None => r.1->Reply_0.body is Error && r.1->Reply_0.body->code == -32001,
        },
        waiting is Cancel && arrival is Canceled ==> match (
            arrival->Canceled_0,
            arrival->Canceled_1,
        ) {
            (CancelOutcome::Accepted, Some(task)) => r.0 == (Waiting::CancelResidue {
                id: waiting->Cancel_id,
                task,
            }) && r.1 is ReadResidue,
            (CancelOutcome::AlreadyTerminal, Some(task)) => r.0 is Nothing && r.1 is Reply
                && r.1->Reply_0@.body == identity::BodyView::Task(task@),
            _ => r.0 is Nothing && r.1 is Reply && r.1->Reply_0.body is Error
                && r.1->Reply_0.body->code == -32001,
        },
        waiting is CancelResidue && arrival is Residue ==> r.0 is Nothing && r.1 is Reply
            && r.1->Reply_0.id@ == waiting->CancelResidue_id@ && r.1->Reply_0.body is Task
            && r.1->Reply_0.body->Task_0.id@ == waiting->CancelResidue_task.id@
            && r.1->Reply_0.body->Task_0.state@ == waiting->CancelResidue_task.state@ && (
        r.1->Reply_0.body->Task_0.artifacts is Some <==> arrival->Residue_0 is Some),
        waiting is StopResidue && arrival is ResidueItems ==> r.0 is Nothing && r.1 is Reply
            && r.1->Reply_0.id@ == waiting->StopResidue_id@ && r.1->Reply_0.body is Value
            && json::text_entry(r.1->Reply_0.body->Value_0@, "session_id"@) == Some(
            facts.session_id@,
        ) && json::entry(r.1->Reply_0.body->Value_0@, "canceled"@) == Some(
            JsonView::Array(
                identity::text_values(text::texts(waiting->StopResidue_canceled@)),
            ),
        ),
        waiting is Live && arrival is Live ==> match arrival->Live_0 {
            LiveEvent::Heartbeat => r.0 == waiting && r.1 is WriteHeartbeat,
            LiveEvent::Lagged(_) => r.0 == waiting && r.1 is Write,
            LiveEvent::Closed => r.0 is Nothing && (waiting->Live_role is Submitter ==> r.1
                is Close) && (waiting->Live_role is Observer ==> r.1 is WriteAndClose),
            LiveEvent::Frame { frame, id, is_final } => if waiting->Live_last is Some
                && id is Some && id->0 <= waiting->Live_last->0 {
                r.0 == waiting && r.1 is Wait
            } else if is_final && waiting->Live_role is Submitter {
                r.0 is Nothing && r.1 is WriteAndClose && r.1->WriteAndClose_0@ == frame@
            } else {
                &&& r.1 is Write && r.1->Write_0@ == frame@
                &&& r.0 == (Waiting::Live {
                    role: waiting->Live_role,
                    last: if id is Some {
                        id
                    } else {
                        waiting->Live_last
                    },
                })
            },
        },
        waiting is Stop && arrival is AllCanceled ==> r.1 is ReadResidueItems && r.0 is StopResidue
            && r.0->StopResidue_canceled == arrival->AllCanceled_0,
        waiting is Opening && arrival is Opened ==> match (
            waiting->Opening_role,
            waiting->Opening_head.last_event_id,
        ) {
            (_, Some(n)) => r.0 is Replay && r.1 == DoorAction::Replay(n),
            (StreamRole::Observer, None) => r.0 is Replay && r.1 == DoorAction::Replay(0),
            (StreamRole::Submitter, None) => r.0 is StreamMessage && r.1 is ReadMessage,
        },
        waiting is Replay && arrival is Replayed ==> match waiting->Replay_role {
            StreamRole::Observer => r.0 is Live && r.0->Live_role is Observer && r.1 is Wait,
            StreamRole::Submitter => r.0 is StreamMessage && r.1 is ReadMessage,
        },
        waiting is StreamMessage && arrival is Message ==> match arrival->Message_0 {
            Ok(message) => r.0 is StreamAdmission && r.1 is Admit && r.1->Admit_0.message_text@
                == message.text@ && r.0->StreamAdmission_last == waiting->StreamMessage_last,
            Err(_) => r.0 is Nothing && r.1 is WriteAndClose,
        },
        waiting is StreamAdmission && arrival is Admission ==> match arrival->Admission_0 {
            Admission::Queued => r.1 is Wait && r.0 == (Waiting::Live {
                role: StreamRole::Submitter,
                last: waiting->StreamAdmission_last,
            }),
            Admission::Busy => r.0 is Nothing && r.1 is WriteAndClose,
            Admission::SendFailed => r.0 is StreamWithdrawal && r.1 is Withdraw
                && r.1->Withdraw_0@ == waiting->StreamAdmission_task_id@,
        },
        waiting is StreamWithdrawal && arrival is Withdrawn ==> r.0 is Nothing && r.1
            is WriteAndClose && r.1->WriteAndClose_0@ == waiting->StreamWithdrawal_frame@,
        waiting is Withdrawal && arrival is Withdrawn ==> r.0 is Nothing && r.1 is Reply
            && r.1->Reply_0@ == waiting->reply@,
{
    match (waiting, arrival) {
        (Waiting::Body { head }, Arrival::Body(req)) => on_body(head, req, facts),
        (Waiting::Message { head, id }, Arrival::Message(read)) => match read {
            Ok(message) => {
                let text = message.text.clone();
                (Waiting::Delivery { head, id, message }, DoorAction::OfferInput(text))
            },
            Err(why) => {
                let step = identity::receive_message(id, Err(why), InputDelivery::NotDelivered);
                match step {
                    SendStep::Reply(reply) => (Waiting::Nothing, DoorAction::Reply(reply)),
                    SendStep::Accept(_, _) => (Waiting::Nothing, DoorAction::Close),
                }
            },
        },
        (Waiting::Delivery { head, id, message }, Arrival::Delivery(delivery)) => {
            match identity::receive_message(id, Ok(message), delivery) {
                SendStep::Reply(reply) => (Waiting::Nothing, DoorAction::Reply(reply)),
                SendStep::Accept(id, message) => {
                    let (task_id, context_id, task) = start_task(&head, message);
                    (Waiting::Admission { id, task_id, context_id }, DoorAction::Admit(task))
                },
            }
        },
        (Waiting::Admission { id, task_id, context_id }, Arrival::Admission(outcome)) => {
            let entry = task_id.clone();
            let (reply, take_back) = identity::reply_to_message(id, task_id, context_id, outcome);
            if take_back {
                (Waiting::Withdrawal { reply }, DoorAction::Withdraw(entry))
            } else {
                (Waiting::Nothing, DoorAction::Reply(reply))
            }
        },
        (Waiting::Withdrawal { reply }, Arrival::Withdrawn) => (
            Waiting::Nothing,
            DoorAction::Reply(reply),
        ),
        (Waiting::Active { id }, Arrival::Active(active)) => match active {
            Some(task) => (Waiting::Task { id }, DoorAction::FindTask(task)),
            None => (Waiting::Nothing, DoorAction::Reply(identity::reply_to_get(id, None))),
        },
        (Waiting::Task { id }, Arrival::Task(found)) => (
            Waiting::Nothing,
            DoorAction::Reply(identity::reply_to_get(id, found)),
        ),
        (Waiting::Cancel { id }, Arrival::Canceled(outcome, found)) => match (outcome, found) {
            (CancelOutcome::Accepted, Some(task)) => (
                Waiting::CancelResidue { id, task },
                DoorAction::ReadResidue,
            ),
            (outcome, found) => (
                Waiting::Nothing,
                DoorAction::Reply(identity::reply_to_cancel(id, outcome, found, None)),
            ),
        },
        (Waiting::CancelResidue { id, task }, Arrival::Residue(residue)) => (
            Waiting::Nothing,
            DoorAction::Reply(
                identity::reply_to_cancel(id, CancelOutcome::Accepted, Some(task), residue),
            ),
        ),
        (Waiting::Stop { id }, Arrival::AllCanceled(canceled)) => (
            Waiting::StopResidue { id, canceled },
            DoorAction::ReadResidueItems,
        ),
        (Waiting::StopResidue { id, canceled }, Arrival::ResidueItems(items)) => (
            Waiting::Nothing,
            DoorAction::Reply(
                identity::reply_to_stop(id, facts.session_id.as_str(), canceled.as_slice(), items),
            ),
        ),
        (Waiting::Opening { role, head, params }, Arrival::Opened) => {
            match identity::replay_from(role, head.last_event_id) {
                Some(from) => (Waiting::Replay { role, head, params }, DoorAction::Replay(from)),
                None => follow(role, head, params, None),
            }
        },
        (Waiting::Replay { role, head, params }, Arrival::Replayed(ids)) => {
            let last = identity::replayed_to(ids.as_slice());
            follow(role, head, params, last)
        },
        (Waiting::StreamMessage { head, last }, Arrival::Message(read)) => match read {
            Ok(message) => {
                let (task_id, context_id, task) = start_task(&head, message);
                (
                    Waiting::StreamAdmission { task_id, context_id, last },
                    DoorAction::Admit(task),
                )
            },
            Err(why) => (
                Waiting::Nothing,
                DoorAction::WriteAndClose(identity::stream_parse_error(why.as_str())),
            ),
        },
        (Waiting::StreamAdmission { task_id, context_id, last }, Arrival::Admission(outcome)) => {
            match identity::stream_refusal(outcome, task_id.as_str(), context_id.as_str()) {
                Some(frame) => if outcome == Admission::SendFailed {
                    (Waiting::StreamWithdrawal { frame }, DoorAction::Withdraw(task_id))
                } else {
                    (Waiting::Nothing, DoorAction::WriteAndClose(frame))
                },
                None => (Waiting::Live { role: StreamRole::Submitter, last }, DoorAction::Wait),
            }
        },
        (Waiting::StreamWithdrawal { frame }, Arrival::Withdrawn) => (
            Waiting::Nothing,
            DoorAction::WriteAndClose(frame),
        ),
        (Waiting::Live { role, last }, Arrival::Live(event)) => on_live(role, last, event),
        _ => (Waiting::Nothing, DoorAction::Close),
    }
}

// ── Laws ─────────────────────────────────────────────────────────────────────

/// How many steps a connection can still take before it is over or live.
pub open spec fn steps_left(waiting: Waiting) -> nat {
    match waiting {
        Waiting::Body { .. } => 7,
        Waiting::Opening { .. } | Waiting::Message { .. } => 6,
        Waiting::Replay { .. } | Waiting::Delivery { .. } => 5,
        Waiting::StreamMessage { .. } | Waiting::Admission { .. } => 4,
        Waiting::StreamAdmission { .. } | Waiting::Withdrawal { .. } | Waiting::Active { .. } => 3,
        Waiting::Cancel { .. } | Waiting::Stop { .. } => 3,
        Waiting::StreamWithdrawal { .. } | Waiting::Task { .. } => 2,
        Waiting::CancelResidue { .. } | Waiting::StopResidue { .. } => 2,
        Waiting::Live { .. } => 1,
        Waiting::Nothing => 0,
    }
}

/// Every exchange ends: each step brings a connection nearer to its end, until it is over or
/// follows a session's events.
pub proof fn every_exchange_ends(
    waiting: Waiting,
    arrival: Arrival,
    facts: DoorFacts,
    next: Waiting,
    action: DoorAction,
)
    requires
        right_step(waiting, arrival, facts, next, action),
        !(waiting is Live),
        !(waiting is Nothing),
    ensures
        steps_left(next) < steps_left(waiting),
{
}

/// A connection that is over stays over, and does nothing more.
pub proof fn what_is_over_stays_over(
    arrival: Arrival,
    facts: DoorFacts,
    next: Waiting,
    action: DoorAction,
)
    requires
        right_step(Waiting::Nothing, arrival, facts, next, action),
    ensures
        next is Nothing,
        action is Close,
{
}

/// A completion addressed to another session touches nothing: whatever its body is, it is answered
/// with a refusal and no task is looked at, offered input, started or stopped.
pub proof fn a_misaddressed_completion_touches_nothing(
    head: RequestHead,
    req: Option<JsonRpcRequest>,
    facts: DoorFacts,
    next: Waiting,
    action: DoorAction,
)
    requires
        identity::misaddressed(head@.task_origin, head@.completion_session, facts.session_id@),
        right_step(Waiting::Body { head }, Arrival::Body(req), facts, next, action),
    ensures
        next is Nothing,
        action is Reply,
        action->Reply_0@.body is Error,
        action->Reply_0@.body->code == -32004,
{
}

/// What the head of the request says that a task would be started from.
pub open spec fn head_of_wait(waiting: Waiting) -> Option<RequestView> {
    match waiting {
        Waiting::Delivery { head, .. } => Some(head@),
        Waiting::StreamMessage { head, .. } => Some(head@),
        _ => None,
    }
}

/// A task is started only from a message that was read, with the provenance its own request's head
/// gives it: it is trusted only on a full claim, and reports on a delegation only as a completion.
pub proof fn a_task_carries_its_requests_provenance(
    waiting: Waiting,
    arrival: Arrival,
    facts: DoorFacts,
    next: Waiting,
    task: IncomingTask,
)
    requires
        right_step(waiting, arrival, facts, next, DoorAction::Admit(task)),
    ensures
        head_of_wait(waiting) is Some,
        task.provenance.spec_origin() == origin::wire_origin(head_of_wait(waiting)->0.task_origin),
        task.provenance.spec_trust() == TrustClass::Trusted <==> {
            let head = head_of_wait(waiting)->0;
            &&& head.task_origin == Some("peer"@) || head.task_origin == Some("completion"@)
            &&& head.task_trust == Some("trusted"@)
        },
        task.delegation_id is Some ==> task.provenance.spec_origin() == TaskOrigin::Completion,
{
    let head = head_of_wait(waiting)->0;
    origin::the_wire_trusts_only_a_full_claim(head.task_origin, head.task_trust);
}

/// A message that was delivered as input starts no task of its own.
pub proof fn a_delivered_message_starts_no_task(
    head: RequestHead,
    id: Json,
    message: A2aMessage,
    task: A2aTask,
    facts: DoorFacts,
    next: Waiting,
    action: DoorAction,
)
    requires
        right_step(
            Waiting::Delivery { head, id, message },
            Arrival::Delivery(InputDelivery::Delivered(Some(task))),
            facts,
            next,
            action,
        ),
    ensures
        replies(next, action, identity::task_reply(id@, task@)),
{
}

/// What is left running is read only after the cancellations are recorded, so nothing it names can
/// have been started by a canceled task afterwards.
pub proof fn residue_is_read_behind_the_cancellation(
    waiting: Waiting,
    arrival: Arrival,
    facts: DoorFacts,
    next: Waiting,
    action: DoorAction,
)
    requires
        right_step(waiting, arrival, facts, next, action),
    ensures
        action is ReadResidue ==> waiting is Cancel && arrival is Canceled,
        action is ReadResidueItems ==> waiting is Stop && arrival is AllCanceled,
{
}

/// Whether a connection only watches.
pub open spec fn only_watches(waiting: Waiting) -> bool {
    match waiting {
        Waiting::Opening { role, .. } => role == StreamRole::Observer,
        Waiting::Replay { role, .. } => role == StreamRole::Observer,
        Waiting::Live { role, .. } => role == StreamRole::Observer,
        Waiting::Nothing => true,
        _ => false,
    }
}

/// A connection that only watches goes on only watching: it starts no task and touches none.
pub proof fn an_observer_only_watches(
    waiting: Waiting,
    arrival: Arrival,
    facts: DoorFacts,
    next: Waiting,
    action: DoorAction,
)
    requires
        only_watches(waiting),
        right_step(waiting, arrival, facts, next, action),
    ensures
        only_watches(next),
        action is Replay || action is Wait || action is WriteHeartbeat || action is Write
            || action is WriteAndClose || action is Close,
{
}

/// A frame that was replayed is not written again when it also arrives live.
pub proof fn a_replayed_frame_is_not_repeated(
    role: StreamRole,
    last: u64,
    frame: String,
    id: u64,
    is_final: bool,
    facts: DoorFacts,
    next: Waiting,
    action: DoorAction,
)
    requires
        id <= last,
        right_step(
            Waiting::Live { role, last: Some(last) },
            Arrival::Live(LiveEvent::Frame { frame, id: Some(id), is_final }),
            facts,
            next,
            action,
        ),
    ensures
        next == (Waiting::Live { role, last: Some(last) }),
        action is Wait,
{
}

/// Which methods lead where: a request without a claimed origin whose method starts a task asks for
/// its message, and the others ask for what they name; nothing else is touched by any of them.
pub proof fn a_method_leads_where_it_says(
    head: RequestHead,
    request: JsonRpcRequest,
    facts: DoorFacts,
    next: Waiting,
    action: DoorAction,
)
    requires
        head.task_origin is None,
        right_step(Waiting::Body { head }, Arrival::Body(Some(request)), facts, next, action),
    ensures
        request.method@ == "session/stop"@ <==> action is CancelAll,
        request.method@ == "tasks/cancel"@ && json::text_entry(request.params@, "id"@) is Some
            <==> action is CancelTask,
        request.method@ == "tasks/get"@ <==> action is FindTask || action is FindActive,
        request.method@ == "message/send"@ && !(facts.acceptance is NoTasks)
            <==> action is ReadMessage,
        (request.method@ == "message/stream"@ && !(facts.acceptance is NoTasks)) || request.method@
            == "stream/watch"@ <==> action is OpenStream,
        !(action is CancelAll || action is CancelTask || action is FindTask || action is FindActive
            || action is ReadMessage || action is OpenStream) ==> action is Reply,
{
    identity::names_resolve_to_their_methods(DoorMethod::MessageSend, facts.acceptance);
    identity::names_resolve_to_their_methods(DoorMethod::MessageStream, facts.acceptance);
    identity::names_resolve_to_their_methods(DoorMethod::StreamWatch, facts.acceptance);
    identity::names_resolve_to_their_methods(DoorMethod::TasksGet, facts.acceptance);
    identity::names_resolve_to_their_methods(DoorMethod::TasksCancel, facts.acceptance);
    identity::names_resolve_to_their_methods(DoorMethod::SessionStop, facts.acceptance);
}

} // verus!
