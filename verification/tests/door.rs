use capsule_runtime::a2a::IncomingTask;
use capsule_runtime::door::{advance, open_connection, Arrival, DoorAction, DoorFacts, Waiting};
use capsule_runtime::identity::{
    A2aMessage, A2aTask, Admission, CancelOutcome, ConversationMode, DoorNames, InputDelivery,
    JsonRpcRequest, LiveEvent, ReplyBody, RpcReply, StreamRole, TaskAcceptance,
};
use capsule_runtime::json::{read, Json};
use capsule_runtime::origin::{TaskOrigin, TrustClass};

fn facts() -> DoorFacts {
    DoorFacts {
        card_json: "{\"name\":\"c\"}".to_string(),
        session_id: "ses_1".to_string(),
        acceptance: TaskAcceptance::Queue,
        mode: ConversationMode::Threaded,
        names: DoorNames {
            delegation_id_header: "x-murmur-delegation-id".to_string(),
            completion_session_header: "x-murmur-completion-session".to_string(),
            resource_prefix: "/resources/".to_string(),
        },
    }
}

fn lines(headers: &[&str]) -> Vec<String> {
    headers.iter().map(|line| format!("{line}\r\n")).collect()
}

/// A connection that waits for the body of a JSON-RPC request with these headers besides.
fn rpc(headers: &[&str]) -> Waiting {
    let mut all = vec!["Content-Type: application/json", "Content-Length: 12"];
    all.extend_from_slice(headers);
    let (waiting, action) = open_connection("POST / HTTP/1.1\r\n", &lines(&all), &facts());
    assert_eq!(action, DoorAction::ReadBody(12));
    waiting
}

fn request(method: &str, params: &str) -> Arrival {
    Arrival::Body(Some(JsonRpcRequest {
        id: Json::Text("req".to_string()),
        method: method.to_string(),
        params: read(params).unwrap(),
    }))
}

fn call(headers: &[&str], method: &str, params: &str) -> (Waiting, DoorAction) {
    advance(rpc(headers), request(method, params), &facts())
}

fn message(text: &str, context: Option<&str>) -> A2aMessage {
    A2aMessage {
        message_id: "msg_1".to_string(),
        context_id: context.map(str::to_string),
        text: text.to_string(),
    }
}

fn task(id: &str) -> A2aTask {
    A2aTask {
        id: id.to_string(),
        context_id: "ctx".to_string(),
        state: "working".to_string(),
        artifacts: None,
    }
}

fn reply(action: DoorAction) -> RpcReply {
    match action {
        DoorAction::Reply(reply) => reply,
        other => panic!("no reply: {other:?}"),
    }
}

fn error(action: DoorAction) -> (i64, String) {
    match reply(action).body {
        ReplyBody::Error { code, message } => (code, message),
        other => panic!("no error: {other:?}"),
    }
}

fn admitted(action: DoorAction) -> IncomingTask {
    match action {
        DoorAction::Admit(task) => task,
        other => panic!("nothing admitted: {other:?}"),
    }
}

/// A `message/send` as far as its message, and then as far as the question of queueing it.
fn sent(headers: &[&str]) -> (Waiting, IncomingTask) {
    let (waiting, action) = call(headers, "message/send", "{\"message\":{\"a\":1}}");
    assert_eq!(action, DoorAction::ReadMessage(read("{\"a\":1}").unwrap()));
    let (waiting, action) =
        advance(waiting, Arrival::Message(Ok(message("hello", None))), &facts());
    assert_eq!(action, DoorAction::OfferInput("hello".to_string()));
    let (waiting, action) =
        advance(waiting, Arrival::Delivery(InputDelivery::NotDelivered), &facts());
    (waiting, admitted(action))
}

#[test]
fn a_request_is_routed_by_its_line_and_its_headers() {
    for (line, wanted) in [
        ("GET /resources/peer/x HTTP/1.1", DoorAction::AnswerPeer),
        ("PUT /resources/files/x HTTP/1.1", DoorAction::AnswerResource),
    ] {
        assert_eq!(open_connection(line, &[], &facts()), (Waiting::Nothing, wanted));
    }
    let (_, card) = open_connection("GET /.well-known/agent-card.json HTTP/1.1", &[], &facts());
    match card {
        DoorAction::WriteAndClose(text) => assert!(text.ends_with("\r\n\r\n{\"name\":\"c\"}")),
        other => panic!("{other:?}"),
    }
    let (_, unknown) = open_connection("GET /else HTTP/1.1", &[], &facts());
    match unknown {
        DoorAction::WriteAndClose(text) => assert!(text.starts_with("HTTP/1.1 404 Not Found")),
        other => panic!("{other:?}"),
    }
}

#[test]
fn a_body_that_is_no_request_and_an_unknown_method_are_refused() {
    let (over, action) = advance(rpc(&[]), Arrival::Body(None), &facts());
    assert_eq!(over, Waiting::Nothing);
    assert_eq!(error(action), (-32700, "Parse error".to_string()));
    let (_, action) = call(&[], "message/sent", "null");
    assert_eq!(error(action), (-32601, "Method not found".to_string()));
}

#[test]
fn a_completion_for_another_session_is_refused_whatever_it_carries() {
    let headers = [
        "x-murmur-task-origin: completion",
        "x-murmur-completion-session: ses_2",
    ];
    for body in [
        request("message/send", "{}"),
        request("session/stop", "{}"),
        Arrival::Body(None),
    ] {
        let (over, action) = advance(rpc(&headers), body, &facts());
        assert_eq!(over, Waiting::Nothing);
        assert_eq!(error(action).0, -32004);
    }
}

#[test]
fn a_sent_message_is_offered_as_input_before_it_is_queued() {
    let (waiting, _) = call(&[], "message/send", "{}");
    let (waiting, _) = advance(waiting, Arrival::Message(Ok(message("hi", None))), &facts());
    let delivered = Arrival::Delivery(InputDelivery::Delivered(Some(task("tsk_9"))));
    let (over, action) = advance(waiting, delivered, &facts());
    assert_eq!(over, Waiting::Nothing);
    assert_eq!(reply(action).body, ReplyBody::Task(task("tsk_9")));
}

#[test]
fn a_sent_message_that_cannot_be_read_says_why() {
    let (waiting, _) = call(&[], "message/send", "{}");
    let (_, action) = advance(waiting, Arrival::Message(Err("no parts".to_string())), &facts());
    assert_eq!(error(action), (-32602, "Invalid params: no parts".to_string()));
}

#[test]
fn a_queued_message_starts_a_task_with_the_heads_provenance() {
    let (_, plain) = sent(&[]);
    assert!(plain.task_id.starts_with("tsk_") && plain.task_id.len() == 36);
    assert!(plain.context_id.starts_with("ctx_") && plain.context_id.len() == 36);
    assert_eq!(plain.message_text, "hello");
    assert_eq!(plain.provenance.origin(), TaskOrigin::Event);
    assert_eq!(plain.provenance.trust(), TrustClass::Untrusted);

    let (_, peer) = sent(&[
        "x-murmur-task-origin: peer",
        "x-murmur-task-trust: trusted",
        "x-murmur-delegation-id: dlg_1",
        "traceparent: 00-a-b-01",
    ]);
    assert_eq!(peer.provenance.origin(), TaskOrigin::Peer);
    assert_eq!(peer.provenance.trust(), TrustClass::Trusted);
    assert_eq!(peer.delegation_id, None);
    assert_eq!(peer.traceparent.as_deref(), Some("00-a-b-01"));

    let (_, completion) = sent(&[
        "x-murmur-task-origin: completion",
        "x-murmur-completion-session: ses_1",
        "x-murmur-delegation-id: dlg_1",
    ]);
    assert_eq!(completion.provenance.origin(), TaskOrigin::Completion);
    assert_eq!(completion.delegation_id.as_deref(), Some("dlg_1"));
}

#[test]
fn the_reply_to_a_sent_message_names_the_task_it_started() {
    for (outcome, state) in [(Admission::Queued, "submitted"), (Admission::Busy, "rejected")] {
        let (waiting, started) = sent(&[]);
        let (_, action) = advance(waiting, Arrival::Admission(outcome), &facts());
        match reply(action).body {
            ReplyBody::Task(task) => {
                assert_eq!((task.id, task.state.as_str()), (started.task_id, state));
            }
            other => panic!("{other:?}"),
        }
    }
}

#[test]
fn a_task_that_could_not_be_handed_on_is_withdrawn_before_the_reply() {
    let (waiting, started) = sent(&[]);
    let (waiting, action) = advance(waiting, Arrival::Admission(Admission::SendFailed), &facts());
    assert_eq!(action, DoorAction::Withdraw(started.task_id));
    let (_, action) = advance(waiting, Arrival::Withdrawn, &facts());
    assert_eq!(error(action), (-32603, "internal error: queue send failed".to_string()));
}

#[test]
fn a_task_is_found_by_its_id_or_as_the_active_one() {
    let (waiting, action) = call(&[], "tasks/get", "{\"id\":\"tsk_1\"}");
    assert_eq!(action, DoorAction::FindTask("tsk_1".to_string()));
    let (_, action) = advance(waiting, Arrival::Task(Some(task("tsk_1"))), &facts());
    assert_eq!(reply(action).body, ReplyBody::Task(task("tsk_1")));

    let (waiting, action) = call(&[], "tasks/get", "{}");
    assert_eq!(action, DoorAction::FindActive);
    let (waiting, action) = advance(waiting, Arrival::Active(Some("tsk_2".to_string())), &facts());
    assert_eq!(action, DoorAction::FindTask("tsk_2".to_string()));
    let (_, action) = advance(waiting, Arrival::Task(None), &facts());
    assert_eq!(error(action).0, -32001);

    let (waiting, _) = call(&[], "tasks/get", "{}");
    let (_, action) = advance(waiting, Arrival::Active(None), &facts());
    assert_eq!(error(action), (-32001, "Task not found".to_string()));
}

#[test]
fn what_is_left_running_is_read_behind_a_cancellation() {
    let (_, action) = call(&[], "tasks/cancel", "{}");
    assert_eq!(error(action).0, -32602);

    let (waiting, action) = call(&[], "tasks/cancel", "{\"id\":\"tsk_1\"}");
    assert_eq!(action, DoorAction::CancelTask("tsk_1".to_string()));
    let accepted = Arrival::Canceled(CancelOutcome::Accepted, Some(task("tsk_1")));
    let (waiting, action) = advance(waiting, accepted, &facts());
    assert_eq!(action, DoorAction::ReadResidue);
    let left = Json::Text("shell".to_string());
    let (_, action) = advance(waiting, Arrival::Residue(Some(left)), &facts());
    match reply(action).body {
        ReplyBody::Task(task) => {
            assert_eq!(task.artifacts, Some(read("[\"shell\"]").unwrap()));
        }
        other => panic!("{other:?}"),
    }

    for (outcome, found, is_error) in [
        (CancelOutcome::AlreadyTerminal, Some(task("tsk_1")), false),
        (CancelOutcome::Unknown, None, true),
        (CancelOutcome::Accepted, None, true),
    ] {
        let (waiting, _) = call(&[], "tasks/cancel", "{\"id\":\"tsk_1\"}");
        let (over, action) = advance(waiting, Arrival::Canceled(outcome, found), &facts());
        assert_eq!(over, Waiting::Nothing);
        assert_eq!(matches!(reply(action).body, ReplyBody::Error { .. }), is_error);
    }
}

#[test]
fn a_stopped_session_reports_what_it_stopped_and_what_it_leaves() {
    let (waiting, action) = call(&[], "session/stop", "{}");
    assert_eq!(action, DoorAction::CancelAll);
    let canceled = Arrival::AllCanceled(vec!["tsk_1".to_string()]);
    let (waiting, action) = advance(waiting, canceled, &facts());
    assert_eq!(action, DoorAction::ReadResidueItems);
    let (_, action) = advance(waiting, Arrival::ResidueItems(Vec::new()), &facts());
    assert_eq!(
        reply(action).body,
        ReplyBody::Value(
            read("{\"session_id\":\"ses_1\",\"canceled\":[\"tsk_1\"],\"residue\":[]}").unwrap()
        )
    );
}

#[test]
fn a_stream_opens_replays_and_then_starts_its_task() {
    let (waiting, action) = call(&["Last-Event-ID: 7"], "message/stream", "{\"text\":1}");
    assert!(matches!(&action, DoorAction::OpenStream(head) if head.contains("text/event-stream")));
    let (waiting, action) = advance(waiting, Arrival::Opened, &facts());
    assert_eq!(action, DoorAction::Replay(7));
    let (waiting, action) =
        advance(waiting, Arrival::Replayed(vec![Some(8), Some(9), None]), &facts());
    assert_eq!(action, DoorAction::ReadMessage(read("{\"text\":1}").unwrap()));
    let (waiting, action) =
        advance(waiting, Arrival::Message(Ok(message("go", Some("ctx_own")))), &facts());
    assert_eq!(admitted(action).context_id, "ctx_own");
    let (waiting, action) = advance(waiting, Arrival::Admission(Admission::Queued), &facts());
    assert_eq!(action, DoorAction::Wait);

    let frame = |id: u64, is_final: bool| {
        Arrival::Live(LiveEvent::Frame {
            frame: format!("frame {id}"),
            id: Some(id),
            is_final,
        })
    };
    let (waiting, action) = advance(waiting, frame(9, false), &facts());
    assert_eq!(action, DoorAction::Wait, "frame 9 was replayed");
    let (waiting, action) = advance(waiting, frame(10, false), &facts());
    assert_eq!(action, DoorAction::Write("frame 10".to_string()));
    let (waiting, action) = advance(waiting, Arrival::Live(LiveEvent::Heartbeat), &facts());
    assert_eq!(action, DoorAction::WriteHeartbeat);
    let (waiting, action) = advance(waiting, frame(11, true), &facts());
    assert_eq!(action, DoorAction::WriteAndClose("frame 11".to_string()));
    assert_eq!(waiting, Waiting::Nothing);
}

#[test]
fn a_stream_whose_task_is_not_started_says_so_and_ends() {
    let opened = || {
        let (waiting, _) = call(&[], "message/stream", "{}");
        let (waiting, action) = advance(waiting, Arrival::Opened, &facts());
        assert!(matches!(action, DoorAction::ReadMessage(_)), "nothing to replay");
        waiting
    };
    let (over, action) =
        advance(opened(), Arrival::Message(Err("no parts".to_string())), &facts());
    assert_eq!(over, Waiting::Nothing);
    assert!(matches!(&action, DoorAction::WriteAndClose(frame)
        if frame.contains("Invalid params: no parts")));

    let (waiting, _) = advance(opened(), Arrival::Message(Ok(message("go", None))), &facts());
    let (_, action) = advance(waiting, Arrival::Admission(Admission::Busy), &facts());
    assert!(matches!(&action, DoorAction::WriteAndClose(frame) if frame.contains("rejected")));

    let (waiting, action) = advance(opened(), Arrival::Message(Ok(message("go", None))), &facts());
    let started = admitted(action).task_id;
    let (waiting, action) = advance(waiting, Arrival::Admission(Admission::SendFailed), &facts());
    assert_eq!(action, DoorAction::Withdraw(started));
    let (_, action) = advance(waiting, Arrival::Withdrawn, &facts());
    assert!(matches!(&action, DoorAction::WriteAndClose(frame)
        if frame.contains("queue send failed")));
}

#[test]
fn an_observer_is_acknowledged_replays_from_the_start_and_stays_across_tasks() {
    let (waiting, action) = call(&[], "stream/watch", "{}");
    assert!(matches!(&action, DoorAction::OpenStream(head)
        if head.ends_with("{\"role\":\"observer\",\"conversation_mode\":\"threaded\"}\n\n")));
    let (waiting, action) = advance(waiting, Arrival::Opened, &facts());
    assert_eq!(action, DoorAction::Replay(0));
    let (waiting, action) = advance(waiting, Arrival::Replayed(Vec::new()), &facts());
    assert_eq!(action, DoorAction::Wait);
    let last = LiveEvent::Frame {
        frame: "end of a task".to_string(),
        id: Some(1),
        is_final: true,
    };
    let (waiting, action) = advance(waiting, Arrival::Live(last), &facts());
    assert_eq!(action, DoorAction::Write("end of a task".to_string()));
    assert_eq!(
        waiting,
        Waiting::Live {
            role: StreamRole::Observer,
            last: Some(1)
        }
    );
    let (over, action) = advance(waiting, Arrival::Live(LiveEvent::Closed), &facts());
    assert_eq!(over, Waiting::Nothing);
    assert_eq!(
        action,
        DoorAction::WriteAndClose("event: capsule-closed\ndata: {}\n\n".to_string())
    );
}

#[test]
fn a_client_that_is_gone_ends_its_connection() {
    for waiting in [
        rpc(&[]),
        call(&[], "message/send", "{}").0,
        call(&[], "stream/watch", "{}").0,
        Waiting::Nothing,
    ] {
        assert_eq!(
            advance(waiting, Arrival::Gone, &facts()),
            (Waiting::Nothing, DoorAction::Close)
        );
    }
}
