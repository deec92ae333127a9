use capsule_runtime::errors::RuntimeError;
use capsule_runtime::identity::{
    bind_address, bind_local_port, build_agent_card, cancel_without_id, card_response,
    connection_ack, dispatch, format_lagged_event, format_rejected_event,
    format_unnumbered_sse_event, framed_bytes, incoming_task, message_of_params,
    not_found_response, on_live_event, parse_request_line, receive_message, replay_from,
    replayed_to, reply_to_cancel, reply_to_get, reply_to_message, reply_to_stop, route,
    served_methods, stream_head, stream_parse_error, stream_refusal, task_ids, task_to_cancel,
    A2aMessage, A2aTask, Admission, BindResult, CancelOutcome, CapabilityPolicy,
    CapsuleIdentity, ConversationMode, DeclaredPlanes, Dispatch, DoorMethod, DoorNames,
    InputDelivery, InstalledArtifactSummary, JsonRpcRequest, LiveEvent, ReplyBody, RequestHead,
    Route, RpcReply, SendStep, StreamAction, StreamRole, TaskAcceptance,
};
use capsule_runtime::json;
use capsule_runtime::json::{get, get_text, read, Json};
use capsule_runtime::origin::{TaskOrigin, TaskProvenance, TrustClass};
use capsule_runtime::peer_handoff::ResourceResponse;

const ACCEPTANCES: [TaskAcceptance; 3] = [
    TaskAcceptance::NoTasks,
    TaskAcceptance::Single,
    TaskAcceptance::Queue,
];

fn probe() -> CapsuleIdentity {
    CapsuleIdentity {
        capsule_name: "probe".to_string(),
        capsule_version: "0.1.0".to_string(),
        session_id: "ses_probe".to_string(),
        capsule_url: "http://127.0.0.1:1".to_string(),
    }
}

fn card_for(acceptance: TaskAcceptance, planes: DeclaredPlanes) -> Json {
    let policy = CapabilityPolicy {
        shell_allow: Vec::new(),
        network_allow: Vec::new(),
    };
    build_agent_card(&probe(), &[], &policy, acceptance, planes)
}

fn at<'a>(value: &'a Json, path: &[&str]) -> &'a Json {
    let mut here = value;
    for key in path {
        here = get(here, key).unwrap_or_else(|| panic!("no {key}"));
    }
    here
}

fn strings(value: &Json) -> Vec<String> {
    match value {
        Json::Array(items) => items
            .iter()
            .map(|item| match item {
                Json::Text(text) => text.clone(),
                other => panic!("{other:?}"),
            })
            .collect(),
        other => panic!("{other:?}"),
    }
}

fn names() -> DoorNames {
    DoorNames {
        delegation_id_header: "x-murmur-delegation-id".to_string(),
        completion_session_header: "x-murmur-completion-session".to_string(),
        resource_prefix: "/resources/".to_string(),
    }
}

fn head(lines: &[&str]) -> RequestHead {
    let lines: Vec<String> = lines.iter().map(|line| line.to_string()).collect();
    RequestHead::read(&lines, &names())
}

fn request(method: &str) -> Option<JsonRpcRequest> {
    Some(JsonRpcRequest {
        id: Json::Text("1".to_string()),
        method: method.to_string(),
        params: Json::Null,
    })
}

fn task(id: &str) -> A2aTask {
    A2aTask {
        id: id.to_string(),
        context_id: "ctx".to_string(),
        state: "working".to_string(),
        artifacts: None,
    }
}

fn error_of(reply: &RpcReply) -> (i64, &str) {
    match &reply.body {
        ReplyBody::Error { code, message } => (*code, message.as_str()),
        other => panic!("{other:?}"),
    }
}

#[test]
fn rejected_status_carries_no_event_id() {
    let frame = format_rejected_event("tsk_1", &Some("ctx_1".to_string()));
    assert!(frame.starts_with("event: status\ndata: {"), "{frame}");
    assert!(!frame.contains("id: "), "{frame}");
    assert!(frame.contains(r#""state":"rejected""#), "{frame}");
    assert!(frame.contains("task rejected: capsule is busy"), "{frame}");
    assert!(frame.ends_with("\n\n"), "{frame}");
}

#[test]
fn door_method_served_methods_are_exactly_what_resolve_serves() {
    for acceptance in ACCEPTANCES {
        let served = served_methods(acceptance);
        for method in DoorMethod::all() {
            let resolved = DoorMethod::resolve(method.wire_name(), acceptance);
            assert_eq!(
                served.contains(&method.wire_name().to_string()),
                resolved.is_some(),
                "{} under {acceptance:?}",
                method.wire_name()
            );
            if let Some(resolved) = resolved {
                assert_eq!(resolved, method, "{acceptance:?}");
            }
        }
        let listed_in_all_order: Vec<String> = DoorMethod::all()
            .into_iter()
            .map(|method| method.wire_name().to_string())
            .filter(|name| served.contains(name))
            .collect();
        assert_eq!(served, listed_in_all_order, "{acceptance:?}");
    }
}

#[test]
fn door_method_acceptance_none_serves_no_task_starting_method() {
    assert_eq!(
        served_methods(TaskAcceptance::NoTasks),
        ["stream/watch", "tasks/get", "tasks/cancel", "session/stop"]
    );
    for acceptance in [TaskAcceptance::Single, TaskAcceptance::Queue] {
        assert_eq!(
            served_methods(acceptance),
            [
                "message/send",
                "message/stream",
                "stream/watch",
                "tasks/get",
                "tasks/cancel",
                "session/stop"
            ]
        );
    }
}

#[test]
fn door_method_resolve_matches_names_exactly() {
    for acceptance in ACCEPTANCES {
        for name in [
            "tasks/list",
            "",
            "Tasks/Get",
            "TASKS/GET",
            " tasks/get",
            "tasks/get ",
            "tasks/get\n",
            "session/stop/",
        ] {
            assert_eq!(
                DoorMethod::resolve(name, acceptance),
                None,
                "{name:?} under {acceptance:?}"
            );
        }
    }
}

#[test]
fn door_method_card_advertises_what_the_resolver_serves() {
    for acceptance in ACCEPTANCES {
        let card = card_for(
            acceptance,
            DeclaredPlanes {
                files: false,
                peer_files: false,
            },
        );
        let methods = strings(at(&card, &["serves", "methods"]));
        assert_eq!(methods, served_methods(acceptance), "{acceptance:?}");
        assert_eq!(
            at(&card, &["capabilities", "streaming"]),
            &Json::Bool(methods.contains(&"message/stream".to_string())),
            "{acceptance:?}"
        );
    }
}

#[test]
fn door_method_card_lists_declared_planes_in_order() {
    let cases: [(bool, bool, &[&str]); 4] = [
        (false, false, &[]),
        (true, false, &["files"]),
        (false, true, &["peer_files"]),
        (true, true, &["files", "peer_files"]),
    ];
    for (files, peer_files, expected) in cases {
        let card = card_for(TaskAcceptance::Single, DeclaredPlanes { files, peer_files });
        assert_eq!(strings(at(&card, &["serves", "planes"])), expected);
    }
}

#[test]
fn a_card_names_the_capsule_and_its_visible_tools() {
    let policy = CapabilityPolicy {
        shell_allow: vec!["git".to_string()],
        network_allow: vec!["api.example".to_string()],
    };
    let artifacts = [
        InstalledArtifactSummary {
            name: "shown".to_string(),
            llm_visible: true,
        },
        InstalledArtifactSummary {
            name: "hidden".to_string(),
            llm_visible: false,
        },
    ];
    let card = build_agent_card(
        &probe(),
        &artifacts,
        &policy,
        TaskAcceptance::Single,
        DeclaredPlanes {
            files: false,
            peer_files: false,
        },
    );
    let text = json::write(&card);
    assert_eq!(get_text(&card, "name"), Some("probe".to_string()));
    assert_eq!(get_text(&card, "version"), Some("0.1.0".to_string()));
    assert!(text.contains("http://127.0.0.1:1"), "{text}");
    assert!(text.contains("shown") && !text.contains("hidden"), "{text}");
    assert!(read(&text) == Some(card));
}

#[test]
fn a_taken_port_is_named_only_when_it_was_asked_for() {
    assert_eq!(bind_address("127.0.0.1", Some(80)), "127.0.0.1:80");
    assert_eq!(bind_address("127.0.0.1", None), "127.0.0.1:0");
    assert_eq!(bind_local_port(None, BindResult::Bound(5)), Ok(5));
    assert_eq!(
        bind_local_port(Some(80), BindResult::InUse("taken".to_string())),
        Err(RuntimeError::PortInUse { port: 80 })
    );
    for (port, outcome, message) in [
        (
            None,
            BindResult::InUse("taken".to_string()),
            "failed to bind agent-card port: taken",
        ),
        (
            Some(1),
            BindResult::Failed("denied".to_string()),
            "failed to bind agent-card port: denied",
        ),
        (
            Some(1),
            BindResult::PortUnreadable("gone".to_string()),
            "failed to read bound port: gone",
        ),
    ] {
        assert_eq!(
            bind_local_port(port, outcome),
            Err(RuntimeError::Runtime(message.to_string()))
        );
    }
    let taken = RuntimeError::PortInUse { port: 80 }.message();
    assert!(taken.contains("80"), "{taken}");
}

#[test]
fn a_request_is_read_from_its_lines() {
    assert_eq!(
        parse_request_line("POST /rpc HTTP/1.1\r\n"),
        ("POST".to_string(), "/rpc".to_string())
    );
    let read = head(&[
        "Content-Length: 12",
        "Content-Type: application/json",
        "Traceparent: 00-a-b-01",
        "Last-Event-ID: 7",
        "X-Murmur-Task-Origin: peer",
        "X-Murmur-Task-Trust: trusted",
        "X-Murmur-Delegation-Id: del_1",
    ]);
    assert_eq!(read.content_length, 12);
    assert!(read.is_json);
    assert_eq!(read.traceparent.as_deref(), Some("00-a-b-01"));
    assert_eq!(read.last_event_id, Some(7));
    assert_eq!(read.provenance().origin(), TaskOrigin::Peer);
    assert_eq!(read.provenance().trust(), TrustClass::Trusted);
    let bare = RequestHead::new();
    assert_eq!(bare.content_length, 0);
    assert_eq!(bare.provenance().origin(), TaskOrigin::Event);
    assert_eq!(bare.delegation(), None);
}

#[test]
fn a_delegation_is_taken_from_a_completion_alone() {
    let completion = head(&[
        "x-murmur-task-origin: completion",
        "x-murmur-delegation-id: del_1",
    ]);
    assert_eq!(completion.delegation(), Some("del_1".to_string()));
    let peer = head(&["x-murmur-task-origin: peer", "x-murmur-delegation-id: del_1"]);
    assert_eq!(peer.delegation(), None);
}

#[test]
fn a_path_is_routed_by_its_method_and_prefix() {
    let plain = RequestHead::new();
    let json = head(&["content-type: application/json", "content-length: 2"]);
    assert_eq!(
        route("GET", "/.well-known/agent-card.json", &plain, &names()),
        Route::Card
    );
    assert_eq!(
        route("GET", "/resources/peer/mh1.a.b", &plain, &names()),
        Route::Peer
    );
    assert_eq!(
        route("GET", "/resources/files/a", &plain, &names()),
        Route::Resource
    );
    assert_eq!(route("POST", "/", &json, &names()), Route::Rpc);
    assert_eq!(route("GET", "/nowhere", &plain, &names()), Route::NotFound);
}

#[test]
fn an_unknown_method_and_an_unreadable_body_are_refused() {
    let plain = RequestHead::new();
    match dispatch(&plain, "ses_1", TaskAcceptance::Single, None) {
        Dispatch::Reply(reply) => assert_eq!(error_of(&reply).0, -32700),
        other => panic!("{other:?}"),
    }
    match dispatch(&plain, "ses_1", TaskAcceptance::NoTasks, request("message/send")) {
        Dispatch::Reply(reply) => assert_eq!(error_of(&reply).0, -32601),
        other => panic!("{other:?}"),
    }
    assert!(matches!(
        dispatch(&plain, "ses_1", TaskAcceptance::Single, request("tasks/get")),
        Dispatch::Single(DoorMethod::TasksGet, _)
    ));
    assert!(matches!(
        dispatch(&plain, "ses_1", TaskAcceptance::Single, request("message/stream")),
        Dispatch::Stream(_)
    ));
    assert!(matches!(
        dispatch(&plain, "ses_1", TaskAcceptance::NoTasks, request("stream/watch")),
        Dispatch::Watch
    ));
}

#[test]
fn a_completion_for_another_session_is_refused() {
    let other = head(&[
        "x-murmur-task-origin: completion",
        "x-murmur-completion-session: ses_other",
    ]);
    for method in ["message/send", "tasks/get", "session/stop"] {
        assert!(matches!(
            dispatch(&other, "ses_1", TaskAcceptance::Single, request(method)),
            Dispatch::Reply(_)
        ));
    }
    let own = head(&[
        "x-murmur-task-origin: completion",
        "x-murmur-completion-session: ses_1",
    ]);
    assert!(matches!(
        dispatch(&own, "ses_1", TaskAcceptance::Single, request("message/send")),
        Dispatch::Single(DoorMethod::MessageSend, _)
    ));
}

fn message() -> A2aMessage {
    A2aMessage {
        message_id: "m".to_string(),
        context_id: Some("ctx_given".to_string()),
        text: "do it".to_string(),
    }
}

#[test]
fn a_message_becomes_a_task() {
    let (task_id, context_id) = task_ids(&message());
    assert!(task_id.starts_with("tsk_") && task_id.len() == 36, "{task_id}");
    assert_eq!(context_id, "ctx_given");
    assert_ne!(task_ids(&message()).0, task_id);
    let (_, fresh) = task_ids(&A2aMessage {
        context_id: None,
        ..message()
    });
    assert!(fresh.starts_with("ctx_"), "{fresh}");
    let task = incoming_task(
        message(),
        "tsk_1",
        "ctx_1",
        Some("tp".to_string()),
        TaskProvenance::derive(TaskOrigin::User, None),
        None,
    );
    assert_eq!(
        (task.task_id.as_str(), task.context_id.as_str(), task.message_text.as_str()),
        ("tsk_1", "ctx_1", "do it")
    );
    assert_eq!(task.provenance.trust(), TrustClass::Trusted);
}

#[test]
fn a_message_is_taken_delivered_or_refused() {
    let id = || Json::Text("1".to_string());
    match receive_message(id(), Err("bad".to_string()), InputDelivery::NotDelivered) {
        SendStep::Reply(reply) => {
            let (code, words) = error_of(&reply);
            assert_eq!(code, -32602);
            assert!(words.contains("bad"), "{words}");
        }
        other => panic!("{other:?}"),
    }
    match receive_message(id(), Ok(message()), InputDelivery::Delivered(Some(task("t")))) {
        SendStep::Reply(reply) => assert!(matches!(reply.body, ReplyBody::Task(_))),
        other => panic!("{other:?}"),
    }
    assert!(matches!(
        receive_message(id(), Ok(message()), InputDelivery::NotDelivered),
        SendStep::Accept(_, _)
    ));
    let params = read(r#"{"message":{"messageId":"m"}}"#).unwrap();
    assert_eq!(
        get_text(message_of_params(&params), "messageId"),
        Some("m".to_string())
    );
}

#[test]
fn a_submitted_message_is_answered_by_its_admission() {
    let reply = |outcome| {
        reply_to_message(
            Json::Null,
            "tsk".to_string(),
            "ctx".to_string(),
            outcome,
        )
    };
    let (queued, _) = reply(Admission::Queued);
    match queued.body {
        ReplyBody::Task(task) => assert_eq!((task.id.as_str(), task.state.as_str()), ("tsk", "submitted")),
        other => panic!("{other:?}"),
    }
    assert!(matches!(reply(Admission::SendFailed).0.body, ReplyBody::Error { .. }));
    let (busy, _) = reply(Admission::Busy);
    match busy.body {
        ReplyBody::Task(task) => assert_eq!(task.state, "rejected"),
        other => panic!("{other:?}"),
    }
}

#[test]
fn a_task_is_asked_for_by_its_id_and_reported() {
    let by_id = read(r#"{"id":"tsk_1"}"#).unwrap();
    assert_eq!(task_to_cancel(&by_id), Some("tsk_1".to_string()));
    assert_eq!(task_to_cancel(&Json::Null), None);
    assert_eq!(error_of(&reply_to_get(Json::Null, None)).0, -32001);
    assert!(matches!(
        reply_to_get(Json::Null, Some(task("t"))).body,
        ReplyBody::Task(_)
    ));
    assert!(matches!(cancel_without_id(Json::Null).body, ReplyBody::Error { .. }));
    assert_eq!(
        error_of(&reply_to_cancel(Json::Null, CancelOutcome::Unknown, None, None)).0,
        -32001
    );
    assert!(!matches!(
        reply_to_cancel(Json::Null, CancelOutcome::AlreadyTerminal, Some(task("t")), None).body,
        ReplyBody::Error { .. }
    ));
    assert!(!matches!(
        reply_to_cancel(Json::Null, CancelOutcome::Accepted, Some(task("t")), None).body,
        ReplyBody::Error { .. }
    ));
    let stopped = reply_to_stop(Json::Null, "ses_1", &["tsk_1".to_string()], Vec::new());
    match stopped.body {
        ReplyBody::Value(value) => {
            let text = json::write(&value);
            assert!(text.contains("ses_1") && text.contains("tsk_1"), "{text}");
        }
        other => panic!("{other:?}"),
    }
}

fn frame(id: Option<u64>, is_final: bool) -> LiveEvent {
    LiveEvent::Frame {
        frame: "f".to_string(),
        id,
        is_final,
    }
}

#[test]
fn a_frame_that_was_replayed_is_not_written_again() {
    for role in [StreamRole::Submitter, StreamRole::Observer] {
        assert_eq!(
            on_live_event(role, Some(5), frame(Some(5), false)),
            (StreamAction::Skip, Some(5))
        );
        assert_eq!(
            on_live_event(role, Some(5), frame(Some(6), false)),
            (StreamAction::Write("f".to_string()), Some(6))
        );
        assert_eq!(
            on_live_event(role, Some(5), LiveEvent::Heartbeat).0,
            StreamAction::WriteHeartbeat
        );
    }
    assert_eq!(
        on_live_event(StreamRole::Observer, None, LiveEvent::Closed).0,
        StreamAction::WriteAndClose("event: capsule-closed\ndata: {}\n\n".to_string())
    );
    assert_eq!(
        on_live_event(StreamRole::Submitter, None, LiveEvent::Closed).0,
        StreamAction::Close
    );
}

#[test]
fn a_final_frame_ends_a_submitters_stream_and_not_an_observers() {
    assert_eq!(
        on_live_event(StreamRole::Submitter, None, frame(Some(1), true)).0,
        StreamAction::WriteAndClose("f".to_string())
    );
    assert_eq!(
        on_live_event(StreamRole::Observer, None, frame(Some(1), true)).0,
        StreamAction::Write("f".to_string())
    );
}

#[test]
fn a_lagged_stream_says_how_much_it_missed() {
    let lagged = format_lagged_event(3);
    assert!(lagged.starts_with("event: lagged\n"), "{lagged}");
    assert!(lagged.contains('3') && lagged.ends_with("\n\n"), "{lagged}");
    for role in [StreamRole::Submitter, StreamRole::Observer] {
        match on_live_event(role, Some(1), LiveEvent::Lagged(3)).0 {
            StreamAction::Write(text) | StreamAction::WriteAndClose(text) => {
                assert!(text.contains("lagged"), "{text}")
            }
            other => panic!("{other:?}"),
        }
    }
}

#[test]
fn a_replay_ends_at_its_highest_numbered_frame() {
    assert_eq!(replayed_to(&[Some(1), None, Some(4)]), Some(4));
    assert_eq!(replayed_to(&[None]), None);
    assert_eq!(replayed_to(&[]), None);
    assert_eq!(replay_from(StreamRole::Submitter, Some(3)), Some(3));
}

#[test]
fn the_head_of_a_stream_and_its_frames_are_server_sent_events() {
    let text = stream_head();
    assert!(text.starts_with("HTTP/1.1 200 OK\r\n"), "{text}");
    assert!(text.contains("text/event-stream"), "{text}");
    assert_eq!(
        format_unnumbered_sse_event("status", "{}"),
        "event: status\ndata: {}\n\n"
    );
    assert_ne!(
        connection_ack(ConversationMode::Stateless),
        connection_ack(ConversationMode::Threaded)
    );
    assert_eq!(stream_refusal(Admission::Queued, "t", "c"), None);
    assert_eq!(
        stream_refusal(Admission::Busy, "t", "c"),
        Some(format_rejected_event("t", &Some("c".to_string())))
    );
    assert!(stream_parse_error("why").contains("why"));
}

#[test]
fn a_response_is_framed_with_its_length() {
    assert!(card_response("{}").to_lowercase().contains("content-length: 2\r\n"));
    assert!(not_found_response().starts_with("HTTP/1.1 404 "));
    let response = ResourceResponse {
        status: 200,
        headers: vec![("X-A".to_string(), "b".to_string())],
        body: b"hi".to_vec(),
    };
    let text = String::from_utf8(framed_bytes(&response, "OK")).unwrap();
    assert!(text.starts_with("HTTP/1.1 200 OK\r\n"), "{text}");
    assert!(text.contains("X-A: b\r\n"), "{text}");
    assert!(text.ends_with("\r\n\r\nhi"), "{text}");
}
