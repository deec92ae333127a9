use capsule_runtime::json;
use capsule_runtime::json::{get, get_text, Json};
use capsule_runtime::otel::{
    answer_complaint, ms_to_ns, new_span_id, new_trace_id, parse_otlp_endpoint, parse_traceparent,
    span_id_of, trace_id_of, InferenceOrigin, OtelEmitter,
};

const NOW: u64 = 1_700_000_000_000_000_000;

fn emitter(endpoint: Option<&str>) -> OtelEmitter {
    OtelEmitter::new(
        endpoint.map(str::to_string),
        "test-capsule".to_string(),
        "1.0.0".to_string(),
        NOW,
    )
}

#[test]
fn parse_traceparent_valid() {
    let tp = "00-4bf92f3577b34da6a3ce929d0e0e4736-00f067aa0ba902b7-01";
    let (tid, sid) = parse_traceparent(Some(tp));
    assert_eq!(tid.unwrap(), "4bf92f3577b34da6a3ce929d0e0e4736");
    assert_eq!(sid.unwrap(), "00f067aa0ba902b7");
}

#[test]
fn parse_traceparent_none() {
    let (tid, sid) = parse_traceparent(None);
    assert!(tid.is_none());
    assert!(sid.is_none());
}

#[test]
fn parse_traceparent_malformed() {
    let (tid, sid) = parse_traceparent(Some("garbage"));
    assert!(tid.is_none());
    assert!(sid.is_none());
}

#[test]
fn a_traceparent_of_another_version_or_with_other_digits_is_malformed() {
    let trace = "4bf92f3577b34da6a3ce929d0e0e4736";
    let span = "00f067aa0ba902b7";
    let bent = [
        format!("01-{trace}-{span}-01"),
        format!("00-{}-{span}-01", "z".repeat(32)),
        format!("00-{trace}-{}-01", "g".repeat(16)),
        format!("00-{trace}-{span}-0"),
        format!("00-{trace}-{span}-01-more"),
        format!("00-{trace}-{span}"),
    ];
    for value in bent {
        assert_eq!(parse_traceparent(Some(&value)), (None, None), "{value}");
    }
    let upper = format!("00-{}-{span}-01", trace.to_uppercase());
    assert_eq!(
        parse_traceparent(Some(&upper)),
        (Some(trace.to_uppercase()), Some(span.to_string()))
    );
}

#[test]
fn parse_traceparent_short_ids() {
    // Wrong lengths → rejected
    let tp = "00-abc-def-01";
    let (tid, sid) = parse_traceparent(Some(tp));
    assert!(tid.is_none());
    assert!(sid.is_none());
}

#[test]
fn parse_otlp_endpoint_plain() {
    let (addr, prefix) = parse_otlp_endpoint("http://localhost:4318").unwrap();
    assert_eq!(addr, "localhost:4318");
    assert_eq!(prefix, "");
}

#[test]
fn parse_otlp_endpoint_with_path() {
    let (addr, prefix) = parse_otlp_endpoint("http://tempo:4318/otlp").unwrap();
    assert_eq!(addr, "tempo:4318");
    assert_eq!(prefix, "/otlp");
}

#[test]
fn parse_otlp_endpoint_no_scheme() {
    let (addr, prefix) = parse_otlp_endpoint("localhost:4318").unwrap();
    assert_eq!(addr, "localhost:4318");
    assert_eq!(prefix, "");
}

#[test]
fn parse_otlp_endpoint_trims_slashes_and_refuses_an_empty_host() {
    assert_eq!(
        parse_otlp_endpoint("https://tempo:4318/a//"),
        Ok(("tempo:4318".to_string(), "/a".to_string()))
    );
    assert_eq!(
        parse_otlp_endpoint("http:///otlp"),
        Err("empty host:port".to_string())
    );
    assert_eq!(parse_otlp_endpoint(""), Err("empty host:port".to_string()));
}

#[test]
fn new_trace_id_is_32_chars() {
    let id = new_trace_id();
    assert_eq!(id.len(), 32, "trace_id must be 32 hex chars");
    assert!(
        id.chars().all(|c| c.is_ascii_hexdigit()),
        "trace_id must be hex"
    );
}

#[test]
fn new_span_id_is_16_chars() {
    let id = new_span_id();
    assert_eq!(id.len(), 16, "span_id must be 16 hex chars");
    assert!(
        id.chars().all(|c| c.is_ascii_hexdigit()),
        "span_id must be hex"
    );
}

#[test]
fn ids_are_the_bytes_in_hexadecimal() {
    let bytes: [u8; 16] = [
        0x00, 0x01, 0x0a, 0x10, 0x7f, 0x80, 0xff, 0xab, 1, 2, 3, 4, 5, 6, 7, 8,
    ];
    assert_eq!(trace_id_of(&bytes), "00010a107f80ffab0102030405060708");
    assert_eq!(span_id_of(&bytes), "00010a107f80ffab");
    assert_ne!(new_trace_id(), new_trace_id());
    assert_ne!(new_span_id(), new_span_id());
}

#[test]
fn begin_session_extracts_parent_span_id_from_traceparent() {
    let mut emitter = emitter(Some("http://localhost:4318"));
    let tp = "00-4bf92f3577b34da6a3ce929d0e0e4736-00f067aa0ba902b7-01";
    emitter.begin_session(Some(tp), NOW);
    // trace_id is always fresh — NOT inherited from the incoming traceparent
    assert_ne!(emitter.trace_id, "4bf92f3577b34da6a3ce929d0e0e4736");
    assert_eq!(emitter.trace_id.len(), 32);
    // parent_span_id IS extracted so the emitted span links to the caller
    assert_eq!(emitter.parent_span_id.as_deref(), Some("00f067aa0ba902b7"));
}

#[test]
fn begin_session_no_parent_generates_new_trace_id() {
    let mut emitter = emitter(None);
    emitter.begin_session(None, NOW);
    assert_eq!(emitter.trace_id.len(), 32);
    assert!(emitter.parent_span_id.is_none());
}

#[test]
fn session_ended_flag_prevents_double_emit() {
    let mut emitter = emitter(Some("http://localhost:4318"));
    emitter.begin_session(None, NOW);
    // session_ended starts false
    assert!(!emitter.session_ended);
    assert!(emitter.emit_session_end("ok", NOW).is_some());
    assert!(emitter.session_ended);
    // emit_session_end_if_not_ended must not reset the flag, nor emit again
    assert!(emitter.emit_session_end_if_not_ended("failed", NOW).is_none());
    assert!(emitter.session_ended);
}

#[test]
fn noop_when_endpoint_is_none() {
    let mut emitter = emitter(None);
    assert!(emitter.endpoint.is_none());
    assert!(emitter.emit_session_end("ok", NOW).is_none());
    assert!(!emitter.session_ended);
    assert!(emitter
        .emit_inference(1, 2, 3, "end_turn", None, 4, None, NOW)
        .is_none());
    assert!(emitter.emit_tool_call("t", 1, 2, 3, "ok", NOW).is_none());
    assert!(emitter.emit_shell("ls", 0, 1, NOW).is_none());
    assert!(emitter.emit_compaction(2, 1, NOW).is_none());
    assert!(emitter.post_span(Json::Null).is_none());
}

#[test]
fn outgoing_traceparent_none_when_no_endpoint() {
    let mut emitter = emitter(None);
    emitter.begin_session(None, NOW);
    assert!(emitter.outgoing_traceparent().is_none());
}

#[test]
fn outgoing_traceparent_returns_w3c_format_when_endpoint_set() {
    let mut emitter = emitter(Some("http://localhost:4318"));
    emitter.begin_session(None, NOW);
    let tp = emitter
        .outgoing_traceparent()
        .expect("should produce traceparent");
    let parts: Vec<&str> = tp.splitn(4, '-').collect();
    assert_eq!(parts.len(), 4);
    assert_eq!(parts[0], "00");
    assert_eq!(parts[1].len(), 32, "trace_id must be 32 hex chars");
    assert_eq!(parts[2].len(), 16, "span_id must be 16 hex chars");
    assert_eq!(parts[3], "01");
    assert_eq!(parts[1], emitter.trace_id);
    assert_eq!(parts[2], emitter.session_span_id);
    assert_eq!(
        parse_traceparent(Some(&tp)),
        (
            Some(emitter.trace_id.clone()),
            Some(emitter.session_span_id.clone())
        )
    );
}

#[test]
fn outgoing_traceparent_uses_own_trace_id_not_parents() {
    let mut emitter = emitter(Some("http://localhost:4318"));
    let tp_in = "00-4bf92f3577b34da6a3ce929d0e0e4736-00f067aa0ba902b7-01";
    emitter.begin_session(Some(tp_in), NOW);
    let tp_out = emitter.outgoing_traceparent().unwrap();
    // Trace-id must be the capsule's OWN fresh trace, NOT the incoming one
    assert!(!tp_out.contains("4bf92f3577b34da6a3ce929d0e0e4736"));
    // Span-id must be the freshly generated session_span_id
    assert!(!tp_out.contains("00f067aa0ba902b7"));
    let parts: Vec<&str> = tp_out.splitn(4, '-').collect();
    assert_eq!(parts[1].len(), 32);
    assert_eq!(parts[2].len(), 16);
}

fn attributes(span: &Json) -> Vec<String> {
    match get(span, "attributes").unwrap() {
        Json::Array(items) => items.iter().map(json::write).collect(),
        other => panic!("{other:?}"),
    }
}

#[test]
fn a_session_span_spans_the_session() {
    let mut emitter = emitter(Some("http://localhost:4318"));
    let tp = "00-4bf92f3577b34da6a3ce929d0e0e4736-00f067aa0ba902b7-01";
    emitter.begin_session(Some(tp), 5);
    let span = emitter.emit_session_end("ok", 9).unwrap();
    let expected = format!(
        "{{\"traceId\":\"{}\",\"spanId\":\"{}\",\"name\":\"capsule.session\",\"kind\":1,\
         \"startTimeUnixNano\":\"5\",\"endTimeUnixNano\":\"9\",\"attributes\":\
         [{{\"key\":\"exit_status\",\"value\":{{\"stringValue\":\"ok\"}}}}],\
         \"status\":{{\"code\":1}},\"parentSpanId\":\"00f067aa0ba902b7\"}}",
        emitter.trace_id, emitter.session_span_id
    );
    assert_eq!(json::write(&span), expected);
}

#[test]
fn a_child_span_hangs_under_the_session() {
    let emitter = emitter(Some("http://localhost:4318"));
    let span = emitter.emit_tool_call("t", 1, 2, 3, "ok", 10_000_000).unwrap();
    assert_eq!(
        get_text(&span, "parentSpanId"),
        Some(emitter.session_span_id.clone())
    );
    assert_eq!(get_text(&span, "traceId"), Some(emitter.trace_id.clone()));
    assert_ne!(
        get_text(&span, "spanId"),
        Some(emitter.session_span_id.clone())
    );
    assert_eq!(get_text(&span, "startTimeUnixNano"), Some("7000000".to_string()));
    assert_eq!(attributes(&span).len(), 5);
    // A span longer than the clock has run starts at zero.
    let long = emitter.emit_compaction(2, 1, 5).unwrap();
    assert_eq!(get_text(&long, "startTimeUnixNano"), Some("0".to_string()));
    assert_eq!(ms_to_ns(3), 3_000_000);
    assert_eq!(ms_to_ns(u64::MAX), u64::MAX);
}

#[test]
fn a_completion_of_a_hook_names_its_origin() {
    let emitter = emitter(Some("http://localhost:4318"));
    let origin = InferenceOrigin {
        source: "hook:test".to_string(),
        model: "m".to_string(),
    };
    let plain = emitter
        .emit_inference(1, 2, 3, "end_turn", None, 4, None, NOW)
        .unwrap();
    let hooked = emitter
        .emit_inference(1, 2, 3, "end_turn", Some("t"), 4, Some(&origin), NOW)
        .unwrap();
    assert_eq!(attributes(&plain).len(), 4);
    let listed = attributes(&hooked);
    assert_eq!(listed.len(), 7);
    assert_eq!(
        listed[5],
        "{\"key\":\"origin\",\"value\":{\"stringValue\":\"hook:test\"}}"
    );
    assert_eq!(listed[0], "{\"key\":\"turn\",\"value\":{\"intValue\":\"1\"}}");
}

#[test]
fn a_command_is_cut_and_a_negative_exit_code_wraps() {
    let emitter = emitter(Some("http://localhost:4318"));
    let command = "é".repeat(250);
    let span = emitter.emit_shell(&command, -1, 0, NOW).unwrap();
    let listed = attributes(&span);
    assert!(listed[0].contains(&"é".repeat(200)) && !listed[0].contains(&"é".repeat(201)));
    assert!(listed[1].contains(&(-1i32 as u64).to_string()), "{}", listed[1]);
}

#[test]
fn a_span_is_posted_to_the_endpoints_path() {
    let emitter = emitter(Some("http://tempo:4318/otlp/"));
    let span = emitter.emit_compaction(2, 1, NOW).unwrap();
    let body = json::write(&emitter.payload(span));
    let span = emitter.emit_compaction(2, 1, NOW).unwrap();
    let post = emitter.post_span(span).unwrap().unwrap();
    assert_eq!(post.addr, "tempo:4318");
    assert!(
        post.request
            .starts_with("POST /otlp/v1/traces HTTP/1.1\r\nHost: tempo:4318\r\n"),
        "{}",
        post.request
    );
    assert!(post
        .request
        .contains(&format!("Content-Length: {}\r\n", body.len())));
    assert!(post.request.contains("\"name\":\"murmur-capsule-runtime\""));
    let refused = self::emitter(Some("http://")).post_span(Json::Null).unwrap();
    assert_eq!(
        refused.unwrap_err(),
        "invalid otel_endpoint 'http://': empty host:port"
    );
}

#[test]
fn an_answer_is_logged_unless_it_is_a_success() {
    assert_eq!(answer_complaint("HTTP/1.1 200 OK\r\n"), None);
    assert_eq!(answer_complaint("HTTP/1.1 204\r\n"), None);
    assert_eq!(answer_complaint(""), None);
    assert_eq!(
        answer_complaint("HTTP/1.1 503 2 workers\r\n"),
        Some("OTLP POST non-2xx: HTTP/1.1 503 2 workers".to_string())
    );
    assert_eq!(
        answer_complaint("\r\n"),
        Some("OTLP POST non-2xx: ".to_string())
    );
    assert_eq!(
        answer_complaint("HTTP/1.1 503 Service Unavailable\r\n"),
        Some("OTLP POST non-2xx: HTTP/1.1 503 Service Unavailable".to_string())
    );
}
