use capsule_runtime::json;
use capsule_runtime::json::{get_text, read, Json};
use capsule_runtime::origin::{
    TaskOrigin, TaskProvenance, TrustClass, PEER_ORIGIN_HEADER, PEER_TRUST_HEADER,
};
use capsule_runtime::outgoing::{
    card_of_answer, card_of_response, complete_response, ends_head, get_request, message_body,
    message_request, parse_head, parse_header, parse_host_port, request_id, result_of_answer,
    result_of_response, OutgoingMessage, RawHttpResponse,
};

fn request_head_for(sender_task: Option<TaskProvenance>) -> String {
    let message = OutgoingMessage {
        message_id: "msg_1".to_string(),
        context_id: None,
        text: "hello".to_string(),
    };
    let body = json::write(&message_body(&request_id(), &message));
    message_request("127.0.0.1:1", &body, &None, sender_task)
}

/// The sending runtime stamps the class of its own current task.
#[test]
fn outbound_send_stamps_the_senders_own_trust_class() {
    let cases = [
        (
            Some(TaskProvenance::derive(
                TaskOrigin::Event,
                Some(TrustClass::Untrusted),
            )),
            "untrusted",
        ),
        (
            Some(TaskProvenance::derive(TaskOrigin::User, None)),
            "trusted",
        ),
        (None, "untrusted"),
    ];
    for (sender_task, expected_trust) in cases {
        let head = request_head_for(sender_task);
        assert!(
            head.contains(&format!("{PEER_ORIGIN_HEADER}: peer\r\n")),
            "outbound origin must always be peer; head was:\n{head}"
        );
        assert!(
            head.contains(&format!("{PEER_TRUST_HEADER}: {expected_trust}\r\n")),
            "expected {expected_trust}; head was:\n{head}"
        );
    }
}

#[test]
fn a_message_is_posted_with_its_length_and_trace() {
    let message = OutgoingMessage {
        message_id: "msg_1".to_string(),
        context_id: Some("ctx_1".to_string()),
        text: "héllo".to_string(),
    };
    let body = json::write(&message_body("req_1", &message));
    assert_eq!(
        body,
        "{\"jsonrpc\":\"2.0\",\"id\":\"req_1\",\"method\":\"message/send\",\"params\":\
         {\"message\":{\"messageId\":\"msg_1\",\"contextId\":\"ctx_1\",\"role\":\"user\",\
         \"parts\":[{\"text\":\"héllo\"}]}}}"
    );
    let request = message_request("h:1", &body, &Some("00-a-b-01".to_string()), None);
    assert!(request.starts_with("POST / HTTP/1.1\r\n"), "{request}");
    let length = format!("content-length: {}\r\n", body.len());
    assert!(request.to_lowercase().contains(&length), "{request}");
    assert!(request.contains("00-a-b-01\r\n"), "{request}");
    assert!(request.ends_with(&format!("\r\n\r\n{body}")), "{request}");
    assert_ne!(request_id(), request_id());
}

#[test]
fn a_peer_url_names_its_host_and_port() {
    for url in ["http://h:1/x", "https://h:1", "h:1/", "h:1"] {
        assert_eq!(parse_host_port(url), Ok("h:1".to_string()));
    }
    assert_eq!(
        parse_host_port("http:///x"),
        Err("invalid peer URL: http:///x".to_string())
    );
}

#[test]
fn a_get_carries_its_extra_headers() {
    let request = get_request("h:1", "/p", &[("x-a".to_string(), "b".to_string())]);
    assert!(request.starts_with("GET /p HTTP/1.1\r\n"), "{request}");
    assert!(request.contains("x-a: b\r\n"), "{request}");
    assert!(request.ends_with("\r\n\r\n"), "{request}");
}

fn response(status: u16, body: &str) -> RawHttpResponse {
    RawHttpResponse {
        status,
        headers: vec![("x-a".to_string(), "b".to_string())],
        body: body.as_bytes().to_vec(),
    }
}

#[test]
fn a_response_is_read_head_first() {
    assert_eq!(
        parse_header("X-A:  b \r\n"),
        Some(("x-a".to_string(), "b".to_string()))
    );
    assert_eq!(parse_header("no header"), None);
    assert!(ends_head("\r\n") && !ends_head("x: y\r\n"));
    let lines = ["Content-Length: 2\r\n".to_string(), "X-A: b\r\n".to_string()];
    let head = parse_head("HTTP/1.1 200 OK\r\n", &lines, "h:1").unwrap();
    assert_eq!((head.status, head.content_length), (200, Some(2)));
    let whole = complete_response(head, b"hi".to_vec(), "h:1").unwrap();
    assert_eq!(whole.header("x-a"), Some("b"));
    assert_eq!(whole.header("x-z"), None);
    assert!(parse_head("nonsense\r\n", &[], "h:1").is_err());
}

#[test]
fn an_answer_is_its_result_or_its_error() {
    let ok = result_of_response(&response(200, r#"{"result":{"id":"t"}}"#), "h:1").unwrap();
    assert_eq!(get_text(&ok, "id"), Some("t".to_string()));
    for (body, words) in [
        (r#"{"error":{"code":1},"result":1}"#, "A2A error from h:1: {\"code\":1}"),
        ("{}", "no result in A2A response from h:1"),
    ] {
        assert_eq!(
            result_of_response(&response(200, body), "h:1"),
            Err(words.to_string())
        );
    }
    let broken = result_of_response(&response(200, "{"), "h:1").unwrap_err();
    assert!(
        broken.starts_with("failed to parse response from h:1: "),
        "{broken}"
    );
    assert_eq!(
        result_of_answer(Err("why".to_string()), "h:1"),
        Err("failed to parse response from h:1: why".to_string())
    );
}

#[test]
fn a_card_is_read_from_a_successful_answer_alone() {
    let card = card_of_response(&response(200, r#"{"name":"a"}"#), "h:1").unwrap();
    assert_eq!(card, read(r#"{"name":"a"}"#).unwrap());
    assert_eq!(
        card_of_response(&response(404, "{}"), "h:1"),
        Err("peer h:1 answered 404 for its agent card".to_string())
    );
    assert!(card_of_response(&response(200, "nope"), "h:1").is_err());
    assert_eq!(card_of_answer(200, Ok(Json::Null), "h:1"), Ok(Json::Null));
}
