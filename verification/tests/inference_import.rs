use capsule_runtime::inference_import::{
    completion_of, dispatch, driver_call, response_text, CallFacts, ChatMessage, DriverReply,
    HookInferenceRecords, InferenceRequest, InferenceResponse, ToolStatus,
    INFERENCE_IFACE_VERSIONED, NOT_CONFIGURED,
};
use capsule_runtime::json;
use capsule_runtime::json::read;

const CANNED: &str =
    r#"{"stop_reason":"end_turn","content":[{"type":"text","text":"compacted summary"}]}"#;

fn request(model: Option<&str>) -> InferenceRequest {
    InferenceRequest {
        messages: vec![ChatMessage {
            role: "user".to_string(),
            content: "summarize this".to_string(),
        }],
        system_prompt: None,
        model: model.map(str::to_string),
    }
}

fn reply(status: ToolStatus, data: &str) -> Result<DriverReply, String> {
    Ok(DriverReply {
        status,
        summary: None,
        data: Some(data.to_string()),
    })
}

/// Runs one call against a driver that answers with `reply`; the raw response counts as 9 tokens
/// and the request as one token per character of its model.
fn run(
    records: &mut HookInferenceRecords,
    model: Option<&str>,
    reply: Result<DriverReply, String>,
) -> Result<InferenceResponse, String> {
    let call = driver_call(&request(model), "manifest-model");
    let facts = CallFacts {
        origin: "hook:test".to_string(),
        input_tokens: call.model.len() as u32,
        model: call.model,
        duration_ms: 3,
    };
    records.finish(facts, dispatch("mock-driver", reply), 9)
}

/// `model: none` resolves to the manifest's primary `inference.model`, and the response carries
/// the driver's text plus host-computed token counts.
#[test]
fn run_inference_model_none_resolves_to_manifest_model() {
    let mut records = HookInferenceRecords::new();
    let resp = run(&mut records, None, reply(ToolStatus::Passed, CANNED))
        .expect("the driver returns a well-formed completion");

    assert_eq!(resp.text, "compacted summary");
    assert_eq!(resp.model_used, "manifest-model");
    assert_eq!(resp.input_tokens, "manifest-model".len() as u64);
    assert_eq!(resp.output_tokens, 9);

    let taken = records.drain_records();
    assert_eq!(taken.len(), 1, "exactly one trace record per call");
    assert_eq!(taken[0].origin.source, "hook:test");
    assert_eq!(taken[0].origin.model, "manifest-model");
    assert_eq!(taken[0].decision, "end_turn");
    assert!(records.drain_records().is_empty(), "drain is destructive");
}

/// `model: some(m)` sends `m` instead of the manifest model.
#[test]
fn run_inference_model_some_overrides_the_sent_model() {
    let name = "override-model-with-longer-name";
    let call = driver_call(&request(Some(name)), "manifest-model");
    assert_eq!(call.model, name);
    assert_eq!(
        json::write(&call.messages),
        r#"[{"role":"user","content":"summarize this"}]"#
    );
    assert_eq!(call.system_prompt, "");
    let mut records = HookInferenceRecords::new();
    let resp = run(&mut records, Some(name), reply(ToolStatus::Passed, CANNED))
        .expect("override model still completes");
    assert_eq!(resp.model_used, name);
    assert_eq!(resp.input_tokens, name.len() as u64);
    assert_eq!(records.drain_records()[0].origin.model, name);
}

/// A driver-reported error surfaces as `Err`: exactly one dispatch, one trace record, tagged
/// `error`.
#[test]
fn run_inference_driver_error_is_err_with_no_retry() {
    let mut records = HookInferenceRecords::new();
    let err = run(
        &mut records,
        Some("nope"),
        reply(
            ToolStatus::Passed,
            r#"{"stop_reason":"error","error":"unknown model: nope"}"#,
        ),
    )
    .expect_err("a driver-reported error must not be swallowed");
    assert!(err.contains("unknown model: nope"), "got: {err}");

    let taken = records.drain_records();
    assert_eq!(taken.len(), 1, "one attempt, no implicit fallback retry");
    assert_eq!(taken[0].decision, "error");
    assert_eq!(taken[0].output_tokens, 0);
    assert_eq!(
        taken[0].origin.model, "nope",
        "the failed record must name the model that was actually attempted"
    );
}

/// A non-`passed` tool status from the driver is also an `Err`.
#[test]
fn run_inference_failed_driver_status_is_err() {
    for status in [ToolStatus::Failed, ToolStatus::Error] {
        let mut records = HookInferenceRecords::new();
        let err = run(&mut records, None, reply(status, "boom"))
            .expect_err("status: error must surface");
        assert!(err.contains("boom"), "got: {err}");
        assert_eq!(records.drain_records()[0].decision, "error");
    }
}

#[test]
fn every_way_a_driver_fails_has_its_words() {
    assert_eq!(
        dispatch("mock-driver", Err("gone".to_string())),
        Err("inference driver 'mock-driver' failed: gone".to_string())
    );
    let empty = DriverReply {
        status: ToolStatus::Passed,
        summary: None,
        data: None,
    };
    assert_eq!(
        dispatch("d", Ok(empty)),
        Err("inference driver returned no data".to_string())
    );
    let summarized = DriverReply {
        status: ToolStatus::Passed,
        summary: Some(CANNED.to_string()),
        data: None,
    };
    assert_eq!(
        dispatch("d", Ok(summarized)),
        Ok((CANNED.to_string(), "compacted summary".to_string()))
    );
    let broken = dispatch("d", reply(ToolStatus::Passed, "{")).unwrap_err();
    assert!(
        broken.starts_with("failed to parse inference driver response: "),
        "{broken}"
    );
    assert_eq!(
        completion_of(&Ok(read(r#"{"stop_reason":"error"}"#).unwrap())),
        Err("inference driver returned an error: driver returned error".to_string())
    );
    assert_eq!(
        completion_of(&Err("why".to_string())),
        Err("failed to parse inference driver response: why".to_string())
    );
    assert!(NOT_CONFIGURED.contains("inference.driver.artifact"));
    assert_eq!(INFERENCE_IFACE_VERSIONED, "murmur:runtime/inference@0.2.0");
}

#[test]
fn only_text_blocks_are_joined_in_order() {
    let response = read(
        r#"{"content":[{"type":"text","text":"a"},{"type":"tool_use","text":"x"},{"type":"text"},{"type":"text","text":"b"}]}"#,
    )
    .unwrap();
    assert_eq!(response_text(&response), "ab");
    assert_eq!(response_text(&read(r#"{"content":"a"}"#).unwrap()), "");
    assert_eq!(response_text(&read("{}").unwrap()), "");
}
