//! What `murmur:runtime/inference@0.2.0#run-inference` decides.
//!
//! A hook component that imports this interface can run exactly one completion through the
//! capsule's configured inference driver. Here the model is resolved, the driver's reply is read,
//! and every call leaves one record, whether it succeeded or not.

use crate::json;
use crate::json::{Json, JsonView};
use crate::otel::InferenceOrigin;
use crate::text;
use vstd::prelude::*;

verus! {

/// The versioned instance name the host provides `run-inference` under.
pub const INFERENCE_IFACE_VERSIONED: &'static str = "murmur:runtime/inference@0.2.0";

/// What `run-inference` answers when the capsule has no usable driver.
pub const NOT_CONFIGURED: &'static str =
    "inference driver is not configured; add inference.driver.artifact to murmur.yaml";

/// One message of a request.
#[derive(Debug, PartialEq, Eq)]
pub struct ChatMessage {
    pub role: String,
    pub content: String,
}

/// What a hook asks for.
#[derive(Debug, PartialEq, Eq)]
pub struct InferenceRequest {
    pub messages: Vec<ChatMessage>,
    pub system_prompt: Option<String>,
    pub model: Option<String>,
}

/// What a hook is answered.
#[derive(Debug, PartialEq, Eq)]
pub struct InferenceResponse {
    pub text: String,
    /// The model that was sent; the driver does not name it back.
    pub model_used: String,
    pub input_tokens: u64,
    pub output_tokens: u64,
}

/// What an [`InferenceResponse`] stands for.
#[verifier::ext_equal]
pub struct ResponseView {
    pub text: Seq<char>,
    pub model_used: Seq<char>,
    pub input_tokens: u64,
    pub output_tokens: u64,
}

impl View for InferenceResponse {
    type V = ResponseView;

    open spec fn view(&self) -> ResponseView {
        ResponseView {
            text: self.text@,
            model_used: self.model_used@,
            input_tokens: self.input_tokens,
            output_tokens: self.output_tokens,
        }
    }
}

/// How a tool call ended.
#[derive(Debug, Clone, Copy, PartialEq, Eq, Structural)]
pub enum ToolStatus {
    Passed,
    Failed,
    Error,
}

/// What the driver's tool call returned.
#[derive(Debug, PartialEq, Eq)]
pub struct DriverReply {
    pub status: ToolStatus,
    pub summary: Option<String>,
    pub data: Option<String>,
}

// ── The request ──────────────────────────────────────────────────────────────

/// The model a request is sent with: the one it names, and the manifest's primary one otherwise.
pub open spec fn model_of(model: Option<Seq<char>>, primary: Seq<char>) -> Seq<char> {
    match model {
        Some(m) => m,
        None => primary,
    }
}

/// A message as the driver takes it.
pub open spec fn message_json(m: ChatMessage) -> JsonView {
    JsonView::Object(
        json::none().push(("role"@, JsonView::Text(m.role@))).push(
            ("content"@, JsonView::Text(m.content@)),
        ),
    )
}

/// Messages as the driver takes them.
pub open spec fn messages_json(messages: Seq<ChatMessage>) -> Seq<JsonView> {
    messages.map_values(|m: ChatMessage| message_json(m))
}

proof fn lemma_message(m: ChatMessage)
    ensures
        json::text_entry(message_json(m), "role"@) == Some(m.role@),
        json::text_entry(message_json(m), "content"@) == Some(m.content@),
{
    reveal_strlit("role");
    reveal_strlit("content");
    assert("role"@.len() == 4 && "content"@.len() == 7);
    let all = message_json(m)->Object_0;
    assert(all.drop_first()[0] == all[1]);
    reveal_with_fuel(json::entry_in, 3);
}

/// What the driver is to be sent.
#[derive(Debug, PartialEq, Eq)]
pub struct DriverCall {
    pub model: String,
    /// The messages, as a JSON array.
    pub messages: Json,
    /// The system prompt, empty when the request gave none.
    pub system_prompt: String,
}

/// What the driver is sent for a request. A model that the request names is sent verbatim.
pub fn driver_call(request: &InferenceRequest, primary: &str) -> (r: DriverCall)
    ensures
        r.model@ == model_of(text::opt_text(request.model), primary@),
        r.messages@ == JsonView::Array(messages_json(request.messages@)),
        request.model is Some ==> r.model@ == request.model->0@,
        request.model is None ==> r.model@ == primary@,
        r.messages@ is Array,
        r.messages@->Array_0.len() == request.messages@.len(),
        forall|i: int|
            0 <= i < request.messages@.len() ==> {
                let message = #[trigger] r.messages@->Array_0[i];
                &&& json::text_entry(message, "role"@) == Some(request.messages@[i].role@)
                &&& json::text_entry(message, "content"@) == Some(request.messages@[i].content@)
            },
        r.system_prompt@ == (match request.system_prompt {
            Some(prompt) => prompt@,
            None => Seq::empty(),
        }),
{
    let model = match &request.model {
        Some(m) => m.clone(),
        None => primary.to_owned(),
    };
    let system_prompt = match &request.system_prompt {
        Some(prompt) => prompt.clone(),
        None => {
            let none = String::new();
            proof {
                assert(none@ =~= Seq::<char>::empty());
            }
            none
        },
    };
    let mut messages = json::empty_array();
    let mut i: usize = 0;
    proof {
        assert(messages_json(request.messages@.take(0)) =~= Seq::<JsonView>::empty());
    }
    while i < request.messages.len()
        invariant
            i <= request.messages@.len(),
            messages@ == JsonView::Array(messages_json(request.messages@.take(i as int))),
        decreases request.messages@.len() - i,
    {
        let m = &request.messages[i];
        let message = json::with(
            json::with(json::empty_object(), "role", json::text_value(m.role.as_str())),
            "content",
            json::text_value(m.content.as_str()),
        );
        messages = json::with_item(messages, message);
        proof {
            assert(messages_json(request.messages@.take(i + 1)) =~= messages_json(
                request.messages@.take(i as int),
            ).push(message_json(*m)));
        }
        i += 1;
    }
    proof {
        assert(request.messages@.take(request.messages@.len() as int) =~= request.messages@);
        assert forall|i: int| 0 <= i < request.messages@.len() implies {
            let message = #[trigger] messages@->Array_0[i];
            &&& json::text_entry(message, "role"@) == Some(request.messages@[i].role@)
            &&& json::text_entry(message, "content"@) == Some(request.messages@[i].content@)
        } by {
            lemma_message(request.messages@[i]);
        }
    }
    DriverCall { model, messages, system_prompt }
}

// ── The reply ────────────────────────────────────────────────────────────────

/// The text of a content block, when it is a text block that has one.
pub open spec fn block_text(block: JsonView) -> Option<Seq<char>> {
    if json::text_entry(block, "type"@) == Some("text"@) {
        json::text_entry(block, "text"@)
    } else {
        None
    }
}

/// The text blocks of a list, joined in their order.
pub open spec fn joined_blocks(blocks: Seq<JsonView>) -> Seq<char>
    decreases blocks.len(),
{
    if blocks.len() == 0 {
        Seq::empty()
    } else {
        match block_text(blocks.last()) {
            Some(words) => joined_blocks(blocks.drop_last()) + words,
            None => joined_blocks(blocks.drop_last()),
        }
    }
}

/// The text of a driver's response: the text blocks of its content.
pub open spec fn text_of_response(response: JsonView) -> Seq<char> {
    match json::entry(response, "content"@) {
        Some(JsonView::Array(blocks)) => joined_blocks(blocks),
        _ => Seq::empty(),
    }
}

/// Concatenates the text blocks of a driver response's content, in order.
pub fn response_text(response: &Json) -> (r: String)
    ensures
        r@ == text_of_response(response@),
        !(json::entry(response@, "content"@) matches Some(JsonView::Array(_))) ==> r@.len() == 0,
{
    let mut out = String::new();
    proof {
        assert(out@ =~= Seq::<char>::empty());
    }
    if let Some(content) = json::get(response, "content") {
        if let Json::Array(blocks) = content {
            let ghost all = json::item_views(blocks@);
            let mut i: usize = 0;
            proof {
                assert(all.take(0).len() == 0);
            }
            while i < blocks.len()
                invariant
                    i <= blocks@.len(),
                    all == json::item_views(blocks@),
                    out@ == joined_blocks(all.take(i as int)),
                decreases blocks@.len() - i,
            {
                proof {
                    assert(all.take(i + 1).drop_last() =~= all.take(i as int));
                    assert(all.take(i + 1).last() == blocks@[i as int]@);
                }
                if let Some(kind) = json::get_text(&blocks[i], "type") {
                    if text::same(kind.as_str(), "text") {
                        if let Some(words) = json::get_text(&blocks[i], "text") {
                            out.append(words.as_str());
                        }
                    }
                }
                i += 1;
            }
            proof {
                assert(all.take(all.len() as int) =~= all);
            }
        }
    }
    out
}

/// What a driver's response comes to, once it was read as JSON.
pub open spec fn response_outcome(reading: Result<JsonView, Seq<char>>) -> Result<
    Seq<char>,
    Seq<char>,
> {
    match reading {
        Err(why) => Err("failed to parse inference driver response: "@ + why),
        Ok(response) => if json::text_entry(response, "stop_reason"@) == Some("error"@) {
            Err(
                "inference driver returned an error: "@ + (match json::text_entry(
                    response,
                    "error"@,
                ) {
                    Some(error) => error,
                    None => "driver returned error"@,
                }),
            )
        } else {
            Ok(text_of_response(response))
        },
    }
}

/// The text of a driver's response, given what its reading as JSON came to.
pub fn completion_of(reading: &Result<Json, String>) -> (r: Result<String, String>)
    ensures
        text::result_text(r) == response_outcome(json::reading_view(*reading)),
        r is Ok <==> reading is Ok && json::text_entry(reading->Ok_0@, "stop_reason"@) != Some(
            "error"@,
        ),
        r is Ok ==> r->Ok_0@ == text_of_response(reading->Ok_0@),
{
    let response = match reading {
        Ok(response) => response,
        Err(why) => {
            return Err(
                text::cat2("failed to parse inference driver response: ", why.as_str()),
            );
        },
    };
    let stopped = match json::get_text(response, "stop_reason") {
        Some(reason) => text::same(reason.as_str(), "error"),
        None => false,
    };
    if stopped {
        let error = match json::get_text(response, "error") {
            Some(error) => error,
            None => "driver returned error".to_owned(),
        };
        return Err(text::cat2("inference driver returned an error: ", error.as_str()));
    }
    Ok(response_text(response))
}

/// What a driver's reply holds: its data, and its summary when it has none.
pub open spec fn raw_of(data: Option<Seq<char>>, summary: Option<Seq<char>>) -> Option<Seq<char>> {
    match data {
        Some(d) => Some(d),
        None => summary,
    }
}

/// What a call of the driver comes to: the raw response and its text, or why there is none.
/// `outcome` is the driver's reply, or why the call failed.
pub open spec fn dispatched(driver: Seq<char>, outcome: Result<DriverReply, String>) -> Result<
    (Seq<char>, Seq<char>),
    Seq<char>,
> {
    match outcome {
        Err(why) => Err("inference driver '"@ + driver + "' failed: "@ + why@),
        Ok(reply) => match raw_of(text::opt_text(reply.data), text::opt_text(reply.summary)) {
            None => Err("inference driver returned no data"@),
            Some(raw) => if reply.status != ToolStatus::Passed {
                Err("inference driver returned an error: "@ + raw)
            } else {
                match response_outcome(json::reading(raw)) {
                    Ok(words) => Ok((raw, words)),
                    Err(why) => Err(why),
                }
            },
        },
    }
}

/// What a dispatch stands for.
pub open spec fn dispatch_view(r: Result<(String, String), String>) -> Result<
    (Seq<char>, Seq<char>),
    Seq<char>,
> {
    match r {
        Ok((raw, words)) => Ok((raw@, words@)),
        Err(why) => Err(why@),
    }
}

/// Pulls the completion's text out of the driver's reply. Gives the raw response with it.
pub fn dispatch(driver: &str, outcome: Result<DriverReply, String>) -> (r: Result<
    (String, String),
    String,
>)
    ensures
        dispatch_view(r) == dispatched(driver@, outcome),
        r is Ok ==> outcome is Ok && outcome->Ok_0.status == ToolStatus::Passed,
        r is Ok && outcome->Ok_0.data is Some ==> r->Ok_0.0@ == outcome->Ok_0.data->0@,
        r is Ok && outcome->Ok_0.data is None ==> outcome->Ok_0.summary is Some && r->Ok_0.0@
            == outcome->Ok_0.summary->0@,
{
    let reply = match outcome {
        Ok(reply) => reply,
        Err(why) => {
            return Err(text::cat4("inference driver '", driver, "' failed: ", why.as_str()));
        },
    };
    let raw = match reply.data {
        Some(data) => data,
        None => match reply.summary {
            Some(summary) => summary,
            None => return Err("inference driver returned no data".to_owned()),
        },
    };
    if reply.status != ToolStatus::Passed {
        return Err(text::cat2("inference driver returned an error: ", raw.as_str()));
    }
    let reading = json::read_or_why(raw.as_str());
    match completion_of(&reading) {
        Ok(words) => Ok((raw, words)),
        Err(why) => Err(why),
    }
}

// ── Records ──────────────────────────────────────────────────────────────────

/// One completed `run-inference` call.
#[derive(Debug, PartialEq, Eq)]
pub struct HookInferenceRecord {
    pub origin: InferenceOrigin,
    pub input_tokens: u64,
    pub output_tokens: u64,
    /// `"end_turn"` when the driver returned a usable completion, `"error"` otherwise.
    pub decision: String,
    pub duration_ms: u64,
}

/// What a [`HookInferenceRecord`] stands for.
#[verifier::ext_equal]
pub struct RecordView {
    pub source: Seq<char>,
    pub model: Seq<char>,
    pub input_tokens: u64,
    pub output_tokens: u64,
    pub decision: Seq<char>,
    pub duration_ms: u64,
}

impl View for HookInferenceRecord {
    type V = RecordView;

    open spec fn view(&self) -> RecordView {
        RecordView {
            source: self.origin.source@,
            model: self.origin.model@,
            input_tokens: self.input_tokens,
            output_tokens: self.output_tokens,
            decision: self.decision@,
            duration_ms: self.duration_ms,
        }
    }
}

/// What a list of records stands for.
pub open spec fn record_views(v: Seq<HookInferenceRecord>) -> Seq<RecordView> {
    v.map_values(|r: HookInferenceRecord| r@)
}

/// What is known of a call besides its outcome.
#[derive(Debug, PartialEq, Eq)]
pub struct CallFacts {
    /// `hook:<name>`.
    pub origin: String,
    /// The model that was sent.
    pub model: String,
    pub input_tokens: u32,
    pub duration_ms: u64,
}

/// What a hook is answered, given what the call came to and the tokens of the raw response.
pub open spec fn answer_of(
    facts: CallFacts,
    outcome: Result<(Seq<char>, Seq<char>), Seq<char>>,
    output_tokens: u32,
) -> Result<ResponseView, Seq<char>> {
    match outcome {
        Ok((_, words)) => Ok(
            ResponseView {
                text: words,
                model_used: facts.model@,
                input_tokens: facts.input_tokens as u64,
                output_tokens: output_tokens as u64,
            },
        ),
        Err(why) => Err(why),
    }
}

/// The record a call leaves.
pub open spec fn record_of(
    facts: CallFacts,
    outcome: Result<(Seq<char>, Seq<char>), Seq<char>>,
    output_tokens: u32,
) -> RecordView {
    RecordView {
        source: facts.origin@,
        model: facts.model@,
        input_tokens: facts.input_tokens as u64,
        output_tokens: if outcome is Ok {
            output_tokens as u64
        } else {
            0
        },
        decision: if outcome is Ok {
            "end_turn"@
        } else {
            "error"@
        },
        duration_ms: facts.duration_ms,
    }
}

/// The records of calls since they were last taken.
#[derive(Debug, PartialEq, Eq)]
pub struct HookInferenceRecords {
    pub records: Vec<HookInferenceRecord>,
}

impl HookInferenceRecords {
    /// No record.
    pub fn new() -> (r: Self)
        ensures
            record_views(r.records@) == Seq::<RecordView>::empty(),
    {
        let r = HookInferenceRecords { records: Vec::new() };
        proof {
            assert(record_views(r.records@) =~= Seq::<RecordView>::empty());
        }
        r
    }

    /// Answers a hook, and leaves one record of the call. `output_tokens` are those of the raw
    /// response, which a failed call has none of.
    pub fn finish(
        &mut self,
        facts: CallFacts,
        outcome: Result<(String, String), String>,
        output_tokens: u32,
    ) -> (r: Result<InferenceResponse, String>)
        ensures
            match (r, answer_of(facts, dispatch_view(outcome), output_tokens)) {
                (Ok(response), Ok(wanted)) => response@ == wanted,
                (Err(why), Err(wanted)) => why@ == wanted,
                _ => false,
            },
            record_views(final(self).records@) == record_views(old(self).records@).push(
                record_of(facts, dispatch_view(outcome), output_tokens),
            ),
            r is Ok <==> outcome is Ok,
            r is Ok ==> {
                &&& r->Ok_0.text@ == outcome->Ok_0.1@
                &&& r->Ok_0.model_used@ == facts.model@
                &&& r->Ok_0.input_tokens == facts.input_tokens
                &&& r->Ok_0.output_tokens == output_tokens
            },
            r is Err ==> r->Err_0@ == outcome->Err_0@,
            final(self).records@.len() == old(self).records@.len() + 1,
            ({
                let last = final(self).records@.last();
                &&& last.origin.source@ == facts.origin@
                &&& last.origin.model@ == facts.model@
                &&& last.input_tokens == facts.input_tokens
                &&& last.output_tokens == (if outcome is Ok {
                    output_tokens as int
                } else {
                    0
                })
                &&& last.decision@ == (if outcome is Ok {
                    "end_turn"@
                } else {
                    "error"@
                })
                &&& last.duration_ms == facts.duration_ms
            }),
    {
        let input_tokens: u64 = facts.input_tokens as u64;
        let usable = outcome.is_ok();
        let counted: u64 = if usable {
            output_tokens as u64
        } else {
            0
        };
        let decision = if usable {
            "end_turn".to_owned()
        } else {
            "error".to_owned()
        };
        let ghost before = self.records@;
        let ghost wanted = record_of(facts, dispatch_view(outcome), output_tokens);
        let record = HookInferenceRecord {
            origin: InferenceOrigin { source: facts.origin, model: facts.model.clone() },
            input_tokens,
            output_tokens: counted,
            decision,
            duration_ms: facts.duration_ms,
        };
        proof {
            assert(record@ == wanted);
        }
        self.records.push(record);
        proof {
            assert(record_views(self.records@) =~= record_views(before).push(wanted));
        }
        match outcome {
            Ok((_, words)) => Ok(
                InferenceResponse {
                    text: words,
                    model_used: facts.model,
                    input_tokens,
                    output_tokens: counted,
                },
            ),
            Err(why) => Err(why),
        }
    }

    /// Takes every record since they were last taken.
    pub fn drain_records(&mut self) -> (r: Vec<HookInferenceRecord>)
        ensures
            record_views(r@) == record_views(old(self).records@),
            record_views(final(self).records@) == Seq::<RecordView>::empty(),
            r@ == old(self).records@,
            final(self).records@.len() == 0,
    {
        let mut taken: Vec<HookInferenceRecord> = Vec::new();
        std::mem::swap(&mut taken, &mut self.records);
        proof {
            assert(record_views(self.records@) =~= Seq::<RecordView>::empty());
        }
        taken
    }
}

// ── Laws ─────────────────────────────────────────────────────────────────────

/// A record is truthful: it names the model that was sent, ends a turn exactly when the hook was
/// given a completion, and counts the tokens the hook was told.
pub proof fn a_record_tells_what_the_hook_was_told(
    facts: CallFacts,
    outcome: Result<(Seq<char>, Seq<char>), Seq<char>>,
    output_tokens: u32,
)
    ensures
        record_of(facts, outcome, output_tokens).model == facts.model@,
        record_of(facts, outcome, output_tokens).decision == "end_turn"@ <==> answer_of(
            facts,
            outcome,
            output_tokens,
        ) is Ok,
        answer_of(facts, outcome, output_tokens) is Ok ==> {
            let told = answer_of(facts, outcome, output_tokens)->Ok_0;
            let record = record_of(facts, outcome, output_tokens);
            &&& told.model_used == record.model
            &&& told.input_tokens == record.input_tokens
            &&& told.output_tokens == record.output_tokens
        },
{
    reveal_strlit("end_turn");
    reveal_strlit("error");
    assert("end_turn"@.len() != "error"@.len());
}

/// A driver that reports an error, or whose call did not pass, never gives a completion.
pub proof fn an_error_is_never_a_completion(driver: Seq<char>, reply: DriverReply)
    ensures
        reply.status != ToolStatus::Passed ==> dispatched(
            driver,
            Ok::<DriverReply, String>(reply),
        ) is Err,
        forall|raw: Seq<char>|
            raw_of(text::opt_text(reply.data), text::opt_text(reply.summary)) == Some(raw) && (
            match #[trigger] json::reading(raw) {
                Ok(response) => json::text_entry(response, "stop_reason"@) == Some("error"@),
                Err(_) => true,
            }) ==> dispatched(driver, Ok::<DriverReply, String>(reply)) is Err,
{
}

/// A response whose content is `content`.
pub open spec fn answers_with(response: JsonView, content: Seq<JsonView>) -> bool {
    json::entry(response, "content"@) == Some(JsonView::Array(content))
}

/// The completion is put together from the front: the text of two runs of blocks is the text of
/// the first, then that of the second.
pub proof fn blocks_add_up(
    response: JsonView,
    first: JsonView,
    second: JsonView,
    a: Seq<JsonView>,
    b: Seq<JsonView>,
)
    requires
        answers_with(response, a + b),
        answers_with(first, a),
        answers_with(second, b),
    ensures
        text_of_response(response) == text_of_response(first) + text_of_response(second),
    decreases b.len(),
{
    lemma_blocks_add_up(a, b);
}

proof fn lemma_blocks_add_up(a: Seq<JsonView>, b: Seq<JsonView>)
    ensures
        joined_blocks(a + b) == joined_blocks(a) + joined_blocks(b),
    decreases b.len(),
{
    if b.len() == 0 {
        assert(a + b =~= a);
        assert(joined_blocks(a) + joined_blocks(b) =~= joined_blocks(a));
    } else {
        lemma_blocks_add_up(a, b.drop_last());
        assert((a + b).drop_last() =~= a + b.drop_last());
        assert((a + b).last() == b.last());
        assert(joined_blocks(a + b) =~= joined_blocks(a) + joined_blocks(b));
    }
}

/// One block gives its text when it is a text block, and nothing otherwise.
pub proof fn a_block_gives_its_text(response: JsonView, block: JsonView)
    requires
        answers_with(response, seq![block]),
    ensures
        json::text_entry(block, "type"@) == Some("text"@) && json::text_entry(block, "text"@) is Some
            ==> text_of_response(response) == json::text_entry(block, "text"@)->0,
        json::text_entry(block, "type"@) != Some("text"@) ==> text_of_response(response).len() == 0,
        json::text_entry(block, "text"@) is None ==> text_of_response(response).len() == 0,
{
    let one = seq![block];
    assert(one.drop_last().len() == 0);
    assert(one.last() == block);
    assert(joined_blocks(one.drop_last()).len() == 0);
    if block_text(block) is Some {
        assert(joined_blocks(one) =~= block_text(block)->0);
    }
}

/// A reply that passed and reads as a response without an error gives that response's text; an
/// error the driver reports is told in its own words.
pub proof fn a_good_reply_is_a_completion(
    driver: Seq<char>,
    reply: DriverReply,
    raw: Seq<char>,
    response: JsonView,
)
    requires
        reply.status == ToolStatus::Passed,
        reply.data is Some ==> reply.data->0@ == raw,
        reply.data is None ==> reply.summary is Some && reply.summary->0@ == raw,
        json::reading(raw) == Ok::<JsonView, Seq<char>>(response),
    ensures
        json::text_entry(response, "stop_reason"@) != Some("error"@) ==> dispatched(
            driver,
            Ok::<DriverReply, String>(reply),
        ) == Ok::<(Seq<char>, Seq<char>), Seq<char>>((raw, text_of_response(response))),
        forall|error: Seq<char>|
            json::text_entry(response, "stop_reason"@) == Some("error"@)
                && json::text_entry(response, "error"@) == Some(error) ==> dispatched(
                driver,
                Ok::<DriverReply, String>(reply),
            ) == Err::<(Seq<char>, Seq<char>), Seq<char>>(
                #[trigger] ("inference driver returned an error: "@ + error),
            ),
{
}

/// Every message is sent with its own speaker and its own words, at its own place: what stands
/// before it and behind it changes nothing of it.
pub proof fn every_message_keeps_its_speaker(
    front: Seq<ChatMessage>,
    m: ChatMessage,
    back: Seq<ChatMessage>,
)
    ensures
        messages_json(front + back) == messages_json(front) + messages_json(back),
        messages_json(front + seq![m] + back).len() == front.len() + 1 + back.len(),
        json::text_entry(messages_json(front + seq![m] + back)[front.len() as int], "role"@)
            == Some(m.role@),
        json::text_entry(messages_json(front + seq![m] + back)[front.len() as int], "content"@)
            == Some(m.content@),
        forall|other: ChatMessage|
            #![trigger messages_json(seq![other])]
            other.role@ != m.role@ || other.content@ != m.content@ ==> messages_json(seq![other])
                != messages_json(seq![m]),
{
    lemma_message(m);
    assert(messages_json(front + back) =~= messages_json(front) + messages_json(back));
    assert((front + seq![m] + back)[front.len() as int] == m);
    assert forall|other: ChatMessage|
        #![trigger messages_json(seq![other])]
        other.role@ != m.role@ || other.content@ != m.content@ implies messages_json(seq![other])
        != messages_json(seq![m]) by {
        lemma_message(other);
        assert(messages_json(seq![other])[0] == message_json(other));
        assert(messages_json(seq![m])[0] == message_json(m));
    }
}

/// A request is sent to the model it names, and to the primary one only when it names none.
pub proof fn a_named_model_is_the_one_asked(model: Seq<char>, primary: Seq<char>, other: Seq<char>)
    ensures
        model_of(Some(model), primary) == model,
        model_of(Some(model), primary) == model_of(Some(model), other),
        model_of(None, primary) == primary,
{
}

} // verus!
