//! OpenTelemetry spans for an OTLP/HTTP endpoint.
//!
//! Every session is a trace of its own. A caller's `traceparent` gives the session span its parent
//! and nothing else. When no endpoint is configured, nothing is emitted.

use crate::codec;
use crate::ids;
use crate::json;
use crate::json::{Json, JsonView};
use crate::outgoing;
use crate::text;
use vstd::prelude::*;

verus! {

/// How much of a shell command a span carries.
pub const COMMAND_CHARS: usize = 200;

// ── Identifiers ──────────────────────────────────────────────────────────────

/// Whether a text is a span id: sixteen lower-case hexadecimal digits.
pub open spec fn is_span_id(s: Seq<char>) -> bool {
    &&& s.len() == 16
    &&& forall|i: int| 0 <= i < s.len() ==> ids::is_hex(#[trigger] s[i])
}

/// Whether every character of a text is a zero, which no valid id may be.
pub open spec fn all_zero(s: Seq<char>) -> bool {
    forall|i: int| 0 <= i < s.len() ==> #[trigger] s[i] == '0'
}

/// A byte's first hexadecimal digit is a zero only when the byte is below sixteen.
proof fn lemma_hex_digits(bytes: Seq<u8>)
    ensures
        codec::hex(bytes).len() == 2 * bytes.len(),
        forall|i: int|
            0 <= i < codec::hex(bytes).len() ==> ids::is_hex(#[trigger] codec::hex(bytes)[i]),
        forall|k: int|
            0 <= k < bytes.len() ==> codec::hex(bytes)[2 * k] == codec::hex_digit(
                (#[trigger] bytes[k] / 16) as nat,
            ),
    decreases bytes.len(),
{
    codec::hex_is_two_digits_a_byte(bytes);
    if bytes.len() > 0 {
        lemma_hex_digits(bytes.drop_last());
        assert forall|k: int| 0 <= k < bytes.len() implies codec::hex(bytes)[2 * k]
            == codec::hex_digit((#[trigger] bytes[k] / 16) as nat) by {
            if k < bytes.len() - 1 {
                assert(bytes.drop_last()[k] == bytes[k]);
            }
        }
    }
}

/// The trace id made of sixteen bytes.
pub fn trace_id_of(bytes: &[u8; 16]) -> (r: String)
    ensures
        r@ == codec::hex(bytes@),
{
    codec::hex_of(bytes.as_slice())
}

/// The span id made of the first half of sixteen bytes.
pub fn span_id_of(bytes: &[u8; 16]) -> (r: String)
    ensures
        r@ == codec::hex(bytes@.take(8)),
{
    let mut half: Vec<u8> = Vec::new();
    let mut i: usize = 0;
    while i < 8
        invariant
            i <= 8,
            half@ == bytes@.take(i as int),
        decreases 8 - i,
    {
        half.push(bytes[i]);
        proof {
            assert(half@ =~= bytes@.take(i + 1));
        }
        i += 1;
    }
    codec::hex_of(half.as_slice())
}

/// A trace id nobody has used before.
pub fn new_trace_id() -> (r: String)
    ensures
        ids::is_id(r@),
        !all_zero(r@),
{
    let bytes = ids::random_id();
    let r = trace_id_of(&bytes);
    proof {
        lemma_hex_digits(bytes@);
        assert(r@[12] == codec::hex_digit((bytes@[6] / 16) as nat));
    }
    r
}

/// A span id nobody has used before.
pub fn new_span_id() -> (r: String)
    ensures
        is_span_id(r@),
        !all_zero(r@),
{
    let bytes = ids::random_id();
    let r = span_id_of(&bytes);
    proof {
        let half = bytes@.take(8);
        lemma_hex_digits(half);
        assert(half[6] == bytes@[6]);
        assert(r@[12] == codec::hex_digit((half[6] / 16) as nat));
    }
    r
}

// ── W3C trace context ────────────────────────────────────────────────────────

/// Whether a text is `n` hexadecimal digits, of either case.
pub open spec fn is_hex_word(s: Seq<char>, n: nat) -> bool {
    &&& s.len() == n
    &&& forall|i: int| 0 <= i < s.len() ==> is_hex_digit(#[trigger] s[i])
}

/// A hexadecimal digit of either case.
pub open spec fn is_hex_digit(c: char) -> bool {
    '0' <= c <= '9' || 'a' <= c <= 'f' || 'A' <= c <= 'F'
}

/// Whether a text is `n` hexadecimal digits, of either case.
fn hex_word(s: &str, n: usize) -> (r: bool)
    ensures
        r == is_hex_word(s@, n as nat),
{
    let chars = text::chars_of(s);
    if chars.len() != n {
        return false;
    }
    let mut i: usize = 0;
    while i < chars.len()
        invariant
            i <= chars@.len(),
            chars@ == s@,
            forall|j: int| 0 <= j < i ==> is_hex_digit(#[trigger] chars@[j]),
        decreases chars@.len() - i,
    {
        let c = chars[i];
        if !(('0' <= c && c <= '9') || ('a' <= c && c <= 'f') || ('A' <= c && c <= 'F')) {
            proof {
                assert(!is_hex_digit(s@[i as int]));
            }
            return false;
        }
        i += 1;
    }
    true
}

/// The trace id and the parent span id of a `traceparent` value, `00-<32hex>-<16hex>-<2hex>`;
/// nothing when there is none or it is malformed.
pub open spec fn trace_parts(traceparent: Option<Seq<char>>) -> Option<(Seq<char>, Seq<char>)> {
    match traceparent {
        None => None,
        Some(value) => {
            let parts = text::split_on(value, '-');
            if parts.len() == 4 && parts[0] == "00"@ && is_hex_word(parts[1], 32) && is_hex_word(
                parts[2],
                16,
            ) && is_hex_word(parts[3], 2) {
                Some((parts[1], parts[2]))
            } else {
                None
            }
        },
    }
}

/// The trace id and the parent span id of a `traceparent` value.
pub fn parse_traceparent(traceparent: Option<&str>) -> (r: (Option<String>, Option<String>))
    ensures
        match trace_parts(text::opt_str(traceparent)) {
            Some((trace_id, span_id)) => text::opt_text(r.0) == Some(trace_id) && text::opt_text(
                r.1,
            ) == Some(span_id),
            None => r.0 is None && r.1 is None,
        },
{
    let value = match traceparent {
        Some(value) => value,
        None => return (None, None),
    };
    let parts = text::split_pieces(value, '-');
    proof {
        assert(text::split_on(value@, '-') == text::texts(parts@));
    }
    if parts.len() != 4 {
        return (None, None);
    }
    proof {
        assert forall|k: int| 0 <= k < 4 implies text::split_on(value@, '-')[k] == (
        #[trigger] parts@[k])@ by {}
    }
    if text::same(parts[0].as_str(), "00") && hex_word(parts[1].as_str(), 32) && hex_word(
        parts[2].as_str(),
        16,
    ) && hex_word(parts[3].as_str(), 2) {
        (Some(parts[1].clone()), Some(parts[2].clone()))
    } else {
        (None, None)
    }
}

/// The `traceparent` value for a request made under a span.
pub open spec fn traceparent_text(trace_id: Seq<char>, span_id: Seq<char>) -> Seq<char> {
    "00-"@ + trace_id + "-"@ + span_id + "-01"@
}

// ── Endpoints ────────────────────────────────────────────────────────────────

/// A text without the slashes at its end.
pub open spec fn without_slashes(s: Seq<char>) -> Seq<char>
    decreases s.len(),
{
    if s.len() > 0 && s.last() == '/' {
        without_slashes(s.drop_last())
    } else {
        s
    }
}

/// The host and port of an OTLP endpoint, and the path in front of every request's own.
pub open spec fn endpoint_parts(endpoint: Seq<char>) -> Option<(Seq<char>, Seq<char>)> {
    let stripped = outgoing::without_scheme(endpoint);
    let (host, path) = match stripped.index_of_first('/') {
        Some(i) => (stripped.take(i), without_slashes(stripped.skip(i))),
        None => (stripped, Seq::empty()),
    };
    if host.len() == 0 {
        None
    } else {
        Some((host, path))
    }
}

fn trim_slashes(s: &str) -> (r: String)
    ensures
        r@ == without_slashes(s@),
{
    let chars = text::chars_of(s);
    let mut end: usize = chars.len();
    proof {
        assert(chars@.take(end as int) =~= s@);
    }
    while end > 0 && chars[end - 1] == '/'
        invariant
            end <= chars@.len(),
            without_slashes(chars@.take(end as int)) == without_slashes(s@),
        decreases end,
    {
        proof {
            assert(chars@.take(end as int).drop_last() =~= chars@.take(end - 1));
        }
        end -= 1;
    }
    let r = text::slice_text(chars.as_slice(), 0, end);
    proof {
        assert(r@ =~= chars@.take(end as int));
    }
    r
}

/// Splits an OTLP endpoint URL into its host and port, and its path.
pub fn parse_otlp_endpoint(endpoint: &str) -> (r: Result<(String, String), String>)
    ensures
        match (r, endpoint_parts(endpoint@)) {
            (Ok((host, path)), Some(wanted)) => (host@, path@) == wanted,
            (Err(why), None) => why@ == "empty host:port"@,
            _ => false,
        },
{
    let stripped = match text::strip_prefix(endpoint, "http://") {
        Some(rest) => rest,
        None => match text::strip_prefix(endpoint, "https://") {
            Some(rest) => rest,
            None => endpoint.to_owned(),
        },
    };
    let chars = text::chars_of(stripped.as_str());
    proof {
        assert(chars@.skip(0) =~= stripped@);
        stripped@.index_of_first_ensures('/');
    }
    let split: usize = match text::find_char(chars.as_slice(), 0, '/') {
        Some(i) => i,
        None => chars.len(),
    };
    if split == 0 {
        return Err("empty host:port".to_owned());
    }
    let host = text::slice_text(chars.as_slice(), 0, split);
    let path = trim_slashes(text::slice_text(chars.as_slice(), split, chars.len()).as_str());
    proof {
        assert(host@ =~= stripped@.take(split as int));
        assert(chars@.subrange(split as int, chars@.len() as int) =~= stripped@.skip(split as int));
        if split == chars@.len() {
            assert(stripped@.skip(split as int) =~= Seq::<char>::empty());
            assert(stripped@.take(split as int) =~= stripped@);
        }
    }
    Ok((host, path))
}

// ── Spans ────────────────────────────────────────────────────────────────────

/// A text attribute.
pub open spec fn text_attribute(key: Seq<char>, value: Seq<char>) -> JsonView {
    JsonView::Object(
        json::none().push(("key"@, JsonView::Text(key))).push(
            (
                "value"@,
                JsonView::Object(json::none().push(("stringValue"@, JsonView::Text(value)))),
            ),
        ),
    )
}

/// An integer attribute, which the OTLP mapping encodes as a decimal text.
pub open spec fn integer_attribute(key: Seq<char>, value: nat) -> JsonView {
    JsonView::Object(
        json::none().push(("key"@, JsonView::Text(key))).push(
            (
                "value"@,
                JsonView::Object(
                    json::none().push(("intValue"@, JsonView::Text(text::decimal(value)))),
                ),
            ),
        ),
    )
}

fn kv_str(key: &str, value: &str) -> (r: Json)
    ensures
        r@ == text_attribute(key@, value@),
{
    let inner = json::with(json::empty_object(), "stringValue", json::text_value(value));
    json::with(json::with(json::empty_object(), "key", json::text_value(key)), "value", inner)
}

fn kv_int(key: &str, value: u64) -> (r: Json)
    ensures
        r@ == integer_attribute(key@, value as nat),
{
    let inner = json::with(
        json::empty_object(),
        "intValue",
        json::text_value(text::decimal_of(value).as_str()),
    );
    json::with(json::with(json::empty_object(), "key", json::text_value(key)), "value", inner)
}

/// What a span is, for contracts.
#[verifier::ext_equal]
pub struct SpanView {
    pub trace_id: Seq<char>,
    pub span_id: Seq<char>,
    pub parent: Option<Seq<char>>,
    pub name: Seq<char>,
    pub start_ns: u64,
    pub end_ns: u64,
    pub attributes: Seq<JsonView>,
}

/// A span in the OTLP mapping.
pub open spec fn span_json(span: SpanView) -> JsonView {
    let entries = json::none().push(("traceId"@, JsonView::Text(span.trace_id))).push(
        ("spanId"@, JsonView::Text(span.span_id)),
    ).push(("name"@, JsonView::Text(span.name))).push(
        ("kind"@, JsonView::Number(json::NumberView::Unsigned(1))),
    ).push(
        ("startTimeUnixNano"@, JsonView::Text(text::decimal(span.start_ns as nat))),
    ).push(("endTimeUnixNano"@, JsonView::Text(text::decimal(span.end_ns as nat)))).push(
        ("attributes"@, JsonView::Array(span.attributes)),
    ).push(
        (
            "status"@,
            JsonView::Object(
                json::none().push(("code"@, JsonView::Number(json::NumberView::Unsigned(1)))),
            ),
        ),
    );
    match span.parent {
        Some(parent) => JsonView::Object(entries.push(("parentSpanId"@, JsonView::Text(parent)))),
        None => JsonView::Object(entries),
    }
}

fn span_obj(
    trace_id: &str,
    span_id: &str,
    parent: Option<&str>,
    name: &str,
    start_ns: u64,
    end_ns: u64,
    attributes: Json,
) -> (r: Json)
    requires
        attributes@ is Array,
    ensures
        r@ == span_json(
            SpanView {
                trace_id: trace_id@,
                span_id: span_id@,
                parent: text::opt_str(parent),
                name: name@,
                start_ns,
                end_ns,
                attributes: attributes@->Array_0,
            },
        ),
{
    let a = json::with(json::empty_object(), "traceId", json::text_value(trace_id));
    let b = json::with(a, "spanId", json::text_value(span_id));
    let c = json::with(b, "name", json::text_value(name));
    let d = json::with(c, "kind", json::number(1));
    let e = json::with(
        d,
        "startTimeUnixNano",
        json::text_value(text::decimal_of(start_ns).as_str()),
    );
    let f = json::with(
        e,
        "endTimeUnixNano",
        json::text_value(text::decimal_of(end_ns).as_str()),
    );
    let g = json::with(f, "attributes", attributes);
    let status = json::with(json::empty_object(), "code", json::number(1));
    let h = json::with(g, "status", status);
    match parent {
        Some(parent) => json::with(h, "parentSpanId", json::text_value(parent)),
        None => h,
    }
}

/// Milliseconds as nanoseconds, as far as they go.
pub open spec fn nanos(ms: u64) -> u64 {
    if ms * 1_000_000 > u64::MAX {
        u64::MAX
    } else {
        (ms * 1_000_000) as u64
    }
}

/// When a span of a length that ends at a time began.
pub open spec fn begun(end_ns: u64, length: u64) -> u64 {
    if length > end_ns {
        0
    } else {
        (end_ns - length) as u64
    }
}

/// Milliseconds as nanoseconds, as far as they go.
pub fn ms_to_ns(ms: u64) -> (r: u64)
    ensures
        r == nanos(ms),
        ms * 1_000_000 <= u64::MAX ==> r == ms * 1_000_000,
        ms * 1_000_000 > u64::MAX ==> r == u64::MAX,
{
    match ms.checked_mul(1_000_000) {
        Some(ns) => ns,
        None => u64::MAX,
    }
}

/// An exit code in sixty-four bits, a negative one wrapped round.
pub open spec fn wrapped_code(code: i32) -> nat {
    if code < 0 {
        (u64::MAX + 1 + code) as nat
    } else {
        code as nat
    }
}

fn wrap_code(code: i32) -> (r: u64)
    ensures
        r == wrapped_code(code),
        code >= 0 ==> r == code,
        code < 0 ==> r - code == u64::MAX + 1,
{
    if code < 0 {
        let magnitude: u64 = (-(code as i64)) as u64;
        u64::MAX - magnitude + 1
    } else {
        code as u64
    }
}

// ── The emitter ──────────────────────────────────────────────────────────────

/// What tags a completion that no agent-loop turn made.
#[derive(Debug, PartialEq, Eq)]
pub struct InferenceOrigin {
    /// `hook:<name>`.
    pub source: String,
    /// The model that was actually sent.
    pub model: String,
}

/// Makes the spans of a capsule's sessions.
#[derive(Debug, PartialEq, Eq)]
pub struct OtelEmitter {
    pub endpoint: Option<String>,
    pub capsule_name: String,
    pub capsule_version: String,
    pub trace_id: String,
    pub session_span_id: String,
    pub session_start_ns: u64,
    /// The caller's span id, out of the incoming `traceparent`.
    pub parent_span_id: Option<String>,
    /// Whether the session's own span was emitted.
    pub session_ended: bool,
}

/// What an [`OtelEmitter`] stands for.
#[verifier::ext_equal]
pub struct EmitterView {
    pub endpoint: Option<Seq<char>>,
    pub capsule_name: Seq<char>,
    pub capsule_version: Seq<char>,
    pub trace_id: Seq<char>,
    pub session_span_id: Seq<char>,
    pub session_start_ns: u64,
    pub parent_span_id: Option<Seq<char>>,
    pub session_ended: bool,
}

impl View for OtelEmitter {
    type V = EmitterView;

    open spec fn view(&self) -> EmitterView {
        EmitterView {
            endpoint: text::opt_text(self.endpoint),
            capsule_name: self.capsule_name@,
            capsule_version: self.capsule_version@,
            trace_id: self.trace_id@,
            session_span_id: self.session_span_id@,
            session_start_ns: self.session_start_ns,
            parent_span_id: text::opt_text(self.parent_span_id),
            session_ended: self.session_ended,
        }
    }
}

/// Whether an emitter is at the start of a session that began at a time, under a parent.
pub open spec fn starts_session(e: EmitterView, parent: Option<Seq<char>>, now_ns: u64) -> bool {
    &&& ids::is_id(e.trace_id)
    &&& !all_zero(e.trace_id)
    &&& is_span_id(e.session_span_id)
    &&& !all_zero(e.session_span_id)
    &&& e.session_start_ns == now_ns
    &&& e.parent_span_id == parent
    &&& !e.session_ended
}

/// The span of a whole session.
pub open spec fn session_span(e: EmitterView, exit_status: Seq<char>, end_ns: u64) -> SpanView {
    SpanView {
        trace_id: e.trace_id,
        span_id: e.session_span_id,
        parent: e.parent_span_id,
        name: "capsule.session"@,
        start_ns: e.session_start_ns,
        end_ns,
        attributes: Seq::<JsonView>::empty().push(text_attribute("exit_status"@, exit_status)),
    }
}

/// A span of something that a session did.
pub open spec fn child_span(
    e: EmitterView,
    span_id: Seq<char>,
    name: Seq<char>,
    length: u64,
    end_ns: u64,
    attributes: Seq<JsonView>,
) -> SpanView {
    SpanView {
        trace_id: e.trace_id,
        span_id,
        parent: Some(e.session_span_id),
        name,
        start_ns: begun(end_ns, length),
        end_ns,
        attributes,
    }
}

/// Whether a span is that of something a session did, under a span id of its own; with no endpoint
/// there is none.
pub open spec fn emits(
    e: EmitterView,
    name: Seq<char>,
    length: u64,
    end_ns: u64,
    attributes: Seq<JsonView>,
    r: Option<Json>,
) -> bool {
    match (e.endpoint, r) {
        (None, None) => true,
        (Some(_), Some(span)) => exists|span_id: Seq<char>|
            is_span_id(span_id) && !all_zero(span_id) && span@ == span_json(
                #[trigger] child_span(e, span_id, name, length, end_ns, attributes),
            ),
        _ => false,
    }
}

/// The attributes of a completion.
pub open spec fn inference_attributes(
    turn: u32,
    input_tokens: u64,
    output_tokens: u64,
    decision: Seq<char>,
    tool_name: Option<Seq<char>>,
    origin: Option<(Seq<char>, Seq<char>)>,
) -> Seq<JsonView> {
    let counted = Seq::<JsonView>::empty().push(integer_attribute("turn"@, turn as nat)).push(
        integer_attribute("input_tokens"@, input_tokens as nat),
    ).push(integer_attribute("output_tokens"@, output_tokens as nat)).push(
        text_attribute("decision"@, decision),
    );
    let named = match tool_name {
        Some(tool) => counted.push(text_attribute("tool_name"@, tool)),
        None => counted,
    };
    match origin {
        Some((source, model)) => named.push(text_attribute("origin"@, source)).push(
            text_attribute("model"@, model),
        ),
        None => named,
    }
}

/// What an optional origin stands for.
pub open spec fn origin_view(o: Option<&InferenceOrigin>) -> Option<(Seq<char>, Seq<char>)> {
    match o {
        Some(origin) => Some((origin.source@, origin.model@)),
        None => None,
    }
}

/// The first characters of a command, as far as a span carries it.
pub open spec fn shown_command(command: Seq<char>) -> Seq<char> {
    if command.len() > COMMAND_CHARS {
        command.take(COMMAND_CHARS as int)
    } else {
        command
    }
}

/// The payload that carries spans.
pub open spec fn payload_json(e: EmitterView, spans: Seq<JsonView>) -> JsonView {
    let resource = JsonView::Object(
        json::none().push(
            (
                "attributes"@,
                JsonView::Array(
                    Seq::<JsonView>::empty().push(
                        text_attribute("service.name"@, e.capsule_name),
                    ).push(text_attribute("service.version"@, e.capsule_version)),
                ),
            ),
        ),
    );
    let scope = JsonView::Object(
        json::none().push(("name"@, JsonView::Text("murmur-capsule-runtime"@))),
    );
    let scope_spans = JsonView::Object(
        json::none().push(("scope"@, scope)).push(("spans"@, JsonView::Array(spans))),
    );
    let resource_spans = JsonView::Object(
        json::none().push(("resource"@, resource)).push(
            ("scopeSpans"@, JsonView::Array(Seq::<JsonView>::empty().push(scope_spans))),
        ),
    );
    JsonView::Object(
        json::none().push(
            ("resourceSpans"@, JsonView::Array(Seq::<JsonView>::empty().push(resource_spans))),
        ),
    )
}

/// The request that posts a body to an endpoint.
pub open spec fn post_text(host: Seq<char>, path: Seq<char>, body: Seq<char>) -> Seq<char> {
    "POST "@ + path + "/v1/traces"@ + " HTTP/1.1\r\nHost: "@ + host
        + "\r\nContent-Type: application/json\r\nContent-Length: "@ + text::decimal(
        codec::utf8(body).len(),
    ) + "\r\nConnection: close\r\n\r\n"@ + body
}

/// A request for an endpoint.
#[derive(Debug, PartialEq, Eq)]
pub struct OtlpPost {
    /// Where to connect to.
    pub addr: String,
    /// What to write there.
    pub request: String,
}

impl OtelEmitter {
    /// An emitter, with a trace of its own.
    pub fn new(
        endpoint: Option<String>,
        capsule_name: String,
        capsule_version: String,
        now_ns: u64,
    ) -> (r: Self)
        ensures
            r@.endpoint == text::opt_text(endpoint),
            r@.capsule_name == capsule_name@,
            r@.capsule_version == capsule_version@,
            starts_session(r@, None, now_ns),
    {
        OtelEmitter {
            endpoint,
            capsule_name,
            capsule_version,
            trace_id: new_trace_id(),
            session_span_id: new_span_id(),
            session_start_ns: now_ns,
            parent_span_id: None,
            session_ended: false,
        }
    }

    /// Starts a session: always a fresh trace, whose session span has the caller's span as its
    /// parent when a `traceparent` names one.
    pub fn begin_session(&mut self, traceparent: Option<&str>, now_ns: u64)
        ensures
            final(self)@.endpoint == old(self)@.endpoint,
            final(self)@.capsule_name == old(self)@.capsule_name,
            final(self)@.capsule_version == old(self)@.capsule_version,
            starts_session(
                final(self)@,
                match trace_parts(text::opt_str(traceparent)) {
                    Some((_, span_id)) => Some(span_id),
                    None => None,
                },
                now_ns,
            ),
    {
        let (_, parent) = parse_traceparent(traceparent);
        self.trace_id = new_trace_id();
        self.parent_span_id = parent;
        self.session_span_id = new_span_id();
        self.session_start_ns = now_ns;
        self.session_ended = false;
    }

    /// The `traceparent` value for outgoing requests; nothing when there is no endpoint.
    pub fn outgoing_traceparent(&self) -> (r: Option<String>)
        ensures
            text::opt_text(r) == (match self@.endpoint {
                Some(_) => Some(traceparent_text(self@.trace_id, self@.session_span_id)),
                None => None,
            }),
    {
        match self.endpoint {
            Some(_) => Some(
                text::cat5(
                    "00-",
                    self.trace_id.as_str(),
                    "-",
                    self.session_span_id.as_str(),
                    "-01",
                ),
            ),
            None => None,
        }
    }

    /// The session's own span, for any way a session ends.
    pub fn emit_session_end(&mut self, exit_status: &str, now_ns: u64) -> (r: Option<Json>)
        ensures
            match (old(self)@.endpoint, r) {
                (None, None) => final(self)@ == old(self)@,
                (Some(_), Some(span)) => {
                    &&& span@ == span_json(session_span(old(self)@, exit_status@, now_ns))
                    &&& final(self)@ == (EmitterView { session_ended: true, ..old(self)@ })
                },
                _ => false,
            },
    {
        if self.endpoint.is_none() {
            return None;
        }
        let attributes = json::with_item(json::empty_array(), kv_str("exit_status", exit_status));
        let parent: Option<&str> = match &self.parent_span_id {
            Some(id) => Some(id.as_str()),
            None => None,
        };
        let span = span_obj(
            self.trace_id.as_str(),
            self.session_span_id.as_str(),
            parent,
            "capsule.session",
            self.session_start_ns,
            now_ns,
            attributes,
        );
        self.session_ended = true;
        Some(span)
    }

    /// The session's own span, unless it was emitted already.
    pub fn emit_session_end_if_not_ended(&mut self, exit_status: &str, now_ns: u64) -> (r: Option<
        Json,
    >)
        ensures
            if old(self)@.session_ended {
                r is None && final(self)@ == old(self)@
            } else {
                match (old(self)@.endpoint, r) {
                    (None, None) => final(self)@ == old(self)@,
                    (Some(_), Some(span)) => {
                        &&& span@ == span_json(session_span(old(self)@, exit_status@, now_ns))
                        &&& final(self)@ == (EmitterView { session_ended: true, ..old(self)@ })
                    },
                    _ => false,
                }
            },
    {
        if self.session_ended {
            None
        } else {
            self.emit_session_end(exit_status, now_ns)
        }
    }

    fn child(&self, name: &str, length: u64, end_ns: u64, attributes: Json) -> (r: Json)
        requires
            attributes@ is Array,
            self@.endpoint is Some,
        ensures
            emits(self@, name@, length, end_ns, attributes@->Array_0, Some(r)),
    {
        let span_id = new_span_id();
        let span = span_obj(
            self.trace_id.as_str(),
            span_id.as_str(),
            Some(self.session_span_id.as_str()),
            name,
            end_ns.saturating_sub(length),
            end_ns,
            attributes,
        );
        proof {
            let wanted = child_span(
                self@,
                span_id@,
                name@,
                length,
                end_ns,
                attributes@->Array_0,
            );
            assert(span@ == span_json(wanted));
        }
        span
    }

    /// The span of a completion that took `duration_ms`.
    pub fn emit_inference(
        &self,
        turn: u32,
        input_tokens: u64,
        output_tokens: u64,
        decision: &str,
        tool_name: Option<&str>,
        duration_ms: u64,
        origin: Option<&InferenceOrigin>,
        now_ns: u64,
    ) -> (r: Option<Json>)
        ensures
            emits(
                self@,
                "capsule.inference"@,
                nanos(duration_ms),
                now_ns,
                inference_attributes(
                    turn,
                    input_tokens,
                    output_tokens,
                    decision@,
                    text::opt_str(tool_name),
                    origin_view(origin),
                ),
                r,
            ),
    {
        if self.endpoint.is_none() {
            return None;
        }
        let a = json::with_item(json::empty_array(), kv_int("turn", turn as u64));
        let b = json::with_item(a, kv_int("input_tokens", input_tokens));
        let c = json::with_item(b, kv_int("output_tokens", output_tokens));
        let counted = json::with_item(c, kv_str("decision", decision));
        let named = match tool_name {
            Some(tool) => json::with_item(counted, kv_str("tool_name", tool)),
            None => counted,
        };
        let attributes = match origin {
            Some(o) => json::with_item(
                json::with_item(named, kv_str("origin", o.source.as_str())),
                kv_str("model", o.model.as_str()),
            ),
            None => named,
        };
        Some(self.child("capsule.inference", ms_to_ns(duration_ms), now_ns, attributes))
    }

    /// The span of a tool call.
    pub fn emit_tool_call(
        &self,
        tool_name: &str,
        input_bytes: u64,
        output_bytes: u64,
        duration_ms: u64,
        status: &str,
        now_ns: u64,
    ) -> (r: Option<Json>)
        ensures
            emits(
                self@,
                "capsule.tool_call"@,
                nanos(duration_ms),
                now_ns,
                Seq::<JsonView>::empty().push(text_attribute("tool_name"@, tool_name@)).push(
                    integer_attribute("input_bytes"@, input_bytes as nat),
                ).push(integer_attribute("output_bytes"@, output_bytes as nat)).push(
                    integer_attribute("duration_ms"@, duration_ms as nat),
                ).push(text_attribute("status"@, status@)),
                r,
            ),
    {
        if self.endpoint.is_none() {
            return None;
        }
        let a = json::with_item(json::empty_array(), kv_str("tool_name", tool_name));
        let b = json::with_item(a, kv_int("input_bytes", input_bytes));
        let c = json::with_item(b, kv_int("output_bytes", output_bytes));
        let d = json::with_item(c, kv_int("duration_ms", duration_ms));
        let attributes = json::with_item(d, kv_str("status", status));
        Some(self.child("capsule.tool_call", ms_to_ns(duration_ms), now_ns, attributes))
    }

    /// The span of a shell command, of which the first [`COMMAND_CHARS`] characters are carried.
    pub fn emit_shell(&self, command: &str, exit_code: i32, duration_ms: u64, now_ns: u64) -> (r:
        Option<Json>)
        ensures
            emits(
                self@,
                "capsule.shell"@,
                nanos(duration_ms),
                now_ns,
                Seq::<JsonView>::empty().push(
                    text_attribute("command"@, shown_command(command@)),
                ).push(integer_attribute("exit_code"@, wrapped_code(exit_code))).push(
                    integer_attribute("duration_ms"@, duration_ms as nat),
                ),
                r,
            ),
    {
        if self.endpoint.is_none() {
            return None;
        }
        let chars = text::chars_of(command);
        let end: usize = if chars.len() > COMMAND_CHARS {
            COMMAND_CHARS
        } else {
            chars.len()
        };
        let shown = text::slice_text(chars.as_slice(), 0, end);
        proof {
            assert(shown@ =~= shown_command(command@));
        }
        let a = json::with_item(json::empty_array(), kv_str("command", shown.as_str()));
        let b = json::with_item(a, kv_int("exit_code", wrap_code(exit_code)));
        let attributes = json::with_item(b, kv_int("duration_ms", duration_ms));
        Some(self.child("capsule.shell", ms_to_ns(duration_ms), now_ns, attributes))
    }

    /// The span of a compaction, one millisecond long.
    pub fn emit_compaction(&self, tokens_before: u64, tokens_after: u64, now_ns: u64) -> (r: Option<
        Json,
    >)
        ensures
            emits(
                self@,
                "capsule.compaction"@,
                1_000_000,
                now_ns,
                Seq::<JsonView>::empty().push(
                    integer_attribute("tokens_before"@, tokens_before as nat),
                ).push(integer_attribute("tokens_after"@, tokens_after as nat)),
                r,
            ),
    {
        if self.endpoint.is_none() {
            return None;
        }
        let a = json::with_item(json::empty_array(), kv_int("tokens_before", tokens_before));
        let attributes = json::with_item(a, kv_int("tokens_after", tokens_after));
        Some(self.child("capsule.compaction", 1_000_000, now_ns, attributes))
    }

    /// The payload that carries a span.
    pub fn payload(&self, span: Json) -> (r: Json)
        ensures
            r@ == payload_json(self@, Seq::<JsonView>::empty().push(span@)),
    {
        let attributes = json::with_item(
            json::with_item(
                json::empty_array(),
                kv_str("service.name", self.capsule_name.as_str()),
            ),
            kv_str("service.version", self.capsule_version.as_str()),
        );
        let resource = json::with(json::empty_object(), "attributes", attributes);
        let scope = json::with(
            json::empty_object(),
            "name",
            json::text_value("murmur-capsule-runtime"),
        );
        let spans = json::with_item(json::empty_array(), span);
        let scope_spans = json::with(
            json::with(json::empty_object(), "scope", scope),
            "spans",
            spans,
        );
        let resource_spans = json::with(
            json::with(json::empty_object(), "resource", resource),
            "scopeSpans",
            json::with_item(json::empty_array(), scope_spans),
        );
        json::with(
            json::empty_object(),
            "resourceSpans",
            json::with_item(json::empty_array(), resource_spans),
        )
    }

    /// The request that posts a span, or the line to log when the endpoint is none. With no
    /// endpoint there is nothing to do.
    pub fn post_span(&self, span: Json) -> (r: Option<Result<OtlpPost, String>>)
        ensures
            match (self@.endpoint, r) {
                (None, None) => true,
                (Some(endpoint), Some(outcome)) => match (outcome, endpoint_parts(endpoint)) {
                    (Ok(post), Some((host, path))) => {
                        &&& post.addr@ == host
                        &&& post.request@ == post_text(
                            host,
                            path,
                            json::render(
                                payload_json(self@, Seq::<JsonView>::empty().push(span@)),
                            ),
                        )
                    },
                    (Err(line), None) => line@ == "invalid otel_endpoint '"@ + endpoint
                        + "': empty host:port"@,
                    _ => false,
                },
                _ => false,
            },
    {
        let endpoint = match &self.endpoint {
            Some(endpoint) => endpoint,
            None => return None,
        };
        let body = json::write(&self.payload(span));
        match parse_otlp_endpoint(endpoint.as_str()) {
            Ok((addr, path)) => {
                let length: usize = body.as_str().as_bytes().len();
                let mut request = text::cat6(
                    "POST ",
                    path.as_str(),
                    "/v1/traces",
                    " HTTP/1.1\r\nHost: ",
                    addr.as_str(),
                    "\r\nContent-Type: application/json\r\nContent-Length: ",
                );
                request.append(text::decimal_of(length as u64).as_str());
                request.append("\r\nConnection: close\r\n\r\n");
                request.append(body.as_str());
                Some(Ok(OtlpPost { addr, request }))
            },
            Err(_) => Some(
                Err(
                    text::cat3(
                        "invalid otel_endpoint '",
                        endpoint.as_str(),
                        "': empty host:port",
                    ),
                ),
            ),
        }
    }
}

/// Whether a status line reports a success: its code, the second word, begins with the digit 2.
pub open spec fn is_success(status_line: Seq<char>) -> bool {
    let words = text::words(status_line);
    words.len() > 1 && text::begins(words[1], '2')
}

/// The line to log for an answer that is no success; nothing when there was no answer.
pub fn answer_complaint(status_line: &str) -> (r: Option<String>)
    ensures
        text::opt_text(r) == (if status_line@.len() > 0 && !is_success(status_line@) {
            Some("OTLP POST non-2xx: "@ + text::trim(status_line@))
        } else {
            None
        }),
{
    let words = text::split_words(status_line);
    proof {
        assert(text::texts(words@).len() == words@.len());
        assert(words@.len() > 1 ==> text::texts(words@)[1] == words@[1]@);
    }
    if status_line.unicode_len() == 0 || (words.len() > 1 && text::begins_with(
        words[1].as_str(),
        '2',
    )) {
        None
    } else {
        Some(text::cat2("OTLP POST non-2xx: ", text::trimmed(status_line).as_str()))
    }
}

// ── Laws ─────────────────────────────────────────────────────────────────────

/// What a session hands on is well formed: the `traceparent` of a request it makes reads back as
/// the session's own trace and span.
pub proof fn an_outgoing_traceparent_reads_back(trace_id: Seq<char>, span_id: Seq<char>)
    requires
        ids::is_id(trace_id),
        is_span_id(span_id),
    ensures
        trace_parts(Some(traceparent_text(trace_id, span_id))) == Some((trace_id, span_id)),
{
    let value = traceparent_text(trace_id, span_id);
    reveal_strlit("00-");
    reveal_strlit("-");
    reveal_strlit("-01");
    let first = seq!['0', '0'];
    let last = seq!['0', '1'];
    let tail2 = span_id + (seq!['-'] + last);
    let tail1 = trace_id + (seq!['-'] + tail2);
    assert(value =~= first + (seq!['-'] + tail1));
    lemma_split_front(first, tail1);
    lemma_split_front(trace_id, tail2);
    lemma_split_front(span_id, last);
    lemma_split_whole(last);
    let parts = text::split_on(value, '-');
    assert(parts =~= seq![first, trace_id, span_id, last]);
    reveal_strlit("00");
    assert(first =~= "00"@);
    assert forall|i: int| 0 <= i < trace_id.len() implies is_hex_digit(#[trigger] trace_id[i]) by {
        assert(ids::is_hex(trace_id[i]));
    }
    assert forall|i: int| 0 <= i < span_id.len() implies is_hex_digit(#[trigger] span_id[i]) by {
        assert(ids::is_hex(span_id[i]));
    }
}

/// A text without a dash in front of one is the first piece.
proof fn lemma_split_front(front: Seq<char>, rest: Seq<char>)
    requires
        !front.contains('-'),
    ensures
        text::split_on(front + (seq!['-'] + rest), '-') == seq![front] + text::split_on(rest, '-'),
{
    let whole = front + (seq!['-'] + rest);
    whole.index_of_first_ensures('-');
    assert(whole[front.len() as int] == '-');
    let i = whole.index_of_first('-')->0;
    if i < front.len() {
        assert(front[i] == '-');
    }
    assert(whole.take(i) =~= front);
    assert(whole.skip(i + 1) =~= rest);
}

/// A text without a dash is one piece.
proof fn lemma_split_whole(s: Seq<char>)
    requires
        !s.contains('-'),
    ensures
        text::split_on(s, '-') == seq![s],
{
    s.index_of_first_ensures('-');
}

/// A span never ends before it begins.
pub proof fn a_span_never_ends_before_it_begins(end_ns: u64, duration_ms: u64)
    ensures
        begun(end_ns, nanos(duration_ms)) <= end_ns,
{
}

/// A span carries each of its fields under its own key, and a parent exactly when it has one.
pub proof fn a_span_carries_its_fields(span: SpanView)
    ensures
        json::text_entry(span_json(span), "traceId"@) == Some(span.trace_id),
        json::text_entry(span_json(span), "spanId"@) == Some(span.span_id),
        json::text_entry(span_json(span), "name"@) == Some(span.name),
        json::text_entry(span_json(span), "startTimeUnixNano"@) == Some(
            text::decimal(span.start_ns as nat),
        ),
        json::text_entry(span_json(span), "endTimeUnixNano"@) == Some(
            text::decimal(span.end_ns as nat),
        ),
        json::entry(span_json(span), "attributes"@) == Some(JsonView::Array(span.attributes)),
        json::text_entry(span_json(span), "parentSpanId"@) == span.parent,
{
    reveal_strlit("traceId");
    reveal_strlit("spanId");
    reveal_strlit("name");
    reveal_strlit("kind");
    reveal_strlit("startTimeUnixNano");
    reveal_strlit("endTimeUnixNano");
    reveal_strlit("attributes");
    reveal_strlit("status");
    reveal_strlit("parentSpanId");
    assert("traceId"@.len() == 7 && "spanId"@.len() == 6 && "name"@.len() == 4 && "kind"@.len()
        == 4);
    assert("startTimeUnixNano"@.len() == 17 && "endTimeUnixNano"@.len() == 15 && "attributes"@.len()
        == 10 && "status"@.len() == 6 && "parentSpanId"@.len() == 12);
    assert("name"@[0] == 'n' && "kind"@[0] == 'k');
    assert("spanId"@[1] == 'p' && "status"@[1] == 't');
    reveal_with_fuel(json::entry_in, 10);
    let entries = span_json(span)->Object_0;
    assert(entries[0].0 == "traceId"@ && entries[1].0 == "spanId"@ && entries[2].0 == "name"@
        && entries[3].0 == "kind"@ && entries[4].0 == "startTimeUnixNano"@ && entries[5].0
        == "endTimeUnixNano"@ && entries[6].0 == "attributes"@ && entries[7].0 == "status"@);
    if span.parent is Some {
        assert(entries[8].0 == "parentSpanId"@);
        assert(entries.len() == 9);
    } else {
        assert(entries.len() == 8);
    }
}

/// An attribute carries its key, and its value as the kind it is of.
pub proof fn an_attribute_carries_its_value(key: Seq<char>, words: Seq<char>, n: nat)
    ensures
        json::text_entry(text_attribute(key, words), "key"@) == Some(key),
        json::entry(text_attribute(key, words), "value"@) is Some,
        json::text_entry(
            json::entry(text_attribute(key, words), "value"@)->0,
            "stringValue"@,
        ) == Some(words),
        json::text_entry(integer_attribute(key, n), "key"@) == Some(key),
        json::entry(integer_attribute(key, n), "value"@) is Some,
        json::text_entry(json::entry(integer_attribute(key, n), "value"@)->0, "intValue"@) == Some(
            text::decimal(n),
        ),
{
    reveal_strlit("key");
    reveal_strlit("value");
    assert("key"@.len() == 3 && "value"@.len() == 5);
    reveal_with_fuel(json::entry_in, 3);
    let a = text_attribute(key, words)->Object_0;
    assert(a[0].0 == "key"@ && a[1].0 == "value"@);
    let b = integer_attribute(key, n)->Object_0;
    assert(b[0].0 == "key"@ && b[1].0 == "value"@);
}

/// A span is as long as what it is of, where it fits behind the start of time, and a session's span
/// runs from its start under the caller's span.
pub proof fn a_span_is_as_long_as_its_work(
    e: EmitterView,
    span_id: Seq<char>,
    name: Seq<char>,
    duration_ms: u64,
    end_ns: u64,
    attributes: Seq<JsonView>,
    exit_status: Seq<char>,
)
    requires
        duration_ms * 1_000_000 <= end_ns,
    ensures
        ({
            let span = child_span(e, span_id, name, nanos(duration_ms), end_ns, attributes);
            &&& span.end_ns == end_ns
            &&& span.end_ns - span.start_ns == duration_ms * 1_000_000
            &&& span.trace_id == e.trace_id
            &&& span.parent == Some(e.session_span_id)
            &&& span.span_id == span_id
            &&& span.name == name
            &&& span.attributes == attributes
        }),
        ({
            let span = session_span(e, exit_status, end_ns);
            &&& span.start_ns == e.session_start_ns
            &&& span.end_ns == end_ns
            &&& span.trace_id == e.trace_id
            &&& span.span_id == e.session_span_id
            &&& span.parent == e.parent_span_id
            &&& span.attributes == seq![text_attribute("exit_status"@, exit_status)]
        }),
{
}

/// Slashes at the end of a path do not count.
pub proof fn slashes_at_the_end_do_not_count(s: Seq<char>)
    ensures
        without_slashes(s.push('/')) == without_slashes(s),
        s.len() > 0 && s.last() != '/' ==> without_slashes(s) == s,
{
    assert(s.push('/').drop_last() =~= s);
}

/// An endpoint gives its host, and its path without the slashes at its end.
pub proof fn an_endpoint_gives_its_host_and_path(host: Seq<char>, path: Seq<char>)
    requires
        host.len() > 0,
        !host.contains('/'),
    ensures
        endpoint_parts("http://"@ + host) == Some((host, Seq::<char>::empty())),
        endpoint_parts("http://"@ + (host + (seq!['/'] + path))) == Some(
            (host, without_slashes(seq!['/'] + path)),
        ),
        endpoint_parts("https://"@ + (host + (seq!['/'] + path))) == Some(
            (host, without_slashes(seq!['/'] + path)),
        ),
{
    reveal_strlit("http://");
    reveal_strlit("https://");
    let rest = host + (seq!['/'] + path);
    assert(("http://"@ + host).skip("http://"@.len() as int) =~= host);
    assert("http://"@.is_prefix_of("http://"@ + host));
    assert(("http://"@ + rest).skip("http://"@.len() as int) =~= rest);
    assert("http://"@.is_prefix_of("http://"@ + rest));
    let secure = "https://"@ + rest;
    assert(secure.skip("https://"@.len() as int) =~= rest);
    assert("https://"@.is_prefix_of(secure));
    assert(secure[4] == 's' && "http://"@[4] == ':');
    if "http://"@.is_prefix_of(secure) {
        assert(secure[4] == "http://"@[4]);
    }
    host.index_of_first_ensures('/');
    rest.index_of_first_ensures('/');
    assert(rest[host.len() as int] == '/');
    assert(rest.contains('/'));
    let i = rest.index_of_first('/')->0;
    if i < host.len() {
        assert(host[i] == rest[i]);
        assert(host.contains('/'));
    }
    assert(i == host.len());
    assert(rest.take(i) =~= host);
    assert(rest.skip(i) =~= seq!['/'] + path);
}

/// A command is shown from its start, whole when it is short enough and cut at the limit when not.
pub proof fn a_command_is_shown_from_its_start(command: Seq<char>)
    ensures
        shown_command(command).is_prefix_of(command),
        command.len() <= 200 ==> shown_command(command) == command,
        command.len() > 200 ==> shown_command(command).len() == 200,
{
}

/// An answer is a success by the first digit of its second word.
pub proof fn a_success_goes_by_its_first_digit(
    version: Seq<char>,
    number: Seq<char>,
    rest: Seq<char>,
)
    requires
        version.len() > 0,
        number.len() > 0,
        forall|i: int| 0 <= i < version.len() ==> !text::is_space(#[trigger] version[i]),
        forall|i: int| 0 <= i < number.len() ==> !text::is_space(#[trigger] number[i]),
    ensures
        is_success(version + seq![' '] + (number + seq![' '] + rest)) <==> number[0] == '2',
{
    text::words_add_up(number, ' ', rest);
    text::words_add_up(version, ' ', number + seq![' '] + rest);
    let words = text::words(version + seq![' '] + (number + seq![' '] + rest));
    assert(words[1] == number);
}

/// A traceparent that reads at all is a version, a trace, a span and flags, each of its own length.
pub proof fn a_traceparent_has_its_shape(
    version: Seq<char>,
    trace_id: Seq<char>,
    span_id: Seq<char>,
    flags: Seq<char>,
)
    requires
        !version.contains('-'),
        !trace_id.contains('-'),
        !span_id.contains('-'),
        !flags.contains('-'),
    ensures
        trace_parts(
            Some(
                version + (seq!['-'] + (trace_id + (seq!['-'] + (span_id + (seq!['-'] + flags))))),
            ),
        ) == (if version == "00"@ && is_hex_word(trace_id, 32) && is_hex_word(span_id, 16)
            && is_hex_word(flags, 2) {
            Some((trace_id, span_id))
        } else {
            None
        }),
        trace_parts(None) is None,
{
    let tail2 = span_id + (seq!['-'] + flags);
    let tail1 = trace_id + (seq!['-'] + tail2);
    lemma_split_front(version, tail1);
    lemma_split_front(trace_id, tail2);
    lemma_split_front(span_id, flags);
    lemma_split_whole(flags);
    let parts = text::split_on(version + (seq!['-'] + tail1), '-');
    assert(parts =~= seq![version, trace_id, span_id, flags]);
}

/// A payload names the capsule and its version, and carries the spans.
pub proof fn a_payload_names_its_capsule(e: EmitterView, spans: Seq<JsonView>)
    ensures
        payload_of(e, spans, payload_json(e, spans)),
{
    reveal_strlit("resource");
    reveal_strlit("scopeSpans");
    reveal_strlit("scope");
    reveal_strlit("spans");
    assert("resource"@.len() == 8 && "scopeSpans"@.len() == 10);
    assert("scope"@[1] == 'c' && "spans"@[1] == 'p');
    reveal_with_fuel(json::entry_in, 3);
    let named = Seq::<JsonView>::empty().push(text_attribute("service.name"@, e.capsule_name)).push(
        text_attribute("service.version"@, e.capsule_version),
    );
    assert(named =~= seq![
        text_attribute("service.name"@, e.capsule_name),
        text_attribute("service.version"@, e.capsule_version),
    ]);
    let resource = JsonView::Object(json::none().push(("attributes"@, JsonView::Array(named))));
    assert(json::entry(resource, "attributes"@) == Some(JsonView::Array(named)));
    let scope = JsonView::Object(
        json::none().push(("name"@, JsonView::Text("murmur-capsule-runtime"@))),
    );
    let scope_spans = JsonView::Object(
        json::none().push(("scope"@, scope)).push(("spans"@, JsonView::Array(spans))),
    );
    assert(scope_spans->Object_0[0].0 == "scope"@ && scope_spans->Object_0[1].0 == "spans"@);
    assert(json::entry(scope_spans, "spans"@) == Some(JsonView::Array(spans)));
    let scoped = Seq::<JsonView>::empty().push(scope_spans);
    let one = JsonView::Object(
        json::none().push(("resource"@, resource)).push(("scopeSpans"@, JsonView::Array(scoped))),
    );
    assert(one->Object_0[0].0 == "resource"@ && one->Object_0[1].0 == "scopeSpans"@);
    assert(json::entry(one, "resource"@) == Some(resource));
    assert(json::entry(one, "scopeSpans"@) == Some(JsonView::Array(scoped)));
    let all = Seq::<JsonView>::empty().push(one);
    assert(json::entry(payload_json(e, spans), "resourceSpans"@) == Some(JsonView::Array(all)));
}

/// Whether a payload names a capsule and carries spans.
pub open spec fn payload_of(e: EmitterView, spans: Seq<JsonView>, payload: JsonView) -> bool {
    match json::entry(payload, "resourceSpans"@) {
        Some(JsonView::Array(all)) => {
            &&& all.len() == 1
            &&& match json::entry(all[0], "resource"@) {
                Some(resource) => json::entry(resource, "attributes"@) == Some(
                    JsonView::Array(
                        seq![
                            text_attribute("service.name"@, e.capsule_name),
                            text_attribute("service.version"@, e.capsule_version),
                        ],
                    ),
                ),
                None => false,
            }
            &&& match json::entry(all[0], "scopeSpans"@) {
                Some(JsonView::Array(scoped)) => scoped.len() == 1 && json::entry(
                    scoped[0],
                    "spans"@,
                ) == Some(JsonView::Array(spans)),
                _ => false,
            }
        },
        _ => false,
    }
}

/// A span that is emitted carries the name, the end and the attributes it was emitted with, hangs
/// below the session's own, and is as long as the work was.
pub proof fn an_emitted_span_tells_of_its_work(
    e: EmitterView,
    name: Seq<char>,
    length: u64,
    end_ns: u64,
    attributes: Seq<JsonView>,
    span: Json,
)
    requires
        emits(e, name, length, end_ns, attributes, Some(span)),
    ensures
        e.endpoint is Some,
        json::text_entry(span@, "name"@) == Some(name),
        json::text_entry(span@, "traceId"@) == Some(e.trace_id),
        json::text_entry(span@, "parentSpanId"@) == Some(e.session_span_id),
        json::text_entry(span@, "endTimeUnixNano"@) == Some(text::decimal(end_ns as nat)),
        json::text_entry(span@, "startTimeUnixNano"@) == Some(
            text::decimal(
                if length <= end_ns {
                    (end_ns - length) as nat
                } else {
                    0
                },
            ),
        ),
        json::entry(span@, "attributes"@) == Some(JsonView::Array(attributes)),
        !emits(e, name, length, end_ns, attributes, None),
{
    let span_id = choose|span_id: Seq<char>|
        is_span_id(span_id) && !all_zero(span_id) && span@ == span_json(
            #[trigger] child_span(e, span_id, name, length, end_ns, attributes),
        );
    a_span_carries_its_fields(child_span(e, span_id, name, length, end_ns, attributes));
}

/// The span of a completion counts what went in and what came out, and says what was decided.
pub proof fn an_inference_span_counts_what_was_spent(
    turn: u32,
    input_tokens: u64,
    output_tokens: u64,
    decision: Seq<char>,
    tool_name: Option<Seq<char>>,
    origin: Option<(Seq<char>, Seq<char>)>,
)
    ensures
        ({
            let all = inference_attributes(
                turn,
                input_tokens,
                output_tokens,
                decision,
                tool_name,
                origin,
            );
            &&& all.len() == 4 + (if tool_name is Some {
                1int
            } else {
                0
            }) + (if origin is Some {
                2int
            } else {
                0
            })
            &&& all[0] == integer_attribute("turn"@, turn as nat)
            &&& all[1] == integer_attribute("input_tokens"@, input_tokens as nat)
            &&& all[2] == integer_attribute("output_tokens"@, output_tokens as nat)
            &&& all[3] == text_attribute("decision"@, decision)
            &&& tool_name is Some ==> all[4] == text_attribute("tool_name"@, tool_name->0)
            &&& origin is Some ==> all[all.len() - 2] == text_attribute("origin"@, (origin->0).0)
                && all[all.len() - 1] == text_attribute("model"@, (origin->0).1)
        }),
{
}

/// A request that carries spans says how many bytes they take, and ends with them.
pub proof fn a_post_says_its_own_length(host: Seq<char>, path: Seq<char>, body: Seq<char>)
    ensures
        ("POST "@ + path + "/v1/traces HTTP/1.1\r\nHost: "@ + host
            + "\r\nContent-Type: application/json\r\nContent-Length: "@ + text::decimal(
            codec::utf8(body).len(),
        ) + "\r\n"@).is_prefix_of(post_text(host, path, body)),
        ("\r\n\r\n"@ + body).is_suffix_of(post_text(host, path, body)),
{
    reveal_strlit("\r\n");
    reveal_strlit("\r\n\r\n");
    reveal_strlit("\r\nConnection: close\r\n\r\n");
    reveal_strlit("/v1/traces");
    reveal_strlit(" HTTP/1.1\r\nHost: ");
    reveal_strlit("/v1/traces HTTP/1.1\r\nHost: ");
    assert("/v1/traces HTTP/1.1\r\nHost: "@ =~= "/v1/traces"@ + " HTTP/1.1\r\nHost: "@);
}

} // verus!
