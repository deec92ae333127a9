//! What the runtime writes to a peer capsule, and how it reads what the peer answers. The socket
//! itself is somebody else's.

use crate::codec;
use crate::ids;
use crate::json;
use crate::json::{Json, JsonView};
use crate::origin;
use crate::origin::{TaskOrigin, TaskProvenance, TrustClass};
use crate::text;
use vstd::prelude::*;

verus! {

/// A message for a peer.
#[derive(Debug, PartialEq, Eq)]
pub struct OutgoingMessage {
    pub message_id: String,
    pub context_id: Option<String>,
    pub text: String,
}

// ── Addresses ────────────────────────────────────────────────────────────────

/// A URL without its `http://` or `https://`.
pub open spec fn without_scheme(url: Seq<char>) -> Seq<char> {
    if "http://"@.is_prefix_of(url) {
        url.skip("http://"@.len() as int)
    } else if "https://"@.is_prefix_of(url) {
        url.skip("https://"@.len() as int)
    } else {
        url
    }
}

/// The host and port of a peer URL: what stands between its scheme and its path.
pub open spec fn host_port(url: Seq<char>) -> Option<Seq<char>> {
    let piece = text::split_on(without_scheme(url), '/')[0];
    if piece.len() == 0 {
        None
    } else {
        Some(piece)
    }
}

/// The host and port of a peer URL.
pub fn parse_host_port(peer_url: &str) -> (r: Result<String, String>)
    ensures
        text::result_text(r) == (match host_port(peer_url@) {
            Some(piece) => Ok(piece),
            None => Err("invalid peer URL: "@ + peer_url@),
        }),
{
    let stripped = match text::strip_prefix(peer_url, "http://") {
        Some(rest) => rest,
        None => match text::strip_prefix(peer_url, "https://") {
            Some(rest) => rest,
            None => peer_url.to_owned(),
        },
    };
    let pieces = text::split_pieces(stripped.as_str(), '/');
    let ghost all = text::split_on(stripped@, '/');
    proof {
        assert(all == text::texts(pieces@));
        assert(all.len() == pieces@.len());
        assert(all[0] == pieces@[0]@);
        reveal_strlit("");
        if all[0].len() == 0 {
            assert(all[0] =~= ""@);
        }
    }
    if text::same(pieces[0].as_str(), "") {
        Err(text::cat2("invalid peer URL: ", peer_url))
    } else {
        Ok(pieces[0].clone())
    }
}

// ── Requests ─────────────────────────────────────────────────────────────────

/// One header line.
pub open spec fn header_line(name: Seq<char>, value: Seq<char>) -> Seq<char> {
    name + ": "@ + value + "\r\n"@
}

/// One header line.
pub fn write_header(name: &str, value: &str) -> (r: String)
    ensures
        r@ == header_line(name@, value@),
{
    text::cat4(name, ": ", value, "\r\n")
}

/// The JSON-RPC body that sends a message.
pub open spec fn send_body(
    request_id: Seq<char>,
    message_id: Seq<char>,
    context_id: Option<Seq<char>>,
    words: Seq<char>,
) -> JsonView {
    let part = JsonView::Object(json::none().push(("text"@, JsonView::Text(words))));
    let message = JsonView::Object(
        json::none().push(("messageId"@, JsonView::Text(message_id))).push(
            ("contextId"@, json::nullable(context_id)),
        ).push(("role"@, JsonView::Text("user"@))).push(
            ("parts"@, JsonView::Array(Seq::<JsonView>::empty().push(part))),
        ),
    );
    JsonView::Object(
        json::none().push(("jsonrpc"@, JsonView::Text("2.0"@))).push(
            ("id"@, JsonView::Text(request_id)),
        ).push(("method"@, JsonView::Text("message/send"@))).push(
            ("params"@, JsonView::Object(json::none().push(("message"@, message)))),
        ),
    )
}

/// Whether a body carries a user's message: its id, its context and its text as the one part.
pub open spec fn carries_message(
    body: JsonView,
    message_id: Seq<char>,
    context_id: Option<Seq<char>>,
    words: Seq<char>,
) -> bool {
    match json::entry(body, "params"@) {
        Some(params) => match json::entry(params, "message"@) {
            Some(message) => {
                &&& json::text_entry(message, "messageId"@) == Some(message_id)
                &&& json::entry(message, "contextId"@) == Some(
                    match context_id {
                        Some(c) => JsonView::Text(c),
                        None => JsonView::Null,
                    },
                )
                &&& json::text_entry(message, "role"@) == Some("user"@)
                &&& match json::entry(message, "parts"@) {
                    Some(JsonView::Array(parts)) => parts.len() == 1 && json::text_entry(
                        parts[0],
                        "text"@,
                    ) == Some(words),
                    _ => false,
                }
            },
            None => false,
        },
        None => false,
    }
}

proof fn lemma_send_body(
    request_id: Seq<char>,
    message_id: Seq<char>,
    context_id: Option<Seq<char>>,
    words: Seq<char>,
)
    ensures
        ({
            let body = send_body(request_id, message_id, context_id, words);
            &&& json::text_entry(body, "jsonrpc"@) == Some("2.0"@)
            &&& json::text_entry(body, "id"@) == Some(request_id)
            &&& json::text_entry(body, "method"@) == Some("message/send"@)
            &&& carries_message(body, message_id, context_id, words)
        }),
{
    reveal_strlit("jsonrpc");
    reveal_strlit("id");
    reveal_strlit("method");
    reveal_strlit("params");
    reveal_strlit("messageId");
    reveal_strlit("contextId");
    reveal_strlit("role");
    reveal_strlit("parts");
    assert("jsonrpc"@[0] == 'j' && "id"@[0] == 'i' && "method"@[0] == 'm' && "params"@[0] == 'p');
    assert("messageId"@[0] == 'm' && "contextId"@[0] == 'c' && "role"@[0] == 'r' && "parts"@[0]
        == 'p');
    reveal_with_fuel(json::entry_in, 5);
    let part = JsonView::Object(json::none().push(("text"@, JsonView::Text(words))));
    let inner = json::none().push(("messageId"@, JsonView::Text(message_id))).push(
        ("contextId"@, json::nullable(context_id)),
    ).push(("role"@, JsonView::Text("user"@))).push(
        ("parts"@, JsonView::Array(Seq::<JsonView>::empty().push(part))),
    );
    assert(inner[0].0 == "messageId"@ && inner[1].0 == "contextId"@ && inner[2].0 == "role"@
        && inner[3].0 == "parts"@);
    let message = JsonView::Object(inner);
    assert(json::entry(message, "parts"@) == Some(
        JsonView::Array(Seq::<JsonView>::empty().push(part)),
    ));
    let params = json::none().push(("message"@, message));
    assert(json::entry(JsonView::Object(params), "message"@) == Some(message));
    let entries = send_body(request_id, message_id, context_id, words)->Object_0;
    assert(entries[0].0 == "jsonrpc"@ && entries[1].0 == "id"@ && entries[2].0 == "method"@
        && entries[3].0 == "params"@);
    assert(json::entry(JsonView::Object(entries), "params"@) == Some(JsonView::Object(params)));
}

/// The body that sends `message` under a request id.
pub fn message_body(request_id: &str, message: &OutgoingMessage) -> (r: Json)
    ensures
        r@ == send_body(
            request_id@,
            message.message_id@,
            text::opt_text(message.context_id),
            message.text@,
        ),
        json::text_entry(r@, "jsonrpc"@) == Some("2.0"@),
        json::text_entry(r@, "id"@) == Some(request_id@),
        json::text_entry(r@, "method"@) == Some("message/send"@),
        carries_message(
            r@,
            message.message_id@,
            text::opt_text(message.context_id),
            message.text@,
        ),
{
    proof {
        lemma_send_body(
            request_id@,
            message.message_id@,
            text::opt_text(message.context_id),
            message.text@,
        );
    }
    let part = json::with(
        json::empty_object(),
        "text",
        json::text_value(message.text.as_str()),
    );
    let mut inner = json::empty_object();
    inner = json::with(inner, "messageId", json::text_value(message.message_id.as_str()));
    inner = json::with(inner, "contextId", json::nullable_text(&message.context_id));
    inner = json::with(inner, "role", json::text_value("user"));
    inner = json::with(inner, "parts", json::with_item(json::empty_array(), part));
    let params = json::with(json::empty_object(), "message", inner);
    let mut body = json::empty_object();
    body = json::with(body, "jsonrpc", json::text_value("2.0"));
    body = json::with(body, "id", json::text_value(request_id));
    body = json::with(body, "method", json::text_value("message/send"));
    json::with(body, "params", params)
}

/// The two headers a runtime stamps on what it sends a peer: always a peer origin, with the trust
/// class of the sending capsule's own current task, untrusted when there is none.
pub open spec fn stamp_lines(sender_task: Option<TaskProvenance>) -> Seq<char> {
    let trust = match sender_task {
        Some(task) => task.spec_trust(),
        None => TrustClass::Untrusted,
    };
    header_line(origin::PEER_ORIGIN_HEADER@, TaskOrigin::Peer.word()) + header_line(
        origin::PEER_TRUST_HEADER@,
        trust.word(),
    )
}

/// The request that carries `body` to `addr`.
pub open spec fn send_request(
    addr: Seq<char>,
    body: Seq<char>,
    body_bytes: nat,
    traceparent: Option<Seq<char>>,
    sender_task: Option<TaskProvenance>,
) -> Seq<char> {
    "POST / HTTP/1.1\r\nHost: "@ + addr + "\r\nContent-Type: application/json\r\nContent-Length: "@
        + text::decimal(body_bytes) + "\r\nConnection: close\r\n"@ + (match traceparent {
        Some(value) => header_line("traceparent"@, value),
        None => Seq::empty(),
    }) + stamp_lines(sender_task) + "\r\n"@ + body
}

/// The request that carries `body` to `addr`. The two stamp headers are the runtime's own; no
/// message has a field to set them from.
pub fn message_request(
    addr: &str,
    body: &str,
    traceparent: &Option<String>,
    sender_task: Option<TaskProvenance>,
) -> (r: String)
    ensures
        r@ == send_request(
            addr@,
            body@,
            codec::utf8(body@).len(),
            text::opt_text(*traceparent),
            sender_task,
        ),
        ("POST / HTTP/1.1\r\nHost: "@ + addr@
            + "\r\nContent-Type: application/json\r\nContent-Length: "@ + text::decimal(
            codec::utf8(body@).len(),
        ) + "\r\n"@).is_prefix_of(r@),
        (stamp_lines(sender_task) + "\r\n"@ + body@).is_suffix_of(r@),
        traceparent is Some ==> (header_line("traceparent"@, traceparent->0@) + stamp_lines(
            sender_task,
        ) + "\r\n"@ + body@).is_suffix_of(r@),
{
    proof {
        reveal_strlit("\r\n");
        reveal_strlit("\r\nConnection: close\r\n");
    }
    let length = text::decimal_of(body.as_bytes().len() as u64);
    let mut out = text::cat5(
        "POST / HTTP/1.1\r\nHost: ",
        addr,
        "\r\nContent-Type: application/json\r\nContent-Length: ",
        length.as_str(),
        "\r\nConnection: close\r\n",
    );
    let ghost start = out@;
    if let Some(value) = traceparent {
        out.append(write_header("traceparent", value.as_str()).as_str());
    } else {
        proof {
            assert(start + Seq::<char>::empty() =~= start);
        }
    }
    let stamped = origin::stamp_for_peer(sender_task);
    let ghost middle = out@;
    out.append(
        write_header(origin::PEER_ORIGIN_HEADER, stamped.origin().as_str()).as_str(),
    );
    out.append(write_header(origin::PEER_TRUST_HEADER, stamped.trust().as_str()).as_str());
    proof {
        assert(out@ =~= middle + stamp_lines(sender_task));
    }
    out.append("\r\n");
    out.append(body);
    out
}

/// A request id: `req_` and an identifier nobody has used before.
pub fn request_id() -> (r: String)
    ensures
        exists|id: Seq<char>| ids::is_id(id) && r@ == #[trigger] ("req_"@ + id),
{
    let id = ids::ordered_id();
    text::cat2("req_", id.as_str())
}

/// The texts of a list of headers.
pub open spec fn header_views(v: Seq<(String, String)>) -> Seq<(Seq<char>, Seq<char>)> {
    v.map_values(|h: (String, String)| (h.0@, h.1@))
}

/// Header lines one after another.
pub open spec fn header_lines(headers: Seq<(Seq<char>, Seq<char>)>) -> Seq<char>
    decreases headers.len(),
{
    if headers.len() == 0 {
        Seq::empty()
    } else {
        header_lines(headers.drop_last()) + header_line(headers.last().0, headers.last().1)
    }
}

/// A `GET` over a fresh connection.
pub open spec fn get_request_text(
    addr: Seq<char>,
    path: Seq<char>,
    headers: Seq<(Seq<char>, Seq<char>)>,
) -> Seq<char> {
    "GET "@ + path + " HTTP/1.1\r\nHost: "@ + addr + "\r\nConnection: close\r\n"@ + header_lines(
        headers,
    ) + "\r\n"@
}

/// A `GET` over a fresh connection: `Connection: close`, so the response is complete when the
/// socket is.
pub fn get_request(addr: &str, path: &str, extra_headers: &[(String, String)]) -> (r: String)
    ensures
        r@ == get_request_text(addr@, path@, header_views(extra_headers@)),
        ("GET "@ + path@ + " HTTP/1.1\r\nHost: "@ + addr@ + "\r\n"@).is_prefix_of(r@),
        (header_lines(header_views(extra_headers@)) + "\r\n"@).is_suffix_of(r@),
{
    proof {
        reveal_strlit("\r\n");
        reveal_strlit("\r\nConnection: close\r\n");
    }
    let mut out = text::cat5(
        "GET ",
        path,
        " HTTP/1.1\r\nHost: ",
        addr,
        "\r\nConnection: close\r\n",
    );
    let ghost start = out@;
    let ghost all = header_views(extra_headers@);
    let mut i: usize = 0;
    proof {
        assert(start + header_lines(all.take(0)) =~= start);
    }
    while i < extra_headers.len()
        invariant
            i <= extra_headers@.len(),
            all == header_views(extra_headers@),
            out@ == start + header_lines(all.take(i as int)),
        decreases extra_headers@.len() - i,
    {
        let line = write_header(extra_headers[i].0.as_str(), extra_headers[i].1.as_str());
        out.append(line.as_str());
        proof {
            assert(all.take(i + 1).drop_last() =~= all.take(i as int));
            assert(all.take(i + 1).last() == all[i as int]);
            assert(start + header_lines(all.take(i as int)) + line@ =~= start + (header_lines(
                all.take(i as int),
            ) + line@));
        }
        i += 1;
    }
    proof {
        assert(all.take(all.len() as int) =~= all);
    }
    out.append("\r\n");
    out
}

// ── Responses ────────────────────────────────────────────────────────────────

/// The head of a response: its status, its headers with names in lower case, and how many bytes of
/// body it declares.
#[derive(Debug, PartialEq, Eq)]
pub struct ResponseHead {
    pub status: u16,
    pub headers: Vec<(String, String)>,
    pub content_length: Option<u64>,
}

/// What a [`ResponseHead`] stands for.
#[verifier::ext_equal]
pub struct HeadView {
    pub status: u16,
    pub headers: Seq<(Seq<char>, Seq<char>)>,
    pub content_length: Option<u64>,
}

impl View for ResponseHead {
    type V = HeadView;

    open spec fn view(&self) -> HeadView {
        HeadView {
            status: self.status,
            headers: header_views(self.headers@),
            content_length: self.content_length,
        }
    }
}

/// The status a status line gives: its second word, as a number of sixteen bits.
pub open spec fn status_of(line: Seq<char>) -> Option<u16> {
    let words = text::words(line);
    if words.len() < 2 {
        None
    } else {
        match text::unsigned(words[1], 65535) {
            Some(n) => Some(n as u16),
            None => None,
        }
    }
}

/// The name, in ASCII lower case, and the value of a header line; nothing when it has no colon.
pub open spec fn header_of(line: Seq<char>) -> Option<(Seq<char>, Seq<char>)> {
    match line.index_of_first(':') {
        Some(i) => Some((text::lowered(text::trim(line.take(i))), text::trim(line.skip(i + 1)))),
        None => None,
    }
}

/// The body length a value declares.
pub open spec fn length_of(value: Seq<char>) -> Option<u64> {
    match text::unsigned(value, usize::MAX as nat) {
        Some(n) => Some(n as u64),
        None => None,
    }
}

/// The headers of the lines up to the first blank one, and the body length the last
/// `content-length` among them declares.
pub open spec fn headers_of(lines: Seq<Seq<char>>) -> (Seq<(Seq<char>, Seq<char>)>, Option<u64>)
    decreases lines.len(),
{
    if lines.len() == 0 {
        (Seq::empty(), None)
    } else {
        let before = headers_of(lines.drop_last());
        if ended(lines.drop_last()) || text::trim(lines.last()).len() == 0 {
            before
        } else {
            match header_of(lines.last()) {
                Some((name, value)) => (
                    before.0.push((name, value)),
                    if name == "content-length"@ {
                        length_of(value)
                    } else {
                        before.1
                    },
                ),
                None => before,
            }
        }
    }
}

/// Whether one of the lines is blank.
pub open spec fn ended(lines: Seq<Seq<char>>) -> bool {
    exists|i: int| 0 <= i < lines.len() && text::trim(#[trigger] lines[i]).len() == 0
}

/// The name and value of a header line.
pub fn parse_header(line: &str) -> (r: Option<(String, String)>)
    ensures
        match (r, header_of(line@)) {
            (Some(h), Some(wanted)) => (h.0@, h.1@) == wanted,
            (None, None) => true,
            _ => false,
        },
{
    let chars = text::chars_of(line);
    let ghost s = line@;
    proof {
        assert(chars@.skip(0) =~= s);
        s.index_of_first_ensures(':');
    }
    match text::find_char(&chars, 0, ':') {
        Some(i) => {
            let name = text::slice_text(&chars, 0, i);
            let value = text::slice_text(&chars, i + 1, chars.len());
            proof {
                assert(name@ =~= s.take(i as int));
                assert(value@ =~= s.skip(i + 1));
            }
            Some(
                (
                    text::ascii_lowered(text::trimmed(name.as_str()).as_str()),
                    text::trimmed(value.as_str()),
                ),
            )
        },
        None => None,
    }
}

/// Whether a line ends the head of a response.
pub fn ends_head(line: &str) -> (r: bool)
    ensures
        r == (text::trim(line@).len() == 0),
{
    text::is_blank(line)
}

/// The head of a response, from its status line and the lines behind it up to the first blank one.
pub fn parse_head(status_line: &str, lines: &[String], peer_url: &str) -> (r: Result<
    ResponseHead,
    String,
>)
    ensures
        match (r, status_of(status_line@)) {
            (Ok(head), Some(status)) => head@ == (HeadView {
                status,
                headers: headers_of(text::texts(lines@)).0,
                content_length: headers_of(text::texts(lines@)).1,
            }),
            (Err(e), None) => e@ == "unparseable status line from "@ + peer_url@ + ": "@
                + text::debug_text(status_line@),
            _ => false,
        },
{
    let words = text::split_words(status_line);
    let ghost wanted = text::words(status_line@);
    proof {
        assert(wanted.len() == words@.len());
    }
    let mut status: Option<u64> = None;
    if words.len() >= 2 {
        proof {
            assert(wanted[1] == words@[1]@);
        }
        status = text::parse_up_to(words[1].as_str(), 65535);
    }
    let status: u16 = match status {
        Some(n) => n as u16,
        None => return Err(
            text::cat4(
                "unparseable status line from ",
                peer_url,
                ": ",
                text::debug_of(status_line).as_str(),
            ),
        ),
    };
    let ghost all = text::texts(lines@);
    let mut headers: Vec<(String, String)> = Vec::new();
    let mut content_length: Option<u64> = None;
    let mut i: usize = 0;
    let mut done = false;
    proof {
        assert(header_views(headers@) =~= headers_of(all.take(0)).0);
    }
    while i < lines.len()
        invariant
            i <= lines@.len(),
            all == text::texts(lines@),
            (header_views(headers@), content_length) == headers_of(all.take(i as int)),
            done == ended(all.take(i as int)),
        decreases lines@.len() - i,
    {
        proof {
            assert(all.take(i + 1).drop_last() =~= all.take(i as int));
            assert(all.take(i + 1).last() == lines@[i as int]@);
        }
        let blank = text::is_blank(lines[i].as_str());
        proof {
            let longer = all.take(i + 1);
            if done {
                let j = choose|j: int|
                    0 <= j < all.take(i as int).len() && text::trim(
                        #[trigger] all.take(i as int)[j],
                    ).len() == 0;
                assert(longer[j] == all.take(i as int)[j]);
            }
            if blank {
                assert(longer[i as int] == lines@[i as int]@);
            }
            if !done && !blank {
                assert forall|j: int| 0 <= j < longer.len() implies text::trim(
                    #[trigger] longer[j],
                ).len() != 0 by {
                    if j < i {
                        assert(longer[j] == all.take(i as int)[j]);
                    }
                }
            }
        }
        if !done && !blank {
            if let Some((name, value)) = parse_header(lines[i].as_str()) {
                if text::same(name.as_str(), "content-length") {
                    content_length = text::parse_up_to(value.as_str(), usize::MAX as u64);
                }
                let ghost before = headers@;
                let ghost added = (name@, value@);
                headers.push((name, value));
                proof {
                    assert(header_views(headers@) =~= header_views(before).push(added));
                }
            }
        }
        done = done || blank;
        i += 1;
    }
    proof {
        assert(all.take(all.len() as int) =~= all);
    }
    Ok(ResponseHead { status, headers, content_length })
}

/// One HTTP response. Header names are in lower case; values are trimmed and otherwise verbatim.
#[derive(Debug, PartialEq, Eq)]
pub struct RawHttpResponse {
    pub status: u16,
    pub headers: Vec<(String, String)>,
    pub body: Vec<u8>,
}

/// The first value under a header name.
pub open spec fn header_value(
    headers: Seq<(Seq<char>, Seq<char>)>,
    name: Seq<char>,
) -> Option<Seq<char>>
    decreases headers.len(),
{
    if headers.len() == 0 {
        None
    } else if headers[0].0 == name {
        Some(headers[0].1)
    } else {
        header_value(headers.drop_first(), name)
    }
}

impl RawHttpResponse {
    /// The first value under a header name.
    pub fn header(&self, name: &str) -> (r: Option<&str>)
        ensures
            text::opt_str(r) == header_value(header_views(self.headers@), name@),
    {
        let ghost all = header_views(self.headers@);
        let mut i: usize = 0;
        proof {
            assert(all.skip(0) =~= all);
        }
        while i < self.headers.len()
            invariant
                i <= self.headers@.len(),
                all == header_views(self.headers@),
                header_value(all.skip(i as int), name@) == header_value(all, name@),
            decreases self.headers@.len() - i,
        {
            proof {
                assert(all.skip(i as int)[0] == all[i as int]);
                assert(all.skip(i as int).drop_first() =~= all.skip(i + 1));
            }
            if text::same(self.headers[i].0.as_str(), name) {
                return Some(self.headers[i].1.as_str());
            }
            i += 1;
        }
        None
    }
}

/// Whether a result is the response of `head` and `body`, or says that the body is not of the
/// length the head declares.
pub open spec fn completes(
    head: HeadView,
    body: Seq<u8>,
    peer_url: Seq<char>,
    r: Result<RawHttpResponse, String>,
) -> bool {
    let wrong = match head.content_length {
        Some(n) => n != body.len(),
        None => false,
    };
    match r {
        Ok(response) => !wrong && response.status == head.status && header_views(response.headers@)
            == head.headers && response.body@ == body,
        Err(e) => wrong && e@ == "peer "@ + peer_url + " declared "@ + text::decimal(
            head.content_length->0 as nat,
        ) + " bytes and sent "@ + text::decimal(body.len()),
    }
}

/// The response of a head and the body read behind it. A declared length bounds the read, and a
/// body of another length is refused.
pub fn complete_response(head: ResponseHead, body: Vec<u8>, peer_url: &str) -> (r: Result<
    RawHttpResponse,
    String,
>)
    ensures
        completes(head@, body@, peer_url@, r),
        r is Ok <==> head.content_length is None || head.content_length->0 == body@.len(),
        r is Ok ==> r->Ok_0.status == head.status && r->Ok_0.headers == head.headers
            && r->Ok_0.body@ == body@,
{
    if let Some(length) = head.content_length {
        if body.len() as u64 != length {
            return Err(
                text::cat6(
                    "peer ",
                    peer_url,
                    " declared ",
                    text::decimal_of(length).as_str(),
                    " bytes and sent ",
                    text::decimal_of(body.len() as u64).as_str(),
                ),
            );
        }
    }
    Ok(RawHttpResponse { status: head.status, headers: head.headers, body })
}

/// What a peer's JSON-RPC answer comes to. `answer` is the body as JSON, or why it is none. An error
/// in the answer wins over a result.
pub open spec fn answered(answer: Result<JsonView, Seq<char>>, peer_url: Seq<char>) -> Result<
    JsonView,
    Seq<char>,
> {
    match answer {
        Err(why) => Err("failed to parse response from "@ + peer_url + ": "@ + why),
        Ok(v) => match json::entry(v, "error"@) {
            Some(error) => Err("A2A error from "@ + peer_url + ": "@ + json::render(error)),
            None => match json::entry(v, "result"@) {
                Some(result) => Ok(result),
                None => Err("no result in A2A response from "@ + peer_url),
            },
        },
    }
}

/// The result a peer's JSON-RPC answer carries.
pub fn result_of_answer(answer: Result<Json, String>, peer_url: &str) -> (r: Result<Json, String>)
    ensures
        json::reading_view(r) == answered(json::reading_view(answer), peer_url@),
        r is Ok <==> answer is Ok && json::entry(answer->Ok_0@, "error"@) is None && json::entry(
            answer->Ok_0@,
            "result"@,
        ) is Some,
        r is Ok ==> json::entry(answer->Ok_0@, "result"@) == Some(r->Ok_0@),
{
    match answer {
        Err(why) => Err(
            text::cat4("failed to parse response from ", peer_url, ": ", why.as_str()),
        ),
        Ok(value) => match json::get(&value, "error") {
            Some(error) => Err(
                text::cat4("A2A error from ", peer_url, ": ", json::write(error).as_str()),
            ),
            None => match json::take(value, "result") {
                Some(result) => Ok(result),
                None => Err(text::cat2("no result in A2A response from ", peer_url)),
            },
        },
    }
}

/// The result a peer's response carries in its body.
pub fn result_of_response(response: &RawHttpResponse, peer_url: &str) -> (r: Result<Json, String>)
    ensures
        json::reading_view(r) == answered(json::reading_bytes(response.body@), peer_url@),
{
    result_of_answer(json::read_bytes(response.body.as_slice()), peer_url)
}

/// What a peer's answer for its agent card comes to.
pub open spec fn card_answered(
    status: u16,
    answer: Result<JsonView, Seq<char>>,
    peer_url: Seq<char>,
) -> Result<JsonView, Seq<char>> {
    if status != 200 {
        Err(
            "peer "@ + peer_url + " answered "@ + text::decimal(status as nat)
                + " for its agent card"@,
        )
    } else {
        match answer {
            Ok(card) => Ok(card),
            Err(why) => Err("peer "@ + peer_url + " returned an unparseable agent card: "@ + why),
        }
    }
}

/// The agent card a peer's answer carries.
pub fn card_of_answer(status: u16, answer: Result<Json, String>, peer_url: &str) -> (r: Result<
    Json,
    String,
>)
    ensures
        json::reading_view(r) == card_answered(status, json::reading_view(answer), peer_url@),
        r is Ok <==> status == 200 && answer is Ok,
        r is Ok ==> r->Ok_0 == answer->Ok_0,
{
    if status != 200 {
        return Err(
            text::cat5(
                "peer ",
                peer_url,
                " answered ",
                text::decimal_of(status as u64).as_str(),
                " for its agent card",
            ),
        );
    }
    match answer {
        Ok(card) => Ok(card),
        Err(why) => Err(
            text::cat4("peer ", peer_url, " returned an unparseable agent card: ", why.as_str()),
        ),
    }
}

/// The agent card a peer's response carries in its body.
pub fn card_of_response(response: &RawHttpResponse, peer_url: &str) -> (r: Result<Json, String>)
    ensures
        json::reading_view(r) == card_answered(
            response.status,
            json::reading_bytes(response.body@),
            peer_url@,
        ),
{
    card_of_answer(response.status, json::read_bytes(response.body.as_slice()), peer_url)
}

// ── Laws ─────────────────────────────────────────────────────────────────────

/// Untrust does not evaporate at the first hop: what a request stamps is what the receiving
/// runtime reads off it.
pub proof fn what_is_stamped_is_what_is_read(sender_task: Option<TaskProvenance>)
    ensures
        exists|trust: TrustClass|
            {
                &&& stamp_lines(sender_task) == header_line(
                    origin::PEER_ORIGIN_HEADER@,
                    TaskOrigin::Peer.word(),
                ) + header_line(origin::PEER_TRUST_HEADER@, #[trigger] trust.word())
                &&& origin::wire_origin(Some(TaskOrigin::Peer.word())) == TaskOrigin::Peer
                &&& origin::derived_trust(
                    TaskOrigin::Peer,
                    origin::wire_trust(Some(trust.word())),
                ) == trust
                &&& (sender_task is None ==> trust == TrustClass::Untrusted)
                &&& (sender_task is Some ==> trust == sender_task->0.spec_trust())
            },
{
    let trust = match sender_task {
        Some(task) => task.spec_trust(),
        None => TrustClass::Untrusted,
    };
    origin::a_stamp_survives_the_wire(TaskOrigin::Peer, trust);
    assert(trust.word() == trust.word());
}

/// The host and port of a URL stand between its scheme and its first slash, whichever of the two
/// schemes it has, and a URL without a host is none.
pub proof fn a_host_stands_before_the_path(host: Seq<char>, path: Seq<char>)
    requires
        host.len() > 0,
        !host.contains('/'),
    ensures
        host_port("http://"@ + host) == Some(host),
        host_port("http://"@ + (host + seq!['/'] + path)) == Some(host),
        host_port("https://"@ + (host + seq!['/'] + path)) == Some(host),
        host[0] != 'h' ==> host_port(host + seq!['/'] + path) == Some(host),
        host_port("http://"@ + (seq!['/'] + path)) is None,
{
    reveal_strlit("http://");
    reveal_strlit("https://");
    let rest = host + seq!['/'] + path;
    text::splitting_cuts_at_every_one(host, '/', path);
    assert(text::split_on(rest, '/')[0] == host);
    assert(("http://"@ + host).skip("http://"@.len() as int) =~= host);
    assert("http://"@.is_prefix_of("http://"@ + host));
    assert(("http://"@ + rest).skip("http://"@.len() as int) =~= rest);
    assert("http://"@.is_prefix_of("http://"@ + rest));
    let secure = "https://"@ + rest;
    assert(secure.skip("https://"@.len() as int) =~= rest);
    assert("https://"@.is_prefix_of(secure));
    assert(secure[4] == 's' && "http://"@[4] == ':');
    if "http://"@.is_prefix_of(secure) {
        assert(secure[4] == "http://"@[4]);
    }
    assert(rest[0] == host[0]);
    assert("http://"@[0] == 'h' && "https://"@[0] == 'h');
    let none = Seq::<char>::empty();
    let bare = seq!['/'] + path;
    text::splitting_cuts_at_every_one(none, '/', path);
    assert(none + seq!['/'] + path =~= bare);
    assert(text::split_on(none, '/') =~= seq![none]);
    assert(text::split_on(bare, '/')[0] =~= none);
    assert(("http://"@ + bare).skip("http://"@.len() as int) =~= bare);
    assert("http://"@.is_prefix_of("http://"@ + bare));
}

/// A status line gives the number that is its second word, whatever follows it.
pub proof fn a_status_line_gives_its_number(version: Seq<char>, number: Seq<char>, rest: Seq<char>)
    requires
        version.len() > 0,
        number.len() > 0,
        forall|i: int| 0 <= i < version.len() ==> !text::is_space(#[trigger] version[i]),
        forall|i: int| 0 <= i < number.len() ==> !text::is_space(#[trigger] number[i]),
    ensures
        status_of(version + seq![' '] + (number + seq![' '] + rest)) == (match text::unsigned(
            number,
            65535,
        ) {
            Some(n) => Some(n as u16),
            None => None,
        }),
        status_of(version) is None,
{
    text::words_add_up(number, ' ', rest);
    text::words_add_up(version, ' ', number + seq![' '] + rest);
    let words = text::words(version + seq![' '] + (number + seq![' '] + rest));
    assert(words[1] == number);
}

/// A header line gives what stands before its first colon, in lower case, and what stands behind
/// it, both without the blanks around them.
pub proof fn a_header_parts_at_its_first_colon(name: Seq<char>, value: Seq<char>)
    requires
        !name.contains(':'),
    ensures
        header_of(name + seq![':'] + value) == Some(
            (text::lowered(text::trim(name)), text::trim(value)),
        ),
        header_of(name) is None,
{
    let line = name + seq![':'] + value;
    line.index_of_first_ensures(':');
    name.index_of_first_ensures(':');
    assert(line[name.len() as int] == ':');
    assert(line.contains(':'));
    let i = line.index_of_first(':')->0;
    if i < name.len() {
        assert(name[i] == line[i]);
        assert(name.contains(':'));
    }
    assert(i == name.len());
    assert(line.take(i) =~= name);
    assert(line.skip(i + 1) =~= value);
}

/// What follows a blank line of a head is no header.
pub proof fn a_head_ends_at_a_blank_line(
    lines: Seq<Seq<char>>,
    blank: Seq<char>,
    body: Seq<Seq<char>>,
)
    requires
        text::trim(blank).len() == 0,
    ensures
        headers_of(lines.push(blank) + body) == headers_of(lines),
    decreases body.len(),
{
    let all = lines.push(blank) + body;
    if body.len() == 0 {
        assert(all =~= lines.push(blank));
        assert(all.drop_last() =~= lines);
    } else {
        let front = lines.push(blank) + body.drop_last();
        assert(all.drop_last() =~= front);
        assert(front[lines.len() as int] == blank);
        assert(ended(front));
        a_head_ends_at_a_blank_line(lines, blank, body.drop_last());
    }
}

/// Each header line in front of the blank one adds its header at the end, and only a
/// `content-length` sets the length of the body.
pub proof fn each_line_adds_its_header(lines: Seq<Seq<char>>, name: Seq<char>, value: Seq<char>)
    requires
        !ended(lines),
        !name.contains(':'),
        text::trim(name + seq![':'] + value).len() > 0,
    ensures
        ({
            let before = headers_of(lines);
            let after = headers_of(lines.push(name + seq![':'] + value));
            &&& after.0 == before.0.push((text::lowered(text::trim(name)), text::trim(value)))
            &&& text::lowered(text::trim(name)) != "content-length"@ ==> after.1 == before.1
            &&& text::lowered(text::trim(name)) == "content-length"@ ==> after.1 == (
            match text::unsigned(text::trim(value), usize::MAX as nat) {
                Some(n) => Some(n as u64),
                None => None,
            })
        }),
{
    let line = name + seq![':'] + value;
    assert(lines.push(line).drop_last() =~= lines);
    a_header_parts_at_its_first_colon(name, value);
}

/// The first value under a name counts, and a name without one has none.
pub proof fn the_first_value_of_a_header_counts(
    headers: Seq<(Seq<char>, Seq<char>)>,
    i: int,
    name: Seq<char>,
)
    ensures
        0 <= i < headers.len() && headers[i].0 == name && (forall|j: int|
            0 <= j < i ==> (#[trigger] headers[j]).0 != name) ==> header_value(headers, name)
            == Some(headers[i].1),
        (forall|j: int| 0 <= j < headers.len() ==> (#[trigger] headers[j]).0 != name)
            ==> header_value(headers, name) is None,
    decreases headers.len(),
{
    if headers.len() > 0 {
        let rest = headers.drop_first();
        the_first_value_of_a_header_counts(rest, i - 1, name);
        assert(forall|j: int| 0 <= j < rest.len() ==> rest[j] == headers[j + 1]);
        if 0 < i < headers.len() && headers[i].0 == name && (forall|j: int|
            0 <= j < i ==> (#[trigger] headers[j]).0 != name) {
            assert(headers[0].0 != name);
            assert(rest[i - 1] == headers[i]);
        }
        if forall|j: int| 0 <= j < headers.len() ==> (#[trigger] headers[j]).0 != name {
            assert(headers[0].0 != name);
        }
    }
}

/// The lines of two lists of headers are those of the one, then those of the other.
pub proof fn header_lines_add_up(a: Seq<(Seq<char>, Seq<char>)>, b: Seq<(Seq<char>, Seq<char>)>)
    ensures
        header_lines(a + b) == header_lines(a) + header_lines(b),
    decreases b.len(),
{
    if b.len() == 0 {
        assert(a + b =~= a);
        assert(header_lines(a) + header_lines(b) =~= header_lines(a));
    } else {
        header_lines_add_up(a, b.drop_last());
        assert((a + b).drop_last() =~= a + b.drop_last());
        assert((a + b).last() == b.last());
        assert(header_lines(a + b) =~= header_lines(a) + header_lines(b));
    }
}

/// A header that was written reads back: its name in lower case, and its value without the blanks
/// around it.
pub proof fn a_written_header_reads_back(name: Seq<char>, value: Seq<char>)
    requires
        !name.contains(':'),
    ensures
        header_of(header_line(name, value)) == Some(
            (text::lowered(text::trim(name)), text::trim(value)),
        ),
{
    reveal_strlit(": ");
    reveal_strlit("\r\n");
    let front = seq![' '];
    let back = "\r\n"@;
    assert(": "@ =~= seq![':'] + front);
    assert(header_line(name, value) =~= name + seq![':'] + (front + value + back));
    a_header_parts_at_its_first_colon(name, front + value + back);
    text::blanks_around_do_not_count(front, value, back);
}

} // verus!
