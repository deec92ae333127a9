//! Peer file handoff: runtime-minted handles over a two-sided grant.
//!
//! A capsule that declares `exports.peer_files` can hand one named file to one named peer without
//! a filesystem path ever crossing the wire. The runtime mints an opaque handle — a MAC'd token
//! naming exactly one file, for one audience, with an expiry — and serves the file's current bytes
//! to whoever presents it with that audience.
//!
//! The minting key is instance-scoped: when the session ends, every outstanding handle becomes
//! unverifiable at once. Redeeming is idempotent; there is no per-handle state.

use crate::codec;
use crate::identity;
use crate::identity::{
    CapabilityPolicy, CapsuleIdentity, DeclaredPlanes, InstalledArtifactSummary, TaskAcceptance,
};
use crate::json;
use crate::json::{Json, JsonNumber, JsonView, NumberView};
use crate::mac_token;
use crate::mac_token::{MacTokenError, MintKey};
use crate::outgoing;
use crate::record;
use crate::text;
use vstd::prelude::*;

verus! {

/// Path prefix the peer plane answers under. `GET` only, and with no listing verb at any depth.
pub const PEER_PATH_PREFIX: &'static str = "/resources/peer";

/// Request header carrying the audience the caller asserts it is. Required on every redeem.
pub const AUDIENCE_HEADER: &'static str = "x-murmur-audience";

/// Response header naming the handle a served body was redeemed with.
pub const HANDLE_ID_HEADER: &'static str = "x-murmur-handle-id";

/// Version tag and first segment of every token.
pub const TOKEN_VERSION_TAG: &'static str = "mh1";

/// The only payload version this runtime mints or accepts.
pub const PAYLOAD_VERSION: u8 = 1;

/// Domain separator of every MAC over a peer handle.
pub const MAC_DOMAIN: &'static str = "murmur-peer-handle-v1";

/// Directory, relative to the accessible workdir, that fetched bytes land in.
pub const PEER_INBOX_DIR: &'static str = "peer-in";

// ── The minting key ──────────────────────────────────────────────────────────

/// The 32-byte HMAC key one capsule instance mints and verifies with. Never written to disk, and
/// never copied out of this type.
pub struct PeerMintKey {
    key: MintKey,
}

impl PeerMintKey {
    /// The key's bytes, for contracts.
    pub closed spec fn material(&self) -> Seq<u8> {
        self.key.material()
    }

    /// A key made of given bytes.
    pub fn from_bytes(bytes: [u8; 32]) -> (r: Self)
        ensures
            r.material() == bytes@,
    {
        PeerMintKey { key: MintKey::from_bytes(bytes) }
    }

    /// 32 bytes from the operating system's CSPRNG, or why there are none.
    pub fn generate() -> (r: Result<Self, String>)
        ensures
            r is Ok ==> r->Ok_0.material().len() == 32,
            r is Err ==> text::says(r->Err_0@, "failed to generate the peer mint key: "@),
    {
        PeerMintKey::from_drawn(codec::random_bytes(32))
    }

    /// The key that a draw of 32 bytes comes to: a key made of exactly those bytes, or, where the
    /// draw failed, why there is none.
    pub fn from_drawn(drawn: Result<Vec<u8>, String>) -> (r: Result<Self, String>)
        requires
            drawn is Ok ==> drawn->Ok_0@.len() == 32,
        ensures
            match (r, drawn) {
                (Ok(key), Ok(bytes)) => key.material() == bytes@,
                (Err(why), Err(error)) => why@ == "failed to generate the peer mint key: "@
                    + error@,
                _ => false,
            },
    {
        match drawn {
            Ok(v) => Ok(PeerMintKey { key: MintKey::from_slice(v.as_slice()) }),
            Err(error) => Err(
                text::cat2("failed to generate the peer mint key: ", error.as_str()),
            ),
        }
    }

    /// Whether the key is made of exactly these bytes.
    pub fn is_made_of(&self, bytes: &[u8; 32]) -> (r: bool)
        ensures
            r == (self.material() == bytes@),
    {
        self.key.is_made_of(bytes)
    }

    /// Overwrites every byte of the key with zero.
    pub fn zeroize(&mut self)
        ensures
            final(self).material().len() == 32,
            forall|i: int| 0 <= i < 32 ==> #[trigger] final(self).material()[i] == 0,
    {
        self.key.zeroize();
    }

    /// How a key is printed: with none of its material.
    pub fn redacted(&self) -> (r: String)
        ensures
            r@ == "PeerMintKey(<redacted>)"@,
    {
        "PeerMintKey(<redacted>)".to_owned()
    }
}

// ── The payload ──────────────────────────────────────────────────────────────

/// A handle's payload, carried in the clear in the token's middle segment. There is no generation
/// in it: a handle authorises a file, not a version of one.
#[derive(Debug, Clone, PartialEq, Eq)]
pub struct HandlePayload {
    /// Payload version.
    pub v: u8,
    /// The minting session's id: the capsule instance, not the capsule.
    pub iss: String,
    /// Path relative to the peer export root.
    pub p: String,
    /// Absolute expiry, in unix milliseconds.
    pub exp: u64,
    /// Random bytes, in lower-case hexadecimal.
    pub n: String,
}

/// What a [`HandlePayload`] stands for.
#[verifier::ext_equal]
pub struct PayloadView {
    pub v: u8,
    pub iss: Seq<char>,
    pub p: Seq<char>,
    pub exp: u64,
    pub n: Seq<char>,
}

impl View for HandlePayload {
    type V = PayloadView;

    open spec fn view(&self) -> PayloadView {
        PayloadView { v: self.v, iss: self.iss@, p: self.p@, exp: self.exp, n: self.n@ }
    }
}

/// What an optional payload stands for.
pub open spec fn opt_payload(o: Option<HandlePayload>) -> Option<PayloadView> {
    match o {
        Some(p) => Some(p@),
        None => None,
    }
}

/// Why a token was not accepted. Three variants and not more, on purpose.
#[derive(Debug, Clone, Copy, PartialEq, Eq, Structural)]
pub enum HandleError {
    /// Not `mh1.<base64url>.<base64url>`, or a payload that is not one, or of another version.
    Malformed,
    /// MAC verification failed, for any reason at all.
    NotValid,
    /// The MAC verified and the expiry is in the past.
    Expired,
}

/// A payload as JSON.
pub open spec fn record_of(p: PayloadView) -> JsonView {
    JsonView::Object(
        json::none().push(("v"@, JsonView::Number(NumberView::Unsigned(p.v as u64)))).push(
            ("iss"@, JsonView::Text(p.iss)),
        ).push(("p"@, JsonView::Text(p.p))).push(
            ("exp"@, JsonView::Number(NumberView::Unsigned(p.exp))),
        ).push(("n"@, JsonView::Text(p.n))),
    )
}

/// A payload as JSON.
fn record(payload: &HandlePayload) -> (r: Json)
    ensures
        r@ == record_of(payload@),
{
    let mut out = json::empty_object();
    out = json::with(out, "v", json::number(payload.v as u64));
    out = json::with(out, "iss", json::text_value(payload.iss.as_str()));
    out = json::with(out, "p", json::text_value(payload.p.as_str()));
    out = json::with(out, "exp", json::number(payload.exp));
    json::with(out, "n", json::text_value(payload.n.as_str()))
}

/// The number a value is, when it is one of at most `max` without sign or fraction.
pub open spec fn small_number(v: JsonView, max: u64) -> Option<u64> {
    match v {
        JsonView::Number(NumberView::Unsigned(n)) => if n <= max {
            Some(n)
        } else {
            None
        },
        _ => None,
    }
}

/// The payload five values give, in field order.
pub open spec fn payload_of_fields(
    v: Option<JsonView>,
    iss: Option<JsonView>,
    p: Option<JsonView>,
    exp: Option<JsonView>,
    n: Option<JsonView>,
) -> Option<PayloadView> {
    match (v, iss, p, exp, n) {
        (Some(v), Some(iss), Some(p), Some(exp), Some(n)) => match (
            small_number(v, 255),
            json::as_text(iss),
            json::as_text(p),
            small_number(exp, u64::MAX),
            json::as_text(n),
        ) {
            (Some(v), Some(iss), Some(p), Some(exp), Some(n)) => Some(
                PayloadView { v: v as u8, iss, p, exp, n },
            ),
            _ => None,
        },
        _ => None,
    }
}

fn number_up_to(v: &Json, max: u64) -> (r: Option<u64>)
    ensures
        r == small_number(v@, max),
{
    match v {
        Json::Number(JsonNumber::Unsigned(n)) => if *n <= max {
            Some(*n)
        } else {
            None
        },
        _ => None,
    }
}

fn text_of_value(v: &Json) -> (r: Option<String>)
    ensures
        text::opt_text(r) == json::as_text(v@),
{
    match v {
        Json::Text(s) => Some(s.clone()),
        _ => None,
    }
}

/// The payload five values give, in field order.
pub fn payload_of_values(
    v: Option<&Json>,
    iss: Option<&Json>,
    p: Option<&Json>,
    exp: Option<&Json>,
    n: Option<&Json>,
) -> (r: Option<HandlePayload>)
    ensures
        opt_payload(r) == payload_of_fields(
            json::opt_view(v),
            json::opt_view(iss),
            json::opt_view(p),
            json::opt_view(exp),
            json::opt_view(n),
        ),
{
    match (v, iss, p, exp, n) {
        (Some(v), Some(iss), Some(p), Some(exp), Some(n)) => match (
            number_up_to(v, 255),
            text_of_value(iss),
            text_of_value(p),
            number_up_to(exp, u64::MAX),
            text_of_value(n),
        ) {
            (Some(v), Some(iss), Some(p), Some(exp), Some(n)) => Some(
                HandlePayload { v: v as u8, iss, p, exp, n },
            ),
            _ => None,
        },
        _ => None,
    }
}

/// The payload that bytes write in JSON: an object that gives each of the five fields once, or an
/// array of exactly the five in order. A field given twice is no payload. An entry under any other
/// key is skipped: it may stand twice, and its value may be one that could not be read, such as a
/// number out of range or a text that is not UTF-8.
pub open spec fn decoded(bytes: Seq<u8>) -> Option<PayloadView> {
    if record::opens(bytes) {
        match record::entries_of(bytes) {
            Some(entries) => payload_of_fields(
                record::field(entries, "v"@),
                record::field(entries, "iss"@),
                record::field(entries, "p"@),
                record::field(entries, "exp"@),
                record::field(entries, "n"@),
            ),
            None => None,
        }
    } else {
        match json::reading_bytes(bytes) {
            Ok(JsonView::Array(items)) => if items.len() == 5 {
                payload_of_fields(
                    Some(items[0]),
                    Some(items[1]),
                    Some(items[2]),
                    Some(items[3]),
                    Some(items[4]),
                )
            } else {
                None
            },
            _ => None,
        }
    }
}

/// The bytes a payload is minted as.
pub open spec fn encoded(p: PayloadView) -> Seq<u8> {
    codec::utf8(json::render(record_of(p)))
}

/// Each field of a minted payload stands once in what it is written as.
proof fn lemma_record(p: PayloadView)
    ensures
        record::written(encoded(p), record_of(p)->Object_0),
        record::opens(encoded(p)),
        json::render(record_of(p)).len() > 0,
        ({
            let raw = record::raw(record_of(p)->Object_0);
            let v = JsonView::Number(NumberView::Unsigned(p.v as u64));
            let exp = JsonView::Number(NumberView::Unsigned(p.exp));
            &&& record::values_under(raw, "v"@) == seq![codec::utf8(json::render(v))]
            &&& record::values_under(raw, "iss"@) == seq![
                codec::utf8(json::render(JsonView::Text(p.iss))),
            ]
            &&& record::values_under(raw, "p"@) == seq![
                codec::utf8(json::render(JsonView::Text(p.p))),
            ]
            &&& record::values_under(raw, "exp"@) == seq![codec::utf8(json::render(exp))]
            &&& record::values_under(raw, "n"@) == seq![
                codec::utf8(json::render(JsonView::Text(p.n))),
            ]
        }),
{
    reveal_strlit("v");
    reveal_strlit("iss");
    reveal_strlit("p");
    reveal_strlit("exp");
    reveal_strlit("n");
    let all = record_of(p)->Object_0;
    assert("v"@[0] == 'v' && "p"@[0] == 'p' && "n"@[0] == 'n' && "iss"@[0] == 'i' && "exp"@[0]
        == 'e');
    assert(all.len() == 5);
    record::an_object_opens(all);
    let five = record::raw(all);
    let four = five.drop_last();
    let three = four.drop_last();
    let two = three.drop_last();
    let one = two.drop_last();
    assert(one.drop_last().len() == 0);
    assert(one.last() == five[0] && two.last() == five[1] && three.last() == five[2]
        && four.last() == five[3] && five.last() == five[4]);
    reveal_with_fuel(record::values_under, 6);
    assert(record::values_under(five, "v"@) =~= seq![five[0].1]);
    assert(record::values_under(five, "iss"@) =~= seq![five[1].1]);
    assert(record::values_under(five, "p"@) =~= seq![five[2].1]);
    assert(record::values_under(five, "exp"@) =~= seq![five[3].1]);
    assert(record::values_under(five, "n"@) =~= seq![five[4].1]);
}

/// The payload bytes write, tied to what [`encoded`] writes.
fn read_payload(bytes: &[u8]) -> (r: Option<HandlePayload>)
    ensures
        opt_payload(r) == decoded(bytes@),
        forall|p: PayloadView| bytes@ == #[trigger] encoded(p) ==> opt_payload(r) == Some(p),
{
    proof {
        assert forall|p: PayloadView| bytes@ == #[trigger] encoded(p) implies record::opens(
            bytes@,
        ) && record::written(bytes@, record_of(p)->Object_0) by {
            lemma_record(p);
        }
    }
    if !record::opens_object(bytes) {
        return match json::read_bytes(bytes) {
            Ok(Json::Array(items)) => {
                proof {
                    assert(json::item_views(items@).len() == items@.len());
                }
                if items.len() == 5 {
                    payload_of_values(
                        Some(&items[0]),
                        Some(&items[1]),
                        Some(&items[2]),
                        Some(&items[3]),
                        Some(&items[4]),
                    )
                } else {
                    None
                }
            },
            _ => None,
        };
    }
    let entries = match record::read_entries(bytes) {
        Some(entries) => entries,
        None => return None,
    };
    let v = record::read_field(&entries, "v");
    let iss = record::read_field(&entries, "iss");
    let path = record::read_field(&entries, "p");
    let exp = record::read_field(&entries, "exp");
    let n = record::read_field(&entries, "n");
    proof {
        assert forall|p: PayloadView| bytes@ == #[trigger] encoded(p) implies decoded(bytes@)
            == Some(p) by {
            lemma_record(p);
            let number = JsonView::Number(NumberView::Unsigned(p.v as u64));
            let until = JsonView::Number(NumberView::Unsigned(p.exp));
            assert(record::views(entries@) == record::raw(record_of(p)->Object_0));
            assert(json::owned_view(v) == Some(number));
            assert(json::owned_view(iss) == Some(JsonView::Text(p.iss)));
            assert(json::owned_view(path) == Some(JsonView::Text(p.p)));
            assert(json::owned_view(exp) == Some(until));
            assert(json::owned_view(n) == Some(JsonView::Text(p.n)));
        }
    }
    payload_of_values(v.as_ref(), iss.as_ref(), path.as_ref(), exp.as_ref(), n.as_ref())
}

// ── The token ────────────────────────────────────────────────────────────────

/// The stable identifier a mint, a redeem and a fetch are correlated by. This, never the token, is
/// what appears in a trace, a log line or an error body.
pub fn handle_id(token: &str) -> (r: String)
    ensures
        r@ == mac_token::id_of(token@),
        r@.len() == 16,
{
    mac_token::token_id(token)
}

/// The bytes of the MAC domain.
pub open spec fn mac_domain() -> Seq<u8> {
    codec::utf8(MAC_DOMAIN@)
}

/// The token minted over a payload for an audience. The audience is covered by the MAC and not
/// carried in the token.
pub open spec fn minted(key: Seq<u8>, payload: PayloadView, audience: Seq<char>) -> Seq<char> {
    mac_token::sealed(
        key,
        TOKEN_VERSION_TAG@,
        mac_domain(),
        encoded(payload),
        Seq::<Seq<char>>::empty().push(audience),
    )
}

/// Mints one token. It never fails.
pub fn mint(key: &PeerMintKey, payload: &HandlePayload, audience: &str) -> (r: Result<
    String,
    String,
>)
    ensures
        text::result_text(r) == Ok::<Seq<char>, Seq<char>>(
            minted(key.material(), payload@, audience@),
        ),
{
    let written = json::write(&record(payload));
    let bound: Vec<&str> = vec![audience];
    let token = mac_token::seal(
        &key.key,
        TOKEN_VERSION_TAG,
        MAC_DOMAIN.as_bytes(),
        written.as_str().as_bytes(),
        bound.as_slice(),
    );
    proof {
        assert(mac_token::bound_texts(bound@) =~= Seq::<Seq<char>>::empty().push(audience@));
    }
    Ok(token)
}

/// What a payload behind a verified MAC comes to.
pub open spec fn accepted(
    payload: Option<PayloadView>,
    session_id: Seq<char>,
    now_ms: u64,
) -> Result<PayloadView, HandleError> {
    match payload {
        None => Err(HandleError::Malformed),
        Some(p) => if p.v != PAYLOAD_VERSION {
            Err(HandleError::Malformed)
        } else if p.iss != session_id {
            Err(HandleError::NotValid)
        } else if p.exp <= now_ms {
            Err(HandleError::Expired)
        } else {
            Ok(p)
        },
    }
}

/// What verifying a token comes to: shape, then MAC, then payload, then expiry.
pub open spec fn verified(
    key: Seq<u8>,
    token: Seq<char>,
    audience: Seq<char>,
    session_id: Seq<char>,
    now_ms: u64,
) -> Result<PayloadView, HandleError> {
    match mac_token::opened(
        key,
        TOKEN_VERSION_TAG@,
        mac_domain(),
        token,
        Seq::<Seq<char>>::empty().push(audience),
    ) {
        Err(MacTokenError::Malformed) => Err(HandleError::Malformed),
        Err(MacTokenError::NotValid) => Err(HandleError::NotValid),
        Ok(bytes) => accepted(decoded(bytes), session_id, now_ms),
    }
}

/// What a result with a payload stands for.
pub open spec fn payload_result(r: Result<HandlePayload, HandleError>) -> Result<
    PayloadView,
    HandleError,
> {
    match r {
        Ok(p) => Ok(p@),
        Err(e) => Err(e),
    }
}

/// Decides on a payload behind a verified MAC.
pub fn accept_payload(payload: Option<HandlePayload>, session_id: &str, now_ms: u64) -> (r: Result<
    HandlePayload,
    HandleError,
>)
    ensures
        payload_result(r) == accepted(opt_payload(payload), session_id@, now_ms),
        r is Ok <==> payload is Some && payload->0.v == 1 && payload->0.iss@ == session_id@
            && payload->0.exp > now_ms,
        r is Ok ==> r->Ok_0@ == payload->0@,
        r == Err::<HandlePayload, HandleError>(HandleError::Expired) <==> payload is Some
            && payload->0.v == 1 && payload->0.iss@ == session_id@ && payload->0.exp <= now_ms,
        r == Err::<HandlePayload, HandleError>(HandleError::NotValid) <==> payload is Some
            && payload->0.v == 1 && payload->0.iss@ != session_id@,
{
    match payload {
        None => Err(HandleError::Malformed),
        Some(p) => if p.v != PAYLOAD_VERSION {
            Err(HandleError::Malformed)
        } else if !text::same(p.iss.as_str(), session_id) {
            Err(HandleError::NotValid)
        } else if p.exp <= now_ms {
            Err(HandleError::Expired)
        } else {
            Ok(p)
        },
    }
}

/// Verifies one token against this instance's key and the audience the caller asserted. A token
/// this key minted for this audience comes to what its payload comes to.
pub fn verify(
    key: &PeerMintKey,
    token: &str,
    audience: &str,
    session_id: &str,
    now_ms: u64,
) -> (r: Result<HandlePayload, HandleError>)
    ensures
        payload_result(r) == verified(key.material(), token@, audience@, session_id@, now_ms),
        forall|p: PayloadView|
            token@ == #[trigger] minted(key.material(), p, audience@) ==> payload_result(r)
                == accepted(Some(p), session_id@, now_ms),
        r is Ok ==> r->Ok_0.iss@ == session_id@ && r->Ok_0.exp > now_ms && r->Ok_0.v == 1,
{
    let bound: Vec<&str> = vec![audience];
    proof {
        assert(mac_token::bound_texts(bound@) =~= Seq::<Seq<char>>::empty().push(audience@));
    }
    let opened = mac_token::open(
        &key.key,
        TOKEN_VERSION_TAG,
        MAC_DOMAIN.as_bytes(),
        token,
        bound.as_slice(),
    );
    proof {
        assert forall|p: PayloadView|
            token@ == #[trigger] minted(key.material(), p, audience@) implies opened is Ok
            && opened->Ok_0@ == encoded(p) by {
            lemma_tag();
            lemma_record(p);
            lemma_bytes(json::render(record_of(p)));
            mac_token::a_sealed_token_opens(
                key.material(),
                TOKEN_VERSION_TAG@,
                mac_domain(),
                encoded(p),
                Seq::<Seq<char>>::empty().push(audience@),
            );
        }
    }
    match opened {
        Err(MacTokenError::Malformed) => Err(HandleError::Malformed),
        Err(MacTokenError::NotValid) => Err(HandleError::NotValid),
        Ok(bytes) => accept_payload(read_payload(bytes.as_slice()), session_id, now_ms),
    }
}

proof fn lemma_tag()
    ensures
        !TOKEN_VERSION_TAG@.contains('.'),
{
    reveal_strlit("mh1");
}

/// A text with a character in it has a byte.
proof fn lemma_bytes(s: Seq<char>)
    requires
        s.len() > 0,
    ensures
        codec::utf8(s).len() > 0,
{
    if codec::utf8(s).len() == 0 {
        assert(codec::utf8(s) =~= codec::utf8(Seq::empty()));
        codec::text_round_trips(s);
        codec::text_round_trips(Seq::empty());
    }
}

/// The payload of a token this runtime did not mint and cannot verify. The value is the caller's
/// and must never decide anything.
pub fn decode_payload_unverified(token: &str) -> (r: Option<HandlePayload>)
    ensures
        opt_payload(r) == (match mac_token::segments(TOKEN_VERSION_TAG@, token@) {
            Some(parts) => decoded(parts.1),
            None => None,
        }),
{
    match mac_token::payload_segment(TOKEN_VERSION_TAG, token) {
        Ok(bytes) => read_payload(bytes.as_slice()),
        Err(_) => None,
    }
}

// ── Redaction ────────────────────────────────────────────────────────────────

/// A character a token segment can hold.
pub open spec fn is_segment_char(c: char) -> bool {
    'a' <= c <= 'z' || 'A' <= c <= 'Z' || '0' <= c <= '9' || c == '-' || c == '_'
}

/// The length of the run of segment characters from `i` on.
pub open spec fn segment_end(s: Seq<char>, i: int) -> int
    decreases s.len() - i,
{
    if 0 <= i < s.len() && is_segment_char(s[i]) {
        segment_end(s, i + 1)
    } else {
        i
    }
}

/// Where the token that starts at `i` ends: `mh1.`, a segment, a dot and another segment, the last
/// one as long as it goes.
pub open spec fn token_end(s: Seq<char>, i: int) -> Option<int> {
    let first = segment_end(s, i + 4);
    let second = segment_end(s, first + 1);
    if 0 <= i && i + 4 <= s.len() && s[i] == 'm' && s[i + 1] == 'h' && s[i + 2] == '1' && s[i + 3]
        == '.' && first > i + 4 && first < s.len() && s[first] == '.' && second > first + 1 {
        Some(second)
    } else {
        None
    }
}

proof fn lemma_segment_end(s: Seq<char>, i: int)
    requires
        0 <= i <= s.len(),
    ensures
        i <= segment_end(s, i) <= s.len(),
    decreases s.len() - i,
{
    if i < s.len() && is_segment_char(s[i]) {
        lemma_segment_end(s, i + 1);
    }
}

/// A token ends behind where it starts, and within the text.
pub proof fn a_token_ends_within(s: Seq<char>, i: int)
    requires
        token_end(s, i) is Some,
    ensures
        i < token_end(s, i)->0 <= s.len(),
{
    lemma_segment_end(s, i + 4);
    lemma_segment_end(s, segment_end(s, i + 4) + 1);
}

/// The text from `i` on with every handle replaced by its id.
pub open spec fn redacted_from(s: Seq<char>, i: int) -> Seq<char>
    decreases s.len() - i,
{
    if i < 0 || i >= s.len() {
        Seq::empty()
    } else {
        match token_end(s, i) {
            Some(end) => {
                proof {
                    a_token_ends_within(s, i);
                }
                "<handle:"@ + mac_token::id_of(s.subrange(i, end)) + ">"@ + redacted_from(s, end)
            },
            None => seq![s[i]] + redacted_from(s, i + 1),
        }
    }
}

/// Whether a handle starts anywhere in the text where one is read.
pub open spec fn holds_handle(s: Seq<char>) -> bool {
    exists|i: int| 0 <= i < s.len() && #[trigger] token_end(s, i) is Some
}

fn skip_segment(chars: &[char], from: usize) -> (r: usize)
    requires
        from <= chars@.len(),
    ensures
        r == segment_end(chars@, from as int),
        from <= r <= chars@.len(),
{
    let total: usize = chars.len();
    let mut i: usize = from;
    while i < total && (('a' <= chars[i] && chars[i] <= 'z') || ('A' <= chars[i] && chars[i] <= 'Z')
        || ('0' <= chars[i] && chars[i] <= '9') || chars[i] == '-' || chars[i] == '_')
        invariant
            from <= i <= total == chars@.len(),
            segment_end(chars@, i as int) == segment_end(chars@, from as int),
        decreases total - i,
    {
        i += 1;
    }
    i
}

/// Where the token that starts at `from` ends.
fn end_of_token(chars: &[char], from: usize) -> (r: Option<usize>)
    requires
        from < chars@.len(),
    ensures
        match r {
            Some(end) => token_end(chars@, from as int) == Some(end as int) && from < end
                <= chars@.len(),
            None => token_end(chars@, from as int) is None,
        },
{
    let total: usize = chars.len();
    if total - from < 4 || chars[from] != 'm' || chars[from + 1] != 'h' || chars[from + 2] != '1'
        || chars[from + 3] != '.' {
        return None;
    }
    let first: usize = skip_segment(chars, from + 4);
    if first == from + 4 || first == total || chars[first] != '.' {
        return None;
    }
    let second: usize = skip_segment(chars, first + 1);
    if second == first + 1 {
        return None;
    }
    Some(second)
}

/// The text with every peer handle replaced by its id, or `None` when there is no handle in it and
/// nothing to replace.
pub fn redact_handle_tokens(input: &str) -> (r: Option<String>)
    ensures
        match r {
            Some(out) => out@ == redacted_from(input@, 0) && holds_handle(input@),
            None => redacted_from(input@, 0) == input@ && !holds_handle(input@),
        },
{
    let chars = text::chars_of(input);
    let total: usize = chars.len();
    let ghost s = input@;
    let ghost whole = redacted_from(s, 0);
    let mut out = String::new();
    let mut replaced = false;
    let mut i: usize = 0;
    proof {
        assert(out@ + whole =~= whole);
        assert(s.take(0) =~= out@);
    }
    while i < total
        invariant
            i <= total == chars@.len(),
            chars@ == s,
            s == input@,
            whole == redacted_from(s, 0),
            whole == out@ + redacted_from(s, i as int),
            replaced ==> holds_handle(s),
            !replaced ==> out@ == s.take(i as int) && forall|j: int|
                0 <= j < i ==> #[trigger] token_end(s, j) is None,
        decreases total - i,
    {
        let ghost before = out@;
        if let Some(end) = end_of_token(&chars, i) {
            let token = text::slice_text(&chars, i, end);
            let id = handle_id(token.as_str());
            out.append("<handle:");
            out.append(id.as_str());
            out.append(">");
            proof {
                let rest = redacted_from(s, end as int);
                let shown = "<handle:"@ + mac_token::id_of(s.subrange(i as int, end as int))
                    + ">"@;
                assert(out@ =~= before + shown);
                assert(before + (shown + rest) =~= before + shown + rest);
            }
            i = end;
            replaced = true;
        } else {
            out.push(chars[i]);
            proof {
                let rest = redacted_from(s, i + 1);
                assert(before + (seq![s[i as int]] + rest) =~= out@ + rest);
                assert(s.take(i + 1) =~= s.take(i as int).push(s[i as int]));
            }
            i += 1;
        }
    }
    proof {
        assert(whole =~= out@);
        assert(s.take(total as int) =~= s);
    }
    if replaced {
        Some(out)
    } else {
        None
    }
}

/// The text with every peer handle replaced by its id.
pub open spec fn redacted_text(s: Seq<char>) -> Seq<char> {
    redacted_from(s, 0)
}

/// The value with every peer handle in its texts replaced by its id. Keys are not touched.
pub open spec fn redacted_value(v: JsonView) -> JsonView
    decreases v,
{
    match v {
        JsonView::Text(s) => JsonView::Text(redacted_text(s)),
        JsonView::Array(items) => JsonView::Array(redacted_items(items)),
        JsonView::Object(entries) => JsonView::Object(redacted_entries(entries)),
        other => other,
    }
}

/// The items, each redacted.
pub open spec fn redacted_items(items: Seq<JsonView>) -> Seq<JsonView>
    decreases items,
{
    if items.len() == 0 {
        Seq::empty()
    } else {
        redacted_items(items.drop_last()).push(redacted_value(items.last()))
    }
}

/// The entries, each value redacted.
pub open spec fn redacted_entries(entries: Seq<(Seq<char>, JsonView)>) -> Seq<
    (Seq<char>, JsonView),
>
    decreases entries,
{
    if entries.len() == 0 {
        Seq::empty()
    } else {
        redacted_entries(entries.drop_last()).push(
            (entries.last().0, redacted_value(entries.last().1)),
        )
    }
}

fn redacted_copy(value: &Json) -> (r: Json)
    ensures
        r@ == redacted_value(value@),
    decreases value,
{
    match value {
        Json::Null => Json::Null,
        Json::Bool(b) => Json::Bool(*b),
        Json::Number(n) => Json::Number(json::clone_number(n)),
        Json::Text(s) => match redact_handle_tokens(s.as_str()) {
            Some(out) => Json::Text(out),
            None => Json::Text(s.clone()),
        },
        Json::Array(items) => {
            let ghost all = json::item_views(items@);
            let mut out = json::empty_array();
            let mut i: usize = 0;
            proof {
                assert(all.take(0).len() == 0);
            }
            while i < items.len()
                invariant
                    i <= items@.len(),
                    *value == Json::Array(*items),
                    all == json::item_views(items@),
                    out is Array,
                    out@ == JsonView::Array(redacted_items(all.take(i as int))),
                decreases items@.len() - i,
            {
                proof {
                    assert(all.take(i + 1).drop_last() =~= all.take(i as int));
                    assert(all.take(i + 1).last() == items@[i as int]@);
                    assert(decreases_to!(value => value->Array_0));
                    assert(decreases_to!(items => items@));
                    assert(decreases_to!(items@ => items@[i as int]));
                }
                let item = redacted_copy(&items[i]);
                out = json::with_item(out, item);
                i += 1;
            }
            proof {
                assert(all.take(all.len() as int) =~= all);
            }
            out
        },
        Json::Object(entries) => {
            let ghost all = json::entry_views(entries@);
            let mut out = json::empty_object();
            let mut i: usize = 0;
            proof {
                assert(all.take(0).len() == 0);
            }
            while i < entries.len()
                invariant
                    i <= entries@.len(),
                    *value == Json::Object(*entries),
                    all == json::entry_views(entries@),
                    out is Object,
                    out@ == JsonView::Object(redacted_entries(all.take(i as int))),
                decreases entries@.len() - i,
            {
                proof {
                    assert(all.take(i + 1).drop_last() =~= all.take(i as int));
                    assert(all.take(i + 1).last() == (
                        entries@[i as int].0@,
                        entries@[i as int].1@,
                    ));
                    assert(decreases_to!(value => value->Object_0));
                    assert(decreases_to!(entries => entries@));
                    assert(decreases_to!(entries@ => entries@[i as int]));
                    assert(decreases_to!(entries@[i as int] => entries@[i as int].1));
                }
                let entry = redacted_copy(&entries[i].1);
                out = json::with(out, entries[i].0.as_str(), entry);
                i += 1;
            }
            proof {
                assert(all.take(all.len() as int) =~= all);
            }
            out
        },
    }
}

/// Replaces every peer handle in the texts of a value by its id, in place.
pub fn redact_handles_in_json(value: &mut Json)
    ensures
        final(value)@ == redacted_value(old(value)@),
{
    let copy = redacted_copy(&*value);
    *value = copy;
}

// ── The audience ─────────────────────────────────────────────────────────────

/// The audience a name and a host and port make: lowercased.
pub open spec fn audience_of(name: Seq<char>, host_port: Seq<char>) -> Seq<char> {
    text::lowercase_text(name + "@"@ + host_port)
}

/// The text under a key, when it is not blank.
pub open spec fn filled_entry(card: JsonView, key: Seq<char>) -> Option<Seq<char>> {
    match json::text_entry(card, key) {
        Some(s) => if text::trim(s).len() == 0 {
            None
        } else {
            Some(s)
        },
        None => None,
    }
}

/// The audience an agent card names: its name, trimmed, at the host and port of its URL.
pub open spec fn card_audience(card: JsonView) -> Result<Seq<char>, Seq<char>> {
    match filled_entry(card, "name"@) {
        None => Err("the peer's agent card carries no 'name'"@),
        Some(name) => match filled_entry(card, "url"@) {
            None => Err("the peer's agent card carries no 'url'"@),
            Some(url) => match outgoing::host_port(url) {
                None => Err("invalid peer URL: "@ + url),
                Some(host_port) => Ok(audience_of(text::trim(name), host_port)),
            },
        },
    }
}

fn filled(card: &Json, key: &str) -> (r: Option<String>)
    ensures
        text::opt_text(r) == filled_entry(card@, key@),
{
    match json::get_text(card, key) {
        Some(s) => if text::is_blank(s.as_str()) {
            None
        } else {
            Some(s)
        },
        None => None,
    }
}

/// The audience derived from a peer's own agent card. Both sides compute it from the fetching
/// capsule's advertised identity, so neither has to be told it.
pub fn audience_from_card(card: &Json) -> (r: Result<String, String>)
    ensures
        text::result_text(r) == card_audience(card@),
        ({
            let name = json::text_entry(card@, "name"@);
            let url = json::text_entry(card@, "url"@);
            &&& r is Ok <==> name is Some && text::trim(name->0).len() > 0 && url is Some
                && text::trim(url->0).len() > 0 && outgoing::host_port(url->0) is Some
            &&& r is Ok ==> r->Ok_0@ == text::lowercase_text(
                text::trim(name->0) + "@"@ + outgoing::host_port(url->0)->0,
            )
        }),
{
    let name = match filled(card, "name") {
        Some(name) => name,
        None => return Err("the peer's agent card carries no 'name'".to_owned()),
    };
    let url = match filled(card, "url") {
        Some(url) => url,
        None => return Err("the peer's agent card carries no 'url'".to_owned()),
    };
    match outgoing::parse_host_port(url.as_str()) {
        Ok(host_port) => {
            let joined = text::cat3(text::trimmed(name.as_str()).as_str(), "@", host_port.as_str());
            Ok(text::to_lowercase(joined.as_str()))
        },
        Err(e) => Err(e),
    }
}

/// The audience a capsule asserts for itself: its name, trimmed, at the host and port of its URL,
/// or at the URL itself when that names no host.
pub open spec fn own(name: Seq<char>, url: Seq<char>) -> Seq<char> {
    match outgoing::host_port(url) {
        Some(host_port) => audience_of(text::trim(name), host_port),
        None => audience_of(text::trim(name), url),
    }
}

/// This capsule's own audience, asserted on every redeem it issues: the string a peer derives from
/// this capsule's card.
pub fn own_audience(identity: &CapsuleIdentity) -> (r: String)
    ensures
        r@ == own(identity.capsule_name@, identity.capsule_url@),
        outgoing::host_port(identity.capsule_url@) is Some ==> r@ == text::lowercase_text(
            text::trim(identity.capsule_name@) + "@"@ + outgoing::host_port(
                identity.capsule_url@,
            )->0,
        ),
        outgoing::host_port(identity.capsule_url@) is None ==> r@ == text::lowercase_text(
            text::trim(identity.capsule_name@) + "@"@ + identity.capsule_url@,
        ),
{
    let host_port = match outgoing::parse_host_port(identity.capsule_url.as_str()) {
        Ok(host_port) => host_port,
        Err(_) => identity.capsule_url.clone(),
    };
    let name = text::trimmed(identity.capsule_name.as_str());
    let joined = text::cat3(name.as_str(), "@", host_port.as_str());
    text::to_lowercase(joined.as_str())
}

// ── Errors on the wire ───────────────────────────────────────────────────────

/// The reader's refusals.
#[derive(Debug, Clone, PartialEq, Eq)]
pub enum ResourceError {
    NoResourcePlane,
    NotFound,
    OutsideRoot,
    SymlinkRefused,
    NotARegularFile,
    TooLarge { max_bytes: u64 },
    MethodNotAllowed,
    IoError(String),
}

/// Every way a redeem can be refused, in the vocabulary the caller and the trace share.
#[derive(Debug, Clone, PartialEq, Eq)]
pub enum PeerError {
    /// Nothing is declared. Absent means deny.
    NoPeerPlane,
    MalformedHandle,
    MissingAudience,
    /// The MAC did not verify, for any reason. Deliberately indivisible.
    HandleNotValid,
    HandleExpired,
    NotFound,
    OutsideRoot,
    SymlinkRefused,
    NotARegularFile,
    TooLarge { max_bytes: u64 },
    MethodNotAllowed,
    IoError(String),
}

impl PeerError {
    /// The stable word of a refusal.
    pub open spec fn word(self) -> Seq<char> {
        match self {
            PeerError::NoPeerPlane => "no_peer_plane"@,
            PeerError::MalformedHandle => "malformed_handle"@,
            PeerError::MissingAudience => "missing_audience"@,
            PeerError::HandleNotValid => "handle_not_valid"@,
            PeerError::HandleExpired => "handle_expired"@,
            PeerError::NotFound => "not_found"@,
            PeerError::OutsideRoot => "outside_root"@,
            PeerError::SymlinkRefused => "symlink_refused"@,
            PeerError::NotARegularFile => "not_a_regular_file"@,
            PeerError::TooLarge { .. } => "too_large"@,
            PeerError::MethodNotAllowed => "method_not_allowed"@,
            PeerError::IoError(_) => "io_error"@,
        }
    }

    /// The HTTP status of a refusal.
    pub open spec fn number(self) -> u16 {
        match self {
            PeerError::NoPeerPlane | PeerError::NotFound => 404,
            PeerError::MalformedHandle | PeerError::MissingAudience => 400,
            PeerError::HandleNotValid | PeerError::OutsideRoot | PeerError::SymlinkRefused
            | PeerError::NotARegularFile => 403,
            PeerError::HandleExpired => 410,
            PeerError::TooLarge { .. } => 413,
            PeerError::MethodNotAllowed => 405,
            PeerError::IoError(_) => 500,
        }
    }

    /// The sentence of a refusal.
    pub open spec fn sentence(self) -> Seq<char> {
        match self {
            PeerError::NoPeerPlane =>
                "this capsule declares no exports.peer_files block, so it has no peer plane"@,
            PeerError::MalformedHandle => "the handle is not a well-formed mh1 token"@,
            PeerError::MissingAudience => "a redeem must assert its audience in the "@
                + AUDIENCE_HEADER@ + " header"@,
            PeerError::HandleNotValid => "the handle is not valid for this capsule"@,
            PeerError::HandleExpired => "the handle has expired"@,
            PeerError::NotFound => "no such file under the peer export root"@,
            PeerError::OutsideRoot => "the handle names a path outside the peer export root"@,
            PeerError::SymlinkRefused =>
                "a symlink was encountered and the achieved containment class is scoped"@,
            PeerError::NotARegularFile => "the handle does not name a regular file"@,
            PeerError::TooLarge { max_bytes } =>
                "file exceeds the declared exports.peer_files.max_bytes of "@ + text::decimal(
                max_bytes as nat,
            ) + " bytes"@,
            PeerError::MethodNotAllowed =>
                "the peer plane serves GET only; it has no write path and no list verb"@,
            PeerError::IoError(detail) => "read failed: "@ + detail@,
        }
    }

    /// The stable `error` word in the JSON body and the `outcome` in the trace.
    pub fn code(&self) -> (r: &'static str)
        ensures
            r@ == self.word(),
            self is NoPeerPlane ==> r@ == "no_peer_plane"@,
            self is MalformedHandle ==> r@ == "malformed_handle"@,
            self is MissingAudience ==> r@ == "missing_audience"@,
            self is HandleNotValid ==> r@ == "handle_not_valid"@,
            self is HandleExpired ==> r@ == "handle_expired"@,
            self is NotFound ==> r@ == "not_found"@,
            self is OutsideRoot ==> r@ == "outside_root"@,
            self is SymlinkRefused ==> r@ == "symlink_refused"@,
            self is NotARegularFile ==> r@ == "not_a_regular_file"@,
            self is TooLarge ==> r@ == "too_large"@,
            self is MethodNotAllowed ==> r@ == "method_not_allowed"@,
            self is IoError ==> r@ == "io_error"@,
    {
        match self {
            PeerError::NoPeerPlane => "no_peer_plane",
            PeerError::MalformedHandle => "malformed_handle",
            PeerError::MissingAudience => "missing_audience",
            PeerError::HandleNotValid => "handle_not_valid",
            PeerError::HandleExpired => "handle_expired",
            PeerError::NotFound => "not_found",
            PeerError::OutsideRoot => "outside_root",
            PeerError::SymlinkRefused => "symlink_refused",
            PeerError::NotARegularFile => "not_a_regular_file",
            PeerError::TooLarge { .. } => "too_large",
            PeerError::MethodNotAllowed => "method_not_allowed",
            PeerError::IoError(_) => "io_error",
        }
    }

    /// The HTTP status of this refusal.
    pub fn status(&self) -> (r: u16)
        ensures
            r == self.number(),
            r == 404 <==> self is NoPeerPlane || self is NotFound,
            r == 400 <==> self is MalformedHandle || self is MissingAudience,
            r == 410 <==> self is HandleExpired,
            r == 413 <==> self is TooLarge,
            r == 405 <==> self is MethodNotAllowed,
            r == 500 <==> self is IoError,
            r == 403 <==> self is HandleNotValid || self is OutsideRoot || self is SymlinkRefused
                || self is NotARegularFile,
    {
        match self {
            PeerError::NoPeerPlane | PeerError::NotFound => 404,
            PeerError::MalformedHandle | PeerError::MissingAudience => 400,
            PeerError::HandleNotValid | PeerError::OutsideRoot | PeerError::SymlinkRefused => 403,
            PeerError::NotARegularFile => 403,
            PeerError::HandleExpired => 410,
            PeerError::TooLarge { .. } => 413,
            PeerError::MethodNotAllowed => 405,
            PeerError::IoError(_) => 500,
        }
    }

    /// One sentence per code. That of a handle that is not valid has nothing interpolated into it.
    pub fn message(&self) -> (r: String)
        ensures
            r@ == self.sentence(),
    {
        match self {
            PeerError::NoPeerPlane =>
                "this capsule declares no exports.peer_files block, so it has no peer plane".to_owned(),
            PeerError::MalformedHandle => "the handle is not a well-formed mh1 token".to_owned(),
            PeerError::MissingAudience => text::cat3(
                "a redeem must assert its audience in the ",
                AUDIENCE_HEADER,
                " header",
            ),
            PeerError::HandleNotValid => "the handle is not valid for this capsule".to_owned(),
            PeerError::HandleExpired => "the handle has expired".to_owned(),
            PeerError::NotFound => "no such file under the peer export root".to_owned(),
            PeerError::OutsideRoot =>
                "the handle names a path outside the peer export root".to_owned(),
            PeerError::SymlinkRefused =>
                "a symlink was encountered and the achieved containment class is scoped".to_owned(),
            PeerError::NotARegularFile => "the handle does not name a regular file".to_owned(),
            PeerError::TooLarge { max_bytes } => text::cat3(
                "file exceeds the declared exports.peer_files.max_bytes of ",
                text::decimal_of(*max_bytes).as_str(),
                " bytes",
            ),
            PeerError::MethodNotAllowed =>
                "the peer plane serves GET only; it has no write path and no list verb".to_owned(),
            PeerError::IoError(detail) => text::cat2("read failed: ", detail.as_str()),
        }
    }
}

impl From<HandleError> for PeerError {
    fn from(error: HandleError) -> (r: Self) {
        match error {
            HandleError::Malformed => PeerError::MalformedHandle,
            HandleError::NotValid => PeerError::HandleNotValid,
            HandleError::Expired => PeerError::HandleExpired,
        }
    }
}

impl vstd::std_specs::convert::FromSpecImpl<HandleError> for PeerError {
    open spec fn obeys_from_spec() -> bool {
        true
    }

    open spec fn from_spec(error: HandleError) -> PeerError {
        match error {
            HandleError::Malformed => PeerError::MalformedHandle,
            HandleError::NotValid => PeerError::HandleNotValid,
            HandleError::Expired => PeerError::HandleExpired,
        }
    }
}

impl From<ResourceError> for PeerError {
    fn from(error: ResourceError) -> (r: Self) {
        match error {
            ResourceError::NotFound => PeerError::NotFound,
            ResourceError::OutsideRoot => PeerError::OutsideRoot,
            ResourceError::SymlinkRefused => PeerError::SymlinkRefused,
            ResourceError::NotARegularFile => PeerError::NotARegularFile,
            ResourceError::TooLarge { max_bytes } => PeerError::TooLarge { max_bytes },
            ResourceError::MethodNotAllowed => PeerError::MethodNotAllowed,
            ResourceError::NoResourcePlane => PeerError::NoPeerPlane,
            ResourceError::IoError(detail) => PeerError::IoError(detail),
        }
    }
}

impl vstd::std_specs::convert::FromSpecImpl<ResourceError> for PeerError {
    open spec fn obeys_from_spec() -> bool {
        true
    }

    open spec fn from_spec(error: ResourceError) -> PeerError {
        match error {
            ResourceError::NotFound => PeerError::NotFound,
            ResourceError::OutsideRoot => PeerError::OutsideRoot,
            ResourceError::SymlinkRefused => PeerError::SymlinkRefused,
            ResourceError::NotARegularFile => PeerError::NotARegularFile,
            ResourceError::TooLarge { max_bytes } => PeerError::TooLarge { max_bytes },
            ResourceError::MethodNotAllowed => PeerError::MethodNotAllowed,
            ResourceError::NoResourcePlane => PeerError::NoPeerPlane,
            ResourceError::IoError(detail) => PeerError::IoError(detail),
        }
    }
}

// ── The plane ────────────────────────────────────────────────────────────────

/// One minted handle, as it is handed to the agent that asked for it.
#[derive(Debug, PartialEq, Eq)]
pub struct MintedHandle {
    pub handle: String,
    pub handle_id: String,
    pub expires_at_ms: u64,
    pub audience: String,
    /// The root-relative path the handle names, for the trace.
    pub path: String,
}

/// The declared half of a peer plane: the key and the lifetime ceiling.
pub struct DeclaredPeerExport {
    pub key: PeerMintKey,
    /// Ceiling on a minted handle's lifetime, in seconds. A caller's `ttl` may only narrow.
    pub max_ttl_secs: u64,
}

/// Everything a mint or a redeem decides by. Always built, declared or not: an undeclared capsule
/// still has to record the redeem it refused.
pub struct PeerPlane {
    pub declared: Option<DeclaredPeerExport>,
    /// The minting session's id, written into every payload and compared on every redeem.
    pub session_id: String,
    /// The containment class this session achieved, as it reads on every response.
    pub containment_achieved: String,
}

/// What a path beneath the export root was found to be.
#[derive(Debug, PartialEq, Eq)]
pub enum FileProbe {
    Regular,
    Other,
    Missing,
    Failed(String),
}

/// When a handle minted now expires: the asked lifetime or the ceiling, whichever is shorter, both
/// in seconds. The time stops at the largest 64-bit number.
pub open spec fn expiry(now_ms: u64, max_ttl_secs: u64, ttl_secs: Option<u64>) -> u64 {
    let asked = match ttl_secs {
        Some(t) => t,
        None => max_ttl_secs,
    };
    let ttl = if asked < max_ttl_secs {
        asked
    } else {
        max_ttl_secs
    };
    let ms = if ttl * 1000 > u64::MAX {
        u64::MAX as int
    } else {
        ttl * 1000
    };
    if now_ms + ms > u64::MAX {
        u64::MAX
    } else {
        (now_ms + ms) as u64
    }
}

/// The refusal a resolution and a probe come to, if any.
pub open spec fn mint_refusal(
    resolved: Result<String, ResourceError>,
    probe: FileProbe,
) -> Option<PeerError> {
    match resolved {
        Err(e) => Some(vstd::std_specs::convert::FromSpec::from_spec(e)),
        Ok(_) => match probe {
            FileProbe::Regular => None,
            FileProbe::Other => Some(PeerError::NotARegularFile),
            FileProbe::Missing => Some(PeerError::NotFound),
            FileProbe::Failed(detail) => Some(PeerError::IoError(detail)),
        },
    }
}

/// Whether a handle is the one minted with this nonce.
pub open spec fn is_minted(
    plane: PeerPlane,
    path: Seq<char>,
    audience: Seq<char>,
    ttl_secs: Option<u64>,
    now_ms: u64,
    nonce: Seq<char>,
    handle: MintedHandle,
) -> bool {
    let declared = plane.declared->0;
    let payload = PayloadView {
        v: PAYLOAD_VERSION,
        iss: plane.session_id@,
        p: path,
        exp: expiry(now_ms, declared.max_ttl_secs, ttl_secs),
        n: nonce,
    };
    &&& handle.handle@ == minted(declared.key.material(), payload, audience)
    &&& handle.handle_id@ == mac_token::id_of(handle.handle@)
    &&& handle.expires_at_ms == payload.exp
    &&& handle.audience@ == audience
    &&& handle.path@ == path
}

/// What admitting a redeem comes to, before any file is read.
pub open spec fn admission(
    plane: PeerPlane,
    token: Seq<char>,
    audience: Option<Seq<char>>,
    now_ms: u64,
) -> Result<PayloadView, PeerError> {
    match plane.declared {
        None => Err(PeerError::NoPeerPlane),
        Some(declared) => if mac_token::segments(TOKEN_VERSION_TAG@, token) is None {
            Err(PeerError::MalformedHandle)
        } else {
            match asserted(audience) {
                None => Err(PeerError::MissingAudience),
                Some(a) => match verified(
                    declared.key.material(),
                    token,
                    a,
                    plane.session_id@,
                    now_ms,
                ) {
                    Ok(p) => Ok(p),
                    Err(HandleError::Malformed) => Err(PeerError::MalformedHandle),
                    Err(HandleError::NotValid) => Err(PeerError::HandleNotValid),
                    Err(HandleError::Expired) => Err(PeerError::HandleExpired),
                },
            }
        },
    }
}

/// The audience a header asserts: trimmed, and none when it is blank.
pub open spec fn asserted(header: Option<Seq<char>>) -> Option<Seq<char>> {
    match header {
        Some(a) => if text::trim(a).len() == 0 {
            None
        } else {
            Some(text::trim(a))
        },
        None => None,
    }
}

/// Whether a result says what admitting a redeem comes to.
pub open spec fn admits(r: Result<HandlePayload, PeerError>, wanted: Result<PayloadView, PeerError>) -> bool {
    match (r, wanted) {
        (Ok(p), Ok(w)) => p@ == w,
        (Err(e), Err(w)) => e == w,
        _ => false,
    }
}

impl PeerPlane {
    /// Whether this capsule declared a peer export at all.
    pub fn is_declared(&self) -> (r: bool)
        ensures
            r == (self.declared is Some),
    {
        self.declared.is_some()
    }

    /// The declared handle-lifetime ceiling, or `None` when nothing is declared.
    pub fn max_ttl_secs(&self) -> (r: Option<u64>)
        ensures
            r == (match self.declared {
                Some(d) => Some(d.max_ttl_secs),
                None => None,
            }),
    {
        match &self.declared {
            Some(d) => Some(d.max_ttl_secs),
            None => None,
        }
    }

    /// Mints a handle with a given nonce. `resolved` is the asked path as the export's resolver
    /// answered it, and `probe` what stands there. A path that escapes fails the mint; it is
    /// never turned into something mintable.
    pub fn mint_with_nonce(
        &self,
        resolved: Result<String, ResourceError>,
        probe: FileProbe,
        audience: &str,
        ttl_secs: Option<u64>,
        now_ms: u64,
        nonce: String,
    ) -> (r: Result<MintedHandle, PeerError>)
        ensures
            match self.declared {
                None => r == Err::<MintedHandle, PeerError>(PeerError::NoPeerPlane),
                Some(_) => match mint_refusal(resolved, probe) {
                    Some(e) => r == Err::<MintedHandle, PeerError>(e),
                    None => r is Ok && is_minted(
                        *self,
                        resolved->Ok_0@,
                        audience@,
                        ttl_secs,
                        now_ms,
                        nonce@,
                        r->Ok_0,
                    ),
                },
            },
            r is Ok <==> self.declared is Some && resolved is Ok && probe is Regular,
            r is Ok ==> {
                &&& r->Ok_0.handle@ == minted(
                    self.declared->0.key.material(),
                    (PayloadView {
                        v: 1,
                        iss: self.session_id@,
                        p: resolved->Ok_0@,
                        exp: r->Ok_0.expires_at_ms,
                        n: nonce@,
                    }),
                    audience@,
                )
                &&& r->Ok_0.handle_id@ == mac_token::id_of(r->Ok_0.handle@)
                &&& r->Ok_0.expires_at_ms == expiry(
                    now_ms,
                    self.declared->0.max_ttl_secs,
                    ttl_secs,
                )
                &&& r->Ok_0.audience@ == audience@
                &&& r->Ok_0.path@ == resolved->Ok_0@
                &&& r->Ok_0.expires_at_ms <= now_ms + self.declared->0.max_ttl_secs * 1000
                &&& ttl_secs is Some ==> r->Ok_0.expires_at_ms <= now_ms + ttl_secs->0 * 1000
            },
            self.declared is Some && resolved is Err ==> r is Err && match resolved->Err_0 {
                ResourceError::NotFound => r->Err_0 is NotFound,
                ResourceError::OutsideRoot => r->Err_0 is OutsideRoot,
                ResourceError::SymlinkRefused => r->Err_0 is SymlinkRefused,
                ResourceError::NotARegularFile => r->Err_0 is NotARegularFile,
                ResourceError::TooLarge { max_bytes } => r->Err_0 == (PeerError::TooLarge {
                    max_bytes,
                }),
                ResourceError::MethodNotAllowed => r->Err_0 is MethodNotAllowed,
                ResourceError::NoResourcePlane => r->Err_0 is NoPeerPlane,
                ResourceError::IoError(detail) => r->Err_0 == PeerError::IoError(detail),
            },
            self.declared is Some && resolved is Ok && probe is Failed ==> r == Err::<
                MintedHandle,
                PeerError,
            >(PeerError::IoError(probe->Failed_0)),
            self.declared is Some && resolved is Ok && probe is Missing ==> r == Err::<
                MintedHandle,
                PeerError,
            >(PeerError::NotFound),
            self.declared is Some && resolved is Ok && probe is Other ==> r == Err::<
                MintedHandle,
                PeerError,
            >(PeerError::NotARegularFile),
    {
        let declared = match &self.declared {
            Some(declared) => declared,
            None => return Err(PeerError::NoPeerPlane),
        };
        let path = match resolved {
            Ok(path) => path,
            Err(e) => return Err(PeerError::from(e)),
        };
        match probe {
            FileProbe::Regular => {},
            FileProbe::Other => return Err(PeerError::NotARegularFile),
            FileProbe::Missing => return Err(PeerError::NotFound),
            FileProbe::Failed(detail) => return Err(PeerError::IoError(detail)),
        }
        let asked: u64 = match ttl_secs {
            Some(t) => t,
            None => declared.max_ttl_secs,
        };
        let ttl: u64 = if asked < declared.max_ttl_secs {
            asked
        } else {
            declared.max_ttl_secs
        };
        let ms: u64 = match ttl.checked_mul(1000) {
            Some(ms) => ms,
            None => u64::MAX,
        };
        let exp: u64 = match now_ms.checked_add(ms) {
            Some(exp) => exp,
            None => u64::MAX,
        };
        let payload = HandlePayload {
            v: PAYLOAD_VERSION,
            iss: self.session_id.clone(),
            p: path.clone(),
            exp,
            n: nonce,
        };
        match mint(&declared.key, &payload, audience) {
            Ok(token) => Ok(
                MintedHandle {
                    handle_id: handle_id(token.as_str()),
                    handle: token,
                    expires_at_ms: exp,
                    audience: audience.to_owned(),
                    path,
                },
            ),
            Err(detail) => Err(PeerError::IoError(detail)),
        }
    }

    /// Mints a handle for one file beneath the export root, for one audience, under a nonce of its
    /// own. Where nothing refuses and the operating system gives random bytes, the handle is the
    /// one that some sixteen of them make.
    pub fn mint_handle(
        &self,
        resolved: Result<String, ResourceError>,
        probe: FileProbe,
        audience: &str,
        ttl_secs: Option<u64>,
        now_ms: u64,
    ) -> (r: Result<MintedHandle, PeerError>)
        ensures
            match self.declared {
                None => r == Err::<MintedHandle, PeerError>(PeerError::NoPeerPlane),
                Some(_) => match mint_refusal(resolved, probe) {
                    Some(e) => r == Err::<MintedHandle, PeerError>(e),
                    None => match r {
                        Ok(handle) => exists|b: Seq<u8>|
                            b.len() == mac_token::NONCE_BYTES && is_minted(
                                *self,
                                resolved->Ok_0@,
                                audience@,
                                ttl_secs,
                                now_ms,
                                #[trigger] codec::hex(b),
                                handle,
                            ),
                        Err(e) => e is IoError && text::says(
                            e->IoError_0@,
                            "failed to generate a nonce: "@,
                        ),
                    },
                },
            },
    {
        if self.declared.is_none() {
            return Err(PeerError::NoPeerPlane);
        }
        let path = match resolved {
            Ok(path) => path,
            Err(e) => return Err(PeerError::from(e)),
        };
        match probe {
            FileProbe::Regular => {},
            FileProbe::Other => return Err(PeerError::NotARegularFile),
            FileProbe::Missing => return Err(PeerError::NotFound),
            FileProbe::Failed(detail) => return Err(PeerError::IoError(detail)),
        }
        match mac_token::random_hex(mac_token::NONCE_BYTES) {
            Ok(nonce) => self.mint_with_nonce(
                Ok(path),
                FileProbe::Regular,
                audience,
                ttl_secs,
                now_ms,
                nonce,
            ),
            Err(detail) => Err(PeerError::IoError(detail)),
        }
    }

    /// Admits one redeem: the shape first, then the audience, then the token itself. A token this
    /// plane's key minted for the asserted audience comes to what its payload comes to.
    pub fn redeem(&self, token: &str, audience: Option<&str>, now_ms: u64) -> (r: Result<
        HandlePayload,
        PeerError,
    >)
        ensures
            admits(r, admission(*self, token@, text::opt_str(audience), now_ms)),
            forall|p: PayloadView, a: Seq<char>|
                self.declared is Some && asserted(text::opt_str(audience)) == Some(a) && token@
                    == #[trigger] minted(self.declared->0.key.material(), p, a) && accepted(
                    Some(p),
                    self.session_id@,
                    now_ms,
                ) is Ok ==> r is Ok && r->Ok_0@ == p,
            self.declared is None <==> r == Err::<HandlePayload, PeerError>(
                PeerError::NoPeerPlane,
            ),
            r is Ok ==> audience is Some && r->Ok_0.iss@ == self.session_id@ && r->Ok_0.exp
                > now_ms,
            self.declared is Some && mac_token::segments(TOKEN_VERSION_TAG@, token@) is None ==> r
                == Err::<HandlePayload, PeerError>(PeerError::MalformedHandle),
            r == Err::<HandlePayload, PeerError>(PeerError::MissingAudience) <==> self.declared
                is Some && mac_token::segments(TOKEN_VERSION_TAG@, token@) is Some && (audience
                is None || text::trim(audience->0@).len() == 0),
            r is Err ==> r->Err_0 is NoPeerPlane || r->Err_0 is MalformedHandle || r->Err_0
                is MissingAudience || r->Err_0 is HandleNotValid || r->Err_0 is HandleExpired,
    {
        let declared = match &self.declared {
            Some(declared) => declared,
            None => return Err(PeerError::NoPeerPlane),
        };
        proof {
            assert forall|p: PayloadView, a: Seq<char>|
                token@ == #[trigger] minted(
                    declared.key.material(),
                    p,
                    a,
                ) implies mac_token::segments(TOKEN_VERSION_TAG@, token@) is Some by {
                lemma_tag();
                lemma_record(p);
                lemma_bytes(json::render(record_of(p)));
                mac_token::a_sealed_token_has_its_segments(
                    declared.key.material(),
                    TOKEN_VERSION_TAG@,
                    mac_domain(),
                    encoded(p),
                    Seq::<Seq<char>>::empty().push(a),
                );
            }
        }
        if mac_token::payload_segment(TOKEN_VERSION_TAG, token).is_err() {
            return Err(PeerError::MalformedHandle);
        }
        let given = match audience {
            Some(a) => a,
            None => return Err(PeerError::MissingAudience),
        };
        if text::is_blank(given) {
            return Err(PeerError::MissingAudience);
        }
        let asserted_audience = text::trimmed(given);
        match verify(
            &declared.key,
            token,
            asserted_audience.as_str(),
            self.session_id.as_str(),
            now_ms,
        ) {
            Ok(payload) => Ok(payload),
            Err(e) => Err(PeerError::from(e)),
        }
    }
}

// ── Requests ─────────────────────────────────────────────────────────────────

/// A path without its query.
pub open spec fn without_query(raw_path: Seq<char>) -> Seq<char> {
    text::split_on(raw_path, '?')[0]
}

fn path_part(raw_path: &str) -> (r: String)
    ensures
        r@ == without_query(raw_path@),
{
    let pieces = text::split_pieces(raw_path, '?');
    let ghost all = text::split_on(raw_path@, '?');
    proof {
        assert(all == text::texts(pieces@));
        assert(all.len() == pieces@.len() && all.len() > 0);
        assert(all[0] == pieces@[0]@);
    }
    pieces[0].clone()
}

/// Whether a path addresses the peer plane: the whole segment counts.
pub open spec fn on_peer_plane(raw_path: Seq<char>) -> bool {
    let path = without_query(raw_path);
    path == PEER_PATH_PREFIX@ || (PEER_PATH_PREFIX@ + "/"@).is_prefix_of(path)
}

/// Whether `raw_path` addresses the peer plane rather than the operator plane.
pub fn is_peer_path(raw_path: &str) -> (r: bool)
    ensures
        r == on_peer_plane(raw_path@),
{
    let path = path_part(raw_path);
    let slashed = text::cat2(PEER_PATH_PREFIX, "/");
    text::same(path.as_str(), PEER_PATH_PREFIX) || text::starts_with(
        path.as_str(),
        slashed.as_str(),
    )
}

/// The token a path names, when it names one.
pub open spec fn token_in(raw_path: Seq<char>) -> Option<Seq<char>> {
    let path = without_query(raw_path);
    let slashed = PEER_PATH_PREFIX@ + "/"@;
    if slashed.is_prefix_of(path) && path.len() > slashed.len() {
        Some(path.skip(slashed.len() as int))
    } else {
        None
    }
}

fn token_of_path(raw_path: &str) -> (r: Option<String>)
    ensures
        text::opt_text(r) == token_in(raw_path@),
{
    let path = path_part(raw_path);
    let slashed = text::cat2(PEER_PATH_PREFIX, "/");
    match text::strip_prefix(path.as_str(), slashed.as_str()) {
        Some(token) => {
            proof {
                reveal_strlit("");
                if token@.len() == 0 {
                    assert(token@ =~= ""@);
                }
            }
            if text::same(token.as_str(), "") {
                None
            } else {
                Some(token)
            }
        },
        None => None,
    }
}

/// A response without its framing.
#[derive(Debug, PartialEq, Eq)]
pub struct ResourceResponse {
    pub status: u16,
    pub headers: Vec<(String, String)>,
    pub body: Vec<u8>,
}

/// What a [`ResourceResponse`] stands for.
#[verifier::ext_equal]
pub struct ResponseView {
    pub status: u16,
    pub headers: Seq<(Seq<char>, Seq<char>)>,
    pub body: Seq<u8>,
}

impl View for ResourceResponse {
    type V = ResponseView;

    open spec fn view(&self) -> ResponseView {
        ResponseView {
            status: self.status,
            headers: outgoing::header_views(self.headers@),
            body: self.body@,
        }
    }
}

/// Whether a header is this one.
pub open spec fn is_header(h: (String, String), name: Seq<char>, value: Seq<char>) -> bool {
    h.0@ == name && h.1@ == value
}

/// Adds a header.
pub fn add_header(headers: &mut Vec<(String, String)>, name: &str, value: &str)
    ensures
        outgoing::header_views(final(headers)@) == outgoing::header_views(old(headers)@).push(
            (name@, value@),
        ),
        final(headers)@.len() == old(headers)@.len() + 1,
        is_header(final(headers)@.last(), name@, value@),
        forall|i: int|
            0 <= i < old(headers)@.len() ==> #[trigger] final(headers)@[i] == old(headers)@[i],
{
    let ghost before = headers@;
    headers.push((name.to_owned(), value.to_owned()));
    proof {
        assert(outgoing::header_views(headers@) =~= outgoing::header_views(before).push(
            (name@, value@),
        ));
    }
}

/// A body for a response: the bytes of a text.
pub fn body_of(s: &str) -> (r: Vec<u8>)
    ensures
        r@ == codec::utf8(s@),
{
    let mut out: Vec<u8> = Vec::new();
    codec::append(&mut out, s.as_bytes());
    proof {
        assert(out@ =~= codec::utf8(s@));
    }
    out
}

/// The response of a refusal. A generation and a handle id ride on it where there is a handle, and
/// a method that is not allowed is told which is.
pub open spec fn refusal_response(
    error: PeerError,
    generation: Option<u64>,
    id: Option<Seq<char>>,
) -> ResponseView {
    let typed = Seq::<(Seq<char>, Seq<char>)>::empty().push(
        ("content-type"@, "application/json"@),
    );
    let counted = match generation {
        Some(n) => typed.push(("x-murmur-generation"@, text::decimal(n as nat))),
        None => typed,
    };
    let named = match id {
        Some(id) => counted.push((HANDLE_ID_HEADER@, id)),
        None => counted,
    };
    ResponseView {
        status: error.number(),
        headers: if error is MethodNotAllowed {
            named.push(("allow"@, "GET"@))
        } else {
            named
        },
        body: codec::utf8(
            json::render(
                JsonView::Object(
                    json::none().push(("error"@, JsonView::Text(error.word()))).push(
                        ("message"@, JsonView::Text(error.sentence())),
                    ),
                ),
            ),
        ),
    }
}

/// The response of a refusal.
pub fn error_response(error: &PeerError, generation: Option<u64>, id: Option<&str>) -> (r:
    ResourceResponse)
    ensures
        r@ == refusal_response(*error, generation, text::opt_str(id)),
        r.status >= 400,
        r.status == error.number(),
        exists|v: JsonView|
            #![trigger json::render(v)]
            r.body@ == codec::utf8(json::render(v)) && json::text_entry(v, "error"@) == Some(
                error.word(),
            ) && json::text_entry(v, "message"@) == Some(error.sentence()),
        exists|i: int|
            0 <= i < r.headers@.len() && #[trigger] is_header(
                r.headers@[i],
                "content-type"@,
                "application/json"@,
            ),
        generation is Some ==> exists|i: int|
            0 <= i < r.headers@.len() && #[trigger] is_header(
                r.headers@[i],
                "x-murmur-generation"@,
                text::decimal(generation->0 as nat),
            ),
        id is Some ==> exists|i: int|
            0 <= i < r.headers@.len() && #[trigger] is_header(
                r.headers@[i],
                HANDLE_ID_HEADER@,
                id->0@,
            ),
        error is MethodNotAllowed ==> exists|i: int|
            0 <= i < r.headers@.len() && #[trigger] is_header(r.headers@[i], "allow"@, "GET"@),
        !(error is MethodNotAllowed) && id is None && generation is None ==> r.headers@.len() == 1,
{
    let ghost mut at_generation = 0int;
    let ghost mut at_id = 0int;
    proof {
        lemma_error_body(error.word(), error.sentence());
    }
    let mut body = json::with(json::empty_object(), "error", json::text_value(error.code()));
    body = json::with(body, "message", json::text_value(error.message().as_str()));
    let mut headers: Vec<(String, String)> = Vec::new();
    proof {
        assert(outgoing::header_views(headers@) =~= Seq::<(Seq<char>, Seq<char>)>::empty());
    }
    add_header(&mut headers, "content-type", "application/json");
    if let Some(n) = generation {
        proof {
            at_generation = headers@.len() as int;
        }
        add_header(&mut headers, "x-murmur-generation", text::decimal_of(n).as_str());
    }
    if let Some(id) = id {
        proof {
            at_id = headers@.len() as int;
        }
        add_header(&mut headers, HANDLE_ID_HEADER, id);
    }
    if let PeerError::MethodNotAllowed = error {
        add_header(&mut headers, "allow", "GET");
    }
    let response = ResourceResponse {
        status: error.status(),
        headers,
        body: body_of(json::write(&body).as_str()),
    };
    proof {
        let headers = response.headers;
        assert(is_header(headers@[0], "content-type"@, "application/json"@));
        if generation is Some {
            assert(is_header(
                headers@[at_generation],
                "x-murmur-generation"@,
                text::decimal(generation->0 as nat),
            ));
        }
        if id is Some {
            assert(is_header(headers@[at_id], HANDLE_ID_HEADER@, id->0@));
        }
        if error is MethodNotAllowed {
            assert(is_header(headers@[headers@.len() - 1], "allow"@, "GET"@));
        }
    }
    response
}

proof fn lemma_error_body(word: Seq<char>, sentence: Seq<char>)
    ensures
        ({
            let v = JsonView::Object(
                json::none().push(("error"@, JsonView::Text(word))).push(
                    ("message"@, JsonView::Text(sentence)),
                ),
            );
            json::text_entry(v, "error"@) == Some(word) && json::text_entry(v, "message"@) == Some(
                sentence,
            )
        }),
{
    reveal_strlit("error");
    reveal_strlit("message");
    assert("error"@.len() == 5 && "message"@.len() == 7);
    reveal_with_fuel(json::entry_in, 3);
    let all = json::none().push(("error"@, JsonView::Text(word))).push(
        ("message"@, JsonView::Text(sentence)),
    );
    assert(all[0].0 == "error"@ && all[1].0 == "message"@);
}

/// What the shared reader hands over: the bytes, their digest and their time, all of one
/// descriptor.
#[derive(Debug, PartialEq, Eq)]
pub struct ReadResponse {
    pub bytes: Vec<u8>,
    pub sha256: String,
    pub mtime_ms: u64,
}

/// What a redeem leaves in the trace.
#[derive(Debug, PartialEq, Eq)]
pub struct RedeemRecord {
    pub handle_id: String,
    /// The redeemed path, and nothing before the MAC has proven that the payload is this
    /// capsule's own.
    pub path: Option<String>,
    pub generation: u64,
    pub audience: Option<String>,
    pub bytes: Option<u64>,
    pub sha256: Option<String>,
    pub outcome: String,
    pub detail: Option<String>,
}

/// What a [`RedeemRecord`] stands for.
#[verifier::ext_equal]
pub struct RecordView {
    pub handle_id: Seq<char>,
    pub path: Option<Seq<char>>,
    pub generation: u64,
    pub audience: Option<Seq<char>>,
    pub bytes: Option<u64>,
    pub sha256: Option<Seq<char>>,
    pub outcome: Seq<char>,
    pub detail: Option<Seq<char>>,
}

impl View for RedeemRecord {
    type V = RecordView;

    open spec fn view(&self) -> RecordView {
        RecordView {
            handle_id: self.handle_id@,
            path: text::opt_text(self.path),
            generation: self.generation,
            audience: text::opt_text(self.audience),
            bytes: self.bytes,
            sha256: text::opt_text(self.sha256),
            outcome: self.outcome@,
            detail: text::opt_text(self.detail),
        }
    }
}

/// The trace of a refused redeem. It names no path.
pub open spec fn refused_record(
    error: PeerError,
    id: Seq<char>,
    generation: u64,
    audience: Option<Seq<char>>,
) -> RecordView {
    RecordView {
        handle_id: id,
        path: None,
        generation,
        audience,
        bytes: None,
        sha256: None,
        outcome: error.word(),
        detail: Some(error.sentence()),
    }
}

/// The trace of a served redeem.
pub open spec fn served_record(
    payload: PayloadView,
    read: ReadResponse,
    id: Seq<char>,
    generation: u64,
    audience: Option<Seq<char>>,
) -> RecordView {
    RecordView {
        handle_id: id,
        path: Some(payload.p),
        generation,
        audience,
        bytes: Some(read.bytes@.len() as u64),
        sha256: Some(read.sha256@),
        outcome: "ok"@,
        detail: None,
    }
}

/// The response of a served redeem: the file's current bytes, and nothing of its path.
pub open spec fn served_response(
    plane: PeerPlane,
    read: ReadResponse,
    id: Seq<char>,
    generation: u64,
) -> ResponseView {
    ResponseView {
        status: 200,
        headers: Seq::<(Seq<char>, Seq<char>)>::empty().push(
            ("content-type"@, "application/octet-stream"@),
        ).push(("etag"@, "\"sha256:"@ + read.sha256@ + "\""@)).push(
            ("x-murmur-mtime-ms"@, text::decimal(read.mtime_ms as nat)),
        ).push(("x-murmur-generation"@, text::decimal(generation as nat))).push(
            ("x-murmur-containment"@, plane.containment_achieved@),
        ).push((HANDLE_ID_HEADER@, id)),
        body: read.bytes@,
    }
}

/// What a peer-plane request needs next.
#[derive(Debug, PartialEq, Eq)]
pub enum PeerStep {
    /// The answer, with nothing to trace.
    Answer(ResourceResponse),
    /// The answer of a refused redeem, with its trace.
    Refused(ResourceResponse, RedeemRecord),
    /// The file the payload names has to be read, for this handle.
    Read(HandlePayload, String),
}

/// Whether a step is the right one for a request: the method is settled first, then whether the
/// path names a handle, then the redeem itself.
pub open spec fn right_step(
    plane: PeerPlane,
    method: Seq<char>,
    raw_path: Seq<char>,
    audience: Option<Seq<char>>,
    generation: u64,
    now_ms: u64,
    step: PeerStep,
) -> bool {
    if method != "GET"@ {
        step is Answer && step->Answer_0@ == refusal_response(
            PeerError::MethodNotAllowed,
            None,
            None,
        )
    } else {
        match token_in(raw_path) {
            None => step is Answer && step->Answer_0@ == refusal_response(
                PeerError::NotFound,
                None,
                None,
            ),
            Some(token) => {
                let id = mac_token::id_of(token);
                match admission(plane, token, audience, now_ms) {
                    Ok(payload) => step is Read && step->Read_0@ == payload && step->Read_1@ == id,
                    Err(e) => step is Refused && step->Refused_0@ == refusal_response(
                        e,
                        Some(generation),
                        Some(id),
                    ) && step->Refused_1@ == refused_record(e, id, generation, audience),
                }
            },
        }
    }
}

fn owned(o: Option<&str>) -> (r: Option<String>)
    ensures
        text::opt_text(r) == text::opt_str(o),
{
    match o {
        Some(s) => Some(s.to_owned()),
        None => None,
    }
}

fn refuse(error: &PeerError, id: &str, generation: u64, audience: Option<&str>) -> (r: (
    ResourceResponse,
    RedeemRecord,
))
    ensures
        r.0@ == refusal_response(*error, Some(generation), Some(id@)),
        r.1@ == refused_record(*error, id@, generation, text::opt_str(audience)),
        r.0.status >= 400,
        r.1.path is None && r.1.bytes is None && r.1.sha256 is None,
        r.1.handle_id@ == id@ && r.1.generation == generation,
        r.0.status == error.number(),
        r.1.outcome@ == error.word(),
        r.1.detail is Some && r.1.detail->0@ == error.sentence(),
        text::opt_text(r.1.audience) == text::opt_str(audience),
{
    (
        error_response(error, Some(generation), Some(id)),
        RedeemRecord {
            handle_id: id.to_owned(),
            path: None,
            generation,
            audience: owned(audience),
            bytes: None,
            sha256: None,
            outcome: error.code().to_owned(),
            detail: Some(error.message()),
        },
    )
}

/// Takes one peer-plane request as far as it goes without reading a file: a method, a raw request
/// path and an asserted audience, and nothing else.
pub fn handle_peer_request(
    plane: &PeerPlane,
    method: &str,
    raw_path: &str,
    audience: Option<&str>,
    generation: u64,
    now_ms: u64,
) -> (r: PeerStep)
    ensures
        right_step(
            *plane,
            method@,
            raw_path@,
            text::opt_str(audience),
            generation,
            now_ms,
            r,
        ),
        method@ != "GET"@ ==> r is Answer && r->Answer_0.status == 405,
        r is Read ==> {
            &&& method@ == "GET"@
            &&& plane.declared is Some
            &&& audience is Some
            &&& r->Read_0.iss@ == plane.session_id@
            &&& r->Read_0.exp > now_ms
        },
        r is Answer ==> r->Answer_0.status >= 400,
        r is Answer <==> method@ != "GET"@ || token_in(raw_path@) is None,
        method@ == "GET"@ && r is Answer ==> r->Answer_0.status == 404,
        r is Read ==> r->Read_1@ == mac_token::id_of(token_in(raw_path@)->0),
        r is Refused ==> r->Refused_1.handle_id@ == mac_token::id_of(token_in(raw_path@)->0)
            && text::opt_text(r->Refused_1.audience) == text::opt_str(audience),
        r is Refused ==> r->Refused_0.status >= 400 && r->Refused_1.path is None
            && r->Refused_1.bytes is None && r->Refused_1.generation == generation,
        method@ == "GET"@ && plane.declared is None && !(r is Answer) ==> r is Refused
            && r->Refused_0.status == 404,
{
    if !text::same(method, "GET") {
        return PeerStep::Answer(error_response(&PeerError::MethodNotAllowed, None, None));
    }
    let token = match token_of_path(raw_path) {
        Some(token) => token,
        None => return PeerStep::Answer(error_response(&PeerError::NotFound, None, None)),
    };
    let id = handle_id(token.as_str());
    match plane.redeem(token.as_str(), audience, now_ms) {
        Ok(payload) => PeerStep::Read(payload, id),
        Err(e) => {
            let (response, trace) = refuse(&e, id.as_str(), generation, audience);
            PeerStep::Refused(response, trace)
        },
    }
}

/// Answers an admitted redeem with what the reader gave.
pub fn answer_read(
    plane: &PeerPlane,
    payload: &HandlePayload,
    id: &str,
    audience: Option<&str>,
    generation: u64,
    read: Result<ReadResponse, ResourceError>,
) -> (r: (ResourceResponse, RedeemRecord))
    ensures
        match read {
            Ok(content) => r.0@ == served_response(*plane, content, id@, generation) && r.1@
                == served_record(payload@, content, id@, generation, text::opt_str(audience)),
            Err(e) => {
                let error: PeerError = vstd::std_specs::convert::FromSpec::from_spec(e);
                r.0@ == refusal_response(error, Some(generation), Some(id@)) && r.1@
                    == refused_record(error, id@, generation, text::opt_str(audience))
            },
        },
        read is Ok <==> r.0.status == 200,
        read is Ok ==> {
            &&& r.0.body@ == read->Ok_0.bytes@
            &&& r.1.outcome@ == "ok"@
            &&& r.1.path is Some && r.1.path->0@ == payload.p@
            &&& r.1.sha256 is Some && r.1.sha256->0@ == read->Ok_0.sha256@
            &&& r.1.bytes == Some(read->Ok_0.bytes@.len() as u64)
            &&& r.1.detail is None
            &&& text::opt_text(r.1.audience) == text::opt_str(audience)
            &&& r.0.headers@.len() == 6
            &&& is_header(r.0.headers@[0], "content-type"@, "application/octet-stream"@)
            &&& is_header(
                r.0.headers@[1],
                "etag"@,
                "\"sha256:"@ + read->Ok_0.sha256@ + "\""@,
            )
            &&& is_header(
                r.0.headers@[2],
                "x-murmur-mtime-ms"@,
                text::decimal(read->Ok_0.mtime_ms as nat),
            )
            &&& is_header(
                r.0.headers@[3],
                "x-murmur-generation"@,
                text::decimal(generation as nat),
            )
            &&& is_header(
                r.0.headers@[4],
                "x-murmur-containment"@,
                plane.containment_achieved@,
            )
            &&& is_header(r.0.headers@[5], HANDLE_ID_HEADER@, id@)
        },
        read is Err ==> r.0.status >= 400 && r.1.path is None && r.1.bytes is None,
        read matches Err(ResourceError::NotFound) ==> r.0.status == 404,
        read matches Err(ResourceError::NoResourcePlane) ==> r.0.status == 404,
        read matches Err(ResourceError::OutsideRoot) ==> r.0.status == 403,
        read matches Err(ResourceError::SymlinkRefused) ==> r.0.status == 403,
        read matches Err(ResourceError::NotARegularFile) ==> r.0.status == 403,
        read matches Err(ResourceError::TooLarge { .. }) ==> r.0.status == 413,
        read matches Err(ResourceError::MethodNotAllowed) ==> r.0.status == 405,
        read matches Err(ResourceError::IoError(_)) ==> r.0.status == 500,
        r.1.handle_id@ == id@ && r.1.generation == generation,
{
    match read {
        Err(e) => {
            let error = PeerError::from(e);
            refuse(&error, id, generation, audience)
        },
        Ok(content) => {
            let mut headers: Vec<(String, String)> = Vec::new();
            proof {
                assert(outgoing::header_views(headers@) =~= Seq::<
                    (Seq<char>, Seq<char>),
                >::empty());
            }
            add_header(&mut headers, "content-type", "application/octet-stream");
            let etag = text::cat3("\"sha256:", content.sha256.as_str(), "\"");
            add_header(&mut headers, "etag", etag.as_str());
            let mtime = text::decimal_of(content.mtime_ms);
            add_header(&mut headers, "x-murmur-mtime-ms", mtime.as_str());
            let shown = text::decimal_of(generation);
            add_header(&mut headers, "x-murmur-generation", shown.as_str());
            add_header(
                &mut headers,
                "x-murmur-containment",
                plane.containment_achieved.as_str(),
            );
            add_header(&mut headers, HANDLE_ID_HEADER, id);
            let trace = RedeemRecord {
                handle_id: id.to_owned(),
                path: Some(payload.p.clone()),
                generation,
                audience: owned(audience),
                bytes: Some(content.bytes.len() as u64),
                sha256: Some(content.sha256.clone()),
                outcome: "ok".to_owned(),
                detail: None,
            };
            (ResourceResponse { status: 200, headers, body: content.bytes }, trace)
        },
    }
}

// ── Naming a fetched file ────────────────────────────────────────────────────

/// A character as it may stand in a stored file name.
pub open spec fn safe_char(c: char) -> char {
    if 'a' <= c <= 'z' || 'A' <= c <= 'Z' || '0' <= c <= '9' || c == '.' || c == '_' || c == '-' {
        c
    } else {
        '_'
    }
}

/// The name a hint comes to: its last path segment, each character made safe, at most 120 of them;
/// `file` when nothing usable is left.
pub open spec fn safe_name(hint: Option<Seq<char>>) -> Seq<char> {
    match hint {
        Some(h) => {
            let last = text::split_on(h, '/').last();
            let short = if last.len() > 120 {
                last.take(120)
            } else {
                last
            };
            let name = short.map_values(|c: char| safe_char(c));
            if name.len() == 0 || name == "."@ || name == ".."@ {
                "file"@
            } else {
                name
            }
        },
        None => "file"@,
    }
}

fn sanitise(hint: &str) -> (r: String)
    ensures
        r@ == safe_name(Some(hint@)),
{
    let pieces = text::split_pieces(hint, '/');
    let ghost all = text::split_on(hint@, '/');
    proof {
        assert(all == text::texts(pieces@));
        assert(all.len() == pieces@.len() && all.len() > 0);
        assert(all.last() == pieces@[pieces@.len() - 1]@);
    }
    let chars = text::chars_of(pieces[pieces.len() - 1].as_str());
    let ghost last = all.last();
    let count: usize = if chars.len() > 120 {
        120
    } else {
        chars.len()
    };
    let ghost short = if last.len() > 120 {
        last.take(120)
    } else {
        last
    };
    let ghost wanted = short.map_values(|c: char| safe_char(c));
    let mut out = String::new();
    let mut i: usize = 0;
    proof {
        assert(wanted.take(0) =~= out@);
    }
    while i < count
        invariant
            i <= count <= chars@.len(),
            chars@ == last,
            short.len() == count,
            forall|j: int| 0 <= j < count ==> #[trigger] short[j] == last[j],
            wanted == short.map_values(|c: char| safe_char(c)),
            out@ == wanted.take(i as int),
        decreases count - i,
    {
        let c = chars[i];
        let safe = if ('a' <= c && c <= 'z') || ('A' <= c && c <= 'Z') || ('0' <= c && c <= '9')
            || c == '.' || c == '_' || c == '-' {
            c
        } else {
            '_'
        };
        out.push(safe);
        proof {
            assert(short[i as int] == c);
            assert(wanted.take(i + 1) =~= wanted.take(i as int).push(safe));
        }
        i += 1;
    }
    proof {
        assert(wanted.take(count as int) =~= wanted);
        reveal_strlit("");
        if wanted.len() == 0 {
            assert(wanted =~= ""@);
        }
    }
    if text::same(out.as_str(), "") || text::same(out.as_str(), ".") || text::same(
        out.as_str(),
        "..",
    ) {
        "file".to_owned()
    } else {
        out
    }
}

/// The workdir-relative path fetched bytes land at. Chosen by the runtime: the hint is sanitised,
/// and the handle id in front keeps two fetches apart.
pub fn stored_path_for(handle_id: &str, basename_hint: Option<&str>) -> (r: String)
    ensures
        r@ == PEER_INBOX_DIR@ + "/"@ + handle_id@ + "-"@ + safe_name(text::opt_str(basename_hint)),
        (PEER_INBOX_DIR@ + "/"@ + handle_id@ + "-"@).is_prefix_of(r@),
{
    let name = match basename_hint {
        Some(hint) => sanitise(hint),
        None => "file".to_owned(),
    };
    text::cat5(PEER_INBOX_DIR, "/", handle_id, "-", name.as_str())
}

// ── Laws ─────────────────────────────────────────────────────────────────────

/// A handle is refused as not valid, and in no other way, whenever its tag is not the one its
/// payload and the asserted audience have under this key: a tampered payload, a foreign key and a
/// wrong audience look the same.
pub proof fn every_cause_of_a_wrong_tag_looks_the_same(
    key: Seq<u8>,
    token: Seq<char>,
    audience: Seq<char>,
    session_id: Seq<char>,
    now_ms: u64,
)
    requires
        mac_token::segments(TOKEN_VERSION_TAG@, token) is Some,
        ({
            let parts = mac_token::segments(TOKEN_VERSION_TAG@, token)->0;
            parts.2 != mac_token::signature(
                key,
                mac_domain(),
                parts.0,
                Seq::<Seq<char>>::empty().push(audience),
            )
        }),
    ensures
        verified(key, token, audience, session_id, now_ms) == Err::<PayloadView, HandleError>(
            HandleError::NotValid,
        ),
{
}

/// A lifetime only narrows: no handle outlives the ceiling.
pub proof fn a_ttl_only_narrows(now_ms: u64, max_ttl_secs: u64, ttl_secs: Option<u64>)
    ensures
        expiry(now_ms, max_ttl_secs, ttl_secs) <= expiry(now_ms, max_ttl_secs, None),
        expiry(now_ms, max_ttl_secs, ttl_secs) >= now_ms,
        expiry(now_ms, max_ttl_secs, ttl_secs) <= now_ms + max_ttl_secs * 1000,
{
}

/// The audience a capsule asserts is the one a peer derives from a card with that capsule's name
/// and URL, for a name and a URL that are not blank and a URL that names a host.
pub proof fn both_sides_derive_one_audience(card: JsonView, name: Seq<char>, url: Seq<char>)
    requires
        json::text_entry(card, "name"@) == Some(name),
        json::text_entry(card, "url"@) == Some(url),
        text::trim(name).len() > 0,
        text::trim(url).len() > 0,
        outgoing::host_port(url) is Some,
    ensures
        card_audience(card) == Ok::<Seq<char>, Seq<char>>(own(name, url)),
{
}

/// A capsule asserts what its own agent card gives a peer, whatever else the card lists.
pub proof fn a_capsule_asserts_what_its_card_gives(
    identity: CapsuleIdentity,
    artifacts: Seq<InstalledArtifactSummary>,
    policy: CapabilityPolicy,
    acceptance: TaskAcceptance,
    planes: DeclaredPlanes,
)
    requires
        text::trim(identity.capsule_name@).len() > 0,
        text::trim(identity.capsule_url@).len() > 0,
        outgoing::host_port(identity.capsule_url@) is Some,
    ensures
        card_audience(identity::card_of(identity, artifacts, policy, acceptance, planes)) == Ok::<
            Seq<char>,
            Seq<char>,
        >(own(identity.capsule_name@, identity.capsule_url@)),
{
    reveal_strlit("name");
    reveal_strlit("version");
    reveal_strlit("url");
    let card = identity::card_of(identity, artifacts, policy, acceptance, planes);
    let all = card->Object_0;
    assert(all[0] == ("name"@, JsonView::Text(identity.capsule_name@)));
    assert(all[1].0 == "version"@);
    assert(all[2] == ("url"@, JsonView::Text(identity.capsule_url@)));
    assert("name"@.len() == 4 && "version"@.len() == 7 && "url"@.len() == 3);
    let one = all.drop_first();
    let two = one.drop_first();
    assert(one[0] == all[1] && two[0] == all[2]);
    reveal_with_fuel(json::entry_in, 4);
    assert(json::entry(card, "url"@) == Some(all[2].1));
    both_sides_derive_one_audience(card, identity.capsule_name@, identity.capsule_url@);
}

/// A stored path never leaves the inbox: its name holds no separator and is no dot name.
pub proof fn a_stored_name_is_one_component(hint: Option<Seq<char>>)
    ensures
        safe_name(hint).len() > 0,
        !safe_name(hint).contains('/'),
        safe_name(hint) != "."@,
        safe_name(hint) != ".."@,
{
    reveal_strlit("file");
    reveal_strlit(".");
    reveal_strlit("..");
    assert("file"@.len() == 4);
    assert(!"file"@.contains('/'));
    let name = safe_name(hint);
    if name.contains('/') {
        let i = choose|i: int| 0 <= i < name.len() && name[i] == '/';
        assert(name[i] == '/');
    }
}

/// Whether no text anywhere in a value holds a handle. Keys are not looked at.
pub open spec fn free_of_handles(v: JsonView) -> bool
    decreases v,
{
    match v {
        JsonView::Text(s) => !holds_handle(s),
        JsonView::Array(items) => forall|i: int|
            0 <= i < items.len() ==> free_of_handles(#[trigger] items[i]),
        JsonView::Object(entries) => forall|i: int|
            0 <= i < entries.len() ==> free_of_handles((#[trigger] entries[i]).1),
        _ => true,
    }
}

/// A handle never survives the trace boundary: a redacted text holds none, wherever handles stood
/// in it and whatever stood around them.
pub proof fn no_handle_survives_redaction(s: Seq<char>)
    ensures
        !holds_handle(redacted_text(s)),
{
    lemma_redacted_from(s, 0);
}

/// A handle never survives the trace boundary in a value either, however deep its text lies.
pub proof fn no_handle_survives_redaction_in_a_value(v: JsonView)
    ensures
        free_of_handles(redacted_value(v)),
    decreases v, 0nat,
{
    match v {
        JsonView::Text(s) => {
            no_handle_survives_redaction(s);
        },
        JsonView::Array(items) => {
            lemma_redacted_items(items);
        },
        JsonView::Object(entries) => {
            lemma_redacted_entries(entries);
        },
        _ => {},
    }
}

proof fn lemma_redacted_items(items: Seq<JsonView>)
    ensures
        redacted_items(items).len() == items.len(),
        forall|i: int| 0 <= i < items.len() ==> free_of_handles(#[trigger] redacted_items(items)[i]),
    decreases items, items.len(),
{
    if items.len() > 0 {
        lemma_redacted_items(items.drop_last());
        no_handle_survives_redaction_in_a_value(items.last());
    }
}

proof fn lemma_redacted_entries(entries: Seq<(Seq<char>, JsonView)>)
    ensures
        redacted_entries(entries).len() == entries.len(),
        forall|i: int|
            0 <= i < entries.len() ==> free_of_handles((#[trigger] redacted_entries(entries)[i]).1),
    decreases entries, entries.len(),
{
    if entries.len() > 0 {
        lemma_redacted_entries(entries.drop_last());
        no_handle_survives_redaction_in_a_value(entries.last().1);
    }
}

/// A run of segment characters behind a front ends where it ends without the front.
proof fn lemma_segment_shift(front: Seq<char>, rest: Seq<char>, k: int)
    requires
        0 <= k <= rest.len(),
    ensures
        segment_end(front + rest, front.len() + k) == front.len() + segment_end(rest, k),
    decreases rest.len() - k,
{
    let whole = front + rest;
    if k < rest.len() {
        assert(whole[front.len() + k] == rest[k]);
        if is_segment_char(rest[k]) {
            lemma_segment_shift(front, rest, k + 1);
        }
    }
}

/// A token behind a front is a token without the front.
proof fn lemma_token_shift(front: Seq<char>, rest: Seq<char>, k: int)
    requires
        0 <= k < rest.len(),
    ensures
        token_end(front + rest, front.len() + k) is Some ==> token_end(rest, k) is Some,
{
    let whole = front + rest;
    if token_end(whole, front.len() + k) is Some {
        assert(whole[front.len() + k] == rest[k]);
        assert(whole[front.len() + k + 1] == rest[k + 1]);
        assert(whole[front.len() + k + 2] == rest[k + 2]);
        assert(whole[front.len() + k + 3] == rest[k + 3]);
        lemma_segment_shift(front, rest, k + 4);
        lemma_segment_end(rest, k + 4);
        let first = segment_end(rest, k + 4);
        assert(whole[front.len() + first] == rest[first]);
        lemma_segment_shift(front, rest, first + 1);
    }
}

/// Inside a run every character is a segment character, and the one behind it is none.
proof fn lemma_segment_chars(s: Seq<char>, i: int)
    requires
        0 <= i <= s.len(),
    ensures
        forall|t: int| i <= t < segment_end(s, i) ==> is_segment_char(#[trigger] s[t]),
        segment_end(s, i) < s.len() ==> !is_segment_char(s[segment_end(s, i)]),
    decreases s.len() - i,
{
    lemma_segment_end(s, i);
    if i < s.len() && is_segment_char(s[i]) {
        lemma_segment_chars(s, i + 1);
    }
}

/// A run reaches at least as far as its characters do.
proof fn lemma_segment_reaches(s: Seq<char>, i: int, n: int)
    requires
        0 <= i <= n <= s.len(),
        forall|t: int| i <= t < n ==> is_segment_char(#[trigger] s[t]),
    ensures
        segment_end(s, i) >= n,
        n < s.len() && !is_segment_char(s[n]) ==> segment_end(s, i) == n,
    decreases n - i,
{
    lemma_segment_end(s, i);
    if i < n {
        assert(is_segment_char(s[i]));
        lemma_segment_reaches(s, i + 1, n);
    }
}

/// As long as a redacted text holds no `<`, it is the text itself.
proof fn lemma_kept(s: Seq<char>, i: int, n: int)
    requires
        0 <= i <= s.len(),
        0 <= n <= redacted_from(s, i).len(),
        forall|t: int| 0 <= t < n ==> #[trigger] redacted_from(s, i)[t] != '<',
    ensures
        i + n <= s.len(),
        forall|t: int| 0 <= t < n ==> #[trigger] redacted_from(s, i)[t] == s[i + t],
    decreases n,
{
    let out = redacted_from(s, i);
    if n > 0 && i < s.len() {
        assert(out[0] != '<');
        match token_end(s, i) {
            Some(end) => {
                a_token_ends_within(s, i);
                reveal_strlit("<handle:");
                assert(out[0] == '<');
            },
            None => {
                let rest = redacted_from(s, i + 1);
                assert(out == seq![s[i]] + rest);
                assert forall|t: int| 0 <= t < n - 1 implies #[trigger] rest[t] != '<' by {
                    assert(out[t + 1] == rest[t]);
                }
                lemma_kept(s, i + 1, n - 1);
                assert forall|t: int| 0 <= t < n implies #[trigger] out[t] == s[i + t] by {
                    if t > 0 {
                        assert(out[t] == rest[t - 1]);
                    }
                }
            },
        }
    }
}

/// A redacted text does not start with a token.
proof fn lemma_no_token_in_front(s: Seq<char>, i: int)
    requires
        0 <= i <= s.len(),
    ensures
        token_end(redacted_from(s, i), 0) is None,
{
    let out = redacted_from(s, i);
    if token_end(out, 0) is Some {
        let first = segment_end(out, 4);
        lemma_segment_end(out, 4);
        lemma_segment_chars(out, 4);
        lemma_segment_chars(out, first + 1);
        let n = first + 2;
        assert(is_segment_char(out[first + 1]));
        assert forall|t: int| 0 <= t < n implies #[trigger] out[t] != '<' by {
            if 4 <= t < first {
                assert(is_segment_char(out[t]));
            }
        }
        lemma_kept(s, i, n);
        assert(s[i] == out[0] && s[i + 1] == out[1] && s[i + 2] == out[2] && s[i + 3] == out[3]);
        assert(s[i + first] == out[first]);
        assert(s[i + first + 1] == out[first + 1]);
        assert forall|t: int| i + 4 <= t < i + first implies is_segment_char(#[trigger] s[t]) by {
            assert(out[t - i] == s[i + (t - i)]);
        }
        lemma_segment_reaches(s, i + 4, i + first);
        assert(segment_end(s, i + 4) == i + first);
        lemma_segment_reaches(s, i + first + 1, i + first + 2);
        assert(token_end(s, i) is Some);
        a_token_ends_within(s, i);
        reveal_strlit("<handle:");
        assert(out[0] == '<');
    }
}

/// What stands for a handle holds no `m`, so no token starts in it.
proof fn lemma_shown(token: Seq<char>)
    ensures
        forall|t: int|
            0 <= t < ("<handle:"@ + mac_token::id_of(token) + ">"@).len() ==> #[trigger] (
            "<handle:"@ + mac_token::id_of(token) + ">"@)[t] != 'm',
{
    reveal_strlit("<handle:");
    reveal_strlit(">");
    let digest = codec::sha256_digest(codec::utf8(token))@;
    codec::hex_is_two_digits_a_byte(digest);
    let id = mac_token::id_of(token);
    assert forall|t: int| 0 <= t < id.len() implies #[trigger] id[t] != 'm' by {
        assert(id[t] == codec::hex(digest)[t]);
    }
    let shown = "<handle:"@ + id + ">"@;
    assert forall|t: int| 0 <= t < shown.len() implies #[trigger] shown[t] != 'm' by {
        if 8 <= t < 8 + id.len() {
            assert(shown[t] == id[t - 8]);
        }
    }
}

/// A text redacted from anywhere on holds no token.
proof fn lemma_redacted_from(s: Seq<char>, i: int)
    requires
        0 <= i <= s.len(),
    ensures
        !holds_handle(redacted_from(s, i)),
    decreases s.len() - i,
{
    let out = redacted_from(s, i);
    assert forall|j: int| 0 <= j < out.len() implies #[trigger] token_end(out, j) is None by {
        if j == 0 {
            lemma_no_token_in_front(s, i);
        } else {
            match token_end(s, i) {
                Some(end) => {
                    a_token_ends_within(s, i);
                    let token = s.subrange(i, end);
                    let shown = "<handle:"@ + mac_token::id_of(token) + ">"@;
                    let rest = redacted_from(s, end);
                    assert(out == shown + rest);
                    if j < shown.len() {
                        lemma_shown(token);
                        assert(out[j] == shown[j]);
                    } else {
                        lemma_redacted_from(s, end);
                        lemma_token_shift(shown, rest, j - shown.len());
                        assert(token_end(rest, j - shown.len()) is None);
                    }
                },
                None => {
                    let front = seq![s[i]];
                    let rest = redacted_from(s, i + 1);
                    assert(out == front + rest);
                    lemma_redacted_from(s, i + 1);
                    lemma_token_shift(front, rest, j - 1);
                    assert(token_end(rest, j - 1) is None);
                },
            }
        }
    }
}

/// Every minted token reads as a handle, whole, so redaction finds it wherever it stands at the
/// front of what is left to read.
pub proof fn a_minted_token_reads_as_a_handle(
    key: Seq<u8>,
    payload: PayloadView,
    audience: Seq<char>,
    behind: Seq<char>,
)
    requires
        behind.len() > 0 ==> !is_segment_char(behind[0]),
    ensures
        token_end(minted(key, payload, audience) + behind, 0) == Some(
            minted(key, payload, audience).len() as int,
        ),
{
    let sealed_payload = codec::b64(encoded(payload));
    let sig = mac_token::signature(
        key,
        mac_domain(),
        sealed_payload,
        Seq::<Seq<char>>::empty().push(audience),
    );
    let token = minted(key, payload, audience);
    let s = token + behind;
    reveal_strlit("mh1");
    reveal_strlit(".");
    lemma_record(payload);
    lemma_bytes(json::render(record_of(payload)));
    codec::b64_is_url_safe(encoded(payload));
    codec::b64_is_url_safe(sig);
    let first: int = 4 + sealed_payload.len() as int;
    let second: int = first + 1 + codec::b64(sig).len() as int;
    assert(token.len() == second);
    assert forall|t: int| 4 <= t < first implies is_segment_char(#[trigger] s[t]) by {
        assert(s[t] == sealed_payload[t - 4]);
    }
    assert(s[first] == '.');
    assert forall|t: int| first + 1 <= t < second implies is_segment_char(#[trigger] s[t]) by {
        assert(s[t] == codec::b64(sig)[t - first - 1]);
    }
    lemma_segment_reaches(s, 4, first);
    lemma_segment_reaches(s, first + 1, second);
    lemma_segment_end(s, first + 1);
    if behind.len() > 0 {
        assert(s[second] == behind[0]);
    }
}

/// A handle lives for the time asked, and no longer than the ceiling: without one, for the ceiling.
pub proof fn a_handle_lives_for_the_time_asked(now_ms: u64, max_ttl_secs: u64, ttl_secs: u64)
    requires
        now_ms + max_ttl_secs * 1000 <= u64::MAX,
    ensures
        expiry(now_ms, max_ttl_secs, None) == now_ms + max_ttl_secs * 1000,
        ttl_secs <= max_ttl_secs ==> expiry(now_ms, max_ttl_secs, Some(ttl_secs)) == now_ms
            + ttl_secs * 1000,
        ttl_secs > max_ttl_secs ==> expiry(now_ms, max_ttl_secs, Some(ttl_secs)) == now_ms
            + max_ttl_secs * 1000,
{
}

/// A token verifies only with the tag that the key gives it for the audience, and only in the
/// session that issued it, before its expiry.
pub proof fn a_verified_handle_was_signed(
    key: Seq<u8>,
    token: Seq<char>,
    audience: Seq<char>,
    session_id: Seq<char>,
    now_ms: u64,
)
    requires
        verified(key, token, audience, session_id, now_ms) is Ok,
    ensures
        mac_token::segments(TOKEN_VERSION_TAG@, token) is Some,
        ({
            let (text, bytes, tag) = mac_token::segments(TOKEN_VERSION_TAG@, token)->0;
            let payload = verified(key, token, audience, session_id, now_ms)->Ok_0;
            &&& tag == mac_token::signature(
                key,
                mac_domain(),
                text,
                Seq::<Seq<char>>::empty().push(audience),
            )
            &&& decoded(bytes) == Some(payload)
            &&& payload.iss == session_id
            &&& payload.exp > now_ms
        }),
{
}

/// A handle minted here verifies for its audience until it expires, and from then on is told to
/// have expired.
pub proof fn a_minted_handle_verifies_until_it_expires(
    session_id: Seq<char>,
    path: Seq<char>,
    exp: u64,
    nonce: Seq<char>,
    now_ms: u64,
)
    ensures
        ({
            let payload = PayloadView {
                v: PAYLOAD_VERSION,
                iss: session_id,
                p: path,
                exp,
                n: nonce,
            };
            accepted(Some(payload), session_id, now_ms) == (if now_ms < exp {
                Ok::<PayloadView, HandleError>(payload)
            } else {
                Err::<PayloadView, HandleError>(HandleError::Expired)
            })
        }),
{
}

/// Each field of a payload stands in its record under its own key.
pub proof fn a_payload_is_recorded_field_by_field(p: PayloadView)
    ensures
        json::text_entry(record_of(p), "iss"@) == Some(p.iss),
        json::text_entry(record_of(p), "p"@) == Some(p.p),
        json::text_entry(record_of(p), "n"@) == Some(p.n),
        json::entry(record_of(p), "exp"@) == Some(JsonView::Number(NumberView::Unsigned(p.exp))),
        json::entry(record_of(p), "v"@) == Some(
            JsonView::Number(NumberView::Unsigned(p.v as u64)),
        ),
{
    reveal_strlit("v");
    reveal_strlit("iss");
    reveal_strlit("p");
    reveal_strlit("exp");
    reveal_strlit("n");
    assert("v"@[0] == 'v' && "iss"@[0] == 'i' && "p"@[0] == 'p' && "exp"@[0] == 'e' && "n"@[0]
        == 'n');
    let entries = record_of(p)->Object_0;
    reveal_with_fuel(json::entry_in, 6);
    assert(entries.len() == 5);
    assert(entries[0].0 == "v"@ && entries[1].0 == "iss"@ && entries[2].0 == "p"@ && entries[3].0
        == "exp"@ && entries[4].0 == "n"@);
}

/// A path beneath the plane's names the token behind it, whatever query follows, and a path that
/// only begins with the same letters is not on the plane.
pub proof fn a_path_names_its_token(token: Seq<char>, query: Seq<char>, other: Seq<char>)
    requires
        token.len() > 0,
        !token.contains('?'),
        other.len() > 0,
        other[0] != '/' && other[0] != '?',
        !other.contains('?'),
    ensures
        token_in(PEER_PATH_PREFIX@ + "/"@ + token) == Some(token),
        token_in(PEER_PATH_PREFIX@ + "/"@ + token + seq!['?'] + query) == Some(token),
        on_peer_plane(PEER_PATH_PREFIX@ + "/"@ + token + seq!['?'] + query),
        on_peer_plane(PEER_PATH_PREFIX@),
        !on_peer_plane(PEER_PATH_PREFIX@ + other),
        token_in(PEER_PATH_PREFIX@ + other) is None,
{
    reveal_strlit("/");
    let slashed = PEER_PATH_PREFIX@ + "/"@;
    let path = slashed + token;
    lemma_prefix_has_no_query();
    assert forall|i: int| 0 <= i < path.len() implies path[i] != '?' by {
        if i < PEER_PATH_PREFIX@.len() {
            assert(path[i] == PEER_PATH_PREFIX@[i]);
            assert(PEER_PATH_PREFIX@.contains(path[i]) || path[i] != '?');
        } else if i >= slashed.len() {
            assert(path[i] == token[i - slashed.len()]);
            assert(token.contains(path[i]));
        }
    }
    text::splitting_cuts_at_every_one(path, '?', query);
    text::splitting_cuts_at_every_one(PEER_PATH_PREFIX@, '?', query);
    assert(without_query(path) == path);
    assert(without_query(path + seq!['?'] + query) == path);
    assert(path.skip(slashed.len() as int) =~= token);
    assert(slashed.is_prefix_of(path));
    let beside = PEER_PATH_PREFIX@ + other;
    assert forall|i: int| 0 <= i < beside.len() implies beside[i] != '?' by {
        if i < PEER_PATH_PREFIX@.len() {
            assert(beside[i] == PEER_PATH_PREFIX@[i]);
            assert(PEER_PATH_PREFIX@.contains(beside[i]) || beside[i] != '?');
        } else {
            assert(beside[i] == other[i - PEER_PATH_PREFIX@.len()]);
            assert(other.contains(beside[i]));
        }
    }
    text::splitting_cuts_at_every_one(beside, '?', query);
    assert(without_query(beside) == beside);
    let at = PEER_PATH_PREFIX@.len() as int;
    assert(beside[at] == other[0]);
    assert(slashed[at] == '/');
    if slashed.is_prefix_of(beside) {
        assert(slashed[at] == beside[at]);
    }
}

proof fn lemma_prefix_has_no_query()
    ensures
        forall|i: int| 0 <= i < PEER_PATH_PREFIX@.len() ==> #[trigger] PEER_PATH_PREFIX@[i] != '?',
{
    reveal_strlit("/resources/peer");
}

/// A stored name keeps a plain hint as it is, keeps only what follows the last slash, and replaces
/// each character that is not plain by an underscore, in place.
pub proof fn a_stored_name_keeps_its_hint(front: Seq<char>, name: Seq<char>)
    requires
        0 < name.len() <= 120,
        !name.contains('/'),
        name != "."@ && name != ".."@,
    ensures
        safe_name(Some(front + seq!['/'] + name)) == safe_name(Some(name)),
        safe_name(Some(name)).len() == name.len(),
        forall|i: int|
            0 <= i < name.len() ==> #[trigger] safe_name(Some(name))[i] == (if is_plain_in_a_name(
                name[i],
            ) {
                name[i]
            } else {
                '_'
            }),
{
    text::splitting_cuts_at_every_one(front, '/', name);
    text::splitting_cuts_at_every_one(name, '/', name);
    let pieces = text::split_on(front, '/') + text::split_on(name, '/');
    assert(pieces.last() == name);
    reveal_strlit(".");
    reveal_strlit("..");
    reveal_strlit("file");
    let mapped = name.map_values(|c: char| safe_char(c));
    if mapped == "."@ {
        assert(mapped[0] == safe_char(name[0]));
        assert(name =~= "."@);
    }
    if mapped == ".."@ {
        assert(mapped[0] == safe_char(name[0]) && mapped[1] == safe_char(name[1]));
        assert(name =~= ".."@);
    }
}

/// The characters a stored name may hold.
pub open spec fn is_plain_in_a_name(c: char) -> bool {
    ||| 'a' <= c <= 'z'
    ||| 'A' <= c <= 'Z'
    ||| '0' <= c <= '9'
    ||| c == '.'
    ||| c == '_'
    ||| c == '-'
}

/// An audience is asserted by a header that is not blank, and the blanks around it do not count.
pub proof fn blanks_around_an_audience_do_not_count(
    front: Seq<char>,
    audience: Seq<char>,
    back: Seq<char>,
)
    requires
        text::all_blank(front),
        text::all_blank(back),
        audience.len() > 0,
        !text::is_space(audience[0]),
        !text::is_space(audience.last()),
    ensures
        asserted(Some(front + audience + back)) == Some(audience),
        asserted(Some(front)) is None,
        asserted(None) is None,
{
    text::trimming_leaves_the_middle(front, audience, back);
    let none = Seq::<char>::empty();
    assert(front =~= front + none + none);
    text::trimming_leaves_the_middle(front, none, none);
}

/// Redaction goes on behind what it replaced, and what holds no handle is left as it is.
pub proof fn redaction_replaces_only_the_handle(
    key: Seq<u8>,
    payload: PayloadView,
    audience: Seq<char>,
    behind: Seq<char>,
)
    requires
        behind.len() > 0 ==> !is_segment_char(behind[0]),
    ensures
        redacted_from(minted(key, payload, audience) + behind, 0) == "<handle:"@ + mac_token::id_of(
            minted(key, payload, audience),
        ) + ">"@ + redacted_from(
            minted(key, payload, audience) + behind,
            minted(key, payload, audience).len() as int,
        ),
{
    let token = minted(key, payload, audience);
    a_minted_token_reads_as_a_handle(key, payload, audience, behind);
    a_token_ends_within(token + behind, 0);
    assert((token + behind).subrange(0, token.len() as int) =~= token);
}

/// A name longer than a stored name may be is cut at its end.
pub proof fn a_long_name_is_cut(name: Seq<char>)
    requires
        name.len() > 120,
        !name.contains('/'),
    ensures
        safe_name(Some(name)).len() == 120,
        safe_name(Some(name)) == safe_name(Some(name.take(120))),
{
    let cut = name.take(120);
    assert(!cut.contains('/')) by {
        if cut.contains('/') {
            let i = choose|i: int| 0 <= i < cut.len() && cut[i] == '/';
            assert(name[i] == '/');
        }
    }
    text::splitting_cuts_at_every_one(name, '/', name);
    text::splitting_cuts_at_every_one(cut, '/', cut);
    assert(text::split_on(name, '/').last() == name);
    assert(text::split_on(cut, '/').last() == cut);
    assert(cut.map_values(|c: char| safe_char(c)).len() == 120);
    reveal_strlit(".");
    reveal_strlit("..");
}

/// Redaction keeps the shape of a value: every item stands where it stood, and every key.
pub proof fn redaction_keeps_the_shape(
    items: Seq<JsonView>,
    item: JsonView,
    entries: Seq<(Seq<char>, JsonView)>,
    key: Seq<char>,
)
    ensures
        redacted_value(JsonView::Array(items.push(item))) == JsonView::Array(
            redacted_value(JsonView::Array(items))->Array_0.push(redacted_value(item)),
        ),
        redacted_value(JsonView::Object(entries.push((key, item)))) == JsonView::Object(
            redacted_value(JsonView::Object(entries))->Object_0.push((key, redacted_value(item))),
        ),
        redacted_value(JsonView::Array(Seq::empty())) == JsonView::Array(Seq::empty()),
        redacted_value(JsonView::Object(Seq::empty())) == JsonView::Object(Seq::empty()),
        item is Number || item is Bool || item is Null ==> redacted_value(item) == item,
{
    assert(items.push(item).drop_last() =~= items);
    assert(entries.push((key, item)).drop_last() =~= entries);
}

} // verus!
