//! One opaque token grammar, and the memory-only key that seals it.
//!
//! ```text
//! <tag> "." base64url-nopad(payload) "." base64url-nopad(HMAC-SHA256)
//! ```
//!
//! A token is bound to its family by two values a caller cannot influence: the tag, compared before
//! the MAC, and the MAC domain, mixed into it. Verification order is fixed — shape, then MAC, then
//! payload — and a value passed as `bound_to` is covered by the MAC without being carried in the
//! token.

use crate::codec;
use crate::text;
use vstd::prelude::*;

verus! {

/// Nonce width in bytes, for a payload field that has to distinguish two otherwise identical
/// tokens.
pub const NONCE_BYTES: usize = 16;

/// Width of a [`token_id`], in lower-case hexadecimal characters.
pub const TOKEN_ID_HEX_CHARS: usize = 16;

/// Separator between the MAC input's fields. It cannot occur in base64url.
pub const MAC_FIELD_SEPARATOR: u8 = 0x1f;

/// The 32-byte HMAC key one authority mints and verifies with. It never leaves this type.
pub struct MintKey {
    bytes: [u8; 32],
}

impl MintKey {
    /// The key's bytes, for contracts.
    pub closed spec fn material(&self) -> Seq<u8> {
        self.bytes@
    }

    /// A key made of given bytes.
    pub fn from_bytes(bytes: [u8; 32]) -> (r: Self)
        ensures
            r.material() == bytes@,
    {
        MintKey { bytes }
    }

    /// A key made of thirty-two given bytes.
    pub(crate) fn from_slice(v: &[u8]) -> (r: Self)
        requires
            v@.len() == 32,
        ensures
            r.material() == v@,
    {
        let mut bytes = [0u8;32];
        let mut i: usize = 0;
        while i < 32
            invariant
                i <= 32,
                v@.len() == 32,
                bytes@.len() == 32,
                forall|j: int| 0 <= j < i ==> bytes@[j] == v@[j],
            decreases 32 - i,
        {
            bytes[i] = v[i];
            i += 1;
        }
        proof {
            assert(bytes@ =~= v@);
        }
        MintKey { bytes }
    }

    /// 32 bytes from the operating system, or why there are none.
    pub fn generate() -> (r: Result<Self, String>)
        ensures
            r is Ok ==> r->Ok_0.material().len() == 32,
            r is Err ==> text::says(r->Err_0@, "failed to generate a mint key: "@),
    {
        MintKey::from_drawn(codec::random_bytes(32))
    }

    /// The key that a draw of 32 bytes comes to: a key made of exactly those bytes, or, where the
    /// draw failed, why there is none.
    pub fn from_drawn(drawn: Result<Vec<u8>, String>) -> (r: Result<Self, String>)
        requires
            drawn is Ok ==> drawn->Ok_0@.len() == 32,
        ensures
            match (r, drawn) {
                (Ok(key), Ok(bytes)) => key.material() == bytes@,
                (Err(why), Err(error)) => why@ == "failed to generate a mint key: "@ + error@,
                _ => false,
            },
    {
        match drawn {
            Ok(v) => Ok(MintKey::from_slice(v.as_slice())),
            Err(error) => Err(text::cat2("failed to generate a mint key: ", error.as_str())),
        }
    }

    /// Whether the key is made of exactly these bytes.
    pub fn is_made_of(&self, bytes: &[u8; 32]) -> (r: bool)
        ensures
            r == (self.material() == bytes@),
    {
        let mut i: usize = 0;
        while i < 32
            invariant
                i <= 32,
                self.bytes@.len() == 32,
                bytes@.len() == 32,
                forall|j: int| 0 <= j < i ==> self.bytes@[j] == bytes@[j],
            decreases 32 - i,
        {
            if self.bytes[i] != bytes[i] {
                return false;
            }
            i += 1;
        }
        proof {
            assert(self.bytes@ =~= bytes@);
        }
        true
    }

    /// Overwrites every byte of the key with zero.
    pub fn zeroize(&mut self)
        ensures
            final(self).material().len() == 32,
            forall|i: int| 0 <= i < 32 ==> #[trigger] final(self).material()[i] == 0,
        opens_invariants none
        no_unwind
    {
        let mut i: usize = 0;
        while i < 32
            invariant
                i <= 32,
                self.bytes@.len() == 32,
                forall|j: int| 0 <= j < i ==> self.bytes@[j] == 0,
            decreases 32 - i,
        {
            self.bytes[i] = 0;
            i += 1;
        }
    }

    /// How a key is printed: with none of its material.
    pub fn redacted(&self) -> (r: String)
        ensures
            r@ == "MintKey(<redacted>)"@,
    {
        "MintKey(<redacted>)".to_owned()
    }
}

impl Drop for MintKey {
    /// A key's bytes do not outlive it.
    fn drop(&mut self)
        opens_invariants none
        no_unwind
    {
        self.zeroize();
    }
}

/// Why a token's shape or MAC was not accepted. Two variants and not more: a tampered payload and a
/// token minted under another key look the same.
#[derive(Debug, Clone, Copy, PartialEq, Eq, Structural)]
pub enum MacTokenError {
    /// Not `<tag>.<base64url>.<base64url>`, or a segment that is not base64url, or empty.
    Malformed,
    /// MAC verification failed, for any reason at all.
    NotValid,
}

/// The identifier of a token: the first sixteen hexadecimal digits of its SHA-256 digest.
pub open spec fn id_of(token: Seq<char>) -> Seq<char> {
    codec::hex(codec::sha256_digest(codec::utf8(token))@).take(16)
}

/// The stable identifier a mint and a redemption are correlated by. This, never the token, is what
/// may appear in a trace.
pub fn token_id(token: &str) -> (r: String)
    ensures
        r@ == id_of(token@),
        r@.len() == TOKEN_ID_HEX_CHARS,
        r@.is_prefix_of(codec::hex(codec::sha256_digest(codec::utf8(token@))@)),
{
    let digest = codec::sha256(token.as_bytes());
    let all = codec::hex_of(&digest);
    proof {
        codec::hex_is_two_digits_a_byte(digest@);
    }
    let chars = text::chars_of(all.as_str());
    let r = text::slice_text(&chars, 0, TOKEN_ID_HEX_CHARS);
    proof {
        assert(r@ =~= all@.take(16));
    }
    r
}

/// `bytes` random bytes in hexadecimal: two digits each, whatever they are. No text is longer than
/// `isize::MAX` bytes.
pub fn random_hex(bytes: usize) -> (r: Result<String, String>)
    requires
        2 * bytes <= isize::MAX,
    ensures
        r is Ok ==> exists|b: Seq<u8>| b.len() == bytes && #[trigger] codec::hex(b) == r->Ok_0@,
        r is Err ==> text::says(r->Err_0@, "failed to generate a nonce: "@),
{
    match codec::random_bytes(bytes) {
        Ok(v) => Ok(codec::hex_of(v.as_slice())),
        Err(error) => Err(text::cat2("failed to generate a nonce: ", error.as_str())),
    }
}

// ── The MAC input ────────────────────────────────────────────────────────────

/// Fields one after another with the separator between neighbours.
pub open spec fn join_fields(fields: Seq<Seq<u8>>) -> Seq<u8>
    decreases fields.len(),
{
    if fields.len() == 0 {
        Seq::empty()
    } else if fields.len() == 1 {
        fields[0]
    } else {
        fields[0] + seq![MAC_FIELD_SEPARATOR] + join_fields(fields.drop_first())
    }
}

/// The characters of the bound values.
pub open spec fn bound_texts(bound_to: Seq<&str>) -> Seq<Seq<char>> {
    bound_to.map_values(|s: &str| s@)
}

/// The fields a token's MAC is taken over: the domain, the payload's base64 text, then each bound
/// value.
pub open spec fn mac_fields(
    domain: Seq<u8>,
    payload_b64: Seq<char>,
    bound: Seq<Seq<char>>,
) -> Seq<Seq<u8>> {
    seq![domain, codec::utf8(payload_b64)] + bound.map_values(|s: Seq<char>| codec::utf8(s))
}

/// The bytes a token's MAC is taken over.
pub open spec fn mac_bytes(
    domain: Seq<u8>,
    payload_b64: Seq<char>,
    bound: Seq<Seq<char>>,
) -> Seq<u8> {
    join_fields(mac_fields(domain, payload_b64, bound))
}

proof fn lemma_join_fields_push(fields: Seq<Seq<u8>>, last: Seq<u8>)
    requires
        fields.len() > 0,
    ensures
        join_fields(fields.push(last)) == join_fields(fields) + seq![MAC_FIELD_SEPARATOR] + last,
    decreases fields.len(),
{
    let all = fields.push(last);
    assert(all.drop_first() =~= fields.drop_first().push(last));
    if fields.len() == 1 {
        assert(all.drop_first() =~= seq![last]);
        assert(join_fields(all.drop_first()) =~= last);
    } else {
        lemma_join_fields_push(fields.drop_first(), last);
        assert(join_fields(all) =~= join_fields(fields) + seq![MAC_FIELD_SEPARATOR] + last);
    }
}

/// The bytes a token's MAC is taken over.
pub fn mac_input(domain: &[u8], payload_b64: &str, bound_to: &[&str]) -> (r: Vec<u8>)
    ensures
        r@ == mac_bytes(domain@, payload_b64@, bound_texts(bound_to@)),
{
    let mut input: Vec<u8> = Vec::new();
    codec::append(&mut input, domain);
    input.push(MAC_FIELD_SEPARATOR);
    codec::append(&mut input, payload_b64.as_bytes());
    let ghost bound = bound_texts(bound_to@);
    let ghost head = seq![domain@, codec::utf8(payload_b64@)];
    let mut i: usize = 0;
    proof {
        let fields = mac_fields(domain@, payload_b64@, bound.take(0));
        assert(fields =~= head);
        assert(head.drop_first() =~= seq![codec::utf8(payload_b64@)]);
        assert(join_fields(head.drop_first()) =~= codec::utf8(payload_b64@));
        assert(input@ =~= join_fields(fields));
    }
    while i < bound_to.len()
        invariant
            i <= bound_to@.len(),
            bound == bound_texts(bound_to@),
            input@ == mac_bytes(domain@, payload_b64@, bound.take(i as int)),
        decreases bound_to@.len() - i,
    {
        input.push(MAC_FIELD_SEPARATOR);
        codec::append(&mut input, bound_to[i].as_bytes());
        proof {
            let fields = mac_fields(domain@, payload_b64@, bound.take(i as int));
            let next = mac_fields(domain@, payload_b64@, bound.take(i + 1));
            assert(next =~= fields.push(codec::utf8(bound_to@[i as int]@)));
            lemma_join_fields_push(fields, codec::utf8(bound_to@[i as int]@));
            assert(input@ =~= join_fields(next));
        }
        i += 1;
    }
    proof {
        assert(bound.take(bound.len() as int) =~= bound);
    }
    input
}

/// Whether no field holds the separator.
pub open spec fn unambiguous(fields: Seq<Seq<u8>>) -> bool {
    forall|i: int| 0 <= i < fields.len() ==> !(#[trigger] fields[i]).contains(MAC_FIELD_SEPARATOR)
}

proof fn lemma_front_field(a: Seq<u8>, b: Seq<u8>, x: Seq<u8>, y: Seq<u8>)
    requires
        !a.contains(MAC_FIELD_SEPARATOR),
        !b.contains(MAC_FIELD_SEPARATOR),
        a + seq![MAC_FIELD_SEPARATOR] + x == b + seq![MAC_FIELD_SEPARATOR] + y,
    ensures
        a == b,
        x == y,
{
    let s = a + seq![MAC_FIELD_SEPARATOR] + x;
    let t = b + seq![MAC_FIELD_SEPARATOR] + y;
    assert(s[a.len() as int] == MAC_FIELD_SEPARATOR);
    assert(t[b.len() as int] == MAC_FIELD_SEPARATOR);
    if a.len() < b.len() {
        assert(t[a.len() as int] == b[a.len() as int]);
        assert(b.contains(b[a.len() as int]));
    }
    if b.len() < a.len() {
        assert(s[b.len() as int] == a[b.len() as int]);
        assert(a.contains(a[b.len() as int]));
    }
    assert(a =~= s.take(a.len() as int));
    assert(b =~= t.take(b.len() as int));
    assert(x =~= s.skip(a.len() as int + 1));
    assert(y =~= t.skip(b.len() as int + 1));
}

/// No two different lists of fields give the same MAC input by moving a boundary between them.
pub proof fn mac_input_is_unambiguous(a: Seq<Seq<u8>>, b: Seq<Seq<u8>>)
    requires
        a.len() > 0,
        b.len() > 0,
        unambiguous(a),
        unambiguous(b),
        join_fields(a) == join_fields(b),
    ensures
        a == b,
    decreases a.len(),
{
    assert(!a[0].contains(MAC_FIELD_SEPARATOR));
    assert(!b[0].contains(MAC_FIELD_SEPARATOR));
    if a.len() == 1 && b.len() == 1 {
        assert(a =~= b);
    } else if a.len() == 1 {
        let t = join_fields(b);
        assert(t[b[0].len() as int] == MAC_FIELD_SEPARATOR);
        assert(a[0].contains(t[b[0].len() as int]));
    } else if b.len() == 1 {
        let t = join_fields(a);
        assert(t[a[0].len() as int] == MAC_FIELD_SEPARATOR);
        assert(b[0].contains(t[a[0].len() as int]));
    } else {
        lemma_front_field(
            a[0],
            b[0],
            join_fields(a.drop_first()),
            join_fields(b.drop_first()),
        );
        assert forall|i: int| 0 <= i < a.drop_first().len() implies !(
        #[trigger] a.drop_first()[i]).contains(MAC_FIELD_SEPARATOR) by {
            assert(!a[i + 1].contains(MAC_FIELD_SEPARATOR));
        }
        assert forall|i: int| 0 <= i < b.drop_first().len() implies !(
        #[trigger] b.drop_first()[i]).contains(MAC_FIELD_SEPARATOR) by {
            assert(!b[i + 1].contains(MAC_FIELD_SEPARATOR));
        }
        mac_input_is_unambiguous(a.drop_first(), b.drop_first());
        assert(a =~= seq![a[0]] + a.drop_first());
        assert(b =~= seq![b[0]] + b.drop_first());
    }
}

/// Under one domain, whatever the bound values hold: two different payload texts without the
/// separator, as base64url is, never give the same MAC input, and one payload text never does with
/// two different bound values.
pub proof fn payload_texts_never_share_a_mac_input(
    domain: Seq<u8>,
    p1: Seq<char>,
    bound1: Seq<Seq<char>>,
    p2: Seq<char>,
    bound2: Seq<Seq<char>>,
)
    requires
        !codec::utf8(p1).contains(MAC_FIELD_SEPARATOR),
        !codec::utf8(p2).contains(MAC_FIELD_SEPARATOR),
        mac_bytes(domain, p1, bound1) == mac_bytes(domain, p2, bound2),
    ensures
        p1 == p2,
        bound1.len() == 0 <==> bound2.len() == 0,
        bound1.len() == 1 && bound2.len() == 1 ==> bound1 == bound2,
{
    let a = mac_fields(domain, p1, bound1);
    let b = mac_fields(domain, p2, bound2);
    let s = join_fields(a.drop_first());
    let t = join_fields(b.drop_first());
    let front = domain + seq![MAC_FIELD_SEPARATOR];
    assert(s =~= (front + s).skip(front.len() as int));
    assert(t =~= (front + t).skip(front.len() as int));
    let x = codec::utf8(p1);
    let y = codec::utf8(p2);
    assert(a.drop_first()[0] == x && b.drop_first()[0] == y);
    if bound1.len() == 0 && bound2.len() == 0 {
        assert(x == y);
    } else if bound1.len() == 0 {
        assert(t[y.len() as int] == MAC_FIELD_SEPARATOR);
        assert(x.contains(t[y.len() as int]));
    } else if bound2.len() == 0 {
        assert(s[x.len() as int] == MAC_FIELD_SEPARATOR);
        assert(y.contains(s[x.len() as int]));
    } else {
        let rest1 = a.drop_first().drop_first();
        let rest2 = b.drop_first().drop_first();
        lemma_front_field(x, y, join_fields(rest1), join_fields(rest2));
        if bound1.len() == 1 && bound2.len() == 1 {
            assert(rest1[0] == codec::utf8(bound1[0]));
            assert(rest2[0] == codec::utf8(bound2[0]));
            codec::text_round_trips(bound1[0]);
            codec::text_round_trips(bound2[0]);
            assert(bound1 =~= bound2);
        }
    }
    codec::text_round_trips(p1);
    codec::text_round_trips(p2);
}

/// The separator cannot occur in base64url.
proof fn lemma_b64_without_separator(payload: Seq<u8>)
    ensures
        !codec::utf8(codec::b64(payload)).contains(MAC_FIELD_SEPARATOR),
{
    let e = codec::b64(payload);
    codec::b64_is_url_safe(payload);
    assert(vstd::utf8::is_ascii_chars(e)) by {
        assert forall|i: int| 0 <= i < e.len() implies '\0' <= #[trigger] e[i] <= '\u{7f}' by {
            assert(codec::is_b64_char(e[i]));
        }
    }
    vstd::utf8::is_ascii_chars_encode_utf8(e);
    assert forall|i: int| 0 <= i < e.len() implies #[trigger] codec::utf8(e)[i]
        != MAC_FIELD_SEPARATOR by {
        assert(codec::is_b64_char(e[i]));
    }
}

/// Under one domain two different payloads never give the same MAC input, whatever values they are
/// bound to, and nor do two different values a payload is bound to alone.
pub proof fn different_payloads_never_share_a_mac_input(
    domain: Seq<u8>,
    payload1: Seq<u8>,
    bound1: Seq<Seq<char>>,
    payload2: Seq<u8>,
    bound2: Seq<Seq<char>>,
)
    requires
        mac_bytes(domain, codec::b64(payload1), bound1) == mac_bytes(
            domain,
            codec::b64(payload2),
            bound2,
        ),
    ensures
        payload1 == payload2,
        bound1.len() == 0 <==> bound2.len() == 0,
        bound1.len() == 1 && bound2.len() == 1 ==> bound1 == bound2,
{
    lemma_b64_without_separator(payload1);
    lemma_b64_without_separator(payload2);
    payload_texts_never_share_a_mac_input(
        domain,
        codec::b64(payload1),
        bound1,
        codec::b64(payload2),
        bound2,
    );
    codec::b64_is_injective(payload1, payload2);
}

// ── The token ────────────────────────────────────────────────────────────────

/// The tag of a token over this payload and these bound values.
pub open spec fn signature(
    key: Seq<u8>,
    domain: Seq<u8>,
    payload_b64: Seq<char>,
    bound: Seq<Seq<char>>,
) -> Seq<u8> {
    codec::hmac_tag(key, mac_bytes(domain, payload_b64, bound))@
}

/// The token sealed over a payload.
pub open spec fn sealed(
    key: Seq<u8>,
    tag: Seq<char>,
    domain: Seq<u8>,
    payload: Seq<u8>,
    bound: Seq<Seq<char>>,
) -> Seq<char> {
    tag + "."@ + codec::b64(payload) + "."@ + codec::b64(
        signature(key, domain, codec::b64(payload), bound),
    )
}

/// A token's payload text, payload and signature, when it is three non-empty segments of which the
/// first is the tag and the others decode.
pub open spec fn segments(tag: Seq<char>, token: Seq<char>) -> Option<
    (Seq<char>, Seq<u8>, Seq<u8>),
> {
    let parts = text::split_on(token, '.');
    if parts.len() == 3 && parts[0] == tag {
        match (codec::unb64(parts[1]), codec::unb64(parts[2])) {
            (Some(payload), Some(sig)) => if payload.len() > 0 && sig.len() > 0 {
                Some((parts[1], payload, sig))
            } else {
                None
            },
            _ => None,
        }
    } else {
        None
    }
}

/// What opening a token gives: its payload when its signature is the one its payload and the bound
/// values have under the key.
pub open spec fn opened(
    key: Seq<u8>,
    tag: Seq<char>,
    domain: Seq<u8>,
    token: Seq<char>,
    bound: Seq<Seq<char>>,
) -> Result<Seq<u8>, MacTokenError> {
    match segments(tag, token) {
        None => Err(MacTokenError::Malformed),
        Some(parts) => if parts.2 == signature(key, domain, parts.0, bound) {
            Ok(parts.1)
        } else {
            Err(MacTokenError::NotValid)
        },
    }
}

/// The bytes a result carries.
pub open spec fn payload_view(r: Result<Vec<u8>, MacTokenError>) -> Result<
    Seq<u8>,
    MacTokenError,
> {
    match r {
        Ok(v) => Ok(v@),
        Err(e) => Err(e),
    }
}

/// Mints one token over `payload`, for the family named by `tag` and `domain`. Each value in
/// `bound_to` is covered by the MAC and left out of the token.
pub fn seal(key: &MintKey, tag: &str, domain: &[u8], payload: &[u8], bound_to: &[&str]) -> (r:
    String)
    ensures
        r@ == sealed(key.material(), tag@, domain@, payload@, bound_texts(bound_to@)),
{
    let payload_b64 = codec::b64_encode(payload);
    let input = mac_input(domain, payload_b64.as_str(), bound_to);
    let sig = codec::b64_encode(&codec::hmac_sha256(&key.bytes, input.as_slice()));
    text::cat5(tag, ".", payload_b64.as_str(), ".", sig.as_str())
}

/// A token's payload text, payload and signature, checked for shape alone.
fn split_token(tag: &str, token: &str) -> (r: Option<(String, Vec<u8>, Vec<u8>)>)
    ensures
        match (r, segments(tag@, token@)) {
            (Some(p), Some(q)) => p.0@ == q.0 && p.1@ == q.1 && p.2@ == q.2,
            (None, None) => true,
            _ => false,
        },
{
    let parts = text::split_pieces(token, '.');
    let ghost all = text::split_on(token@, '.');
    proof {
        assert(text::texts(parts@).len() == parts@.len());
    }
    if parts.len() != 3 {
        return None;
    }
    proof {
        assert(all[0] == parts@[0]@ && all[1] == parts@[1]@ && all[2] == parts@[2]@);
    }
    if !text::same(parts[0].as_str(), tag) {
        return None;
    }
    let payload = match codec::b64_decode(parts[1].as_str()) {
        Some(payload) => payload,
        None => return None,
    };
    let sig = match codec::b64_decode(parts[2].as_str()) {
        Some(sig) => sig,
        None => return None,
    };
    if payload.len() == 0 || sig.len() == 0 {
        return None;
    }
    Some((parts[1].clone(), payload, sig))
}

/// Verifies one token of the family named by `tag` and `domain` and returns its payload. Nothing
/// downstream of the MAC is evaluated before it passes.
pub fn open(key: &MintKey, tag: &str, domain: &[u8], token: &str, bound_to: &[&str]) -> (r: Result<
    Vec<u8>,
    MacTokenError,
>)
    ensures
        payload_view(r) == opened(
            key.material(),
            tag@,
            domain@,
            token@,
            bound_texts(bound_to@),
        ),
{
    match split_token(tag, token) {
        None => Err(MacTokenError::Malformed),
        Some((payload_b64, payload, sig)) => {
            let input = mac_input(domain, payload_b64.as_str(), bound_to);
            if codec::hmac_verify(&key.bytes, input.as_slice(), sig.as_slice()) {
                Ok(payload)
            } else {
                Err(MacTokenError::NotValid)
            }
        },
    }
}

/// The payload of a token whose MAC has not been checked. The value is the caller's and must never
/// decide anything.
pub fn payload_segment(tag: &str, token: &str) -> (r: Result<Vec<u8>, MacTokenError>)
    ensures
        payload_view(r) == (match segments(tag@, token@) {
            Some(parts) => Ok(parts.1),
            None => Err(MacTokenError::Malformed),
        }),
{
    match split_token(tag, token) {
        Some((_, payload, _)) => Ok(payload),
        None => Err(MacTokenError::Malformed),
    }
}

// ── Laws ─────────────────────────────────────────────────────────────────────

proof fn lemma_split_free(s: Seq<char>, c: char)
    requires
        !s.contains(c),
    ensures
        text::split_on(s, c) == seq![s],
{
    s.index_of_first_ensures(c);
}

proof fn lemma_split_front(a: Seq<char>, c: char, rest: Seq<char>)
    requires
        !a.contains(c),
    ensures
        text::split_on(a + seq![c] + rest, c) == seq![a] + text::split_on(rest, c),
{
    let s = a + seq![c] + rest;
    s.index_of_first_ensures(c);
    assert(s[a.len() as int] == c);
    assert(s.contains(c));
    let i = s.index_of_first(c)->0;
    if i < a.len() {
        assert(a[i] == s[i]);
        assert(a.contains(a[i]));
    }
    assert(i == a.len());
    assert(s.take(i) =~= a);
    assert(s.skip(i + 1) =~= rest);
}

proof fn lemma_b64_has_no_dot(bytes: Seq<u8>)
    ensures
        !codec::b64(bytes).contains('.'),
{
    codec::b64_is_url_safe(bytes);
    if codec::b64(bytes).contains('.') {
        let i = choose|i: int| 0 <= i < codec::b64(bytes).len() && codec::b64(bytes)[i] == '.';
        assert(codec::is_b64_char(codec::b64(bytes)[i]));
    }
}

/// The segments of a sealed token are the ones it was sealed with.
pub proof fn a_sealed_token_has_its_segments(
    key: Seq<u8>,
    tag: Seq<char>,
    domain: Seq<u8>,
    payload: Seq<u8>,
    bound: Seq<Seq<char>>,
)
    requires
        !tag.contains('.'),
        payload.len() > 0,
    ensures
        segments(tag, sealed(key, tag, domain, payload, bound)) == Some(
            (
                codec::b64(payload),
                payload,
                signature(key, domain, codec::b64(payload), bound),
            ),
        ),
{
    reveal_strlit(".");
    let p = codec::b64(payload);
    let sig = signature(key, domain, p, bound);
    let g = codec::b64(sig);
    lemma_b64_has_no_dot(payload);
    lemma_b64_has_no_dot(sig);
    assert("."@ =~= seq!['.']);
    let token = sealed(key, tag, domain, payload, bound);
    assert(token =~= tag + seq!['.'] + (p + seq!['.'] + g));
    lemma_split_front(tag, '.', p + seq!['.'] + g);
    lemma_split_front(p, '.', g);
    lemma_split_free(g, '.');
    let parts = text::split_on(token, '.');
    assert(parts =~= seq![tag, p, g]);
    codec::b64_round_trip(payload);
    codec::b64_round_trip(sig);
}

/// A sealed token opens, under the key, the family and the bound values it was sealed with, to the
/// payload it was sealed over.
pub proof fn a_sealed_token_opens(
    key: Seq<u8>,
    tag: Seq<char>,
    domain: Seq<u8>,
    payload: Seq<u8>,
    bound: Seq<Seq<char>>,
)
    requires
        !tag.contains('.'),
        payload.len() > 0,
    ensures
        opened(key, tag, domain, sealed(key, tag, domain, payload, bound), bound) == Ok::<
            Seq<u8>,
            MacTokenError,
        >(payload),
{
    a_sealed_token_has_its_segments(key, tag, domain, payload, bound);
}

/// A sealed token opens under another key, domain or set of bound values only when the two MAC
/// tags coincide; otherwise it is not valid.
pub proof fn a_sealed_token_opens_only_under_its_mac(
    key: Seq<u8>,
    tag: Seq<char>,
    domain: Seq<u8>,
    payload: Seq<u8>,
    bound: Seq<Seq<char>>,
    other_key: Seq<u8>,
    other_domain: Seq<u8>,
    other_bound: Seq<Seq<char>>,
)
    requires
        !tag.contains('.'),
        payload.len() > 0,
        signature(key, domain, codec::b64(payload), bound) != signature(
            other_key,
            other_domain,
            codec::b64(payload),
            other_bound,
        ),
    ensures
        opened(
            other_key,
            tag,
            other_domain,
            sealed(key, tag, domain, payload, bound),
            other_bound,
        ) == Err::<Seq<u8>, MacTokenError>(MacTokenError::NotValid),
{
    a_sealed_token_has_its_segments(key, tag, domain, payload, bound);
}

/// A token of one family is malformed to every other.
pub proof fn a_token_of_another_family_is_malformed(
    key: Seq<u8>,
    tag: Seq<char>,
    other_tag: Seq<char>,
    domain: Seq<u8>,
    token: Seq<char>,
    bound: Seq<Seq<char>>,
)
    requires
        tag != other_tag,
        segments(tag, token) is Some,
    ensures
        opened(key, other_tag, domain, token, bound) == Err::<Seq<u8>, MacTokenError>(
            MacTokenError::Malformed,
        ),
{
}

/// The MAC of a token is taken over its family, its payload and every value it is bound to, under
/// the key: none of them is left out.
pub proof fn a_signature_covers_everything(
    key: Seq<u8>,
    domain: Seq<u8>,
    payload_b64: Seq<char>,
    bound: Seq<Seq<char>>,
    value: Seq<char>,
)
    ensures
        signature(key, domain, payload_b64, Seq::empty()) == codec::hmac_tag(
            key,
            domain + seq![MAC_FIELD_SEPARATOR] + codec::utf8(payload_b64),
        )@,
        mac_bytes(domain, payload_b64, bound.push(value)) == mac_bytes(domain, payload_b64, bound)
            + seq![MAC_FIELD_SEPARATOR] + codec::utf8(value),
        signature(key, domain, payload_b64, bound) == codec::hmac_tag(
            key,
            mac_bytes(domain, payload_b64, bound),
        )@,
{
    let none = Seq::<Seq<char>>::empty();
    let two = seq![domain, codec::utf8(payload_b64)];
    assert(mac_fields(domain, payload_b64, none) =~= two);
    assert(two.drop_first() =~= seq![codec::utf8(payload_b64)]);
    reveal_with_fuel(join_fields, 3);
    assert(mac_bytes(domain, payload_b64, none) =~= domain + seq![MAC_FIELD_SEPARATOR]
        + codec::utf8(payload_b64));
    let fields = mac_fields(domain, payload_b64, bound);
    assert(mac_fields(domain, payload_b64, bound.push(value)) =~= fields.push(codec::utf8(value)));
    lemma_join_fields_push(fields, codec::utf8(value));
}

/// A token is three segments with a dot between them: the family's tag, the payload and the
/// signature.
pub proof fn a_sealed_token_is_its_three_segments(
    key: Seq<u8>,
    tag: Seq<char>,
    domain: Seq<u8>,
    payload: Seq<u8>,
    bound: Seq<Seq<char>>,
)
    ensures
        sealed(key, tag, domain, payload, bound) == tag + seq!['.'] + codec::b64(payload) + seq![
            '.',
        ] + codec::b64(signature(key, domain, codec::b64(payload), bound)),
{
    reveal_strlit(".");
    assert("."@ =~= seq!['.']);
}

} // verus!
