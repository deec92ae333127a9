//! Byte encodings and the cryptographic primitives the token grammars rest on.

use crate::text;
use base64::Engine;
use hmac::Mac;
use sha2::Digest;
use vstd::prelude::*;

verus! {

// ── Hexadecimal ──────────────────────────────────────────────────────────────

/// The lower-case hexadecimal digit for `d`.
pub open spec fn hex_digit(d: nat) -> char {
    if d < 10 {
        (48 + d) as char
    } else {
        (87 + d) as char
    }
}

/// Bytes in lower-case hexadecimal, two digits each.
pub open spec fn hex(bytes: Seq<u8>) -> Seq<char>
    decreases bytes.len(),
{
    if bytes.len() == 0 {
        Seq::empty()
    } else {
        hex(bytes.drop_last()).push(hex_digit(bytes.last() as nat / 16)).push(
            hex_digit(bytes.last() as nat % 16),
        )
    }
}

/// The lower-case hexadecimal digit for `d`.
fn hex_char(d: u8) -> (r: char)
    requires
        d < 16,
    ensures
        r == hex_digit(d as nat),
{
    if d < 10 {
        (48 + d) as char
    } else {
        (87 + d) as char
    }
}

/// Bytes in lower-case hexadecimal.
pub fn hex_of(bytes: &[u8]) -> (r: String)
    ensures
        r@ == hex(bytes@),
{
    let mut out = String::new();
    let mut i: usize = 0;
    proof {
        assert(bytes@.take(0).len() == 0);
    }
    while i < bytes.len()
        invariant
            i <= bytes@.len(),
            out@ == hex(bytes@.take(i as int)),
        decreases bytes@.len() - i,
    {
        let b = bytes[i];
        proof {
            assert(bytes@.take(i + 1).drop_last() =~= bytes@.take(i as int));
            assert(bytes@.take(i + 1).last() == b);
        }
        out.push(hex_char(b / 16));
        out.push(hex_char(b % 16));
        i += 1;
    }
    proof {
        assert(bytes@.take(bytes@.len() as int) =~= bytes@);
    }
    out
}

/// Hexadecimal text is twice as long as the bytes and is made of the digits `0-9a-f`.
pub proof fn hex_is_two_digits_a_byte(bytes: Seq<u8>)
    ensures
        hex(bytes).len() == 2 * bytes.len(),
        forall|i: int|
            0 <= i < hex(bytes).len() ==> '0' <= #[trigger] hex(bytes)[i] <= '9' || 'a' <= hex(
                bytes,
            )[i] <= 'f',
    decreases bytes.len(),
{
    if bytes.len() > 0 {
        hex_is_two_digits_a_byte(bytes.drop_last());
    }
}

/// What a hexadecimal digit is worth.
pub open spec fn digit_worth(c: char) -> int {
    if '0' <= c <= '9' {
        c as int - '0' as int
    } else {
        c as int - 'a' as int + 10
    }
}

/// Hexadecimal text reads back byte by byte, the high half of each byte first.
pub proof fn hex_reads_back(bytes: Seq<u8>, i: int)
    requires
        0 <= i < bytes.len(),
    ensures
        hex(bytes).len() == 2 * bytes.len(),
        digit_worth(hex(bytes)[2 * i]) * 16 + digit_worth(hex(bytes)[2 * i + 1]) == bytes[i],
    decreases bytes.len(),
{
    hex_is_two_digits_a_byte(bytes);
    hex_is_two_digits_a_byte(bytes.drop_last());
    let before = hex(bytes.drop_last());
    if i == bytes.len() - 1 {
        let b = bytes[i] as nat;
        assert(hex(bytes)[2 * i] == hex_digit(b / 16));
        assert(hex(bytes)[2 * i + 1] == hex_digit(b % 16));
        assert(digit_worth(hex_digit(b / 16)) == b / 16);
        assert(digit_worth(hex_digit(b % 16)) == b % 16);
    } else {
        hex_reads_back(bytes.drop_last(), i);
        assert(hex(bytes)[2 * i] == before[2 * i]);
        assert(hex(bytes)[2 * i + 1] == before[2 * i + 1]);
    }
}

// ── Base64, URL-safe and unpadded ────────────────────────────────────────────

/// The character for a six-bit value in the URL-safe alphabet.
pub open spec fn b64_char(v: int) -> char {
    if v < 26 {
        (65 + v) as char
    } else if v < 52 {
        (71 + v) as char
    } else if v < 62 {
        (v - 4) as char
    } else if v == 62 {
        '-'
    } else {
        '_'
    }
}

/// Bytes in URL-safe base64 without padding: three bytes give four characters, and the one or two
/// bytes left over give two or three.
pub open spec fn b64(bytes: Seq<u8>) -> Seq<char>
    decreases bytes.len(),
{
    if bytes.len() == 0 {
        Seq::empty()
    } else if bytes.len() == 1 {
        seq![b64_char(bytes[0] as int / 4), b64_char((bytes[0] as int % 4) * 16)]
    } else if bytes.len() == 2 {
        seq![
            b64_char(bytes[0] as int / 4),
            b64_char((bytes[0] as int % 4) * 16 + bytes[1] as int / 16),
            b64_char((bytes[1] as int % 16) * 4),
        ]
    } else {
        seq![
            b64_char(bytes[0] as int / 4),
            b64_char((bytes[0] as int % 4) * 16 + bytes[1] as int / 16),
            b64_char((bytes[1] as int % 16) * 4 + bytes[2] as int / 64),
            b64_char(bytes[2] as int % 64),
        ] + b64(bytes.skip(3))
    }
}

/// Whether `c` belongs to the URL-safe alphabet.
pub open spec fn is_b64_char(c: char) -> bool {
    'A' <= c <= 'Z' || 'a' <= c <= 'z' || '0' <= c <= '9' || c == '-' || c == '_'
}

/// The bytes whose unpadded URL-safe base64 form a text is.
pub open spec fn unb64(s: Seq<char>) -> Option<Seq<u8>> {
    if exists|b: Seq<u8>| #[trigger] b64(b) == s {
        Some(choose|b: Seq<u8>| #[trigger] b64(b) == s)
    } else {
        None
    }
}

/// Trusted: `base64::Engine::encode` of the `URL_SAFE_NO_PAD` engine gives the unpadded form in the
/// URL-safe alphabet.
#[verifier::external_body]
pub(crate) fn b64_encode(bytes: &[u8]) -> (r: String)
    ensures
        r@ == b64(bytes@),
{
    base64::engine::general_purpose::URL_SAFE_NO_PAD.encode(bytes)
}

/// Trusted: `base64::Engine::decode` of the `URL_SAFE_NO_PAD` engine gives back the bytes whose
/// unpadded form the text is, and fails on a text that is the form of no bytes: the engine refuses
/// padding, foreign characters, a length that no bytes have, and set bits past the last byte.
#[verifier::external_body]
pub(crate) fn b64_decode(s: &str) -> (r: Option<Vec<u8>>)
    ensures
        bytes_view(r) == unb64(s@),
{
    base64::engine::general_purpose::URL_SAFE_NO_PAD.decode(s).ok()
}

/// The bytes held by an optional byte string.
pub open spec fn bytes_view(o: Option<Vec<u8>>) -> Option<Seq<u8>> {
    match o {
        Some(v) => Some(v@),
        None => None,
    }
}

proof fn lemma_b64_char(v: int)
    requires
        0 <= v < 64,
    ensures
        is_b64_char(b64_char(v)),
{
}

proof fn lemma_b64_char_injective(v: int, w: int)
    requires
        0 <= v < 64,
        0 <= w < 64,
        b64_char(v) == b64_char(w),
    ensures
        v == w,
{
    assert(b64_char(v) as int == b64_char(w) as int);
}

/// Every character of the base64 form belongs to the URL-safe alphabet.
pub proof fn b64_is_url_safe(bytes: Seq<u8>)
    ensures
        forall|i: int| 0 <= i < b64(bytes).len() ==> is_b64_char(#[trigger] b64(bytes)[i]),
        b64(bytes).len() == 0 <==> bytes.len() == 0,
    decreases bytes.len(),
{
    let e = b64(bytes);
    if bytes.len() == 0 {
    } else if bytes.len() <= 2 {
        assert forall|i: int| 0 <= i < e.len() implies is_b64_char(#[trigger] e[i]) by {
            lemma_b64_char(bytes[0] as int / 4);
            lemma_b64_char((bytes[0] as int % 4) * 16);
            if bytes.len() == 2 {
                lemma_b64_char((bytes[0] as int % 4) * 16 + bytes[1] as int / 16);
                lemma_b64_char((bytes[1] as int % 16) * 4);
            }
        }
    } else {
        b64_is_url_safe(bytes.skip(3));
        assert forall|i: int| 0 <= i < e.len() implies is_b64_char(#[trigger] e[i]) by {
            lemma_b64_char(bytes[0] as int / 4);
            lemma_b64_char((bytes[0] as int % 4) * 16 + bytes[1] as int / 16);
            lemma_b64_char((bytes[1] as int % 16) * 4 + bytes[2] as int / 64);
            lemma_b64_char(bytes[2] as int % 64);
            if i >= 4 {
                assert(e[i] == b64(bytes.skip(3))[i - 4]);
            }
        }
    }
}

proof fn lemma_b64_len(bytes: Seq<u8>)
    ensures
        bytes.len() >= 3 ==> b64(bytes).len() == 4 + b64(bytes.skip(3)).len(),
        bytes.len() >= 3 ==> b64(bytes).len() >= 4,
        bytes.len() < 3 ==> b64(bytes).len() < 4,
{
}

proof fn lemma_b64_front(bytes: Seq<u8>)
    requires
        bytes.len() >= 3,
    ensures
        b64(bytes).len() >= 4,
        b64(bytes)[0] == b64_char(bytes[0] as int / 4),
        b64(bytes)[1] == b64_char((bytes[0] as int % 4) * 16 + bytes[1] as int / 16),
        b64(bytes)[2] == b64_char((bytes[1] as int % 16) * 4 + bytes[2] as int / 64),
        b64(bytes)[3] == b64_char(bytes[2] as int % 64),
        b64(bytes).skip(4) == b64(bytes.skip(3)),
{
    assert(b64(bytes).skip(4) =~= b64(bytes.skip(3)));
}

proof fn lemma_b64_front_injective(a: Seq<u8>, b: Seq<u8>)
    requires
        a.len() >= 3,
        b.len() >= 3,
        b64(a) == b64(b),
    ensures
        a[0] == b[0],
        a[1] == b[1],
        a[2] == b[2],
{
    lemma_b64_front(a);
    lemma_b64_front(b);
    lemma_b64_char_injective(a[0] as int / 4, b[0] as int / 4);
    lemma_b64_char_injective(
        (a[0] as int % 4) * 16 + a[1] as int / 16,
        (b[0] as int % 4) * 16 + b[1] as int / 16,
    );
    lemma_b64_char_injective(
        (a[1] as int % 16) * 4 + a[2] as int / 64,
        (b[1] as int % 16) * 4 + b[2] as int / 64,
    );
    lemma_b64_char_injective(a[2] as int % 64, b[2] as int % 64);
}

/// Two byte strings with the same base64 form are the same.
pub proof fn b64_is_injective(a: Seq<u8>, b: Seq<u8>)
    requires
        b64(a) == b64(b),
    ensures
        a == b,
    decreases a.len(),
{
    lemma_b64_len(a);
    lemma_b64_len(b);
    let e = b64(a);
    let f = b64(b);
    if a.len() < 3 {
        assert(a.len() == b.len());
        if a.len() >= 1 {
            assert(e[0] == f[0]);
            lemma_b64_char_injective(a[0] as int / 4, b[0] as int / 4);
        }
        if a.len() == 1 {
            assert(e[1] == f[1]);
            lemma_b64_char_injective((a[0] as int % 4) * 16, (b[0] as int % 4) * 16);
            assert(a[0] == b[0]);
        }
        if a.len() == 2 {
            assert(e[1] == f[1]);
            assert(e[2] == f[2]);
            lemma_b64_char_injective(
                (a[0] as int % 4) * 16 + a[1] as int / 16,
                (b[0] as int % 4) * 16 + b[1] as int / 16,
            );
            lemma_b64_char_injective((a[1] as int % 16) * 4, (b[1] as int % 16) * 4);
            assert(a[0] == b[0]);
            assert(a[1] == b[1]);
        }
        assert(a =~= b);
    } else {
        assert(b.len() >= 3);
        lemma_b64_front_injective(a, b);
        lemma_b64_front(a);
        lemma_b64_front(b);
        b64_is_injective(a.skip(3), b.skip(3));
        assert(a =~= seq![a[0], a[1], a[2]] + a.skip(3));
        assert(b =~= seq![b[0], b[1], b[2]] + b.skip(3));
    }
}

/// Decoding what was encoded gives the bytes back.
pub proof fn b64_round_trip(bytes: Seq<u8>)
    ensures
        unb64(b64(bytes)) == Some(bytes),
{
    let s = b64(bytes);
    assert(exists|b: Seq<u8>| #[trigger] b64(b) == s);
    b64_is_injective(choose|b: Seq<u8>| #[trigger] b64(b) == s, bytes);
}

// ── Hashes, tags and randomness ──────────────────────────────────────────────

/// The SHA-256 digest of a byte string.
pub uninterp spec fn sha256_digest(input: Seq<u8>) -> [u8; 32];

/// The HMAC-SHA256 tag of a byte string under a key.
pub uninterp spec fn hmac_tag(key: Seq<u8>, input: Seq<u8>) -> [u8; 32];

/// Trusted: `sha2::Sha256::digest` is a function of its input.
#[verifier::external_body]
pub(crate) fn sha256(input: &[u8]) -> (r: [u8; 32])
    ensures
        r == sha256_digest(input@),
{
    sha2::Sha256::digest(input).into()
}

/// Trusted: `hmac::Hmac::<sha2::Sha256>` accepts a key of any length, and the tag it finalizes to
/// is a function of the key and of the bytes it was updated with.
#[verifier::external_body]
pub(crate) fn hmac_sha256(key: &[u8], input: &[u8]) -> (r: [u8; 32])
    ensures
        r == hmac_tag(key@, input@),
{
    let mut mac = hmac::Hmac::<sha2::Sha256>::new_from_slice(key).expect("any key length");
    mac.update(input);
    mac.finalize().into_bytes().into()
}

/// Trusted: `hmac::Mac::verify_slice` accepts exactly the full tag, compared in constant time.
#[verifier::external_body]
pub(crate) fn hmac_verify(key: &[u8], input: &[u8], tag: &[u8]) -> (r: bool)
    ensures
        r == (tag@ == hmac_tag(key@, input@)@),
{
    let mut mac = hmac::Hmac::<sha2::Sha256>::new_from_slice(key).expect("any key length");
    mac.update(input);
    mac.verify_slice(tag).is_ok()
}

/// Trusted: `getrandom::fill` fills the whole buffer from the operating system, or fails. Nothing
/// is said of what the bytes are, nor of the words of a failure.
#[verifier::external_body]
pub(crate) fn random_bytes(n: usize) -> (r: Result<Vec<u8>, String>)
    requires
        n <= isize::MAX,
    ensures
        r is Ok ==> r->Ok_0@.len() == n,
{
    let mut buffer = vec![0u8; n];
    match getrandom::fill(&mut buffer) {
        Ok(()) => Ok(buffer),
        Err(error) => Err(error.to_string()),
    }
}

// ── Texts as bytes ───────────────────────────────────────────────────────────

/// The UTF-8 bytes of a text.
pub open spec fn utf8(s: Seq<char>) -> Seq<u8> {
    vstd::utf8::encode_utf8(s)
}

/// The text that bytes encode in UTF-8, when they do.
pub open spec fn text_of(bytes: Seq<u8>) -> Option<Seq<char>> {
    if vstd::utf8::valid_utf8(bytes) {
        Some(vstd::utf8::decode_utf8(bytes))
    } else {
        None
    }
}

/// What `String::from_utf8_lossy` makes of bytes.
pub uninterp spec fn lossy_text(bytes: Seq<u8>) -> Seq<char>;

/// Trusted: `String::from_utf8_lossy` depends on the bytes alone, and gives the text that they
/// encode when they are UTF-8.
#[verifier::external_body]
pub(crate) fn decode_lossy(bytes: &[u8]) -> (r: String)
    ensures
        r@ == lossy_text(bytes@),
        vstd::utf8::valid_utf8(bytes@) ==> r@ == vstd::utf8::decode_utf8(bytes@),
{
    String::from_utf8_lossy(bytes).into_owned()
}

/// The bytes of a text decode to it.
pub proof fn text_round_trips(s: Seq<char>)
    ensures
        text_of(utf8(s)) == Some(s),
{
    vstd::utf8::encode_utf8_valid_utf8(s);
    vstd::utf8::encode_utf8_decode_utf8(s);
}

/// The bytes of two texts one behind the other are their bytes one behind the other.
pub proof fn bytes_follow(a: Seq<char>, b: Seq<char>)
    ensures
        utf8(a + b) == utf8(a) + utf8(b),
    decreases a.len(),
{
    if a.len() == 0 {
        assert(a + b =~= b);
        assert(utf8(a) + utf8(b) =~= utf8(b));
    } else {
        bytes_follow(a.drop_first(), b);
        assert((a + b).drop_first() =~= a.drop_first() + b);
        assert(utf8(a + b) =~= utf8(a) + utf8(b));
    }
}

/// An ASCII character is written as one byte, its code.
pub proof fn one_byte(c: char)
    requires
        c <= '\u{7f}',
    ensures
        utf8(seq![c]) == seq![c as u8],
{
    vstd::utf8::is_ascii_chars_encode_utf8(seq![c]);
    assert(utf8(seq![c]) =~= seq![c as u8]);
}

/// Appends bytes to a buffer.
pub fn append(out: &mut Vec<u8>, bytes: &[u8])
    ensures
        final(out)@ == old(out)@ + bytes@,
{
    let ghost before = out@;
    let mut i: usize = 0;
    proof {
        assert(before + bytes@.take(0) =~= before);
    }
    while i < bytes.len()
        invariant
            i <= bytes@.len(),
            out@ == before + bytes@.take(i as int),
        decreases bytes@.len() - i,
    {
        out.push(bytes[i]);
        proof {
            assert(before + bytes@.take(i + 1) =~= (before + bytes@.take(i as int)).push(
                bytes@[i as int],
            ));
        }
        i += 1;
    }
    proof {
        assert(bytes@.take(bytes@.len() as int) =~= bytes@);
    }
}

} // verus!
