use base64::Engine;
use capsule_runtime::codec::hex_of;
use capsule_runtime::mac_token::{
    mac_input, open, payload_segment, random_hex, seal, token_id, MacTokenError, MintKey,
    MAC_FIELD_SEPARATOR, NONCE_BYTES, TOKEN_ID_HEX_CHARS,
};
use hmac::Mac;
use sha2::Digest;

const TAG: &str = "tst1";
const DOMAIN: &[u8] = b"murmur-mac-token-test";

#[test]
fn mac_token_zeroizing_clears_every_key_byte() {
    let mut key = MintKey::from_bytes([0xAB; 32]);
    assert!(!key.is_made_of(&[0u8; 32]));
    key.zeroize();
    assert!(key.is_made_of(&[0u8; 32]));
}

/// A generated key is not the all-zero array a zeroized one becomes, and two are distinct —
/// enough to catch a `generate` that stopped reaching the OS CSPRNG.
#[test]
fn mac_token_a_generated_key_is_random() {
    let one = MintKey::generate().unwrap();
    let two = MintKey::generate().unwrap();
    assert!(!one.is_made_of(&[0u8; 32]));
    let token = seal(&one, TAG, DOMAIN, b"{}", &[]);
    assert_ne!(token, seal(&two, TAG, DOMAIN, b"{}", &[]));
}

#[test]
fn a_key_is_exactly_the_bytes_drawn_for_it() {
    let drawn: Vec<u8> = (0..32).collect();
    let mut bytes = [0u8; 32];
    bytes.copy_from_slice(&drawn);
    assert!(MintKey::from_drawn(Ok(drawn)).ok().unwrap().is_made_of(&bytes));
    assert_eq!(
        MintKey::from_drawn(Err("no entropy".to_string())).err().unwrap(),
        "failed to generate a mint key: no entropy"
    );
}

/// Moving the boundary between bound values is the one way to give the same bytes.
#[test]
fn only_lists_of_bound_values_can_share_a_mac_input() {
    let input = |payload: &str, bound: &[&str]| mac_input(DOMAIN, payload, bound);
    assert_ne!(input("YQ", &["b\u{1f}c"]), input("YQ\u{2d}", &["b\u{1f}c"]));
    assert_ne!(input("YQ", &["b\u{1f}"]), input("YQ", &["b"]));
    assert_ne!(input("YQ", &[]), input("YQ", &[""]));
    assert_eq!(input("YQ", &["a", "b"]), input("YQ", &["a\u{1f}b"]));
}

#[test]
fn a_key_prints_no_material() {
    assert_eq!(MintKey::from_bytes([0xAB; 32]).redacted(), "MintKey(<redacted>)");
}

#[test]
fn a_sealed_token_opens_with_the_key_that_sealed_it() {
    let key = MintKey::generate().unwrap();
    let token = seal(&key, TAG, DOMAIN, b"{\"a\":1}", &[]);
    assert!(token.starts_with("tst1."));
    assert_eq!(open(&key, TAG, DOMAIN, &token, &[]).unwrap(), b"{\"a\":1}");
}

#[test]
fn another_key_does_not_open_it() {
    let token = seal(&MintKey::generate().unwrap(), TAG, DOMAIN, b"{}", &[]);
    assert_eq!(
        open(&MintKey::generate().unwrap(), TAG, DOMAIN, &token, &[]),
        Err(MacTokenError::NotValid)
    );
}

/// The tag is compared before the MAC and the domain is mixed into it, so neither a token of
/// another family nor the same payload under another domain verifies.
#[test]
fn a_token_of_another_family_does_not_open() {
    let key = MintKey::generate().unwrap();
    let token = seal(&key, TAG, DOMAIN, b"{}", &[]);
    assert_eq!(
        open(&key, "oth1", DOMAIN, &token, &[]),
        Err(MacTokenError::Malformed)
    );
    assert_eq!(
        open(&key, TAG, b"murmur-other-domain", &token, &[]),
        Err(MacTokenError::NotValid)
    );
}

/// A bound value is covered by the MAC and absent from the token, so asserting the wrong one
/// fails and the right one is not recoverable from the token itself.
#[test]
fn a_bound_value_is_required_but_not_carried() {
    let key = MintKey::generate().unwrap();
    let token = seal(&key, TAG, DOMAIN, b"{}", &["reporter@localhost:1"]);
    assert!(!token.contains("reporter"));
    assert!(open(&key, TAG, DOMAIN, &token, &["reporter@localhost:1"]).is_ok());
    assert_eq!(
        open(&key, TAG, DOMAIN, &token, &["reporter@localhost:2"]),
        Err(MacTokenError::NotValid)
    );
    assert_eq!(
        open(&key, TAG, DOMAIN, &token, &[]),
        Err(MacTokenError::NotValid)
    );
}

#[test]
fn a_token_that_is_not_three_base64_segments_is_malformed() {
    let key = MintKey::generate().unwrap();
    for token in [
        "",
        "tst1",
        "tst1.abc",
        "tst1.abc.def.ghi",
        "tst1..def",
        "tst1.abc.",
        "tst1.not base64!.def",
    ] {
        assert_eq!(
            open(&key, TAG, DOMAIN, token, &[]),
            Err(MacTokenError::Malformed),
            "{token}"
        );
    }
}

#[test]
fn a_payload_segment_reads_without_the_key() {
    let token = seal(
        &MintKey::generate().unwrap(),
        TAG,
        DOMAIN,
        b"{\"a\":1}",
        &[],
    );
    assert_eq!(payload_segment(TAG, &token).unwrap(), b"{\"a\":1}");
    assert_eq!(
        payload_segment("oth1", &token),
        Err(MacTokenError::Malformed)
    );
}

#[test]
fn a_token_id_is_stable_and_distinguishing() {
    let id = token_id("tst1.abc.def");
    assert_eq!(id.len(), TOKEN_ID_HEX_CHARS);
    assert_eq!(id, token_id("tst1.abc.def"));
    assert_ne!(id, token_id("tst1.abc.deg"));
}

#[test]
fn a_nonce_is_hex_of_the_requested_width() {
    let nonce = random_hex(NONCE_BYTES).unwrap();
    assert_eq!(nonce.len(), NONCE_BYTES * 2);
    assert!(nonce.chars().all(|c| c.is_ascii_hexdigit()));
    assert_ne!(nonce, random_hex(NONCE_BYTES).unwrap());
}

/// What is sealed is the domain, the payload segment and each bound value, a separator in front of
/// all but the first.
#[test]
fn the_tag_covers_the_domain_the_payload_and_every_bound_value() {
    let mut expected = b"dom".to_vec();
    for field in ["cGF5", "one", "two"] {
        expected.push(MAC_FIELD_SEPARATOR);
        expected.extend_from_slice(field.as_bytes());
    }
    assert_eq!(mac_input(b"dom", "cGF5", &["one", "two"]), expected);
    assert_eq!(MAC_FIELD_SEPARATOR, 0x1f);
}

/// A token is exactly its three segments: the family's tag, the payload and the HMAC-SHA256 tag,
/// both in unpadded URL-safe base64.
#[test]
fn a_sealed_token_is_its_three_segments() {
    let b64 = base64::engine::general_purpose::URL_SAFE_NO_PAD;
    let key = [7u8; 32];
    let payload = b64.encode(b"{\"a\":1}");
    let mut mac = hmac::Hmac::<sha2::Sha256>::new_from_slice(&key).unwrap();
    mac.update(&mac_input(DOMAIN, &payload, &["bound"]));
    let expected = format!(
        "tst1.{payload}.{}",
        b64.encode(mac.finalize().into_bytes())
    );
    assert_eq!(
        seal(&MintKey::from_bytes(key), TAG, DOMAIN, b"{\"a\":1}", &["bound"]),
        expected
    );
}

#[test]
fn a_token_id_is_the_front_of_its_digest() {
    let digest = sha2::Sha256::digest(b"tst1.abc.def");
    assert_eq!(
        token_id("tst1.abc.def"),
        hex_of(&digest)[..TOKEN_ID_HEX_CHARS]
    );
}

#[test]
fn a_tampered_token_is_not_valid() {
    let key = MintKey::from_bytes([3; 32]);
    let token = seal(&key, TAG, DOMAIN, b"{\"a\":1}", &[]);
    let other = seal(&key, TAG, DOMAIN, b"{\"a\":2}", &[]);
    let mixed = format!(
        "{}.{}",
        &token[..token.rfind('.').unwrap()],
        &other[other.rfind('.').unwrap() + 1..]
    );
    assert_eq!(
        open(&key, TAG, DOMAIN, &mixed, &[]),
        Err(MacTokenError::NotValid)
    );
}

#[test]
fn a_key_is_made_of_its_bytes() {
    assert!(MintKey::from_bytes([9; 32]).is_made_of(&[9; 32]));
}
