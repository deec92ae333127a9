use capsule_runtime::{
    codec, diagnostics,
    errors::RuntimeError,
    json::{self, Json, JsonNumber},
    mac_token::{seal, token_id, MintKey},
    paths, text, workdir,
};

fn text_json(s: &str) -> Json {
    Json::Text(s.to_string())
}

#[test]
fn a_token_id_is_the_front_of_the_sha256_digest() {
    assert_eq!(token_id("abc"), "ba7816bf8f01cfea");
    assert_eq!(token_id(""), "e3b0c44298fc1c14");
}

#[test]
fn a_sealed_token_is_its_tag_payload_and_hmac() {
    let mut bytes = [0u8; 32];
    for (at, byte) in bytes.iter_mut().enumerate() {
        *byte = at as u8;
    }
    assert_eq!(
        seal(&MintKey::from_bytes(bytes), "tag", b"dom", b"{\"k\":1}", &["bound"]),
        "tag.eyJrIjoxfQ.409MCAPyQqq71PWrkAscceg5st6Z0K5GpPJkBawWpLU"
    );
}

#[test]
fn hexadecimal_is_lower_case_and_two_digits_a_byte() {
    assert_eq!(codec::hex_of(&[0x00, 0x0f, 0xa5, 0xff]), "000fa5ff");
    assert_eq!(codec::hex_of(&[]), "");
}

#[test]
fn a_value_is_written_compactly_and_escaped() {
    let value = Json::Object(vec![
        ("quote".to_string(), text_json("a\"b\\c\n\u{1}é")),
        (
            "numbers".to_string(),
            Json::Array(vec![
                Json::Number(JsonNumber::Unsigned(u64::MAX)),
                Json::Number(JsonNumber::Negative(i64::MIN)),
            ]),
        ),
        ("none".to_string(), Json::Null),
        ("yes".to_string(), Json::Bool(true)),
    ]);
    assert_eq!(
        json::write(&value),
        "{\"quote\":\"a\\\"b\\\\c\\n\\u0001é\",\"numbers\":[18446744073709551615,\
         -9223372036854775808],\"none\":null,\"yes\":true}"
    );
}

#[test]
fn what_is_written_reads_back_with_its_keys_in_order() {
    let value = Json::Object(vec![
        ("z".to_string(), text_json("last first")),
        ("a".to_string(), Json::Number(JsonNumber::Unsigned(7))),
        ("m".to_string(), Json::Array(vec![Json::Null, text_json("\t")])),
    ]);
    let read = json::read(&json::write(&value)).expect("reads");
    assert_eq!(json::write(&read), json::write(&value));
    assert_eq!(read, value);
}

#[test]
fn what_is_not_json_says_why() {
    assert_eq!(json::read("{"), None);
    assert!(json::read_or_why("{").unwrap_err().contains("EOF"));
    assert!(json::read_bytes(b"[1,").is_err());
    assert_eq!(json::read_bytes(b" [] "), Ok(Json::Array(Vec::new())));
}

#[test]
fn white_space_is_what_the_language_says_it_is() {
    for code in 0..=0x10ffffu32 {
        if let Some(c) = char::from_u32(code) {
            let s = c.to_string();
            assert_eq!(text::is_blank(&s), c.is_whitespace(), "{code:x}");
        }
    }
    assert_eq!(text::trimmed("\u{2003} a b \r\n"), "a b");
}

#[test]
fn paths_settle_by_component() {
    assert_eq!(paths::write(&paths::parse("/a//b/./c/")), "/a/b/c");
    assert_eq!(paths::write(&paths::normalize(&paths::parse("/a/../../b"))), "/b");
    assert_eq!(paths::file_name_of("/a/b.rs"), Some("b.rs".to_string()));
    assert_eq!(paths::file_name_of("/"), None);
    assert_eq!(paths::write(&paths::parent_of(&paths::parse("/a/b"))), "/a");
}

#[test]
fn a_scope_stays_in_the_workdir() {
    assert_eq!(
        workdir::lower_workdir_subpath("./a/../b"),
        Ok(vec!["b".to_string()])
    );
    match workdir::validate_filesystem_scope("../x") {
        Err(RuntimeError::InvalidFilesystemScope { scope, message }) => {
            assert_eq!(scope, "../x");
            assert_eq!(message, "scope cannot escape the workdir via '..'");
        }
        other => panic!("unexpected: {other:?}"),
    }
    match workdir::validate_filesystem_scope("/x") {
        Err(RuntimeError::InvalidFilesystemScope { message, .. }) => {
            assert_eq!(message, "scope must be relative to the workdir");
        }
        other => panic!("unexpected: {other:?}"),
    }
}

#[test]
fn a_security_warning_links_to_its_own_paragraph() {
    assert!(diagnostics::security_warning_link(diagnostics::W_SEC_012).ends_with("#w-sec-012"));
}
