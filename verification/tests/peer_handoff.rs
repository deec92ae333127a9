use base64::engine::general_purpose::URL_SAFE_NO_PAD as B64;
use base64::Engine;
use capsule_runtime::identity::{
    build_agent_card, CapabilityPolicy, CapsuleIdentity, DeclaredPlanes, TaskAcceptance,
};
use capsule_runtime::json;
use capsule_runtime::json::{get, get_text, read, Json};
use capsule_runtime::mac_token::{random_hex, seal, MintKey, NONCE_BYTES};
use capsule_runtime::peer_handoff::{
    accept_payload, answer_read, audience_from_card, decode_payload_unverified, error_response,
    handle_id, handle_peer_request, is_peer_path, mint, own_audience, payload_of_values,
    redact_handle_tokens, redact_handles_in_json, stored_path_for, verify, DeclaredPeerExport,
    FileProbe, HandleError, HandlePayload, PeerError, PeerMintKey, PeerPlane, PeerStep,
    ReadResponse, ResourceError, ResourceResponse, HANDLE_ID_HEADER, MAC_DOMAIN,
    TOKEN_VERSION_TAG,
};

const NOW: u64 = 1_700_000_000_000;
const KEY: [u8; 32] = [0x5A; 32];

fn key() -> PeerMintKey {
    PeerMintKey::from_bytes(KEY)
}

fn payload_for(path: &str, session: &str, exp: u64) -> HandlePayload {
    HandlePayload {
        v: 1,
        iss: session.to_string(),
        p: path.to_string(),
        exp,
        n: "0123456789abcdef0123456789abcdef".to_string(),
    }
}

fn in_an_hour() -> u64 {
    NOW + 3_600_000
}

#[test]
fn a_minted_handle_round_trips_through_verify() {
    let key = PeerMintKey::generate().unwrap();
    let payload = payload_for("report.md", "ses_1", in_an_hour());
    let token = mint(&key, &payload, "reporter@localhost:41234").unwrap();
    assert!(token.starts_with("mh1."));
    assert_eq!(token.split('.').count(), 3);
    let verified = verify(&key, &token, "reporter@localhost:41234", "ses_1", NOW).unwrap();
    assert_eq!(verified, payload);
}

#[test]
fn a_token_uses_only_url_safe_unpadded_base64() {
    let key = PeerMintKey::generate().unwrap();
    // A payload long enough that padding would be required by the padded alphabet.
    let token = mint(
        &key,
        &payload_for("a/b/c.md", "ses_padding", in_an_hour()),
        "x@y",
    )
    .unwrap();
    let segments: Vec<&str> = token.split('.').collect();
    for segment in &segments[1..] {
        assert!(
            segment
                .chars()
                .all(|c| c.is_ascii_alphanumeric() || c == '-' || c == '_'),
            "segment '{segment}' must be base64url with no padding"
        );
    }
}

#[test]
fn a_tampered_payload_is_not_valid() {
    let key = key();
    let token = mint(
        &key,
        &payload_for("report.md", "ses_1", in_an_hour()),
        "a@b",
    )
    .unwrap();
    let mut chars: Vec<char> = token.chars().collect();
    let payload_end = token.rfind('.').unwrap();
    chars[payload_end - 1] = if chars[payload_end - 1] == 'A' {
        'B'
    } else {
        'A'
    };
    let tampered: String = chars.into_iter().collect();
    assert_eq!(
        verify(&key, &tampered, "a@b", "ses_1", NOW),
        Err(HandleError::NotValid)
    );
}

#[test]
fn a_tampered_mac_is_not_valid() {
    let key = key();
    let token = mint(
        &key,
        &payload_for("report.md", "ses_1", in_an_hour()),
        "a@b",
    )
    .unwrap();
    let mut chars: Vec<char> = token.chars().collect();
    let last = chars.len() - 1;
    chars[last] = if chars[last] == 'A' { 'B' } else { 'A' };
    let tampered: String = chars.into_iter().collect();
    assert_eq!(
        verify(&key, &tampered, "a@b", "ses_1", NOW),
        Err(HandleError::NotValid)
    );
}

#[test]
fn the_wrong_audience_is_not_valid() {
    let key = key();
    let token = mint(
        &key,
        &payload_for("report.md", "ses_1", in_an_hour()),
        "a@b",
    )
    .unwrap();
    assert_eq!(
        verify(&key, &token, "attacker@localhost:1", "ses_1", NOW),
        Err(HandleError::NotValid)
    );
}

/// The three causes the design requires to be indistinguishable: a tampered payload, a foreign
/// key, and a correct handle presented with the wrong audience. Same variant, same code, same
/// message, byte for byte.
#[test]
fn every_refusal_cause_is_indistinguishable_on_the_wire() {
    let key = key();
    let other = PeerMintKey::generate().unwrap();
    let token = mint(
        &key,
        &payload_for("report.md", "ses_1", in_an_hour()),
        "a@b",
    )
    .unwrap();

    let mut chars: Vec<char> = token.chars().collect();
    let payload_end = token.rfind('.').unwrap();
    chars[payload_end - 1] = if chars[payload_end - 1] == 'A' {
        'B'
    } else {
        'A'
    };
    let tampered: String = chars.into_iter().collect();

    let causes = [
        verify(&key, &tampered, "a@b", "ses_1", NOW),
        verify(&other, &token, "a@b", "ses_1", NOW),
        verify(&key, &token, "attacker@localhost:1", "ses_1", NOW),
    ];
    for cause in &causes {
        assert_eq!(*cause, Err(HandleError::NotValid));
    }
    let errors: Vec<PeerError> = causes
        .iter()
        .map(|cause| PeerError::from(*cause.as_ref().unwrap_err()))
        .collect();
    for error in &errors {
        assert_eq!(error, &PeerError::HandleNotValid);
        assert_eq!(error.status(), 403);
        assert_eq!(error.code(), errors[0].code());
        assert_eq!(error.message(), errors[0].message());
    }
}

#[test]
fn a_handle_from_another_instance_of_the_same_capsule_is_not_valid() {
    let one = PeerMintKey::generate().unwrap();
    let two = PeerMintKey::generate().unwrap();
    let token = mint(
        &one,
        &payload_for("report.md", "ses_1", in_an_hour()),
        "a@b",
    )
    .unwrap();
    assert_eq!(
        verify(&two, &token, "a@b", "ses_1", NOW),
        Err(HandleError::NotValid)
    );
}

/// A foreign `iss` with a valid MAC must answer with the same undivided refusal rather than a code
/// of its own.
#[test]
fn a_foreign_issuer_is_not_valid_rather_than_a_code_of_its_own() {
    let key = key();
    let token = mint(
        &key,
        &payload_for("report.md", "ses_other", in_an_hour()),
        "a@b",
    )
    .unwrap();
    assert_eq!(
        verify(&key, &token, "a@b", "ses_1", NOW),
        Err(HandleError::NotValid)
    );
}

#[test]
fn an_expired_handle_reports_expiry() {
    let key = key();
    let token = mint(&key, &payload_for("report.md", "ses_1", NOW - 1), "a@b").unwrap();
    assert_eq!(
        verify(&key, &token, "a@b", "ses_1", NOW),
        Err(HandleError::Expired)
    );
}

#[test]
fn every_malformed_shape_is_malformed() {
    let key = key();
    for candidate in [
        "",
        "report.md",
        "mh1",
        "mh1.",
        "mh1.abc",
        "mh1.abc.def.ghi",
        "mh2.YWJj.YWJj",
        "mh1.!!!.YWJj",
        "mh1.YWJj.!!!",
    ] {
        assert_eq!(
            verify(&key, candidate, "a@b", "ses_1", NOW),
            Err(HandleError::Malformed),
            "'{candidate}' should be malformed"
        );
    }
}

/// A payload that is not JSON, or carries a version this runtime does not mint, is malformed — but
/// only once the MAC has proven it is ours.
#[test]
fn a_non_json_or_wrong_version_payload_is_malformed_behind_the_mac() {
    let key = key();
    for payload_json in [
        b"not json".to_vec(),
        br#"{"v":2,"iss":"ses_1","p":"a","exp":99999999999999,"n":"00"}"#.to_vec(),
    ] {
        let token = seal(
            &MintKey::from_bytes(KEY),
            TOKEN_VERSION_TAG,
            MAC_DOMAIN.as_bytes(),
            &payload_json,
            &["a@b"],
        );
        assert_eq!(
            verify(&key, &token, "a@b", "ses_1", NOW),
            Err(HandleError::Malformed)
        );
    }
}

#[test]
fn the_audience_is_covered_by_the_mac_but_not_carried_in_the_token() {
    let key = key();
    let payload = payload_for("report.md", "ses_1", in_an_hour());
    let one = mint(&key, &payload, "reporter@localhost:1").unwrap();
    let two = mint(&key, &payload, "reporter@localhost:2").unwrap();
    let (one_payload, two_payload) = (
        one.split('.').nth(1).unwrap(),
        two.split('.').nth(1).unwrap(),
    );
    assert_eq!(
        one_payload, two_payload,
        "the payload segment must not vary with the audience"
    );
    assert_ne!(one, two, "the MAC must vary with the audience");
    let decoded = String::from_utf8(B64.decode(one_payload).unwrap()).unwrap();
    assert!(
        !decoded.contains("reporter@localhost:1"),
        "the audience must not appear in the payload: {decoded}"
    );
}

#[test]
fn two_handles_for_the_same_file_and_audience_are_distinct() {
    let key = key();
    let plane_nonce_a = random_hex(NONCE_BYTES).unwrap();
    let plane_nonce_b = random_hex(NONCE_BYTES).unwrap();
    assert_ne!(plane_nonce_a, plane_nonce_b);
    let mut first = payload_for("report.md", "ses_1", in_an_hour());
    first.n = plane_nonce_a;
    let mut second = payload_for("report.md", "ses_1", in_an_hour());
    second.n = plane_nonce_b;
    assert_ne!(
        mint(&key, &first, "a@b").unwrap(),
        mint(&key, &second, "a@b").unwrap()
    );
}

#[test]
fn a_handle_id_is_sixteen_lowercase_hex_characters() {
    let id = handle_id("mh1.abc.def");
    assert_eq!(id.len(), 16);
    assert!(id
        .chars()
        .all(|c| c.is_ascii_hexdigit() && !c.is_uppercase()));
    assert_eq!(id, handle_id("mh1.abc.def"), "handle_id must be stable");
    assert_ne!(id, handle_id("mh1.abc.deg"));
}

#[test]
fn an_audience_comes_from_the_peers_own_card() {
    let card = read(r#"{"name": "Reporter", "url": "http://localhost:41234/"}"#).unwrap();
    assert_eq!(
        audience_from_card(&card).unwrap(),
        "reporter@localhost:41234"
    );
}

#[test]
fn a_card_without_a_name_or_a_url_is_refused() {
    for card in [
        r#"{"url": "localhost:1"}"#,
        r#"{"name": "a"}"#,
        r#"{"name": "", "url": "localhost:1"}"#,
        r#"{"name": "a", "url": ""}"#,
        r#""not an object""#,
    ] {
        assert!(audience_from_card(&read(card).unwrap()).is_err(), "card: {card}");
    }
}

#[test]
fn own_audience_matches_what_a_peer_would_derive_from_the_card() {
    let identity = CapsuleIdentity {
        capsule_name: "Reporter".to_string(),
        capsule_version: "0.1.0".to_string(),
        session_id: "ses_1".to_string(),
        capsule_url: "localhost:41234".to_string(),
    };
    let card = Json::Object(vec![
        ("name".to_string(), Json::Text(identity.capsule_name.clone())),
        ("url".to_string(), Json::Text(identity.capsule_url.clone())),
    ]);
    assert_eq!(own_audience(&identity), audience_from_card(&card).unwrap());
}

#[test]
fn a_capsule_asserts_what_its_own_card_gives() {
    for (name, url, audience) in [
        ("x ", "h", "x@h"),
        ("  Re Porter\t", "http://Localhost:41234/a", "re porter@localhost:41234"),
        ("reporter", "https://h:1", "reporter@h:1"),
    ] {
        let identity = CapsuleIdentity {
            capsule_name: name.to_string(),
            capsule_version: "0.1.0".to_string(),
            session_id: "ses_1".to_string(),
            capsule_url: url.to_string(),
        };
        let policy = CapabilityPolicy { shell_allow: vec![], network_allow: vec![] };
        let planes = DeclaredPlanes { files: false, peer_files: true };
        let card = build_agent_card(&identity, &[], &policy, TaskAcceptance::Queue, planes);
        assert_eq!(own_audience(&identity), audience, "{name:?}");
        assert_eq!(audience_from_card(&card).unwrap(), audience, "{name:?}");
    }
}

#[test]
fn a_peer_key_is_exactly_the_bytes_drawn_for_it() {
    let drawn: Vec<u8> = (0..32).collect();
    let mut bytes = [0u8; 32];
    bytes.copy_from_slice(&drawn);
    assert!(PeerMintKey::from_drawn(Ok(drawn)).ok().unwrap().is_made_of(&bytes));
    assert_eq!(
        PeerMintKey::from_drawn(Err("no entropy".to_string())).err().unwrap(),
        "failed to generate the peer mint key: no entropy"
    );
}

#[test]
fn every_peer_error_has_the_status_the_wire_contract_states() {
    let expected: &[(PeerError, u16, &str)] = &[
        (PeerError::NoPeerPlane, 404, "no_peer_plane"),
        (PeerError::MalformedHandle, 400, "malformed_handle"),
        (PeerError::MissingAudience, 400, "missing_audience"),
        (PeerError::HandleNotValid, 403, "handle_not_valid"),
        (PeerError::HandleExpired, 410, "handle_expired"),
        (PeerError::NotFound, 404, "not_found"),
        (PeerError::OutsideRoot, 403, "outside_root"),
        (PeerError::SymlinkRefused, 403, "symlink_refused"),
        (PeerError::NotARegularFile, 403, "not_a_regular_file"),
        (PeerError::TooLarge { max_bytes: 1 }, 413, "too_large"),
        (PeerError::MethodNotAllowed, 405, "method_not_allowed"),
        (PeerError::IoError("x".to_string()), 500, "io_error"),
    ];
    for (error, status, code) in expected {
        assert_eq!(error.status(), *status, "{code}");
        assert_eq!(error.code(), *code);
        assert!(!error.message().is_empty(), "{code}");
    }
}

#[test]
fn a_handle_never_survives_the_trace_boundary() {
    let key = PeerMintKey::generate().unwrap();
    let token = mint(
        &key,
        &payload_for("report.md", "ses_1", in_an_hour()),
        "a@b",
    )
    .unwrap();
    let id = handle_id(&token);

    let sentence = format!("fetching {token} from the peer.");
    let redacted = redact_handle_tokens(&sentence).unwrap();
    assert_eq!(redacted, format!("fetching <handle:{id}> from the peer."));
    assert!(!redacted.contains("mh1."));

    // Two in one string, and one at the very end with nothing after it.
    let pair = format!("{token} and {token}");
    assert_eq!(
        redact_handle_tokens(&pair).unwrap(),
        format!("<handle:{id}> and <handle:{id}>")
    );

    // Text that merely mentions the tag is left alone and not copied.
    assert_eq!(redact_handle_tokens("no handle here, just mh1 as a word"), None);
    assert_eq!(redact_handle_tokens("nothing at all"), None);
    // Non-ASCII around a token must not panic on a mid-codepoint index.
    let dashed = format!("— {token} —");
    assert_eq!(
        redact_handle_tokens(&dashed).unwrap(),
        format!("— <handle:{id}> —")
    );
}

#[test]
fn a_handle_never_survives_the_trace_boundary_in_json() {
    let key = PeerMintKey::generate().unwrap();
    let token = mint(
        &key,
        &payload_for("report.md", "ses_1", in_an_hour()),
        "a@b",
    )
    .unwrap();
    let text = |s: &str| Json::Text(s.to_string());
    let mut value = Json::Object(vec![
        ("peer".to_string(), text("localhost:1")),
        ("handle".to_string(), text(&token)),
        (
            "nested".to_string(),
            Json::Object(vec![(
                "list".to_string(),
                Json::Array(vec![text(&token), text("unrelated")]),
            )]),
        ),
    ]);
    redact_handles_in_json(&mut value);
    let rendered = json::write(&value);
    assert!(!rendered.contains("mh1."), "{rendered}");
    assert!(rendered.contains(&format!("<handle:{}>", handle_id(&token))));
    assert_eq!(get_text(&value, "peer"), Some("localhost:1".to_string()));
    let list = get(get(&value, "nested").unwrap(), "list").unwrap();
    assert!(
        matches!(list, Json::Array(items) if items[1] == Json::Text("unrelated".to_string())),
        "{list:?}"
    );
}

#[test]
fn a_stored_path_is_runtime_chosen_and_sanitised() {
    assert_eq!(
        stored_path_for("3f2a", Some("report.md")),
        "peer-in/3f2a-report.md"
    );
    assert_eq!(
        stored_path_for("3f2a", Some("../../etc/passwd")),
        "peer-in/3f2a-passwd"
    );
    assert_eq!(stored_path_for("3f2a", Some("..")), "peer-in/3f2a-file");
    assert_eq!(stored_path_for("3f2a", Some("")), "peer-in/3f2a-file");
    assert_eq!(stored_path_for("3f2a", None), "peer-in/3f2a-file");
    assert_eq!(
        stored_path_for("3f2a", Some("a b;rm -rf.md")),
        "peer-in/3f2a-a_b_rm_-rf.md"
    );
}

fn plane(max_ttl_secs: u64) -> PeerPlane {
    PeerPlane {
        declared: Some(DeclaredPeerExport {
            key: key(),
            max_ttl_secs,
        }),
        session_id: "ses_test".to_string(),
        containment_achieved: "sealed".to_string(),
    }
}

/// The deny case: a plane that exists — so a refusal still has somewhere to be recorded — with
/// nothing declared to serve from.
fn undeclared_plane() -> PeerPlane {
    PeerPlane {
        declared: None,
        session_id: "ses_test".to_string(),
        containment_achieved: "sealed".to_string(),
    }
}

fn report() -> Result<String, ResourceError> {
    Ok("report.md".to_string())
}

fn bytes(content: &[u8]) -> ReadResponse {
    ReadResponse {
        bytes: content.to_vec(),
        sha256: "00ff".to_string(),
        mtime_ms: 7,
    }
}

#[test]
fn a_mint_names_a_file_under_the_root_and_redeems_to_its_bytes() {
    let plane = plane(60);
    let minted = plane
        .mint_handle(report(), FileProbe::Regular, "a@b", None, NOW)
        .unwrap();
    assert_eq!(minted.path, "report.md");
    assert!(minted.handle.starts_with("mh1."));
    let payload = plane.redeem(&minted.handle, Some("a@b"), NOW).unwrap();
    assert_eq!(payload.p, "report.md");
}

#[test]
fn a_mint_cannot_name_anything_outside_the_declared_subtree() {
    let plane = plane(60);
    for (refusal, error) in [
        (ResourceError::OutsideRoot, PeerError::OutsideRoot),
        (ResourceError::SymlinkRefused, PeerError::SymlinkRefused),
    ] {
        assert_eq!(
            plane
                .mint_handle(Err(refusal), FileProbe::Regular, "a@b", None, NOW)
                .unwrap_err(),
            error
        );
    }
    let ok = Ok("ok.md".to_string());
    assert!(plane.mint_handle(ok, FileProbe::Regular, "a@b", None, NOW).is_ok());
}

#[test]
fn a_mint_refuses_a_directory_rather_than_handing_out_a_handle_that_cannot_redeem() {
    let plane = plane(60);
    for (probe, error) in [
        (FileProbe::Other, PeerError::NotARegularFile),
        (FileProbe::Missing, PeerError::NotFound),
        (
            FileProbe::Failed("denied".to_string()),
            PeerError::IoError("denied".to_string()),
        ),
    ] {
        assert_eq!(
            plane.mint_handle(report(), probe, "a@b", None, NOW).unwrap_err(),
            error
        );
    }
}

#[test]
fn a_ttl_may_only_narrow() {
    let plane = plane(60);
    for (ttl, expires) in [
        (Some(86_400), NOW + 60_000),
        (Some(5), NOW + 5_000),
        (None, NOW + 60_000),
    ] {
        let minted = plane
            .mint_handle(report(), FileProbe::Regular, "a@b", ttl, NOW)
            .unwrap();
        assert_eq!(minted.expires_at_ms, expires, "{ttl:?}");
    }
}

#[test]
fn a_redeem_is_idempotent() {
    let plane = plane(60);
    let minted = plane
        .mint_handle(report(), FileProbe::Regular, "a@b", None, NOW)
        .unwrap();
    let first = plane.redeem(&minted.handle, Some("a@b"), NOW).unwrap();
    for _ in 0..4 {
        assert_eq!(plane.redeem(&minted.handle, Some("a@b"), NOW).unwrap(), first);
    }
}

#[test]
fn a_file_above_max_bytes_is_refused() {
    let plane = plane(60);
    let minted = plane
        .mint_handle(Ok("big.bin".to_string()), FileProbe::Regular, "a@b", None, NOW)
        .unwrap();
    let payload = plane.redeem(&minted.handle, Some("a@b"), NOW).unwrap();
    let (response, record) = answer_read(
        &plane,
        &payload,
        &minted.handle_id,
        Some("a@b"),
        0,
        Err(ResourceError::TooLarge { max_bytes: 16 }),
    );
    assert_eq!(response.status, 413);
    assert_eq!(body_error(&response), "too_large");
    assert_eq!(record.outcome, "too_large");
}

#[test]
fn only_the_peer_segment_routes_to_the_peer_plane() {
    assert!(is_peer_path("/resources/peer"));
    assert!(is_peer_path("/resources/peer/"));
    assert!(is_peer_path("/resources/peer/mh1.a.b"));
    assert!(is_peer_path("/resources/peer?x=1"));
    assert!(!is_peer_path("/resources/peerless/x"));
    assert!(!is_peer_path("/resources/files/report.md"));
    assert!(!is_peer_path("/"));
}

fn respond_at(
    plane: &PeerPlane,
    method: &str,
    path: &str,
    audience: Option<&str>,
    now: u64,
) -> ResourceResponse {
    match handle_peer_request(plane, method, path, audience, 0, now) {
        PeerStep::Answer(response) | PeerStep::Refused(response, _) => response,
        PeerStep::Read(payload, id) => {
            answer_read(plane, &payload, &id, audience, 0, Ok(bytes(b"known bytes"))).0
        }
    }
}

fn respond(
    plane: &PeerPlane,
    method: &str,
    path: &str,
    audience: Option<&str>,
) -> ResourceResponse {
    respond_at(plane, method, path, audience, NOW)
}

fn body_error(response: &ResourceResponse) -> String {
    let text = String::from_utf8(response.body.clone()).unwrap();
    get_text(&read(&text).unwrap(), "error").unwrap()
}

#[test]
fn an_undeclared_capsule_answers_no_peer_plane_and_mints_nothing() {
    let plane = undeclared_plane();
    assert!(!plane.is_declared());
    assert_eq!(plane.max_ttl_secs(), None);

    let response = respond(&plane, "GET", "/resources/peer/mh1.YWJj.YWJj", Some("a@b"));
    assert_eq!(response.status, 404);
    assert_eq!(body_error(&response), "no_peer_plane");

    assert_eq!(
        plane
            .mint_handle(report(), FileProbe::Regular, "a@b", None, NOW)
            .unwrap_err(),
        PeerError::NoPeerPlane
    );
}

#[test]
fn there_is_no_list_verb() {
    let plane = undeclared_plane();
    for path in ["/resources/peer", "/resources/peer/"] {
        let response = respond(&plane, "GET", path, Some("a@b"));
        assert_eq!(response.status, 404, "{path}");
        assert_eq!(body_error(&response), "not_found", "{path}");
        let body = String::from_utf8_lossy(&response.body);
        assert!(
            !body.contains('['),
            "a listing must not be reachable: {body}"
        );
    }
}

#[test]
fn every_write_verb_is_refused_with_an_allow_header() {
    let plane = undeclared_plane();
    for method in ["POST", "PUT", "PATCH", "DELETE", "HEAD"] {
        let response = respond(&plane, method, "/resources/peer/mh1.YWJj.YWJj", Some("a@b"));
        assert_eq!(response.status, 405, "{method}");
        assert_eq!(body_error(&response), "method_not_allowed");
        assert!(response
            .headers
            .iter()
            .any(|(name, value)| name == "allow" && value == "GET"));
    }
}

#[test]
fn a_declared_plane_serves_a_redeem_and_refuses_every_tampered_form_identically() {
    let plane = plane(60);
    let minted = plane
        .mint_with_nonce(
            report(),
            FileProbe::Regular,
            "a@b",
            None,
            NOW,
            "0123456789abcdef0123456789abcdef".to_string(),
        )
        .unwrap();

    let ok = respond(
        &plane,
        "GET",
        &format!("/resources/peer/{}", minted.handle),
        Some("a@b"),
    );
    assert_eq!(ok.status, 200);
    assert_eq!(ok.body, b"known bytes");
    assert!(ok
        .headers
        .iter()
        .any(|(name, value)| name == HANDLE_ID_HEADER && value == &minted.handle_id));
    assert!(
        !ok.headers
            .iter()
            .any(|(name, _)| name == "x-murmur-export-root"),
        "the peer plane discloses no path structure"
    );

    let flip_last = |text: &str| {
        let mut chars: Vec<char> = text.chars().collect();
        let last = chars.len() - 1;
        chars[last] = if chars[last] == 'A' { 'B' } else { 'A' };
        chars.into_iter().collect::<String>()
    };
    let segments: Vec<&str> = minted.handle.split('.').collect();
    let bad_payload = format!("mh1.{}.{}", flip_last(segments[1]), segments[2]);
    let bad_mac = format!("mh1.{}.{}", segments[1], flip_last(segments[2]));

    let refusals = [
        respond(
            &plane,
            "GET",
            &format!("/resources/peer/{bad_payload}"),
            Some("a@b"),
        ),
        respond(
            &plane,
            "GET",
            &format!("/resources/peer/{bad_mac}"),
            Some("a@b"),
        ),
        respond(
            &plane,
            "GET",
            &format!("/resources/peer/{}", minted.handle),
            Some("attacker@localhost:1"),
        ),
    ];
    for refusal in &refusals {
        assert_eq!(refusal.status, 403);
        assert_eq!(refusal.body, refusals[0].body);
        assert_eq!(body_error(refusal), "handle_not_valid");
        assert!(
            !String::from_utf8_lossy(&refusal.body).contains("known bytes"),
            "a refusal must serve none of the file's bytes"
        );
    }

    let no_audience = respond(
        &plane,
        "GET",
        &format!("/resources/peer/{}", minted.handle),
        None,
    );
    assert_eq!(no_audience.status, 400);
    assert_eq!(body_error(&no_audience), "missing_audience");

    let not_a_token = respond(&plane, "GET", "/resources/peer/report.md", Some("a@b"));
    assert_eq!(not_a_token.status, 400);
    assert_eq!(body_error(&not_a_token), "malformed_handle");
}

/// The audience header is required *before* the MAC is checked, so an omitted header and a wrong
/// one are different answers — but neither reveals anything about the file.
#[test]
fn a_malformed_shape_is_reported_before_the_audience_is_required() {
    let plane = plane(60);
    let response = respond(&plane, "GET", "/resources/peer/not-a-token", None);
    assert_eq!(body_error(&response), "malformed_handle");
}

#[test]
fn an_expired_handle_is_refused_with_its_own_code() {
    let plane = plane(1);
    let minted = plane
        .mint_handle(report(), FileProbe::Regular, "a@b", Some(1), NOW)
        .unwrap();
    let response = respond_at(
        &plane,
        "GET",
        &format!("/resources/peer/{}", minted.handle),
        Some("a@b"),
        NOW + 1100,
    );
    assert_eq!(response.status, 410);
    assert_eq!(body_error(&response), "handle_expired");
}

#[test]
fn peer_handoff_zeroizing_clears_every_key_byte() {
    let mut key = PeerMintKey::from_bytes([0xAB; 32]);
    assert!(!key.is_made_of(&[0u8; 32]));
    key.zeroize();
    assert!(key.is_made_of(&[0u8; 32]));
}

/// A generated key is not the all-zero array a zeroized one becomes, and two are distinct.
#[test]
fn peer_handoff_a_generated_key_is_random() {
    let one = PeerMintKey::generate().unwrap();
    let two = PeerMintKey::generate().unwrap();
    assert!(!one.is_made_of(&[0u8; 32]));
    let payload = payload_for("a", "ses_1", in_an_hour());
    assert_ne!(
        mint(&one, &payload, "a@b").unwrap(),
        mint(&two, &payload, "a@b").unwrap()
    );
}

#[test]
fn a_peer_key_prints_no_material() {
    let printed = PeerMintKey::from_bytes([0xAB; 32]).redacted();
    assert_eq!(printed, "PeerMintKey(<redacted>)");
}

#[test]
fn a_payload_is_read_without_the_key_and_judged_by_its_fields() {
    let payload = payload_for("report.md", "ses_1", in_an_hour());
    let token = mint(&key(), &payload, "a@b").unwrap();
    assert_eq!(decode_payload_unverified(&token), Some(payload));
    assert_eq!(decode_payload_unverified("mh1.YWJj.YWJj"), None);
    assert_eq!(decode_payload_unverified("nothing"), None);
    let payload = || payload_for("report.md", "ses_1", in_an_hour());
    assert_eq!(accept_payload(Some(payload()), "ses_1", NOW), Ok(payload()));
    assert_eq!(
        accept_payload(None, "ses_1", NOW),
        Err(HandleError::Malformed)
    );
    assert_eq!(
        accept_payload(Some(payload()), "ses_2", NOW),
        Err(HandleError::NotValid)
    );
    assert_eq!(
        accept_payload(Some(payload()), "ses_1", in_an_hour()),
        Err(HandleError::Expired)
    );
    let one = read("1").unwrap();
    let text = read(r#""x""#).unwrap();
    let (one, text) = (Some(&one), Some(&text));
    assert_eq!(payload_of_values(one, text, text, one, text).unwrap().exp, 1);
    assert_eq!(payload_of_values(one, text, text, one, None), None);
    assert_eq!(payload_of_values(text, text, text, one, text), None);
}

/// What a token with these payload bytes carries.
fn carried(payload: &[u8]) -> Option<HandlePayload> {
    let token = format!("mh1.{}.{}", B64.encode(payload), B64.encode("tag"));
    decode_payload_unverified(&token)
}

const FIELDS: &str = r#""v":1,"iss":"ses_1","p":"report.md","exp":7,"n":"00""#;

fn small_payload() -> Option<HandlePayload> {
    Some(HandlePayload {
        n: "00".to_string(),
        ..payload_for("report.md", "ses_1", 7)
    })
}

#[test]
fn a_payload_gives_each_field_once() {
    assert_eq!(carried(format!("{{{FIELDS}}}").as_bytes()), small_payload());
    for again in [
        r#""v":1"#,
        r#""\u0076":1"#,
        r#""iss":"ses_1""#,
        r#""p":"report.md""#,
        r#""exp":7"#,
        r#""n":"00""#,
        r#""n" : null"#,
    ] {
        assert_eq!(carried(format!("{{{FIELDS},{again}}}").as_bytes()), None, "{again}");
        assert_eq!(carried(format!("{{{again},{FIELDS}}}").as_bytes()), None, "{again}");
    }
    for short in ["", r#""v":1"#, r#""v":1,"iss":"a","p":"b","exp":7"#] {
        assert_eq!(carried(format!("{{{short}}}").as_bytes()), None, "{short}");
    }
    for v in ["256", "-1", "-0", "1.0", "1e0", "\"1\"", "null", "[1]", "01"] {
        let fields = FIELDS.replace("\"v\":1", &format!("\"v\":{v}"));
        assert_eq!(carried(format!("{{{fields}}}").as_bytes()), None, "{v}");
    }
}

#[test]
fn an_unknown_entry_of_a_payload_is_skipped_unread() {
    let deep = format!("\"x\":{}{}", "[".repeat(500), "]".repeat(500));
    for more in [
        r#""x":1"#,
        r#""x":1,"x":2"#,
        r#""x":1e999"#,
        r#""x":"\ud800""#,
        r#""":{"v":2,"a":[1,{"b":null}]}"#,
        r#""V":2"#,
        deep.as_str(),
    ] {
        let payload = format!("{{{more},{FIELDS}}}");
        assert_eq!(carried(payload.as_bytes()), small_payload(), "{more}");
        let payload = format!("{{{FIELDS} , {more} }}");
        assert_eq!(carried(payload.as_bytes()), small_payload(), "{more}");
    }
    let with_bytes = |front: &[u8]| {
        let mut payload = b"{".to_vec();
        payload.extend_from_slice(front);
        payload.extend_from_slice(b",");
        payload.extend_from_slice(FIELDS.as_bytes());
        payload.extend_from_slice(b"}");
        carried(&payload)
    };
    assert_eq!(with_bytes(b"\"x\":\"\xff\xfe\""), small_payload());
    assert_eq!(with_bytes(b"\"x\xff\":1"), None);
    assert_eq!(with_bytes(b"\"v2\":tru"), None);
}

#[test]
fn a_payload_is_one_object_or_one_array() {
    for (payload, good) in [
        (format!(" \r\n\t{{ {FIELDS} }} \n"), true),
        (format!("{{{FIELDS}}}x"), false),
        (format!("{{{FIELDS},}}"), false),
        (format!("{{,{FIELDS}}}"), false),
        (format!("{{{FIELDS}"), false),
        (format!("{{{FIELDS} \"x\":1}}"), false),
        (format!("{{{FIELDS},x:1}}"), false),
        (format!("{{{FIELDS},\"x\" 1}}"), false),
        (format!("{{{FIELDS},\"x\":1x}}"), false),
        (r#"[1,"ses_1","report.md",7,"00"]"#.to_string(), true),
        (r#" [ 1, "ses_1", "report.md", 7, "00" ] "#.to_string(), true),
        (r#"[1,"ses_1","report.md",7]"#.to_string(), false),
        (r#"[1,"ses_1","report.md",7,"00",1]"#.to_string(), false),
        ("null".to_string(), false),
        (" ".to_string(), false),
    ] {
        let wanted = if good { small_payload() } else { None };
        assert_eq!(carried(payload.as_bytes()), wanted, "{payload}");
    }
}

#[test]
fn a_refusal_names_its_error_and_nothing_else() {
    let response = error_response(&PeerError::HandleNotValid, Some(3), Some("00ff"));
    assert_eq!(response.status, 403);
    assert_eq!(body_error(&response), "handle_not_valid");
    assert!(response
        .headers
        .iter()
        .any(|(name, value)| name == HANDLE_ID_HEADER && value == "00ff"));
}

#[test]
fn a_refused_read_keeps_its_own_code() {
    for (refusal, error) in [
        (ResourceError::NotFound, PeerError::NotFound),
        (ResourceError::OutsideRoot, PeerError::OutsideRoot),
        (ResourceError::SymlinkRefused, PeerError::SymlinkRefused),
        (ResourceError::NotARegularFile, PeerError::NotARegularFile),
        (ResourceError::MethodNotAllowed, PeerError::MethodNotAllowed),
        (
            ResourceError::IoError("x".to_string()),
            PeerError::IoError("x".to_string()),
        ),
        (
            ResourceError::TooLarge { max_bytes: 2 },
            PeerError::TooLarge { max_bytes: 2 },
        ),
        (ResourceError::NoResourcePlane, PeerError::NoPeerPlane),
    ] {
        assert_eq!(PeerError::from(refusal), error);
    }
}
