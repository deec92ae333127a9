use capsule_runtime::errors::RuntimeError;
use capsule_runtime::inference_credential::{
    config_holds_credential, read_entry, ApiKeyReference, ConfigFile, CredentialChange,
    CredentialRejection, CredentialSource, EntryRead, FileRead, FileStamp, InferenceCredential,
    ReadFault, RotationTrigger, E_RUN_027,
};

const OLD: &str = "unit-credential-old-marker";
const NEW: &str = "unit-credential-new-marker";
const NAME: &str = "UNIT_CREDENTIAL_KEY";
const PATH: &str = "/h/.murmur/config.yaml";

fn stamp(ino: u64) -> FileStamp {
    FileStamp::Present {
        dev: 1,
        ino,
        len: 10,
        mtime: 1,
        mtime_nsec: 2,
        ctime: 3,
        ctime_nsec: 4,
        mode: 0o100600,
    }
}

fn config_at(ino: u64, name: &str, value: &str) -> FileRead {
    FileRead::Parsed {
        stamp: stamp(ino),
        credentials: vec![(name.to_string(), value.to_string())],
    }
}

fn config(value: &str) -> FileRead {
    config_at(1, NAME, value)
}

fn reference(name: &str) -> ApiKeyReference {
    ApiKeyReference::Environment(name.to_string())
}

fn file(found: FileRead) -> Option<ConfigFile> {
    Some(ConfigFile {
        path: PATH.to_string(),
        found,
    })
}

fn config_credential() -> InferenceCredential {
    InferenceCredential::resolve(&reference(NAME), &file(config(OLD)), &None)
        .unwrap_or_else(|err| panic!("{err:?}"))
        .0
}

const ROTATED: CredentialChange = CredentialChange::Rotated {
    trigger: RotationTrigger::FileChanged,
};

#[test]
fn inference_credential_every_call_reads_the_file() {
    let mut credential = config_credential();
    assert_eq!(credential.source().trace_name(), "config");
    assert!(credential.reads_the_file());
    for _ in 0..5 {
        assert_eq!(credential.refresh(false, &config(OLD)), None);
        assert_eq!(credential.value(), OLD);
    }
}

#[test]
fn inference_credential_rename_replace_is_seen_on_the_next_call() {
    let mut credential = config_credential();
    assert_eq!(
        credential.refresh(false, &config_at(2, NAME, NEW)),
        Some(ROTATED)
    );
    assert_eq!(credential.value(), NEW);
    assert_eq!(credential.refresh(false, &config_at(2, NAME, NEW)), None);
    assert_eq!(credential.value(), NEW);
}

#[test]
fn inference_credential_same_size_in_place_edit_is_seen_on_the_next_call() {
    let mut credential = config_credential();
    assert_eq!(OLD.len(), NEW.len());
    // The stamp is the same, and the file is read all the same.
    assert_eq!(credential.refresh(false, &config(NEW)), Some(ROTATED));
    assert_eq!(credential.value(), NEW);
    assert_eq!(
        credential.refresh(true, &config(OLD)),
        Some(CredentialChange::Rotated {
            trigger: RotationTrigger::Rejection
        })
    );
    assert_eq!(RotationTrigger::FileChanged.as_str(), "file_changed");
    assert_eq!(RotationTrigger::Rejection.as_str(), "rejection");
}

/// An editor that truncates and then writes can be read between the two.
#[test]
fn inference_credential_torn_read_keeps_the_last_good_value_then_rotates() {
    let mut credential = config_credential();
    let torn = FileRead::NotParsed { stamp: stamp(1) };
    assert!(matches!(
        credential.refresh(false, &torn),
        Some(CredentialChange::Unreadable { .. })
    ));
    assert_eq!(credential.value(), OLD);
    assert_eq!(credential.refresh(false, &torn), None);
    assert_eq!(credential.value(), OLD);
    assert_eq!(credential.refresh(false, &config(NEW)), Some(ROTATED));
    assert_eq!(credential.value(), NEW);
}

#[test]
fn inference_credential_unreadable_source_keeps_the_last_good_value() {
    let mut credential = config_credential();
    let mut expect = |found: &FileRead, after_rejection: bool, reason: Option<ReadFault>| {
        assert_eq!(
            credential.refresh(after_rejection, found),
            reason.map(|reason| CredentialChange::Unreadable { reason })
        );
    };
    expect(&FileRead::Missing, false, Some(ReadFault::Missing));
    // One missing file is reported once, whether or not a rejection forced the read.
    expect(&FileRead::Missing, false, None);
    expect(&FileRead::Missing, true, None);
    // The file state is unavailable either way: the different reason alone is reported again.
    expect(&FileRead::NotOpened, false, Some(ReadFault::Unreadable));
    expect(&FileRead::NotOpened, false, None);
    let unparseable = FileRead::NotParsed { stamp: stamp(2) };
    expect(&unparseable, false, Some(ReadFault::Unparseable));
    expect(&unparseable, false, None);
    let unread = FileRead::NotRead { stamp: stamp(2) };
    expect(&unread, false, Some(ReadFault::Unreadable));
    expect(&config_at(3, NAME, ""), false, Some(ReadFault::EmptyEntry));
    expect(
        &config_at(4, "OTHER_KEY", "x"),
        false,
        Some(ReadFault::NoEntry),
    );
    assert_eq!(credential.value(), OLD);
    assert_eq!(credential.refresh(false, &config(NEW)), Some(ROTATED));
    assert_eq!(credential.value(), NEW);
    // A read that yielded a value resets the dedupe, so a failure seen before is reported again.
    assert_eq!(
        credential.refresh(false, &FileRead::Missing),
        Some(CredentialChange::Unreadable {
            reason: ReadFault::Missing
        })
    );
}

#[test]
fn a_blank_entry_counts_as_an_empty_one() {
    let mut credential = config_credential();
    assert_eq!(
        credential.refresh(false, &config_at(3, NAME, "  ")),
        Some(CredentialChange::Unreadable {
            reason: ReadFault::EmptyEntry
        })
    );
    assert_eq!(credential.value(), OLD);
}

#[test]
fn inference_credential_environment_and_literal_sources_never_touch_the_filesystem() {
    let variable = "UNIT_CREDENTIAL_ENVIRONMENT_ONLY_KEY";
    let (environment, _) = InferenceCredential::resolve(
        &reference(variable),
        &file(config(OLD)),
        &Some(NEW.to_string()),
    )
    .unwrap_or_else(|err| panic!("{err:?}"));
    assert_eq!(
        environment.source(),
        &CredentialSource::Environment {
            name: variable.to_string()
        }
    );
    let (literal, _) = InferenceCredential::resolve(
        &ApiKeyReference::Literal(OLD.to_string()),
        &file(config(OLD)),
        &None,
    )
    .unwrap_or_else(|err| panic!("{err:?}"));
    assert_eq!(literal.source(), &CredentialSource::ManifestLiteral);
    for (mut credential, value) in [(environment, NEW), (literal, OLD)] {
        assert!(!credential.reads_the_file());
        assert_eq!(credential.refresh(false, &config("other")), None);
        assert_eq!(credential.refresh(true, &FileRead::Missing), None);
        assert_eq!(credential.value(), value);
    }
}

#[test]
fn inference_credential_config_wins_over_the_environment_and_absence_refuses() {
    let (credential, warning) = InferenceCredential::resolve(
        &reference(NAME),
        &file(config(OLD)),
        &Some(NEW.to_string()),
    )
    .unwrap_or_else(|err| panic!("{err:?}"));
    assert_eq!(
        credential.source(),
        &CredentialSource::Config {
            path: PATH.to_string(),
            name: NAME.to_string()
        }
    );
    assert_eq!(warning, None);

    let missing = "UNIT_CREDENTIAL_NOWHERE_KEY";
    for variable in [None, Some(String::new())] {
        match InferenceCredential::resolve(&reference(missing), &file(config(OLD)), &variable) {
            Err(err) => {
                assert!(matches!(
                    err,
                    RuntimeError::InferenceCredentialNotFound { .. }
                ));
                let message = err.message();
                assert!(
                    message.contains(&format!("credentials.{missing}")),
                    "{message}"
                );
                assert!(message.contains(PATH), "{message}");
                assert!(message.contains("environment variable"), "{message}");
            }
            Ok(_) => panic!("a credential out of nowhere"),
        }
    }
}

#[test]
fn a_wide_config_file_is_warned_of_at_launch() {
    let wide = FileRead::Parsed {
        stamp: FileStamp::Present {
            dev: 1,
            ino: 1,
            len: 1,
            mtime: 1,
            mtime_nsec: 1,
            ctime: 1,
            ctime_nsec: 1,
            mode: 0o100644,
        },
        credentials: vec![(NAME.to_string(), OLD.to_string())],
    };
    let (_, warning) = InferenceCredential::resolve(&reference(NAME), &file(wide), &None)
        .unwrap_or_else(|err| panic!("{err:?}"));
    let warning = warning.unwrap();
    assert!(warning.contains("mode 0644") && !warning.contains(OLD), "{warning}");
}

#[test]
fn inference_credential_rejection_is_taken_once_and_names_the_source() {
    let mut credential = config_credential();
    assert_eq!(credential.take_rejection(), None);
    assert_eq!(
        credential.record_rejection(401, true),
        CredentialChange::Rejected {
            status: 401,
            retried: true
        }
    );
    let rejection = credential.take_rejection().unwrap();
    assert_eq!(
        rejection,
        CredentialRejection {
            status: 401,
            retried: true
        }
    );
    assert_eq!(credential.take_rejection(), None);
    let message = credential.rejection_message(rejection);
    assert!(
        message.contains(&format!("credentials.{NAME}")),
        "{message}"
    );
    assert!(message.contains(PATH), "{message}");
    assert!(message.contains("HTTP 401"), "{message}");

    credential.record_rejection(401, false);
    credential.clear_rejection();
    assert_eq!(credential.take_rejection(), None);
}

#[test]
fn a_rejection_is_reported_once_with_its_code_and_hint() {
    let mut credential = config_credential();
    assert!(credential.report_rejection().is_none());
    credential.record_rejection(403, false);
    let (message, error, hint) = credential.report_rejection().unwrap();
    assert_eq!(
        message,
        format!("the provider rejected the inference credential credentials.{NAME} in {PATH} (HTTP 403)")
    );
    assert_eq!(error, format!("error[{E_RUN_027}]: {message}"));
    assert!(hint.contains("mur config set -g"), "{hint}");
    assert!(credential.report_rejection().is_none());
}

#[test]
fn inference_credential_debug_and_labels_carry_no_value() {
    let mut rotated = config_credential();
    rotated.refresh(false, &config(NEW));
    let (literal, _) =
        InferenceCredential::resolve(&ApiKeyReference::Literal(OLD.to_string()), &None, &None)
            .unwrap_or_else(|err| panic!("{err:?}"));
    for credential in [&rotated, &literal] {
        let rejection = CredentialRejection {
            status: 401,
            retried: true,
        };
        for text in [
            credential.redacted(),
            credential.source().label(),
            credential.rejection_message(rejection),
            credential.rejection_hint(),
            credential.unreadable_warning(ReadFault::Missing),
        ] {
            assert!(!text.contains(OLD) && !text.contains(NEW), "{text}");
        }
    }
    assert_eq!(
        literal.redacted(),
        "InferenceCredential { source: ManifestLiteral, value: \"<redacted>\" }"
    );
    assert!(rotated.redacted().contains(&format!("{PATH:?}")));
    assert_eq!(literal.source().credential_name(), None);
    assert_eq!(rotated.source().credential_name(), Some(NAME));
}

#[test]
fn an_entry_is_read_or_faulted_by_name() {
    assert!(config_holds_credential(&config(OLD), NAME));
    assert!(!config_holds_credential(&config(" "), NAME));
    assert!(!config_holds_credential(&FileRead::Missing, NAME));
    assert_eq!(
        read_entry(&config(OLD), NAME),
        (stamp(1), EntryRead::Value(OLD.to_string()))
    );
    for (fault, word) in [
        (ReadFault::Missing, "missing"),
        (ReadFault::Unreadable, "unreadable"),
        (ReadFault::Unparseable, "unparseable"),
        (ReadFault::NoEntry, "no_entry"),
        (ReadFault::EmptyEntry, "empty_entry"),
    ] {
        assert_eq!(fault.as_str(), word);
    }
}
