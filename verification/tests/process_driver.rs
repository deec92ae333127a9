use capsule_runtime::errors::RuntimeError;
use capsule_runtime::limits::GuestFailure;
use capsule_runtime::process_driver::{
    check_driver_interface, check_required_env, unusable_env_name, CallFailure, Description,
    ProcessDriver, WitContracts, PROCESS_DRIVER_IFACE,
};

fn contracts(exports: &[&str]) -> WitContracts {
    WitContracts {
        exports: exports.iter().map(|e| e.to_string()).collect(),
        imports: Vec::new(),
    }
}

#[test]
fn process_driver_interface_process_transport_accepts_the_process_export() {
    let c = contracts(&[PROCESS_DRIVER_IFACE]);
    assert!(check_driver_interface("process", "d", "1.0.0", Some(&c)).is_ok());
}

#[test]
fn process_driver_interface_process_transport_refuses_a_tool_export() {
    let c = contracts(&["murmur:tool/run@0.1.0"]);
    let err = check_driver_interface("process", "d", "1.0.0", Some(&c)).unwrap_err();
    match &err {
        RuntimeError::ProcessDriverInterfaceMissing {
            expected, found, ..
        } => {
            assert_eq!(expected, PROCESS_DRIVER_IFACE);
            assert!(found.is_empty());
        }
        other => panic!("unexpected error: {other:?}"),
    }
    let message = err.message();
    assert!(message.contains("'d@1.0.0'"), "{message}");
    assert!(message.contains(PROCESS_DRIVER_IFACE), "{message}");
}

#[test]
fn process_driver_interface_process_transport_names_the_version_found() {
    let c = contracts(&["murmur:driver/process@0.0.1"]);
    let err = check_driver_interface("process", "d", "1.0.0", Some(&c)).unwrap_err();
    match &err {
        RuntimeError::ProcessDriverInterfaceMissing { found, .. } => {
            assert_eq!(found, &vec!["murmur:driver/process@0.0.1".to_string()]);
        }
        other => panic!("unexpected error: {other:?}"),
    }
    let message = err.message();
    assert!(message.contains("murmur:driver/process@0.0.1"), "{message}");
    assert!(message.contains("rebuild it"), "{message}");
}

#[test]
fn process_driver_interface_process_transport_refuses_no_contracts() {
    let err = check_driver_interface("process", "d", "1.0.0", None).unwrap_err();
    assert!(matches!(
        err,
        RuntimeError::ProcessDriverInterfaceMissing { ref found, .. } if found.is_empty()
    ));
}

#[test]
fn process_driver_interface_http_transport_refuses_the_process_export() {
    let c = contracts(&[PROCESS_DRIVER_IFACE]);
    let err = check_driver_interface("http", "d", "1.0.0", Some(&c)).unwrap_err();
    match &err {
        RuntimeError::HttpDriverExportsProcessInterface { name, exported, .. } => {
            assert_eq!(name, "d");
            assert_eq!(exported, &vec![PROCESS_DRIVER_IFACE.to_string()]);
        }
        other => panic!("unexpected error: {other:?}"),
    }
}

#[test]
fn process_driver_interface_http_transport_accepts_a_tool_export() {
    let c = contracts(&["murmur:tool/run@0.1.0"]);
    assert!(check_driver_interface("http", "d", "1.0.0", Some(&c)).is_ok());
}

#[test]
fn another_transport_is_not_judged() {
    let c = contracts(&[PROCESS_DRIVER_IFACE]);
    assert!(check_driver_interface("carrier-pigeon", "d", "1.0.0", Some(&c)).is_ok());
    assert!(check_driver_interface("carrier-pigeon", "d", "1.0.0", None).is_ok());
    assert!(check_driver_interface("http", "d", "1.0.0", None).is_ok());
}

#[test]
fn no_driver_serves_both_transports() {
    for exports in [
        vec![],
        vec![PROCESS_DRIVER_IFACE],
        vec!["murmur:driver/process@0.0.1"],
        vec!["murmur:tool/run@0.1.0"],
        vec!["murmur:tool/run@0.1.0", PROCESS_DRIVER_IFACE],
    ] {
        let c = contracts(&exports);
        let process = check_driver_interface("process", "d", "1.0.0", Some(&c));
        let http = check_driver_interface("http", "d", "1.0.0", Some(&c));
        assert!(process.is_err() || http.is_err(), "{exports:?}");
    }
}

fn description(required_env: &[&str]) -> Description {
    Description {
        harness: "h".to_string(),
        binary: "b".to_string(),
        version_args: Vec::new(),
        tested_versions: Vec::new(),
        required_env: required_env.iter().map(|v| v.to_string()).collect(),
        streams_text: false,
    }
}

#[test]
fn required_env_all_declared_passes() {
    let allow = vec!["A".to_string(), "B".to_string(), "C".to_string()];
    assert!(check_required_env("d", "1.0.0", &description(&["B", "A"]), &allow).is_ok());
}

#[test]
fn required_env_reports_missing_names_in_order_once_each() {
    let allow = vec!["B".to_string()];
    let err = check_required_env("d", "1.0.0", &description(&["Z", "B", "A", "Z"]), &allow)
        .unwrap_err();
    match &err {
        RuntimeError::ProcessDriverRequiredEnvNotAllowed { missing, .. } => {
            assert_eq!(missing, &vec!["Z".to_string(), "A".to_string()]);
        }
        other => panic!("unexpected error: {other:?}"),
    }
    let message = err.message();
    assert!(message.contains("'d@1.0.0'"), "{message}");
    assert!(message.contains("Z, A"), "{message}");
}

#[test]
fn required_env_usable_names_pass() {
    assert_eq!(
        unusable_env_name(&description(&["HOME", "PROFILE_2"])),
        None
    );
    assert_eq!(unusable_env_name(&description(&[])), None);
}

#[test]
fn required_env_refuses_a_name_that_is_not_a_variable() {
    for bad in ["", "A=B", "A\0B"] {
        assert_eq!(
            unusable_env_name(&description(&["HOME", bad, "TAIL"])),
            Some(bad),
            "{bad:?} should be refused"
        );
    }
}

fn driver() -> ProcessDriver {
    ProcessDriver {
        name: "d".to_string(),
        version: "1.0.0".to_string(),
    }
}

fn load_failure(err: RuntimeError) -> String {
    match err {
        RuntimeError::ProcessDriverLoad {
            name,
            version,
            message,
        } => {
            assert_eq!((name.as_str(), version.as_str()), ("d", "1.0.0"));
            message
        }
        other => panic!("unexpected error: {other:?}"),
    }
}

#[test]
fn a_description_is_taken_or_refused_by_name() {
    let taken = driver().describe(Ok(description(&["HOME"])));
    assert_eq!(taken, Ok(description(&["HOME"])));
    let refused = driver().describe(Ok(description(&["A=B"]))).unwrap_err();
    assert_eq!(
        load_failure(refused),
        "describe() names \"A=B\" in required-env, which is not a usable variable name"
    );
}

#[test]
fn a_failed_call_says_how_it_failed() {
    for (failure, words) in [
        (
            GuestFailure::DeadlineExceeded { seconds: 5 },
            "exceeded its 5s deadline and was interrupted",
        ),
        (
            GuestFailure::ResourceLimit {
                message: "too big".to_string(),
            },
            "exceeded its resource limits: too big",
        ),
        (GuestFailure::Other, "trapped: boom"),
    ] {
        let failed = CallFailure {
            failure,
            error: "boom".to_string(),
        };
        match driver().call_error("launch", &failed) {
            RuntimeError::ProcessDriverCallFailed { call, message, .. } => {
                assert_eq!((call.as_str(), message.as_str()), ("launch", words));
            }
            other => panic!("unexpected error: {other:?}"),
        }
        let described = driver().describe(Err(failed)).unwrap_err();
        assert_eq!(load_failure(described), format!("describe() {words}"));
    }
    let text = driver().load_error("no import".to_string()).message();
    assert_eq!(text, "failed to load process driver 'd@1.0.0': no import");
}
