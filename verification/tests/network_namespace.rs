use capsule_runtime::errors::RuntimeError;
use capsule_runtime::network_namespace::{
    check_egress_namespace, detect_egress_namespace_blocker, egress_namespace_blocker,
    max_namespace_sockets, probe_from_exit, receive_namespace_sockets, route_acknowledged,
    route_request, skip_without_egress_namespace, AppArmorProfile, CapsuleNetnsPlan,
    EgressNamespaceBlocker, EgressNamespaceProbe, EgressNamespaceSupport, NetnsStep,
    PROBE_CONFIG_DENIED, PROBE_MAP_DENIED, PROBE_OK, PROBE_UNSHARE_DENIED,
    PROBE_UNSHARE_UNSUPPORTED, ROUTE_REQUEST_LEN,
};

/// How many ports an allowlist may name here.
const MAX_EGRESS_TCP_PORTS: u16 = 16;

fn profile() -> AppArmorProfile {
    AppArmorProfile {
        name: "murmur-sealed".to_string(),
        path: "/etc/apparmor.d/murmur-sealed".to_string(),
    }
}

fn support(apparmor: bool, namespace: EgressNamespaceProbe) -> EgressNamespaceSupport {
    EgressNamespaceSupport {
        apparmor_permits_userns: apparmor,
        namespace,
    }
}

#[test]
fn a_working_namespace_blocks_nothing() {
    assert_eq!(
        egress_namespace_blocker(true, support(true, EgressNamespaceProbe::Works)),
        None
    );
}

#[test]
fn apparmor_is_blamed_before_the_namespace_outcome() {
    // The `unshare` failure is a *consequence* of the restriction, so naming the kernel here
    // would send an Ubuntu desktop user to entirely the wrong fix.
    assert_eq!(
        egress_namespace_blocker(true, support(false, EgressNamespaceProbe::Unsupported)),
        Some(EgressNamespaceBlocker::CapabilityGrantMissing)
    );
}

#[test]
fn every_refusal_of_a_supported_mechanism_is_a_capability_grant_problem() {
    for probe in [
        EgressNamespaceProbe::Denied,
        EgressNamespaceProbe::MapDenied,
        EgressNamespaceProbe::ConfigDenied,
    ] {
        assert_eq!(
            egress_namespace_blocker(true, support(true, probe)),
            Some(EgressNamespaceBlocker::CapabilityGrantMissing),
            "{probe:?}"
        );
    }
}

#[test]
fn a_kernel_without_the_mechanism_is_named_separately() {
    assert_eq!(
        egress_namespace_blocker(true, support(true, EgressNamespaceProbe::Unsupported)),
        Some(EgressNamespaceBlocker::KernelSupportMissing)
    );
}

#[test]
fn non_linux_is_never_refused_for_a_mechanism_it_never_had() {
    for probe in [
        EgressNamespaceProbe::Works,
        EgressNamespaceProbe::Denied,
        EgressNamespaceProbe::Unsupported,
    ] {
        assert_eq!(egress_namespace_blocker(false, support(false, probe)), None);
    }
}

#[test]
fn every_blocker_refuses_the_retired_fallback_in_so_many_words() {
    for blocker in EgressNamespaceBlocker::all() {
        let reason = blocker.reason(&profile());
        assert!(
            reason.contains("will not fall back"),
            "{blocker:?} must state that there is no fallback"
        );
    }
}

#[test]
fn the_capability_grant_refusal_names_both_remediations() {
    let reason = EgressNamespaceBlocker::CapabilityGrantMissing.reason(&profile());
    assert!(reason.contains("apparmor_parser"), "names the AppArmor fix");
    assert!(
        reason.contains("--cap-add SYS_ADMIN"),
        "names the container fix"
    );
}

#[test]
fn the_kernel_refusal_names_the_sysctl_and_the_config_symbol() {
    let reason = EgressNamespaceBlocker::KernelSupportMissing.reason(&profile());
    assert!(reason.contains("user.max_user_namespaces"));
    assert!(reason.contains("CONFIG_USER_NS"));
}

#[test]
fn the_socket_count_is_one_per_port_plus_the_resolver() {
    let plan = CapsuleNetnsPlan {
        tcp_ports: vec![80, 443],
        uid: 1000,
        gid: 1000,
    };
    assert_eq!(plan.socket_count(), 3);
}

#[test]
fn a_capsule_with_no_tcp_egress_still_binds_the_resolver() {
    // Load-bearing: with nothing bound on 53 a lookup would be a dropped packet, and the
    // capsule would stall through glibc's whole retry schedule instead of being told no.
    let plan = CapsuleNetnsPlan {
        tcp_ports: Vec::new(),
        uid: 1000,
        gid: 1000,
    };
    assert_eq!(plan.socket_count(), 1);
}

#[test]
fn the_widest_allowlist_still_fits_one_scm_rights_message() {
    let plan = CapsuleNetnsPlan {
        tcp_ports: (0..MAX_EGRESS_TCP_PORTS).collect(),
        uid: 1000,
        gid: 1000,
    };
    assert!(plan.socket_count() <= max_namespace_sockets(MAX_EGRESS_TCP_PORTS));
}

#[test]
fn a_blocker_is_found_only_where_something_was_probed() {
    assert_eq!(detect_egress_namespace_blocker(None), None);
    assert_eq!(
        detect_egress_namespace_blocker(Some(support(true, EgressNamespaceProbe::Denied))),
        Some(EgressNamespaceBlocker::CapabilityGrantMissing)
    );
}

#[test]
fn a_capsule_that_can_spawn_is_refused_by_name() {
    for blocker in EgressNamespaceBlocker::all() {
        assert_eq!(
            check_egress_namespace(true, Some(blocker), &profile()),
            Err(RuntimeError::EgressNamespaceUnavailable {
                blocker,
                reason: blocker.reason(&profile()),
            })
        );
        assert_eq!(check_egress_namespace(false, Some(blocker), &profile()), Ok(()));
        let skipped = skip_without_egress_namespace("t", Some(blocker), &profile()).unwrap();
        assert!(skipped.contains("t"), "{skipped}");
    }
    assert_eq!(check_egress_namespace(true, None, &profile()), Ok(()));
    assert_eq!(skip_without_egress_namespace("t", None, &profile()), None);
    assert!(EgressNamespaceBlocker::CapabilityGrantMissing
        .reason(&profile())
        .contains("/etc/apparmor.d/murmur-sealed"));
}

#[test]
fn a_probes_exit_code_names_its_outcome() {
    for (exit, probe) in [
        (Some(PROBE_OK), EgressNamespaceProbe::Works),
        (Some(PROBE_UNSHARE_DENIED), EgressNamespaceProbe::Denied),
        (
            Some(PROBE_UNSHARE_UNSUPPORTED),
            EgressNamespaceProbe::Unsupported,
        ),
        (Some(PROBE_MAP_DENIED), EgressNamespaceProbe::MapDenied),
        (Some(PROBE_CONFIG_DENIED), EgressNamespaceProbe::ConfigDenied),
    ] {
        assert_eq!(probe_from_exit(exit), probe);
    }
}

#[test]
fn the_child_makes_the_sockets_the_parent_expects() {
    let plan = CapsuleNetnsPlan {
        tcp_ports: vec![80, 443],
        uid: 7,
        gid: 8,
    };
    let steps = plan.steps();
    assert_eq!(steps[0], NetnsStep::Unshare);
    assert_eq!(steps[1], NetnsStep::WriteMaps(7, 8));
    assert_eq!(steps.last(), Some(&NetnsStep::SendSockets));
    let sockets = steps
        .iter()
        .filter(|step| matches!(step, NetnsStep::Listen(_) | NetnsStep::BindResolver))
        .count();
    assert_eq!(sockets, plan.socket_count());
    for step in &steps {
        assert!(step.failure().starts_with("egress-netns: "), "{}", step.failure());
    }
    assert_eq!(receive_namespace_sockets(true, 3, 3), Ok(()));
    assert!(receive_namespace_sockets(true, 2, 3).is_err());
    assert!(receive_namespace_sockets(false, 3, 3).is_err());
}

/// A netlink `RTM_NEWROUTE` for a local default route through the loopback interface.
#[test]
fn a_route_request_is_a_netlink_message_of_its_length() {
    let request = route_request(true);
    assert_eq!(request.len(), ROUTE_REQUEST_LEN);
    assert_eq!(request[..4], (ROUTE_REQUEST_LEN as u32).to_le_bytes());
    assert_eq!(request[4..6], 24u16.to_le_bytes());
    assert_eq!(route_request(false)[..4], (ROUTE_REQUEST_LEN as u32).to_be_bytes());
}

#[test]
fn a_route_is_acknowledged_by_an_error_of_zero() {
    let answer = |kind: u16, error: i32| {
        let mut bytes = 36u32.to_le_bytes().to_vec();
        bytes.extend_from_slice(&kind.to_le_bytes());
        bytes.extend_from_slice(&[0; 10]);
        bytes.extend_from_slice(&error.to_le_bytes());
        bytes.extend_from_slice(&[0; 16]);
        bytes
    };
    assert!(route_acknowledged(&answer(2, 0), true));
    assert!(!route_acknowledged(&answer(2, -1), true));
    // Anything but an error message is taken as an answer.
    assert!(route_acknowledged(&answer(3, -1), true));
    assert!(!route_acknowledged(&answer(2, 0)[..10], true));
}
