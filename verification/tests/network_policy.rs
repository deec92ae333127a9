use capsule_runtime::errors::RuntimeError;
use capsule_runtime::network_policy::{
    default_port_for_scheme, effective_tool_network_rules, parse_network_allow_rules,
    preopen_reports, rule_from_host, rule_from_url, validate_store_name, ArtifactRuntime,
    Capabilities, ConversationCapabilities, DeclaredArtifact, FilesystemCapabilities,
    HookCapabilityGrant, NetworkAllowRule, NetworkCapabilities, PreopenReport, PreopenSurface,
    RequestTarget, StateCapabilities, TaskIoCapabilities, ToolCapabilityGrant, UriParts, UrlParts,
};
use capsule_runtime::workdir::validate_filesystem_scope;

/// A `Capabilities` block carrying only the two sub-blocks a per-artifact grant reads.
fn capabilities_block(
    network: Option<Vec<&str>>,
    filesystem_scope: Option<&str>,
) -> Capabilities {
    Capabilities {
        network: network.map(|allow| NetworkCapabilities {
            allow: allow.into_iter().map(str::to_string).collect(),
        }),
        filesystem: filesystem_scope.map(|scope| FilesystemCapabilities {
            scope: Some(scope.to_string()),
        }),
        state: None,
        task_io: None,
        conversation: None,
    }
}

fn artifact(
    name: &str,
    runtime: ArtifactRuntime,
    capabilities: Option<Capabilities>,
) -> DeclaredArtifact {
    DeclaredArtifact {
        name: name.to_string(),
        runtime,
        capabilities,
    }
}

/// A hook entry with no `capabilities:` block gets nothing: no allow rules (so
/// `NetworkPolicyHooks` denies every request) and no scope (so nothing is preopened).
#[test]
fn hook_grant_defaults_to_deny_network_and_filesystem() {
    let grant = HookCapabilityGrant::derive(None, "test-capsule").unwrap();

    assert_eq!(grant, HookCapabilityGrant::none());
    assert!(grant.network_allow_rules.is_empty());
    assert!(grant.filesystem_scope.is_none());

    let target = RequestTarget {
        scheme: "https".to_string(),
        host: "telemetry.example.com".to_string(),
        port: Some(443),
    };
    assert!(!grant
        .network_allow_rules
        .iter()
        .any(|rule| rule.matches(&target)));
}

/// A declared-but-empty `capabilities:` block is still full default-deny — declaring
/// the key must not, by itself, widen anything.
#[test]
fn hook_grant_empty_capabilities_block_grants_nothing() {
    let grant =
        HookCapabilityGrant::derive(Some(&capabilities_block(None, None)), "test-capsule")
            .unwrap();

    assert_eq!(grant, HookCapabilityGrant::none());
}

#[test]
fn hook_grant_network_allows_exactly_the_declared_host() {
    let caps = capabilities_block(Some(vec!["https://telemetry.example.com"]), None);
    let grant = HookCapabilityGrant::derive(Some(&caps), "test-capsule").unwrap();

    let allowed = RequestTarget {
        scheme: "https".to_string(),
        host: "telemetry.example.com".to_string(),
        port: Some(443),
    };
    let other = RequestTarget {
        scheme: "https".to_string(),
        host: "evil.example.com".to_string(),
        port: Some(443),
    };

    assert!(grant
        .network_allow_rules
        .iter()
        .any(|rule| rule.matches(&allowed)));
    assert!(!grant
        .network_allow_rules
        .iter()
        .any(|rule| rule.matches(&other)));
    // A network grant alone never widens the filesystem.
    assert!(grant.filesystem_scope.is_none());
}

#[test]
fn hook_grant_filesystem_scope_is_carried_through() {
    let caps = capabilities_block(None, Some("hook-state"));
    let grant = HookCapabilityGrant::derive(Some(&caps), "test-capsule").unwrap();

    assert_eq!(grant.filesystem_scope.as_deref(), Some("hook-state"));
    // A filesystem grant alone never widens the network.
    assert!(grant.network_allow_rules.is_empty());
}

/// `capabilities.task_io.read` lowers into the grant on its own axis: `true` grants it,
/// `false` and an absent block do not, and neither ever widens network or filesystem.
#[test]
fn hook_grant_task_io_read_is_carried_through_independently() {
    for (declared, expected) in [(None, false), (Some(false), false), (Some(true), true)] {
        let caps = Capabilities {
            task_io: declared.map(|read| TaskIoCapabilities { read }),
            conversation: None,
            ..capabilities_block(None, None)
        };
        let grant = HookCapabilityGrant::derive(Some(&caps), "test-capsule").unwrap();
        assert_eq!(grant.task_io_read, expected, "declared: {declared:?}");
        assert!(grant.network_allow_rules.is_empty());
        assert!(grant.filesystem_scope.is_none());
    }
}

/// `capabilities.conversation.read` lowers on its own axis, exactly as `task_io.read` does,
/// and neither ever widens network or filesystem.
#[test]
fn hook_grant_conversation_read_is_carried_through_independently() {
    for (declared, expected) in [(None, false), (Some(false), false), (Some(true), true)] {
        let caps = Capabilities {
            conversation: declared
                .map(|read| ConversationCapabilities { read }),
            ..capabilities_block(None, None)
        };
        let grant = HookCapabilityGrant::derive(Some(&caps), "test-capsule").unwrap();
        assert_eq!(grant.conversation_read, expected, "declared: {declared:?}");
        assert!(!grant.task_io_read, "one grant never implies the other");
        assert!(grant.network_allow_rules.is_empty());
        assert!(grant.filesystem_scope.is_none());
    }
}

/// The store name defaults to the capsule's, and an explicit `store:` wins. Applied where the
/// grant is lowered, so a report and a preopen can never name different directories.
#[test]
fn state_store_defaults_to_the_capsule_name_and_an_explicit_name_wins() {
    for (declared, expected) in [(None, "state-capsule"), (Some("shey"), "shey")] {
        let caps = Capabilities {
            state: Some(StateCapabilities {
                store: declared.map(str::to_string),
            }),
            ..capabilities_block(None, None)
        };

        let hook = HookCapabilityGrant::derive(Some(&caps), "state-capsule").unwrap();
        let tool =
            ToolCapabilityGrant::derive(Some(&caps), &ceiling(), "state-capsule").unwrap();

        assert_eq!(hook.state_store.as_deref(), Some(expected));
        assert_eq!(tool.state_store.as_deref(), Some(expected));
        // `derive` stays pure: the directory is made by the staging path, not here.
        assert!(hook.state_dir.is_none());
        assert!(tool.state_dir.is_none());
        // A state grant alone widens nothing else.
        assert!(hook.filesystem_scope.is_none());
        assert!(hook.network_allow_rules.is_empty());
        assert!(tool.filesystem_scope.is_none());
        assert!(tool.network_allow_rules.is_none());
    }
}

/// Absent `capabilities.state` is deny for both roles, including on a block that declares
/// other things — declaring the key is what grants a store, never declaring the block.
#[test]
fn an_absent_state_block_grants_no_store_to_either_role() {
    let caps = capabilities_block(Some(vec!["https://api.example.com"]), Some("cache"));

    assert!(HookCapabilityGrant::derive(Some(&caps), "state-capsule")
        .unwrap()
        .state_store
        .is_none());
    assert!(
        ToolCapabilityGrant::derive(Some(&caps), &ceiling(), "state-capsule")
            .unwrap()
            .state_store
            .is_none()
    );
}

/// A malformed store name fails lowering, so it fails staging — never a confusing denial once
/// a guest is already running. Refused identically for a hook and for a tool.
#[test]
fn a_malformed_store_name_fails_lowering_for_both_roles() {
    for store in ["../escape", "/abs/path", "a/b", "", ".hidden"] {
        let caps = Capabilities {
            state: Some(StateCapabilities {
                store: Some(store.to_string()),
            }),
            ..capabilities_block(None, None)
        };

        for err in [
            HookCapabilityGrant::derive(Some(&caps), "state-capsule").unwrap_err(),
            ToolCapabilityGrant::derive(Some(&caps), &ceiling(), "state-capsule").unwrap_err(),
        ] {
            assert!(
                matches!(err, RuntimeError::InvalidStateStore { .. }),
                "store '{store}' must refuse as InvalidStateStore, got: {err:?}"
            );
        }
    }
}

/// An empty capsule name is not a usable store name either, so a capsule that somehow has one
/// is refused rather than silently given `~/.murmur/state/`.
#[test]
fn an_empty_capsule_name_cannot_become_a_store_name() {
    let caps = Capabilities {
        state: Some(StateCapabilities { store: None }),
        ..capabilities_block(None, None)
    };

    assert!(matches!(
        ToolCapabilityGrant::derive(Some(&caps), &ceiling(), ""),
        Err(RuntimeError::InvalidStateStore { .. })
    ));
}

#[test]
fn hook_grant_rejects_escaping_filesystem_scope() {
    for scope in ["../escape", "/etc"] {
        let caps = capabilities_block(None, Some(scope));
        let err = HookCapabilityGrant::derive(Some(&caps), "test-capsule").unwrap_err();
        assert!(
            matches!(err, RuntimeError::InvalidFilesystemScope { .. }),
            "scope {scope} should fail staging, got: {err:?}"
        );
    }
}

#[test]
fn hook_grant_rejects_malformed_network_entry() {
    let caps = capabilities_block(Some(vec!["ftp://files.example.com"]), None);
    let err = HookCapabilityGrant::derive(Some(&caps), "test-capsule").unwrap_err();

    assert!(
        matches!(err, RuntimeError::InvalidNetworkAllowEntry { .. }),
        "got: {err:?}"
    );
}

/// The capsule ceiling used by the tool/driver narrowing tests: two hosts, one of which
/// a narrowed artifact is expected to lose access to.
fn ceiling() -> Vec<NetworkAllowRule> {
    parse_network_allow_rules(&[
        "https://api.example.com".to_string(),
        "https://other.example.com".to_string(),
    ])
    .unwrap()
}

fn target(host: &str) -> RequestTarget {
    RequestTarget {
        scheme: "https".to_string(),
        host: host.to_string(),
        port: Some(443),
    }
}

fn reaches(rules: &[NetworkAllowRule], host: &str) -> bool {
    rules.iter().any(|rule| rule.matches(&target(host)))
}

/// The no-op invariant: a tool/driver entry with no `capabilities:` block keeps the whole
/// ceiling and the whole workdir, unchanged.
#[test]
fn tool_grant_without_entry_inherits_the_ceiling_unchanged() {
    let ceiling = ceiling();
    let grant = ToolCapabilityGrant::derive(None, &ceiling, "test-capsule").unwrap();

    assert_eq!(grant, ToolCapabilityGrant::inherit());
    assert!(grant.network_allow_rules.is_none());
    assert!(grant.filesystem_scope.is_none());
    assert!(grant.dropped_network_entries.is_empty());

    let effective = effective_tool_network_rules(Some(&grant), &ceiling);
    assert_eq!(effective, ceiling.as_slice());
    assert!(reaches(effective, "api.example.com"));
    assert!(reaches(effective, "other.example.com"));
}

/// A declared subset keeps exactly the declared host and loses the rest of the ceiling.
#[test]
fn tool_grant_subset_of_ceiling_is_kept_and_narrows() {
    let ceiling = ceiling();
    let caps = capabilities_block(Some(vec!["https://api.example.com"]), None);
    let grant = ToolCapabilityGrant::derive(Some(&caps), &ceiling, "test-capsule").unwrap();

    let effective = effective_tool_network_rules(Some(&grant), &ceiling);
    assert!(reaches(effective, "api.example.com"));
    assert!(!reaches(effective, "other.example.com"));
    assert!(grant.dropped_network_entries.is_empty());
}

/// Narrowing can only subtract: a host the ceiling never allowed is dropped (and
/// reported for `W-SEC-007`), not granted.
#[test]
fn tool_grant_entry_outside_the_ceiling_is_dropped_not_granted() {
    let ceiling = ceiling();
    let caps = capabilities_block(
        Some(vec!["https://api.example.com", "https://evil.example.com"]),
        None,
    );
    let grant = ToolCapabilityGrant::derive(Some(&caps), &ceiling, "test-capsule").unwrap();

    let effective = effective_tool_network_rules(Some(&grant), &ceiling);
    assert!(reaches(effective, "api.example.com"));
    assert!(!reaches(effective, "evil.example.com"));
    assert_eq!(
        grant.dropped_network_entries,
        vec!["https://evil.example.com".to_string()]
    );
}

/// A bare host is broader than a scheme-bound ceiling rule (it spans http too), so it is
/// dropped rather than silently widening the artifact past the ceiling.
#[test]
fn tool_grant_entry_broader_than_the_ceiling_rule_is_dropped() {
    let ceiling = ceiling();
    let caps = capabilities_block(Some(vec!["api.example.com"]), None);
    let grant = ToolCapabilityGrant::derive(Some(&caps), &ceiling, "test-capsule").unwrap();

    assert_eq!(grant.network_allow_rules.as_deref(), Some(&[][..]));
    assert_eq!(
        grant.dropped_network_entries,
        vec!["api.example.com".to_string()]
    );
}

/// An explicit empty allow-list is a real narrowing to zero network access — distinct
/// from the key being absent, which inherits the ceiling.
#[test]
fn tool_grant_empty_network_allow_denies_all_for_that_artifact() {
    let ceiling = ceiling();
    let caps = capabilities_block(Some(vec![]), None);
    let grant = ToolCapabilityGrant::derive(Some(&caps), &ceiling, "test-capsule").unwrap();

    let effective = effective_tool_network_rules(Some(&grant), &ceiling);
    assert!(effective.is_empty());
    assert!(!reaches(effective, "api.example.com"));
    assert!(!reaches(effective, "other.example.com"));
}

/// A filesystem-only block leaves the network on the ceiling: narrowing one axis must
/// not implicitly clamp the other.
#[test]
fn tool_grant_filesystem_scope_is_carried_and_leaves_network_inherited() {
    let ceiling = ceiling();
    let caps = capabilities_block(None, Some("cache"));
    let grant = ToolCapabilityGrant::derive(Some(&caps), &ceiling, "test-capsule").unwrap();

    assert_eq!(grant.filesystem_scope.as_deref(), Some("cache"));
    assert!(grant.network_allow_rules.is_none());
    assert_eq!(
        effective_tool_network_rules(Some(&grant), &ceiling),
        ceiling.as_slice()
    );
}

#[test]
fn tool_grant_rejects_escaping_filesystem_scope() {
    for scope in ["../escape", "/etc"] {
        let caps = capabilities_block(None, Some(scope));
        let err =
            ToolCapabilityGrant::derive(Some(&caps), &ceiling(), "test-capsule").unwrap_err();
        assert!(
            matches!(err, RuntimeError::InvalidFilesystemScope { .. }),
            "scope {scope} should fail staging, got: {err:?}"
        );
    }
}

#[test]
fn tool_grant_rejects_malformed_network_entry() {
    let caps = capabilities_block(Some(vec!["ftp://files.example.com"]), None);
    let err = ToolCapabilityGrant::derive(Some(&caps), &ceiling(), "test-capsule").unwrap_err();

    assert!(
        matches!(err, RuntimeError::InvalidNetworkAllowEntry { .. }),
        "got: {err:?}"
    );
}

/// An empty ceiling already denies everything, so every declared entry drops — a
/// per-artifact block can never be the thing that turns network access on.
#[test]
fn tool_grant_cannot_widen_an_empty_ceiling() {
    let caps = capabilities_block(Some(vec!["https://api.example.com"]), None);
    let grant = ToolCapabilityGrant::derive(Some(&caps), &[], "test-capsule").unwrap();

    assert_eq!(grant.network_allow_rules.as_deref(), Some(&[][..]));
    assert_eq!(
        grant.dropped_network_entries,
        vec!["https://api.example.com".to_string()]
    );
}

/// An unset scheme/port on the ceiling side is a wildcard the narrower rule fits under.
#[test]
fn ceiling_rule_with_wildcard_scheme_covers_a_scheme_bound_rule() {
    let ceiling = parse_network_allow_rules(&["api.example.com".to_string()]).unwrap();
    let caps = capabilities_block(Some(vec!["https://api.example.com"]), None);
    let grant = ToolCapabilityGrant::derive(Some(&caps), &ceiling, "test-capsule").unwrap();

    assert!(grant.dropped_network_entries.is_empty());
    assert!(reaches(
        effective_tool_network_rules(Some(&grant), &ceiling),
        "api.example.com"
    ));
}

#[test]
fn filesystem_scope_validation_accepts_safe_relative_paths() {
    for scope in [".", "./workdir", "a/../b", "sandbox/subdir"] {
        assert!(
            validate_filesystem_scope(scope).is_ok(),
            "scope should be valid: {scope}"
        );
    }
}

#[test]
fn filesystem_scope_validation_rejects_escape_paths() {
    for scope in ["../x", "../../x", "/tmp"] {
        assert!(
            validate_filesystem_scope(scope).is_err(),
            "scope should be invalid: {scope}"
        );
    }
}

#[test]
fn network_allowlist_empty_denies_all_requests() {
    let rules = parse_network_allow_rules(&Vec::<String>::new()).unwrap();

    let target = RequestTarget {
        scheme: "https".to_string(),
        host: "blocked.example.com".to_string(),
        port: Some(443),
    };

    assert!(!rules.iter().any(|rule| rule.matches(&target)));
}

#[test]
fn network_allowlist_matches_allowed_host_with_default_port() {
    let rules =
        parse_network_allow_rules(&["https://allowed.example.com".to_string()]).unwrap();
    let target = RequestTarget {
        scheme: "https".to_string(),
        host: "allowed.example.com".to_string(),
        port: Some(443),
    };

    assert!(rules.iter().any(|rule| rule.matches(&target)));
}

#[test]
fn network_allowlist_blocks_non_matching_host() {
    let rules =
        parse_network_allow_rules(&["https://allowed.example.com".to_string()]).unwrap();
    let target = RequestTarget {
        scheme: "https".to_string(),
        host: "blocked.example.com".to_string(),
        port: Some(443),
    };

    assert!(!rules.iter().any(|rule| rule.matches(&target)));
}

#[test]
fn network_allowlist_normalizes_default_ports() {
    let rules = parse_network_allow_rules(&[
        "https://allowed.example.com".to_string(),
        "allowed-two.example.com:8080".to_string(),
    ])
    .unwrap();

    let https_default = RequestTarget {
        scheme: "https".to_string(),
        host: "allowed.example.com".to_string(),
        port: Some(443),
    };
    let custom_port = RequestTarget {
        scheme: "http".to_string(),
        host: "allowed-two.example.com".to_string(),
        port: Some(8080),
    };

    assert!(rules.iter().any(|rule| rule.matches(&https_default)));
    assert!(rules.iter().any(|rule| rule.matches(&custom_port)));
}

/// The two opposite baselines, read off one manifest: a `runtime: tool` and a
/// `runtime: driver` entry that declare nothing keep the whole accessible workdir, and a
/// `runtime: hook` entry that declares nothing holds no descriptor at all.
#[test]
fn undeclared_entries_report_the_baseline_their_role_starts_from() {
    let reports = preopen_reports(&[
        artifact("notes-tool", ArtifactRuntime::Tool, None),
        artifact("anthropic-driver", ArtifactRuntime::Driver, None),
        artifact("telemetry-hook", ArtifactRuntime::Hook, None),
    ])
    .unwrap();

    assert_eq!(
        reports,
        vec![
            PreopenReport {
                artifact: "notes-tool".to_string(),
                role: "tool".to_string(),
                scope: None,
                surface: PreopenSurface::WholeWorkdir,
            },
            PreopenReport {
                artifact: "anthropic-driver".to_string(),
                role: "driver".to_string(),
                scope: None,
                surface: PreopenSurface::WholeWorkdir,
            },
            PreopenReport {
                artifact: "telemetry-hook".to_string(),
                role: "hook".to_string(),
                scope: None,
                surface: PreopenSurface::Nothing,
            },
        ]
    );
}

/// A declared scope resolves the same way whatever the role, and is carried verbatim so an
/// operator reads back the line they wrote.
#[test]
fn a_declared_scope_narrows_every_role_to_a_subtree() {
    let tool_caps = capabilities_block(None, Some("cache"));
    let hook_caps = capabilities_block(None, Some("hook-state"));

    let reports = preopen_reports(&[
        artifact("notes-tool", ArtifactRuntime::Tool, Some(tool_caps)),
        artifact("telemetry-hook", ArtifactRuntime::Hook, Some(hook_caps)),
    ])
    .unwrap();

    assert_eq!(
        reports,
        vec![
            PreopenReport {
                artifact: "notes-tool".to_string(),
                role: "tool".to_string(),
                scope: Some("cache".to_string()),
                surface: PreopenSurface::ScopedSubtree,
            },
            PreopenReport {
                artifact: "telemetry-hook".to_string(),
                role: "hook".to_string(),
                scope: Some("hook-state".to_string()),
                surface: PreopenSurface::ScopedSubtree,
            },
        ]
    );
}

/// A skill is markdown staged into the workdir with no component behind it, so it produces no
/// entry at all — not a `Nothing` entry, which would claim a guest was denied a descriptor.
#[test]
fn a_skill_produces_no_entry() {
    let reports = preopen_reports(&[
        artifact("notes-skill", ArtifactRuntime::Skill, None),
        artifact("notes-tool", ArtifactRuntime::Tool, None),
    ])
    .unwrap();

    assert_eq!(reports.len(), 1);
    assert_eq!(reports[0].artifact, "notes-tool");
}

/// The report runs the declared scope through the same validator the grant derivation does,
/// so a scope that would refuse a launch refuses the report.
#[test]
fn an_escaping_scope_is_refused() {
    let caps = capabilities_block(None, Some("../escape"));

    let err = preopen_reports(&[artifact(
        "notes-tool",
        ArtifactRuntime::Tool,
        Some(capabilities_block(None, Some("../escape"))),
    )])
    .unwrap_err();

    assert!(
        matches!(
            err,
            RuntimeError::InvalidFilesystemScope { ref scope, .. } if scope == "../escape"
        ),
        "unexpected error: {err:?}"
    );
    assert!(
        ToolCapabilityGrant::derive(Some(&caps), &[], "test-capsule").is_err(),
        "the grant derivation must refuse what the report refuses"
    );
}

/// The three surfaces carry stable kebab-case wire names, and the enum has exactly three
/// variants: a guest holds the workdir, one subtree of it, or no descriptor.
#[test]
fn preopen_surfaces_serialize_to_stable_wire_names() {
    for (surface, wire) in [
        (PreopenSurface::WholeWorkdir, "whole-workdir"),
        (PreopenSurface::ScopedSubtree, "scoped-subtree"),
        (PreopenSurface::Nothing, "nothing"),
    ] {
        assert_eq!(surface.wire_name(), wire);
    }
}

#[test]
fn a_rule_is_read_from_a_url_or_a_host() {
    for (entry, scheme, host, port) in [
        ("https://Api.Example.com", Some("https"), "api.example.com", Some(443)),
        ("http://api.example.com:8080/", Some("http"), "api.example.com", Some(8080)),
        ("api.example.com", None, "api.example.com", None),
        ("api.example.com:9000", None, "api.example.com", Some(9000)),
    ] {
        let rule = NetworkAllowRule::parse(entry).unwrap();
        assert_eq!(
            (rule.scheme.as_deref(), rule.host.as_str(), rule.port),
            (scheme, host, port),
            "{entry}"
        );
    }
}

#[test]
fn an_entry_that_names_more_than_a_host_is_refused() {
    for entry in [
        "",
        "ftp://files.example.com",
        "https://api.example.com/path",
        "https://api.example.com/?q=1",
        "https://api.example.com/#part",
        "api.example.com/path",
        "https://",
    ] {
        assert!(
            matches!(
                NetworkAllowRule::parse(entry),
                Err(RuntimeError::InvalidNetworkAllowEntry { .. })
            ),
            "{entry}"
        );
    }
}

fn parts(scheme: &str, host: Option<&str>, path: &str) -> UrlParts {
    UrlParts {
        scheme: scheme.to_string(),
        host: host.map(str::to_string),
        port: None,
        path: path.to_string(),
        has_query: false,
        has_fragment: false,
    }
}

#[test]
fn a_parsed_url_is_judged_part_by_part() {
    let rule = rule_from_url("e", Ok(parts("https", Some("h"), "/"))).unwrap();
    assert_eq!(
        rule,
        NetworkAllowRule {
            scheme: Some("https".to_string()),
            host: "h".to_string(),
            port: Some(443),
        }
    );
    assert!(rule_from_url("e", Ok(parts("https", None, "/"))).is_err());
    assert!(rule_from_url("e", Ok(parts("https", Some("h"), "/p"))).is_err());
    assert!(rule_from_url("e", Err("no".to_string())).is_err());
    assert!(rule_from_host("e", Err("no".to_string())).is_err());
    assert_eq!(
        rule_from_host("h", Ok(parts("http", Some("h"), "/"))).unwrap().scheme,
        None
    );
}

#[test]
fn a_request_is_a_target_with_its_default_port() {
    assert_eq!(default_port_for_scheme("https"), Some(443));
    assert_eq!(default_port_for_scheme("http"), Some(80));
    assert_eq!(default_port_for_scheme("gopher"), None);
    let target = RequestTarget::from_request("https://Api.example.com/path?q", true).unwrap();
    assert_eq!(
        (target.scheme.as_str(), target.host.as_str(), target.port),
        ("https", "api.example.com", Some(443))
    );
    assert_eq!(RequestTarget::from_request("/path", true), None);
    let bare = UriParts {
        scheme: None,
        authority: Some(("h".to_string(), Some(8080))),
    };
    for (tls, scheme) in [(true, "https"), (false, "http")] {
        let target = RequestTarget::from_parts(&bare, tls).unwrap();
        assert_eq!((target.scheme.as_str(), target.port), (scheme, Some(8080)));
    }
}

#[test]
fn what_a_rule_covers_it_matches() {
    let wide = NetworkAllowRule::parse("api.example.com").unwrap();
    let narrow = NetworkAllowRule::parse("https://api.example.com").unwrap();
    assert!(wide.covers(&narrow));
    assert!(!narrow.covers(&wide));
    assert!(narrow.covers(&narrow));
    for scheme in ["http", "https"] {
        let target = RequestTarget {
            scheme: scheme.to_string(),
            host: "api.example.com".to_string(),
            port: Some(443),
        };
        assert!(!narrow.matches(&target) || wide.matches(&target));
    }
}

#[test]
fn a_store_name_is_one_plain_component() {
    assert_eq!(validate_store_name("shey"), Ok(()));
    for name in ["", ".", "..", "a/b", ".hidden"] {
        assert!(
            matches!(
                validate_store_name(name),
                Err(RuntimeError::InvalidStateStore { .. })
            ),
            "{name:?}"
        );
    }
}

#[test]
fn an_entry_is_kept_or_dropped_and_never_both() {
    let ceiling = ceiling();
    let declared = vec!["https://api.example.com", "https://evil.example.com"];
    let caps = capabilities_block(Some(declared), None);
    let grant = ToolCapabilityGrant::derive(Some(&caps), &ceiling, "c").unwrap();
    let kept = grant.network_allow_rules.as_ref().unwrap();
    assert_eq!(kept.len() + grant.dropped_network_entries.len(), 2);
    for rule in kept {
        assert!(ceiling.iter().any(|limit| limit.covers(rule)));
    }
}
