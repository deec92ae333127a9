use capsule_runtime::murmur_home::{
    audit_murmur_home, ensure_murmur_home, hold_private_dir, is_wider_than, narrowing_failed,
    warn_on_wide_credential_file, wide_entry_warning, write_private_file, EntryProbe,
    HomeEntryKind, HomeEntryReport, HomeEntryState, HomeNode, HomeProbe, HomeStep, NamedProbe,
    NodeType, PrivateStep, MURMUR_HOME_DIR_MODE, PRIVATE_FILE_MODE, WIDE_DESCENDANT_CAP,
};

const HOME: &str = "/h/.murmur";

fn node(name: &str, node: NodeType, mode: u32, children: Vec<HomeNode>) -> HomeNode {
    HomeNode {
        name: name.to_string(),
        node,
        mode,
        children,
    }
}

fn dir(name: &str, mode: u32, children: Vec<HomeNode>) -> HomeNode {
    node(name, NodeType::Directory, 0o040000 | mode, children)
}

fn file(name: &str, mode: u32) -> HomeNode {
    node(name, NodeType::File, 0o100000 | mode, Vec::new())
}

/// The reports of a home with these entries.
fn audit(mode: u32, entries: Vec<HomeNode>) -> Vec<HomeEntryReport> {
    let listed: Vec<String> = entries.iter().map(|entry| entry.name.clone()).collect();
    let probes: Vec<NamedProbe> = entries
        .into_iter()
        .map(|entry| NamedProbe {
            name: entry.name.clone(),
            found: EntryProbe::Found(entry),
        })
        .collect();
    let home = EntryProbe::Found(dir(".murmur", mode, Vec::new()));
    audit_murmur_home(HOME, &home, &probes, &listed)
}

fn state_of<'a>(reports: &'a [HomeEntryReport], kind: &HomeEntryKind) -> &'a HomeEntryState {
    &reports
        .iter()
        .find(|report| &report.kind == kind)
        .unwrap()
        .state
}

fn wide(state: &HomeEntryState) -> (bool, usize) {
    match state {
        HomeEntryState::Present {
            wide,
            wide_descendants,
            ..
        } => (*wide, wide_descendants.len()),
        other => panic!("{other:?}"),
    }
}

#[test]
fn murmur_home_is_wider_than_truth_table() {
    for (mode, allowed, wide) in [
        (0o600, 0o600, false),
        (0o644, 0o600, true),
        (0o640, 0o600, true),
        (0o700, 0o700, false),
        (0o711, 0o700, true),
        (0o400, 0o600, false),
    ] {
        assert_eq!(
            is_wider_than(mode, allowed),
            wide,
            "{mode:04o} against {allowed:04o}"
        );
    }
}

#[test]
fn ensure_murmur_home_creates_and_tightens_the_home_directory() {
    for (found, step) in [
        (
            HomeProbe::Directory { mode: 0o040755 },
            HomeStep::SetMode { mode: 0o700 },
        ),
        (HomeProbe::Missing, HomeStep::Create),
        // An owner-closed home loses group and other bits and is not reopened.
        (
            HomeProbe::Directory { mode: 0o040555 },
            HomeStep::SetMode { mode: 0o500 },
        ),
        (HomeProbe::Directory { mode: 0o040700 }, HomeStep::Keep),
    ] {
        assert_eq!(ensure_murmur_home(HOME, &found), Ok(step), "{found:?}");
    }
    assert_eq!(
        ensure_murmur_home(HOME, &HomeProbe::NotADirectory),
        Err("/h/.murmur: not a directory".to_string())
    );
    assert_eq!(
        ensure_murmur_home(
            HOME,
            &HomeProbe::Failed {
                error: "denied".to_string()
            }
        ),
        Err("/h/.murmur: denied".to_string())
    );
    assert_eq!(
        narrowing_failed(HOME, 0o700, "denied"),
        "/h/.murmur: failed to set mode 0700: denied"
    );
}

#[test]
fn murmur_home_write_private_file_replaces_a_wide_file_owner_only() {
    let target = "/h/.murmur/config.yaml";
    assert_eq!(
        write_private_file(target, b"new".to_vec()),
        [
            PrivateStep::Stage {
                target: target.to_string()
            },
            PrivateStep::SetMode {
                mode: PRIVATE_FILE_MODE
            },
            PrivateStep::Write {
                contents: b"new".to_vec()
            },
            PrivateStep::Rename {
                target: target.to_string()
            },
        ]
    );
    assert_eq!(
        hold_private_dir(HOME),
        [
            PrivateStep::CreateDir {
                path: HOME.to_string()
            },
            PrivateStep::SetMode {
                mode: MURMUR_HOME_DIR_MODE
            },
        ]
    );
}

#[test]
fn murmur_home_audit_reports_absent_entries_in_kind_order() {
    let reports = audit_murmur_home(HOME, &EntryProbe::Absent, &[], &[]);

    assert_eq!(reports.len(), 11);
    assert_eq!(reports[0].kind, HomeEntryKind::Home);
    assert_eq!(reports[1].kind, HomeEntryKind::Config);
    assert_eq!(reports[10].kind, HomeEntryKind::BinaryCache);
    assert!(reports
        .iter()
        .all(|report| report.state == HomeEntryState::Absent));
}

#[test]
fn murmur_home_audit_flags_wide_private_entries_and_never_non_private_ones() {
    let reports = audit(
        0o755,
        vec![
            file("config.yaml", 0o644),
            dir("artifacts", 0o777, vec![file("loose", 0o666)]),
            dir("spend", 0o700, vec![file("2026-09-13.jsonl", 0o600)]),
            file("nexus-config.json", 0o644),
        ],
    );

    assert_eq!(wide(state_of(&reports, &HomeEntryKind::Home)), (true, 0));
    assert_eq!(wide(state_of(&reports, &HomeEntryKind::Config)), (true, 0));
    assert_eq!(
        wide(state_of(&reports, &HomeEntryKind::Artifacts)),
        (false, 0)
    );
    assert_eq!(wide(state_of(&reports, &HomeEntryKind::Spend)), (false, 0));
    let last = reports.last().unwrap();
    assert_eq!(
        last.kind,
        HomeEntryKind::Unrecognised("nexus-config.json".to_string())
    );
    assert_eq!(wide(&last.state), (false, 0));
}

#[test]
fn murmur_home_audit_does_not_follow_symlinks() {
    let link = node(
        "link",
        NodeType::Symlink,
        0o777,
        vec![file("secret", 0o666)],
    );
    let reports = audit(0o700, vec![dir("state", 0o700, vec![link])]);
    let state = state_of(&reports, &HomeEntryKind::State);
    assert!(
        matches!(state, HomeEntryState::Present { wide: false, wide_descendants, .. } if wide_descendants.is_empty()),
        "{state:?}"
    );
}

#[test]
fn murmur_home_audit_caps_wide_descendants_and_counts_the_rest() {
    let keys = (0..25)
        .map(|index| file(&format!("key_{index:02}"), 0o644))
        .collect();
    let reports = audit(0o700, vec![dir("deploy_keys", 0o700, keys)]);
    match state_of(&reports, &HomeEntryKind::DeployKeys) {
        HomeEntryState::Present {
            wide,
            wide_descendants,
            wide_descendants_omitted,
            ..
        } => {
            assert!(!wide);
            assert_eq!(wide_descendants.len(), WIDE_DESCENDANT_CAP);
            assert_eq!(*wide_descendants_omitted, 5);
            assert!(wide_descendants
                .iter()
                .all(|entry| entry.mode == 0o644 && entry.allowed == 0o600));
        }
        other => panic!("{other:?}"),
    }
}

/// Wide paths are listed depth first, each directory in the order of its names.
#[test]
fn wide_descendants_come_depth_first_and_in_order() {
    let state = dir(
        "state",
        0o700,
        vec![
            file("z", 0o604),
            dir("b", 0o750, vec![file("y", 0o640), file("a", 0o600)]),
            node("socket", NodeType::Other, 0o777, Vec::new()),
            file("a", 0o644),
        ],
    );
    let reports = audit(0o700, vec![state]);
    match state_of(&reports, &HomeEntryKind::State) {
        HomeEntryState::Present {
            wide_descendants, ..
        } => {
            let found: Vec<(&str, u32)> = wide_descendants
                .iter()
                .map(|entry| (entry.path.as_str(), entry.allowed))
                .collect();
            assert_eq!(
                found,
                [
                    ("/h/.murmur/state/a", 0o600),
                    ("/h/.murmur/state/b", 0o700),
                    ("/h/.murmur/state/b/y", 0o600),
                    ("/h/.murmur/state/z", 0o600),
                ]
            );
        }
        other => panic!("{other:?}"),
    }
}

#[test]
fn an_entry_that_could_not_be_read_says_so() {
    let probes = [NamedProbe {
        name: "spend".to_string(),
        found: EntryProbe::Failed {
            error: "denied".to_string(),
        },
    }];
    let listed = ["spend".to_string(), "z".to_string(), "a".to_string()];
    let reports = audit_murmur_home(HOME, &EntryProbe::Absent, &probes, &listed);
    assert_eq!(
        state_of(&reports, &HomeEntryKind::Spend),
        &HomeEntryState::Unreadable {
            error: "denied".to_string()
        }
    );
    let names: Vec<Option<&str>> = reports[11..].iter().map(|r| r.kind.file_name()).collect();
    assert_eq!(names, [Some("a"), Some("z")]);
    assert_eq!(reports[1].path, "/h/.murmur/config.yaml");
    assert_eq!(reports[1].allowed(), PRIVATE_FILE_MODE);
    let present = audit(0o700, Vec::new());
    assert_eq!(present[0].allowed(), MURMUR_HOME_DIR_MODE);
}

#[test]
fn a_kind_says_what_it_holds() {
    assert_eq!(HomeEntryKind::Home.file_name(), None);
    assert_eq!(HomeEntryKind::Deployments.file_name(), Some("deployments.json"));
    assert_eq!(HomeEntryKind::DeployKeys.holds(), "SSH private keys");
    assert!(HomeEntryKind::State.expected_private());
    assert!(!HomeEntryKind::Unrecognised("x".to_string()).expected_private());
}

#[test]
fn murmur_home_wide_credential_file_warning_names_the_path_and_mode_only() {
    let path = "/home/someone/.murmur/config.yaml";
    assert_eq!(
        warn_on_wide_credential_file(path, "PROVIDER_KEY", 0o600),
        None
    );
    assert_eq!(
        warn_on_wide_credential_file(path, "PROVIDER_KEY", 0o100600),
        None
    );

    assert_eq!(
        warn_on_wide_credential_file(path, "PROVIDER_KEY", 0o100700),
        None,
        "no group or other bit"
    );

    let warning = warn_on_wide_credential_file(path, "PROVIDER_KEY", 0o100644).unwrap();
    assert!(warning.contains("warning[W-SEC-028]"), "{warning}");
    assert!(warning.contains("credentials.PROVIDER_KEY"), "{warning}");
    assert!(
        warning.contains("/home/someone/.murmur/config.yaml"),
        "{warning}"
    );
    assert!(warning.contains("mode 0644"), "{warning}");
    assert!(
        warning.contains("`chmod 600 /home/someone/.murmur/config.yaml`"),
        "{warning}"
    );
    assert!(warning.ends_with("#w-sec-028)"), "{warning}");
}

#[test]
fn murmur_home_wide_entry_warning_prints_the_chmod_for_the_allowed_mode() {
    let warning = wide_entry_warning("/h/.murmur", "the murmur home", 0o755, 0o700);
    assert_eq!(
        warning,
        "[capsule-runtime] warning[W-SEC-028]: /h/.murmur holds the murmur home and is mode \
         0755, which other accounts on this host can read; run `chmod 700 /h/.murmur` \
         (https://docs.murmur.nexus/murmur-nexus/murmur/reference/diagnostics/#w-sec-028)"
    );
}
