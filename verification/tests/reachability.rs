use capsule_runtime::errors::RuntimeError;
use capsule_runtime::reachability::{
    check_interpreted_entrypoints_reachable, declared_grant_dirs, interpreter_in_line,
    probe_helper_path, shebang_interpreter_name, shebang_line_of, toolchain_helpers, under_any,
    warn_on_unreachable_toolchain_helpers, AllowedBinary, ContainmentClass, HelperAnswer,
    InterpreterRuntimeGrant, ShellPolicy, StagedRuntimeGrant, ToolchainHelperWarning,
    SHEBANG_PROBE_BYTES,
};

/// Every containment class.
const ALL_CLASSES: &[ContainmentClass] = &[
    ContainmentClass::Advisory,
    ContainmentClass::Scoped,
    ContainmentClass::Sealed,
];

/// The tree that is bound whole into every composed root.
fn sealed_runtime_paths() -> Vec<String> {
    ["/usr", "/lib", "/lib64", "/bin"]
        .iter()
        .map(|path| path.to_string())
        .collect()
}

fn script(shebang: &str) -> Option<Vec<u8>> {
    Some(format!("{shebang}\nprint('hi')\n").into_bytes())
}

/// Enough of an ELF image to be no script.
fn elf() -> Option<Vec<u8>> {
    let mut bytes = b"\x7fELF\x02\x01\x01\x00".to_vec();
    bytes.resize(128, 0);
    Some(bytes)
}

fn allowed(entry: &str, resolved: &str, head: Option<Vec<u8>>) -> AllowedBinary {
    AllowedBinary {
        entry: entry.to_string(),
        resolved: resolved.to_string(),
        head,
    }
}

fn policy_allowing(allow: Vec<AllowedBinary>) -> ShellPolicy {
    ShellPolicy {
        allow,
        staged_runtime: Vec::new(),
        interpreter_runtime: Vec::new(),
    }
}

fn pip() -> AllowedBinary {
    allowed("pip", "/t/pip", script("#!/usr/bin/env python3"))
}

fn interpreter_grant(binary: &str, dirs: &[&str]) -> InterpreterRuntimeGrant {
    InterpreterRuntimeGrant {
        binary: binary.to_string(),
        dirs: dirs.iter().map(|path| path.to_string()).collect(),
    }
}

fn staged_grant(binary: &str, source_path: &str) -> StagedRuntimeGrant {
    StagedRuntimeGrant {
        binary: binary.to_string(),
        source_path: source_path.to_string(),
    }
}

fn check(policy: &ShellPolicy) -> Result<(), RuntimeError> {
    check_interpreted_entrypoints_reachable(
        policy,
        ContainmentClass::Sealed,
        &sealed_runtime_paths(),
    )
}

#[test]
fn shebang_returns_the_interpreter_basename_for_a_direct_target() {
    assert_eq!(
        shebang_interpreter_name(&script("#!/usr/bin/python3.12")),
        Some("python3.12".to_string())
    );
}

#[test]
fn shebang_resolves_one_level_of_env_indirection() {
    for (line, expected) in [
        ("#!/usr/bin/env python3", "python3"),
        ("#!/usr/bin/env -S python3 -u", "python3"),
        ("#!/usr/bin/env FOO=bar node", "node"),
        // Nothing follows `env`, so `env` itself is the only honest answer.
        ("#!/usr/bin/env", "env"),
    ] {
        assert_eq!(
            shebang_interpreter_name(&script(line)),
            Some(expected.to_string()),
            "shebang line: {line}"
        );
    }
}

/// A CRLF-saved script must not yield `"python3\r"`, which would silently fail every grant-name
/// comparison downstream.
#[test]
fn shebang_stops_at_a_carriage_return() {
    assert_eq!(
        shebang_interpreter_name(&Some(b"#!/usr/bin/env python3\r\nprint(1)\r\n".to_vec())),
        Some("python3".to_string())
    );
}

#[test]
fn shebang_is_none_for_an_elf_image_and_for_unreadable_paths() {
    assert_eq!(shebang_interpreter_name(&elf()), None);
    assert_eq!(
        shebang_interpreter_name(&Some(b"just text\n".to_vec())),
        None
    );
    assert_eq!(shebang_interpreter_name(&None), None);
}

#[test]
fn shebang_probe_reads_a_bounded_prefix_only() {
    let mut bytes = vec![b'#'; SHEBANG_PROBE_BYTES * 4];
    bytes.extend_from_slice(b"\n#!/usr/bin/env python3\n");
    assert_eq!(shebang_interpreter_name(&Some(bytes)), None);
    let mut long = b"#!/bin/".to_vec();
    long.resize(SHEBANG_PROBE_BYTES * 2, b'x');
    assert_eq!(
        shebang_line_of(&long).unwrap().len(),
        SHEBANG_PROBE_BYTES - 2
    );
}

#[test]
fn a_shebang_line_that_is_no_text_is_still_read() {
    assert_eq!(
        shebang_interpreter_name(&Some(b"#!/bin/sh\xff\n".to_vec())),
        Some("sh\u{fffd}".to_string())
    );
    assert_eq!(interpreter_in_line(""), None);
    assert_eq!(interpreter_in_line("/"), None);
    assert_eq!(interpreter_in_line(" /bin/sh -e"), Some("sh".to_string()));
}

/// A script outside every fixed and declared tree, with no grant naming it or its interpreter,
/// refuses — and the refusal is actionable on its own text.
#[test]
fn an_uncovered_script_entrypoint_refuses_naming_binary_path_and_interpreter() {
    let error = check(&policy_allowing(vec![pip()]))
        .expect_err("an uncovered interpreted entrypoint must refuse");
    let rendered = error.message();
    assert!(rendered.contains("pip"), "{rendered}");
    assert!(rendered.contains("/t/pip"), "{rendered}");
    assert!(rendered.contains("python3"), "{rendered}");
    assert!(rendered.contains("interpreter_runtime"), "{rendered}");
    assert!(rendered.contains("strace"), "{rendered}");
}

/// Any covering grant naming the script *or* its interpreter is enough. The grant's directory is
/// never checked for correctness.
#[test]
fn a_grant_naming_the_script_or_its_interpreter_is_sufficient() {
    for policy in [
        ShellPolicy {
            interpreter_runtime: vec![interpreter_grant("python3", &["/opt/unrelated"])],
            ..policy_allowing(vec![pip()])
        },
        ShellPolicy {
            staged_runtime: vec![staged_grant("pip", "/opt/unrelated")],
            ..policy_allowing(vec![pip()])
        },
    ] {
        assert!(
            check(&policy).is_ok(),
            "a declared covering grant must be sufficient"
        );
    }
}

/// A script that *sits inside* a declared tree is covered by residence, with no name match needed.
#[test]
fn a_script_inside_a_declared_grant_directory_is_covered_by_residence() {
    let policy = ShellPolicy {
        staged_runtime: vec![staged_grant("some-other-binary", "/t")],
        ..policy_allowing(vec![pip()])
    };
    assert!(check(&policy).is_ok());
}

/// A system script under the fixed, fully-bound sealed tree needs no declaration at all.
#[test]
fn a_script_under_a_fixed_sealed_runtime_path_needs_no_grant() {
    for entry in sealed_runtime_paths() {
        let path = format!("{entry}/bin/some-console-script");
        let policy = policy_allowing(vec![allowed(&path, &path, script("#!/usr/bin/python3"))]);
        assert!(
            check(&policy).is_ok(),
            "a path under {entry} must never be collected"
        );
    }
}

/// The component-wise prefix rule: `/usrlocal` is not under `/usr`.
#[test]
fn prefix_matching_is_component_wise_not_textual() {
    assert!(under_any("/usr/bin/pip", &["/usr".to_string()]));
    assert!(!under_any("/usrlocal/bin/pip", &["/usr".to_string()]));
}

/// ELF entries are never this check's business, whatever else is true.
#[test]
fn elf_entrypoints_are_never_collected() {
    assert!(check(&policy_allowing(vec![allowed("bash", "/t/bash", elf())])).is_ok());
}

/// An entry that resolves to nothing is not a reachability problem — it is a missing binary.
#[test]
fn an_unresolvable_entry_is_skipped_rather_than_refused() {
    let name = "definitely-not-installed-anywhere";
    assert!(check(&policy_allowing(vec![allowed(name, name, None)])).is_ok());
}

#[test]
fn the_refusal_names_every_unreachable_entrypoint() {
    let rake = allowed("rake", "/t/rake", script("#!/usr/bin/env ruby"));
    let error =
        check(&policy_allowing(vec![pip(), rake])).expect_err("both entrypoints are uncovered");
    match &error {
        RuntimeError::ShellBinaryPackageUnreachable { entries } => assert_eq!(entries.len(), 2),
        other => panic!("{other:?}"),
    }
    let rendered = error.message();
    for expected in ["pip", "python3", "rake", "ruby"] {
        assert!(
            rendered.contains(expected),
            "missing {expected}: {rendered}"
        );
    }
}

fn cc() -> AllowedBinary {
    allowed("cc", "/t/cc", elf())
}

fn answer(helper: &str, path: &str) -> HelperAnswer {
    HelperAnswer {
        driver: "/t/cc".to_string(),
        helper: helper.to_string(),
        path: path.to_string(),
    }
}

fn warnings(policy: &ShellPolicy, answers: &[HelperAnswer]) -> Vec<ToolchainHelperWarning> {
    warn_on_unreachable_toolchain_helpers(policy, ContainmentClass::Sealed, answers)
}

/// Both checks are functions of the *declared* floor alone, and both are fully inert below
/// `sealed`.
#[test]
fn both_checks_are_inert_below_a_declared_sealed_floor() {
    let policy = policy_allowing(vec![pip(), cc()]);
    let answers = [answer("cc1", "/t/libexec/cc1")];
    for class in ALL_CLASSES {
        let refusal =
            check_interpreted_entrypoints_reachable(&policy, *class, &sealed_runtime_paths());
        let warnings = warn_on_unreachable_toolchain_helpers(&policy, *class, &answers);
        if *class == ContainmentClass::Sealed {
            assert!(refusal.is_err(), "sealed must still be checked");
            assert_eq!(warnings.len(), 1);
        } else {
            assert!(refusal.is_ok(), "{class:?} must not be refused");
            assert!(warnings.is_empty(), "{class:?} must not warn");
        }
    }
}

/// An allowlisted driver whose helpers have no `Execute`-carrying grant warns, naming driver,
/// helper and resolved path.
#[test]
fn an_uncovered_toolchain_helper_warns_naming_driver_helper_and_path() {
    let answers = [
        answer("cc1", "/t/libexec/cc1"),
        answer("collect2", "/t/libexec/collect2"),
    ];
    let found = warnings(&policy_allowing(vec![cc()]), &answers);
    let cc1 = found
        .iter()
        .find(|warning| warning.helper == "cc1")
        .expect("cc1 must be reported as uncovered");
    assert_eq!(cc1.driver, "cc");
    assert_eq!(cc1.resolved_path, "/t/libexec/cc1");
    let text = cc1.describe(&sealed_runtime_paths());
    for part in [
        "warning[W-SEC-012]",
        "'cc'",
        "'cc1'",
        "/t/libexec/cc1",
        "(/usr, /lib, /lib64, /bin)",
        "naming that helper's directory (/t/libexec)",
        "#w-sec-012)",
    ] {
        assert!(text.contains(part), "missing {part}: {text}");
    }
}

/// A declared `interpreter_runtime` directory covers every helper inside it.
#[test]
fn a_declared_grant_directory_covers_the_helpers_inside_it() {
    let policy = ShellPolicy {
        interpreter_runtime: vec![interpreter_grant("cc", &["/t/libexec"])],
        ..policy_allowing(vec![cc()])
    };
    let found = warnings(&policy, &[answer("cc1", "/t/libexec/cc1")]);
    assert!(
        found.is_empty(),
        "a declared grant directory must cover its helpers: {found:?}"
    );
}

/// The `PATH`-deferred answer (`-print-prog-name=as` → `as`) is resolved rather than discarded.
#[test]
fn a_path_deferred_helper_answer_is_resolved_not_discarded() {
    assert_eq!(
        probe_helper_path(true, "as\n", "as", "/t/as"),
        Some("/t/as".to_string())
    );
    assert_eq!(
        probe_helper_path(true, " /t/libexec/cc1 \n", "cc1", "cc1"),
        Some("/t/libexec/cc1".to_string())
    );
    for (success, stdout, on_path) in [
        (false, "/t/as\n", "/t/as"),
        (true, "  \n", "/t/as"),
        (true, "as\n", "as"),
        (true, "libexec/as\n", "/t/as"),
    ] {
        assert_eq!(probe_helper_path(success, stdout, "as", on_path), None);
    }
}

/// The fixed sealed tree is bound and listable but **not** executable, so a helper resolving under
/// it is still uncovered.
#[test]
fn residence_under_the_fixed_sealed_tree_is_not_coverage() {
    let policy = policy_allowing(vec![cc()]);
    assert!(under_any("/usr/bin/as", &sealed_runtime_paths()));
    assert!(
        !under_any("/usr/bin/as", &declared_grant_dirs(&policy)),
        "the fixed tree must never be folded into the declared-grant set"
    );
    assert_eq!(warnings(&policy, &[answer("as", "/usr/bin/as")]).len(), 1);
}

/// A helper the capsule allowlisted in its own right already has an `Execute` grant.
#[test]
fn a_helper_that_is_itself_allowlisted_is_covered() {
    let by_name = policy_allowing(vec![cc(), allowed("cc1", "cc1", None)]);
    assert!(warnings(&by_name, &[answer("cc1", "/t/libexec/cc1")]).is_empty());
    let by_path = policy_allowing(vec![cc(), allowed("mine", "/t/libexec/cc1", None)]);
    assert!(warnings(&by_path, &[answer("cc1", "/t/libexec/cc1")]).is_empty());
}

/// A `shell.allow` entry that is not a known driver is never probed.
#[test]
fn a_non_driver_entry_is_never_probed() {
    assert!(toolchain_helpers("not-a-compiler").is_empty());
    let policy = policy_allowing(vec![allowed("not-a-compiler", "/t/cc", elf())]);
    assert!(warnings(&policy, &[answer("cc1", "/t/libexec/cc1")]).is_empty());
}

/// The registry is the whole contract of which drivers get probed.
#[test]
fn the_known_driver_registry_is_the_documented_four() {
    for driver in ["cc", "gcc", "g++", "c++"] {
        let helpers = toolchain_helpers(driver);
        assert!(
            helpers.contains(&"as".to_string()) && helpers.contains(&"ld".to_string()),
            "{driver} must be probed for the assembler and linker it execs"
        );
        assert_eq!(toolchain_helpers(&format!("/usr/bin/{driver}")), helpers);
    }
    for other in ["clang", "ld", "gcc-13", ""] {
        assert!(toolchain_helpers(other).is_empty(), "{other}");
    }
    assert_eq!(
        toolchain_helpers("g++"),
        ["cc1plus", "as", "ld", "collect2"]
    );
}

#[test]
fn one_helper_is_named_once() {
    let policy = policy_allowing(vec![cc(), cc()]);
    assert_eq!(warnings(&policy, &[answer("cc1", "/t/cc1")]).len(), 1);
}

#[test]
fn a_helper_two_drivers_reach_is_named_once() {
    let policy = policy_allowing(vec![cc(), allowed("gcc", "/t/gcc", elf())]);
    let answers = [
        answer("cc1", "/t/cc1"),
        HelperAnswer {
            driver: "/t/gcc".to_string(),
            ..answer("cc1", "/t/cc1")
        },
        HelperAnswer {
            driver: "/t/gcc".to_string(),
            ..answer("ld", "/t/ld")
        },
    ];
    let found: Vec<(String, String)> = warnings(&policy, &answers)
        .into_iter()
        .map(|warning| (warning.driver, warning.helper))
        .collect();
    assert_eq!(
        found,
        [
            ("cc".to_string(), "cc1".to_string()),
            ("gcc".to_string(), "ld".to_string()),
        ]
    );
}

#[test]
fn only_absolute_directories_are_declared() {
    let policy = ShellPolicy {
        staged_runtime: vec![staged_grant("a", "/opt/a"), staged_grant("b", "rel")],
        interpreter_runtime: vec![interpreter_grant("c", &["/opt/c", "./c"])],
        ..policy_allowing(Vec::new())
    };
    assert_eq!(declared_grant_dirs(&policy), ["/opt/a", "/opt/c"]);
}
