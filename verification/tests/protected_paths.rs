use capsule_runtime::errors::RuntimeError;
use capsule_runtime::paths;
use capsule_runtime::paths::RealPaths;
use capsule_runtime::protected_paths::{
    is_advisory_interpreter, is_flag, matches_key, paths_to_resolve, resolve_within_workdir,
    shell_write_verb, write_targets, KeyTable, ProtectedPathRefusal, ProtectedPaths, ResolvedCall,
    WriteSignal, WriteTargets,
};
use capsule_runtime::tool_annotations::{
    InputLocation, LocationStep, ToolAnnotationMap, ToolAnnotations,
};

fn declared(entries: &[&str]) -> ProtectedPaths {
    let declared: Vec<String> = entries.iter().map(|e| e.to_string()).collect();
    ProtectedPaths::from_declared(&declared).expect("fixture entries must lower")
}

/// A filesystem on which nothing exists.
fn nothing() -> RealPaths {
    RealPaths {
        answers: Vec::new(),
    }
}

/// A filesystem that answers as listed.
fn answering(answers: &[(&str, &str)]) -> RealPaths {
    RealPaths {
        answers: answers
            .iter()
            .map(|(path, real)| (path.to_string(), real.to_string()))
            .collect(),
    }
}

fn check_unannotated(
    protected: &ProtectedPaths,
    workdir: &str,
    call: &ResolvedCall,
) -> Option<ProtectedPathRefusal> {
    protected.check_call(workdir, call, &ToolAnnotationMap::new(), &nothing())
}

/// A location written as `a.b` and `a[].b`; the root is the empty text.
fn location(text: &str) -> InputLocation {
    let mut steps = Vec::new();
    for part in text.split('.').filter(|part| !part.is_empty()) {
        match part.strip_suffix("[]") {
            Some(key) => {
                steps.push(LocationStep::Key(key.to_string()));
                steps.push(LocationStep::Element);
            }
            None => steps.push(LocationStep::Key(part.to_string())),
        }
    }
    InputLocation { steps }
}

/// What tools declare: a name, its destinations and its opaque containers.
fn annotated(tools: &[(&str, &[&str], &[&str])]) -> ToolAnnotationMap {
    ToolAnnotationMap {
        tools: tools
            .iter()
            .map(|(name, destinations, opaque)| {
                (
                    name.to_string(),
                    ToolAnnotations {
                        destinations: destinations.iter().map(|text| location(text)).collect(),
                        opaque: opaque.iter().map(|text| location(text)).collect(),
                    },
                )
            })
            .collect(),
    }
}

fn shell(script: &str) -> ResolvedCall {
    ResolvedCall::Shell {
        binary: "/bin/bash".to_string(),
        command: script.to_string(),
        argv: vec!["-c".to_string(), script.to_string()],
        script: Some(script.to_string()),
    }
}

fn tool(input: &str) -> ResolvedCall {
    named_tool("writer", input)
}

/// The three shapes a workdir subtree cannot have are refused at lowering, so a session never
/// runs against a rule the runtime could not build.
#[test]
fn a_malformed_entry_is_refused_at_lowering() {
    for entry in ["/etc", "../outside", "tests/../../outside"] {
        let err = ProtectedPaths::from_declared(&[entry.to_string()])
            .expect_err("must refuse: {entry}");
        assert!(
            matches!(&err, RuntimeError::InvalidReadOnlyPath { path, .. } if path == entry),
            "{entry}: {err:?}"
        );
    }
}

#[test]
fn a_usable_entry_lowers_and_a_declaration_free_capsule_is_empty() {
    assert!(ProtectedPaths::from_declared(&[]).unwrap().is_empty());
    assert!(!declared(&["tests"]).is_empty());
    assert!(declared(&["./tests/../tests"])
        .covering_rule("/nowhere", "tests/a", &nothing())
        .is_some());
}

/// A rule names a subtree of the workdir root, not a path fragment.
#[test]
fn covering_rule_compares_components_not_string_prefixes() {
    let protected = declared(&["tests"]);
    let workdir = "/nowhere/work";
    for covered in ["tests", "tests/a", "tests/a/b", "./tests/a"] {
        assert!(
            protected.covering_rule(workdir, covered, &nothing()).is_some(),
            "must be covered: {covered}"
        );
    }
    for uncovered in ["tests2", "testsuite/a", "atests", "build/tests"] {
        assert!(
            protected.covering_rule(workdir, uncovered, &nothing()).is_none(),
            "must not be covered: {uncovered}"
        );
    }
}

/// A path outside the workdir is not this mechanism's business, and one that leaves cannot
/// re-enter by naming the workdir again.
#[test]
fn covering_rule_declines_everything_outside_the_workdir() {
    let known = answering(&[("/t/work", "/t/work"), ("/t/work/tests", "/t/work/tests")]);
    let protected = declared(&["tests"]);
    for outside in ["../elsewhere/x.py", "../work/tests/x", "/etc/passwd"] {
        assert!(
            protected.covering_rule("/t/work", outside, &known).is_none(),
            "{outside}"
        );
    }
}

/// An absolute path and a symlink both resolve to the rule that covers the real file, and both
/// report the workdir-relative form rather than the spelling that was typed.
#[test]
fn covering_rule_resolves_an_absolute_path_and_a_symlink_to_one_rule() {
    let known = answering(&[
        ("/t", "/t"),
        ("/t/tests", "/t/tests"),
        ("/t/tests/test_foo.py", "/t/tests/test_foo.py"),
        ("/t/link", "/t/tests"),
        ("/t/link/test_foo.py", "/t/tests/test_foo.py"),
    ]);
    let protected = declared(&["tests"]);
    for candidate in [
        "/t/tests/test_foo.py",
        "link/test_foo.py",
        "/t/link/test_foo.py",
    ] {
        let (rule, path) = protected
            .covering_rule("/t", candidate, &known)
            .unwrap_or_else(|| panic!("{candidate} resolves"));
        assert_eq!(rule.declared(), "tests");
        assert_eq!(path, "tests/test_foo.py");
    }
}

fn roots(entries: &[&str]) -> Vec<String> {
    declared(entries)
        .absolute_roots("/work")
        .iter()
        .map(paths::write)
        .collect()
}

/// Declaration order, no duplicates, and a nested declaration collapsed to the shortest
/// covering root.
#[test]
fn absolute_roots_are_declaration_ordered_deduplicated_and_collapsed() {
    assert_eq!(
        roots(&["tests", "bench/fixtures"]),
        vec![
            "/work/tests",
            "/work/bench/fixtures"
        ]
    );
    assert_eq!(
        roots(&["tests", "tests/unit"]),
        vec!["/work/tests"]
    );
    assert_eq!(
        roots(&["tests", "./tests"]),
        vec!["/work/tests"]
    );
}

/// Every write form the table claims to recognize is flagged, with the path it names.
#[test]
fn every_recognized_shell_write_is_flagged() {
    let protected = declared(&["tests"]);
    let workdir = "/nowhere/work";
    let flagged = [
        ("echo x > tests/a", "tests/a"),
        ("echo x >> tests/a", "tests/a"),
        ("echo x 2> tests/a", "tests/a"),
        ("echo x &> tests/a", "tests/a"),
        ("tee tests/a", "tests/a"),
        ("rm tests/a", "tests/a"),
        ("rm -rf tests", "tests"),
        ("mv build/x tests/a", "tests/a"),
        ("cp build/x tests/a", "tests/a"),
        ("install build/x tests/a", "tests/a"),
        ("ln -s build/x tests/a", "tests/a"),
        ("touch tests/a", "tests/a"),
        ("truncate -s 0 tests/a", "tests/a"),
        ("mkdir tests/a", "tests/a"),
        ("chmod 777 tests/a", "tests/a"),
        ("chown me tests/a", "tests/a"),
        ("sed -i s/a/b/ tests/a", "tests/a"),
        ("dd of=tests/a", "tests/a"),
        ("patch tests/a", "tests/a"),
    ];
    for (script, expected) in flagged {
        let refusal = check_unannotated(&protected, workdir, &shell(script))
            .unwrap_or_else(|| panic!("must be flagged: {script}"));
        assert_eq!(refusal.path, expected, "{script}");
        assert_eq!(refusal.rule, "tests", "{script}");
    }
}

/// A read is not a write, and a protected path in a source position is not a write either.
#[test]
fn a_read_of_a_protected_path_is_not_flagged() {
    let protected = declared(&["tests"]);
    let workdir = "/nowhere/work";
    for script in [
        "cat tests/a",
        "grep x tests/a",
        "ls tests",
        "mv tests/a build/x",
        "cp tests/a build/x",
        "echo tests/a",
        "sed s/a/b/ tests/a",
        "dd if=tests/a of=build/x",
    ] {
        assert!(
            check_unannotated(&protected, workdir, &shell(script))
                .is_none(),
            "must not be flagged: {script}"
        );
    }
}

/// The redirection is named as the signal, and the verb argument as its own.
#[test]
fn the_signal_names_what_identified_the_write() {
    let protected = declared(&["tests"]);
    let workdir = "/nowhere/work";
    assert_eq!(
        check_unannotated(&protected, workdir, &shell("echo broken > tests/test_foo.py"))
            .unwrap()
            .signal,
        WriteSignal::ShellRedirection {
            operator: ">".to_string()
        }
    );
    assert_eq!(
        check_unannotated(&protected, workdir, &shell("tee tests/a"))
            .unwrap()
            .signal,
        WriteSignal::ShellArgument {
            binary: "tee".to_string()
        }
    );
}

/// A command after a separator is analysed on its own, and an fd duplication redirects into
/// no path at all.
#[test]
fn separators_split_commands_and_an_fd_duplication_is_not_a_path() {
    let protected = declared(&["tests"]);
    let workdir = "/nowhere/work";
    assert!(check_unannotated(&protected, workdir, &shell("cat build/x && rm tests/a"))
        .is_some());
    assert!(check_unannotated(&protected, workdir, &shell("cat tests/a 2>&1"))
        .is_none());
}

/// No shell is involved in the argv form, so a `>` among the arguments is a literal argument.
#[test]
fn the_argv_form_reads_write_verbs_and_not_redirections() {
    let protected = declared(&["tests"]);
    let workdir = "/nowhere/work";
    let argv_call = |binary: &str, argv: &[&str]| ResolvedCall::Shell {
        binary: binary.to_string(),
        command: argv.join(" "),
        argv: argv.iter().map(|a| a.to_string()).collect(),
        script: None,
    };
    assert!(check_unannotated(&protected, workdir, &argv_call("/usr/bin/rm", &["-rf", "tests"]))
        .is_some());
    assert!(check_unannotated(&protected, workdir,
            &argv_call("/usr/bin/curl", &["-o", ">", "tests/a"])
        )
        .is_none());
}

/// A path paired with content is a write; a path alone is a read.
#[test]
fn a_tool_path_is_a_write_only_when_the_same_object_carries_content() {
    let protected = declared(&["tests"]);
    let workdir = "/nowhere/work";

    let refusal = check_unannotated(&protected, workdir,
            &tool(r#"{"path": "tests/test_foo.py", "content": "pass"}"#),
        )
        .expect("path plus content is a write");
    assert_eq!(refusal.path, "tests/test_foo.py");
    assert_eq!(refusal.rule, "tests");
    assert_eq!(
        refusal.signal,
        WriteSignal::ToolPathWithContent {
            path_key: "path".to_string(),
            content_key: "content".to_string()
        }
    );

    assert!(check_unannotated(&protected, workdir,
            &tool(r#"{"path": "tests/test_foo.py"}"#)
        )
        .is_none());
}

/// A destination key is a write on its own, and reading out of a protected subtree into a
/// writable one is allowed.
#[test]
fn a_destination_key_is_a_write_and_a_source_key_is_not() {
    let protected = declared(&["tests"]);
    let workdir = "/nowhere/work";

    let refusal = check_unannotated(&protected, workdir,
            &tool(r#"{ "source": "build/out.py", "destination": "tests/test_foo.py" }"#),
        )
        .expect("a destination into a protected subtree is a write");
    assert_eq!(refusal.path, "tests/test_foo.py");
    assert_eq!(
        refusal.signal,
        WriteSignal::ToolDestinationKey {
            key: "destination".to_string()
        }
    );

    assert!(
        check_unannotated(&protected, workdir,
                &tool(r#"{ "source": "tests/test_foo.py", "destination": "build/out.py" }"#),
            )
            .is_none(),
        "reading out of a protected subtree into a writable one is allowed"
    );
}

/// The pairing rule is evaluated per object, so a nested edit list is read the same way a
/// flat input is — and key matching folds case, `-` and `_`.
#[test]
fn the_pairing_rule_is_per_object_and_key_matching_folds_case_and_separators() {
    let protected = declared(&["tests"]);
    let workdir = "/nowhere/work";

    assert!(check_unannotated(&protected, workdir,
            &tool(r#"{ "edits": [ {"file_path": "build/a.py", "new_string": "x"}, {"file_path": "tests/test_foo.py", "new_string": "y"} ] }"#),
        )
        .is_some());
    // The content key lives in a different object from the path, so nothing pairs.
    assert!(check_unannotated(&protected, workdir,
            &tool(r#"{ "content": "x", "nested": {"path": "tests/test_foo.py"} }"#),
        )
        .is_none());
    assert!(check_unannotated(&protected, workdir,
            &tool(r#"{"New-Path": "tests/test_foo.py"}"#),
        )
        .is_some());
}

/// Input that is not JSON, and input with no matching key, yield nothing.
#[test]
fn unreadable_or_unmatched_tool_input_yields_no_refusal() {
    let protected = declared(&["tests"]);
    let workdir = "/nowhere/work";
    assert!(check_unannotated(&protected, workdir,
            &ResolvedCall::Tool {
                tool_name: "writer".to_string(),
                input: "not json at all".to_string(),
                input_bytes: 15,
            }
        )
        .is_none());
    assert!(check_unannotated(&protected, workdir, &tool(r#"{"amount": 10}"#))
        .is_none());
}

/// A capsule that declared nothing is never analysed, whatever the call looks like.
#[test]
fn a_capsule_with_no_declaration_flags_nothing() {
    let protected = ProtectedPaths::none();
    let workdir = "/nowhere/work";
    assert!(check_unannotated(&protected, workdir, &shell("echo x > tests/a"))
        .is_none());
    assert!(check_unannotated(&protected, workdir,
            &tool(r#"{"path": "tests/a", "content": "x"}"#)
        )
        .is_none());
}

fn named_tool(name: &str, input: &str) -> ResolvedCall {
    ResolvedCall::Tool {
        tool_name: name.to_string(),
        input_bytes: input.len() as u64,
        input: input.to_string(),
    }
}

/// A tool that declares an object opaque has that object's interior left alone: the
/// `{file, text}` pair inside a stored note is data, not filesystem intent.
#[test]
fn an_opaque_container_is_not_walked_by_the_heuristic() {
    let protected = declared(&["tests"]);
    let workdir = "/nowhere/work";
    let annotations = annotated(&[("noter", &[], &["note"])]);

    let call = named_tool(
        "noter",
        r#"{"note": {"file": "tests/test_foo.py", "text": "protected"}}"#,
    );
    assert!(protected.check_call(workdir, &call, &annotations, &nothing()).is_none());
    assert!(
        check_unannotated(&protected, workdir, &call).is_some(),
        "the same input without the declaration is refused, which is what the declaration is for"
    );
}

/// `murmur-opaque` names a container. On a string property it is ignored, and the pairing
/// rule runs on the object that carries it.
#[test]
fn an_opaque_string_property_is_ignored() {
    let protected = declared(&["tests"]);
    let workdir = "/nowhere/work";
    let annotations = annotated(&[("mislabeled", &[], &["path"])]);

    let refusal = protected
        .check_call(
            workdir,
            &named_tool(
                "mislabeled",
                r#"{"path": "tests/test_foo.py", "content": "x"}"#,
            ),
            &annotations, &nothing()
        )
        .expect("a string declaration removes no check");
    assert_eq!(
        refusal.signal,
        WriteSignal::ToolPathWithContent {
            path_key: "path".to_string(),
            content_key: "content".to_string()
        }
    );
}

/// A declared destination is checked wherever it sits, including under an array step, and the
/// refusal names the location that triggered it.
#[test]
fn a_declared_destination_is_checked_and_names_its_location() {
    let protected = declared(&["tests"]);
    let workdir = "/nowhere/work";
    let annotations = annotated(&[("batcher", &["edits[].path"], &[])]);

    let refusal = protected
        .check_call(
            workdir,
            &named_tool(
                "batcher",
                r#"{"edits": [{"path": "tests/test_foo.py"}]}"#,
            ),
            &annotations, &nothing()
        )
        .expect("a declared destination under an array element is checked");
    assert_eq!(refusal.path, "tests/test_foo.py");
    assert_eq!(refusal.rule, "tests");
    assert_eq!(
        refusal.signal,
        WriteSignal::ToolDeclaredDestination {
            location: "edits[].path".to_string()
        }
    );
}

/// A declaration can only add a check: a destination under a name no table carries is refused
/// with the declaration and dispatched without it.
#[test]
fn a_declared_destination_adds_coverage_the_heuristic_does_not_have() {
    let protected = declared(&["tests"]);
    let workdir = "/nowhere/work";
    let annotations = annotated(&[("renderer", &["sink"], &[])]);

    let call = named_tool("renderer", r#"{"sink": "tests/test_foo.py"}"#);
    let refusal = protected
        .check_call(workdir, &call, &annotations, &nothing())
        .expect("the declared sink is a destination");
    assert_eq!(
        refusal.signal,
        WriteSignal::ToolDeclaredDestination {
            location: "sink".to_string()
        }
    );
    assert!(
        check_unannotated(&protected, workdir, &call).is_none(),
        "a path with no content beside it is a read"
    );
}

/// An opaque sibling shelters nothing: a destination declared in the same schema is still
/// checked, and a destination *inside* an opaque subtree is too.
#[test]
fn no_declaration_suppresses_a_check_on_a_declared_destination() {
    let protected = declared(&["tests"]);
    let workdir = "/nowhere/work";
    let annotations = annotated(&[
        ("sneaky", &["path"], &["body"]),
        ("buried", &["body.sink"], &["body"]),
    ]);

    let refusal = protected
        .check_call(
            workdir,
            &named_tool(
                "sneaky",
                r#"{ "path": "tests/test_foo.py", "content": "x", "body": {"file": "tests/test_foo.py", "text": "note"} }"#,
            ),
            &annotations, &nothing()
        )
        .expect("an opaque sibling does not shelter a declared destination");
    assert_eq!(
        refusal.signal,
        WriteSignal::ToolDeclaredDestination {
            location: "path".to_string()
        }
    );

    let refusal = protected
        .check_call(
            workdir,
            &named_tool(
                "buried",
                r#"{"body": {"sink": "tests/test_foo.py"}}"#,
            ),
            &annotations, &nothing()
        )
        .expect("a destination inside an opaque subtree is still checked");
    assert_eq!(
        refusal.signal,
        WriteSignal::ToolDeclaredDestination {
            location: "body.sink".to_string()
        }
    );
}

/// `murmur-opaque` on the schema's top level names the input root, which is a container like
/// any other: the key-name heuristic stops there, and a declared destination is still checked.
#[test]
fn a_top_level_opaque_declaration_stops_only_the_heuristic() {
    let protected = declared(&["tests"]);
    let workdir = "/nowhere/work";
    let annotations = annotated(&[("wholesale", &["sink"], &[""])]);

    assert!(
        protected
            .check_call(
                workdir,
                &named_tool(
                    "wholesale",
                    r#"{"path": "tests/test_foo.py", "content": "x"}"#,
                ),
                &annotations, &nothing()
            )
            .is_none(),
        "the heuristic does not descend into a container the tool declared opaque"
    );

    let refusal = protected
        .check_call(
            workdir,
            &named_tool(
                "wholesale",
                r#"{"sink": "tests/test_foo.py"}"#,
            ),
            &annotations, &nothing()
        )
        .expect("a declared destination is checked wherever the opaque boundary sits");
    assert_eq!(
        refusal.signal,
        WriteSignal::ToolDeclaredDestination {
            location: "sink".to_string()
        }
    );
}

/// Annotations are keyed by tool name: another tool's declaration is not this tool's.
#[test]
fn annotations_belong_to_the_tool_that_declared_them() {
    let protected = declared(&["tests"]);
    let workdir = "/nowhere/work";
    let annotations = annotated(&[("noter", &[], &["note"])]);

    assert!(
        protected
            .check_call(
                workdir,
                &named_tool(
                    "other",
                    r#"{"note": {"file": "tests/test_foo.py", "text": "x"}}"#,
                ),
                &annotations, &nothing()
            )
            .is_some(),
        "a tool absent from the map keeps the heuristic"
    );
}

/// A shell call consults no annotation, whatever any tool declared.
#[test]
fn the_shell_arm_consults_no_annotation() {
    let protected = declared(&["tests"]);
    let workdir = "/nowhere/work";
    let annotations = annotated(&[("bash", &[], &[""])]);
    assert!(protected
        .check_call(
            workdir,
            &shell("echo broken > tests/test_foo.py"),
            &annotations, &nothing()
        )
        .is_some());
}

/// The interpreter set the shell half cannot follow includes the shells and the general
/// purpose interpreters, and nothing else.
#[test]
fn advisory_interpreters_cover_shells_and_general_purpose_interpreters() {
    let shells = ["bash".to_string(), "sh".to_string()];
    for binary in ["bash", "sh", "python3", "node", "perl"] {
        assert!(is_advisory_interpreter(&shells, binary), "{binary}");
    }
    for binary in ["rm", "tee", "cargo", "jq"] {
        assert!(!is_advisory_interpreter(&shells, binary), "{binary}");
    }
}

#[test]
fn a_write_verb_names_the_arguments_it_writes() {
    assert_eq!(shell_write_verb("rm"), Some(WriteTargets::All));
    assert_eq!(shell_write_verb("cp"), Some(WriteTargets::Last));
    assert_eq!(shell_write_verb("sed"), Some(WriteTargets::InPlaceOnly));
    assert_eq!(shell_write_verb("dd"), Some(WriteTargets::DdOperand));
    assert_eq!(shell_write_verb("cat"), None);
    assert!(is_flag("-rf") && !is_flag("tests"));
    assert!(matches_key(KeyTable::Destination, "Output-Path") || matches_key(KeyTable::Destination, "destination"));
    assert!(!matches_key(KeyTable::Content, "destination"));
}

#[test]
fn a_signal_reads_as_what_it_saw() {
    for (signal, part) in [
        (
            WriteSignal::ShellRedirection {
                operator: ">>".to_string(),
            },
            ">>",
        ),
        (
            WriteSignal::ShellArgument {
                binary: "tee".to_string(),
            },
            "tee",
        ),
        (
            WriteSignal::ToolDestinationKey {
                key: "dest".to_string(),
            },
            "dest",
        ),
        (
            WriteSignal::ToolPathWithContent {
                path_key: "file".to_string(),
                content_key: "text".to_string(),
            },
            "text",
        ),
        (
            WriteSignal::ToolDeclaredDestination {
                location: "a[].b".to_string(),
            },
            "a[].b",
        ),
    ] {
        let words = signal.describe();
        assert!(words.contains(part), "{words}");
        assert_eq!(signal.copied(), signal);
    }
}

#[test]
fn a_refused_write_is_one_of_the_calls_targets() {
    let protected = declared(&["tests"]);
    let call = shell("cp a tests/b; rm c");
    let targets = write_targets(&call, &ToolAnnotationMap::new());
    let refusal = check_unannotated(&protected, "/nowhere/work", &call).unwrap();
    assert!(targets
        .iter()
        .any(|target| target.path == "tests/b" && target.signal == refusal.signal));
}

#[test]
fn every_declaration_lies_under_a_root() {
    for root in roots(&["tests", "tests/unit", "bench"]) {
        assert!(root == "/work/tests" || root == "/work/bench", "{root}");
    }
}

#[test]
fn what_has_to_be_resolved_is_asked_for() {
    let asked = paths_to_resolve("/t", "link/x", &nothing());
    assert!(asked.iter().any(|path| path == "/t/link/x"), "{asked:?}");
    let known = answering(&[("/t", "/t"), ("/t/link", "/t/tests")]);
    let resolved = resolve_within_workdir("/t", "link/x", &known).unwrap();
    assert_eq!(paths::write(&resolved), "tests/x");
}

#[test]
fn a_location_finds_its_texts() {
    let value = capsule_runtime::json::read(r#"{"edits":[{"path":"a"},{"path":"b"},{"x":1}]}"#)
        .unwrap();
    let at = location("edits[].path");
    assert_eq!(at.resolve(&value), ["a", "b"]);
    assert_eq!(at.render(), "edits[].path");
}
