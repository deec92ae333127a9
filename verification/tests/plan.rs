use std::cell::{Cell, RefCell};

use capsule_runtime::json;
use capsule_runtime::json::{read, Json};
use capsule_runtime::plan::condition::{
    evaluate, quoted_literal, resolve_reference, split_once_operator, split_top_level,
};
use capsule_runtime::plan::schedule::{
    apply_policy, execute, Execution, PlanLoad, PlanRun, PlanStepRecord, StepOutcome,
};
use capsule_runtime::plan::steps::{
    capsule_verdict, data_file, execute_step_with_retries, parse_shell_command, plain_outcome,
    plan_shape, prepare_step, shell_verdict, tool_verdict, DataRead, Dispatch, ShellReply,
    ToolReply,
};
use capsule_runtime::plan::{
    capsule_task_text, collect_references, infer_kind, interpolate_value, parse_reference,
    position_of, step_kind_name, validate_plan, PlanFile, SchedulerContext, StepDef, StepKind,
    StepResult, StepStatus,
};

fn value(text: &str) -> Json {
    read(text).unwrap()
}

fn test_ctx() -> SchedulerContext {
    SchedulerContext {
        workdir: "/w".to_string(),
        shell_allow: vec!["bash".to_string()],
        installed_tools: ["ok", "fail", "slow", "a", "b"]
            .iter()
            .map(|name| name.to_string())
            .collect(),
        capsule_versions: Vec::new(),
        current_session_id: None,
        roost_url: None,
        holds_spawn_credential: false,
    }
}

fn step(id: &str, tool: &str, depends_on: &[&str]) -> StepDef {
    StepDef {
        id: id.to_string(),
        tool: Some(tool.to_string()),
        shell: None,
        capsule: None,
        input: Json::Null,
        depends_on: depends_on.iter().map(|id| id.to_string()).collect(),
        condition: None,
        on_error: "fail".to_string(),
        retries: 0,
    }
}

fn plan_of(steps: Vec<StepDef>) -> PlanFile {
    PlanFile {
        id: "p".to_string(),
        steps,
    }
}

fn tool_reply(passed: bool, data: Option<&str>) -> ToolReply {
    ToolReply {
        passed,
        summary: None,
        data: data.map(str::to_string),
        data_path: None,
    }
}

/// Runs a plan whose tool steps are answered by `invoke`.
fn run<F: Fn(&str, &str) -> ToolReply>(plan: PlanFile, invoke: F) -> Execution {
    let ctx = test_ctx();
    execute(
        PlanLoad::Loaded(plan),
        &ctx,
        |_| Ok(()),
        |plan: &PlanFile, ready: &Vec<usize>, results: &Vec<StepResult>, _: &Vec<PlanStepRecord>| {
            ready
                .iter()
                .map(|&index| {
                    let step = &plan.steps[index];
                    Some(execute_step_with_retries(step.retries, |_| {
                        match prepare_step(step, &test_ctx(), results) {
                            Ok(Dispatch::Tool {
                                name, input_json, ..
                            }) => plain_outcome(
                                tool_verdict(
                                    &name,
                                    Ok(invoke(&name, &input_json)),
                                    DataRead::Bytes(Vec::new()),
                                ),
                                1,
                            ),
                            Ok(other) => panic!("{other:?}"),
                            Err(error) => plain_outcome(Err(error), 1),
                        }
                    }))
                })
                .collect()
        },
    )
}

#[test]
fn capsule_task_text_delivers_a_bare_string_verbatim() {
    assert_eq!(
        capsule_task_text(&value(r#""do the thing""#)).unwrap(),
        "do the thing"
    );
}

#[test]
fn capsule_task_text_delivers_a_lone_objective_verbatim() {
    assert_eq!(
        capsule_task_text(&value(r#"{"objective": "do the thing"}"#)).unwrap(),
        "do the thing"
    );
}

/// An empty task is a well-shaped one. What a child does with nothing to do is the child's
/// business, not this contract's.
#[test]
fn capsule_task_text_accepts_empty_task_text() {
    assert_eq!(capsule_task_text(&value(r#""""#)).unwrap(), "");
    assert_eq!(capsule_task_text(&value(r#"{"objective": ""}"#)).unwrap(), "");
}

#[test]
fn capsule_task_text_refuses_a_task_envelope() {
    let error = capsule_task_text(&value(r#"{"task": "hello"}"#)).unwrap_err();
    assert!(
        error.contains("keys the child cannot receive: task"),
        "{error}"
    );
    assert!(error.contains("\"objective\""), "{error}");
}

#[test]
fn capsule_task_text_lists_unaccepted_keys_in_sorted_order() {
    let error = capsule_task_text(&value(
        r#"{"render_as": "json", "objective": "x", "instructions": "y"}"#,
    ))
    .unwrap_err();
    assert!(
        error.contains("keys the child cannot receive: instructions, render_as"),
        "{error}"
    );
}

#[test]
fn capsule_task_text_refuses_a_non_string_objective() {
    for input in [r#"{"objective": 7}"#, r#"{"objective": null}"#] {
        assert_eq!(
            capsule_task_text(&value(input)).unwrap_err(),
            "capsule step input \"objective\" must be a string"
        );
    }
}

#[test]
fn capsule_task_text_refuses_an_object_without_an_objective() {
    assert_eq!(
        capsule_task_text(&value("{}")).unwrap_err(),
        "capsule step input must be a string or { \"objective\": \"<text>\" }"
    );
}

#[test]
fn capsule_task_text_names_the_type_it_was_handed() {
    assert!(capsule_task_text(&value("7"))
        .unwrap_err()
        .ends_with("not a number"));
    assert!(capsule_task_text(&value("true"))
        .unwrap_err()
        .ends_with("not a boolean"));
    assert!(capsule_task_text(&value(r#"["a"]"#))
        .unwrap_err()
        .ends_with("not an array"));
}

/// An omitted `input` and an explicit null are the same value and get the same refusal.
#[test]
fn capsule_task_text_refuses_an_absent_input() {
    let error = capsule_task_text(&Json::Null).unwrap_err();
    assert_eq!(
        error,
        "capsule step has no input; its input is the task text the child receives, given as \
         a string or as { \"objective\": \"<text>\" }"
    );
}

/// A `$reference` is a string, so both accepted shapes survive load-time validation and are
/// resolved at dispatch.
#[test]
fn capsule_task_text_accepts_an_uninterpolated_reference() {
    assert_eq!(
        capsule_task_text(&value(r#""$analyse.output""#)).unwrap(),
        "$analyse.output"
    );
    assert_eq!(
        capsule_task_text(&value(r#"{"objective": "$analyse.output"}"#)).unwrap(),
        "$analyse.output"
    );
}

#[test]
fn dependent_step_receives_upstream_output() {
    let seen = RefCell::new(Vec::new());
    let mut second = step("b", "ok", &["a"]);
    second.input = value(r#"{"value": "$a.output"}"#);
    let done = run(plan_of(vec![step("a", "ok", &[]), second]), |_, input| {
        seen.borrow_mut().push(input.to_string());
        tool_reply(true, Some("upstream"))
    });
    assert!(done.report.completed);
    assert_eq!(done.report.results.len(), 2);
    assert!(seen.borrow()[1].contains("upstream"));
}

#[test]
fn on_error_and_retries_are_applied() {
    let calls = Cell::new(0);
    let mut first = step("a", "a", &[]);
    first.retries = 2;
    first.on_error = "continue".to_string();
    let done = run(plan_of(vec![first, step("b", "b", &["a"])]), |name, _| {
        calls.set(calls.get() + 1);
        tool_reply(name != "a", Some("ok"))
    });
    assert!(done.report.completed);
    assert_eq!(calls.get(), 4);
}

#[test]
fn condition_false_skips_step() {
    let mut second = step("b", "ok", &["a"]);
    second.condition = Some("$a.status == 'failed'".to_string());
    let done = run(plan_of(vec![step("a", "ok", &[]), second]), |_, _| {
        tool_reply(true, Some("ok"))
    });
    assert!(done.report.completed);
    assert_eq!(done.report.results[1].status, StepStatus::Skipped);
}

fn result(status: StepStatus, output: Option<&str>) -> StepResult {
    StepResult {
        step_id: "a".to_string(),
        status,
        output: output.map(str::to_string),
        error: None,
    }
}

#[test]
fn evaluates_status_and_output_checks() {
    let results = vec![result(StepStatus::Success, Some("42"))];

    assert!(evaluate(Some("$a.status == 'success'"), &results).unwrap());
    assert!(evaluate(
        Some("$a.output == \"42\" && $a.status != 'failed'"),
        &results
    )
    .unwrap());
    assert!(!evaluate(
        Some("$a.output == 'nope' || $a.status == 'failed'"),
        &results
    )
    .unwrap());
}

#[test]
fn a_condition_that_cannot_be_read_is_refused() {
    let results = vec![result(StepStatus::Success, Some("42"))];
    assert!(evaluate(None, &results).unwrap());
    for condition in ["$a.status", "$b.status == 'x'", "$a.colour == 'red'", "a == b"] {
        assert!(evaluate(Some(condition), &results).is_err(), "{condition}");
    }
    assert_eq!(resolve_reference("$a.output", &results).unwrap(), "42");
    assert_eq!(quoted_literal("'x'"), Some("x".to_string()));
    assert_eq!(quoted_literal("x"), None);
    assert_eq!(
        split_top_level("a && b && c", "&&").len(),
        3,
        "three parts at the top level"
    );
    assert_eq!(
        split_top_level("a == '&&' && b", "&&").len(),
        2,
        "a quoted delimiter splits nothing"
    );
    assert_eq!(
        split_once_operator("$a.output == 'x'", "=="),
        Some(("$a.output ".to_string(), " 'x'".to_string()))
    );
}

#[test]
fn a_failed_step_stops_the_plan_and_is_blamed() {
    let done = run(
        plan_of(vec![step("a", "a", &[]), step("b", "b", &["a"])]),
        |_, _| tool_reply(false, None),
    );
    assert!(!done.report.completed);
    assert_eq!(done.report.failed_step.as_deref(), Some("a"));
    assert_eq!(done.end.outcome, "failed");
    assert_eq!(done.end.steps_total, 2);
    assert_eq!(done.end.steps_failed, 1);
}

#[test]
fn a_completed_plan_has_settled_every_step() {
    let done = run(
        plan_of(vec![
            step("a", "ok", &[]),
            step("b", "ok", &["a"]),
            step("c", "ok", &["a", "b"]),
        ]),
        |_, _| tool_reply(true, Some("ok")),
    );
    assert!(done.report.completed);
    for id in ["a", "b", "c"] {
        assert!(position_of(&done.report.results, id).is_some(), "{id}");
    }
    assert_eq!(done.end.steps_succeeded, 3);
    assert_eq!(done.log.len(), 3);
    assert_eq!(done.end.outcome, "completed");
}

#[test]
fn a_wave_is_handed_the_lines_of_what_settled_before_it() {
    let plan = plan_of(vec![step("a", "ok", &[]), step("b", "ok", &["a"])]);
    let seen = RefCell::new(Vec::new());
    let done = execute(
        PlanLoad::Loaded(plan),
        &test_ctx(),
        |_| Ok(()),
        |_: &PlanFile, ready: &Vec<usize>, _: &Vec<StepResult>, log: &Vec<PlanStepRecord>| {
            let lines: Vec<String> = log.iter().map(|line| line.step_id.clone()).collect();
            seen.borrow_mut().push(lines);
            ready.iter().map(|_| Some(plain_outcome(Ok(Some("x".to_string())), 1))).collect()
        },
    );
    assert!(done.report.completed);
    assert_eq!(*seen.borrow(), [vec![], vec!["a".to_string()]]);
    assert_eq!(done.log.len(), 2);
}

#[test]
fn a_plan_that_cannot_be_loaded_is_refused_under_its_own_name() {
    let ctx = test_ctx();
    let nothing = |_: &PlanFile,
                   _: &Vec<usize>,
                   _: &Vec<StepResult>,
                   _: &Vec<PlanStepRecord>|
     -> Vec<Option<StepOutcome>> { Vec::new() };
    let unreadable = execute(
        PlanLoad::Unreadable {
            path: "/w/plan.json".to_string(),
            error: "gone".to_string(),
        },
        &ctx,
        |_| Ok(()),
        nothing,
    );
    assert_eq!(unreadable.report.failed_step.as_deref(), Some("plan"));
    assert_eq!(
        unreadable.report.results[0].error.as_deref(),
        Some("failed to read plan file /w/plan.json: gone")
    );
    let unparsable = execute(
        PlanLoad::Unparsable {
            error: "bad".to_string(),
        },
        &ctx,
        |_| Ok(()),
        nothing,
    );
    assert_eq!(
        unparsable.report.results[0].error.as_deref(),
        Some("failed to parse plan JSON: bad")
    );
    let unprepared = execute(
        PlanLoad::Loaded(plan_of(vec![step("a", "ok", &[])])),
        &ctx,
        |_| Err("no scope".to_string()),
        nothing,
    );
    assert!(!unprepared.report.completed);
}

#[test]
fn a_plan_is_validated_before_any_step_runs() {
    let refuses = |steps: Vec<StepDef>| validate_plan(&plan_of(steps), &test_ctx()).unwrap_err();
    assert_eq!(
        validate_plan(&plan_of(vec![step("a", "ok", &[])]), &test_ctx()),
        Ok(())
    );
    assert_eq!(refuses(vec![step("a", "nowhere", &[])]).0, "a");
    assert_eq!(refuses(vec![step("a", "ok", &["missing"])]).0, "a");
    assert_eq!(
        refuses(vec![step("a", "ok", &[]), step("a", "ok", &[])]).0,
        "a"
    );
    let mut policy = step("a", "ok", &[]);
    policy.on_error = "shrug".to_string();
    assert_eq!(
        refuses(vec![policy]),
        ("a".to_string(), "invalid on_error policy 'shrug'".to_string())
    );
    let mut shell = step("a", "ok", &[]);
    shell.tool = None;
    shell.shell = Some(vec!["rm".to_string()]);
    assert_eq!(refuses(vec![shell]).0, "a");
}

#[test]
fn a_step_is_of_the_kind_it_declares() {
    let tool = step("a", "ok", &[]);
    assert_eq!(infer_kind(&tool), Ok(StepKind::Tool));
    assert_eq!(step_kind_name(&tool), "tool");
    let mut none = step("a", "ok", &[]);
    none.tool = None;
    assert!(infer_kind(&none).is_err());
    assert_eq!(step_kind_name(&none), "unknown");
    let shape = plan_shape(&plan_of(vec![tool]));
    assert_eq!(shape[0].kind, "tool");
    assert!(!shape[0].has_condition);
}

#[test]
fn references_are_found_and_replaced() {
    let input = value(r#"{"a":"$a.output","b":["x","$a.status"],"c":1}"#);
    let mut found = Vec::new();
    collect_references(&input, &mut found);
    assert_eq!(found, ["$a.output", "$a.status"]);
    assert_eq!(
        parse_reference("$a.output"),
        Some(("a".to_string(), "output".to_string()))
    );
    let results = vec![result(StepStatus::Success, Some("42"))];
    assert_eq!(
        json::write(&interpolate_value(&input, &results).unwrap()),
        r#"{"a":"42","b":["x","success"],"c":1}"#
    );
    assert!(interpolate_value(&value(r#""$z.output""#), &results).is_err());
}

#[test]
fn a_dispatch_is_prepared_from_the_step_and_the_results() {
    let ctx = test_ctx();
    let mut shell = step("a", "ok", &[]);
    shell.tool = None;
    shell.shell = Some(vec!["bash".to_string(), "-c".to_string(), "true".to_string()]);
    assert_eq!(
        prepare_step(&shell, &ctx, &[]),
        Ok(Dispatch::Shell {
            binary: "bash".to_string(),
            args: vec!["-c".to_string(), "true".to_string()],
        })
    );
    assert_eq!(
        parse_shell_command(&["bash".to_string()]),
        Some(("bash".to_string(), Vec::new()))
    );
    assert_eq!(parse_shell_command(&[]), None);
    let mut capsule = step("a", "ok", &[]);
    capsule.tool = None;
    capsule.capsule = Some("worker".to_string());
    capsule.input = value(r#""do it""#);
    assert_eq!(
        prepare_step(&capsule, &ctx, &[]),
        Err("MURMUR_ROOST_URL is not set; capsule steps require mur-roost".to_string())
    );
    let mut spawning = test_ctx();
    spawning.roost_url = Some("http://roost".to_string());
    assert!(prepare_step(&capsule, &spawning, &[])
        .unwrap_err()
        .starts_with("this session holds no spawn credential"));
    spawning.holds_spawn_credential = true;
    assert_eq!(
        prepare_step(&capsule, &spawning, &[]),
        Ok(Dispatch::Capsule {
            capsule: "worker".to_string(),
            version: "0.1.0".to_string(),
            task: "do it".to_string(),
            roost_url: "http://roost".to_string(),
        })
    );
}

#[test]
fn a_reply_is_judged_by_its_kind() {
    let read = || DataRead::Bytes(b"from the \xff file".to_vec());
    let passed = tool_reply(true, Some("data"));
    assert_eq!(data_file(&passed), None);
    assert_eq!(
        tool_verdict("t", Ok(passed), read()),
        Ok(Some("data".to_string()))
    );
    let filed = || ToolReply {
        passed: true,
        summary: None,
        data: None,
        data_path: Some("out.json".to_string()),
    };
    assert_eq!(data_file(&filed()), Some("out.json".to_string()));
    assert_eq!(
        tool_verdict("t", Ok(filed()), read()),
        Ok(Some("from the \u{fffd} file".to_string()))
    );
    let refused = tool_verdict(
        "t",
        Ok(filed()),
        DataRead::Refused {
            code: "outside_root".to_string(),
            detail: "it escapes".to_string(),
        },
    )
    .unwrap_err();
    assert!(
        refused.contains("outside_root") && refused.contains("out.json"),
        "{refused}"
    );
    assert!(tool_verdict("t", Err("down".to_string()), read()).is_err());
    assert!(tool_verdict("t", Ok(tool_reply(false, None)), read()).is_err());
    let shell = |exit_code| ShellReply {
        binary: "bash".to_string(),
        exit_code,
        stdout: "out".to_string(),
        stderr: "err".to_string(),
        resource_limit_hit: None,
    };
    assert!(matches!(shell_verdict(Ok(shell(0))), Ok(Some(out)) if out.contains("out")));
    assert!(shell_verdict(Ok(shell(1))).is_err());
    assert!(shell_verdict(Err("no".to_string())).is_err());
    assert_eq!(
        capsule_verdict(true, "done".to_string()),
        Ok(Some("done".to_string()))
    );
    assert_eq!(
        capsule_verdict(false, "refused".to_string()),
        Err("refused".to_string())
    );
}

#[test]
fn an_attempt_is_repeated_until_it_succeeds_or_runs_out() {
    for (retries, succeeds_at, attempts, status) in [
        (2, 2, 2, StepStatus::Success),
        (2, 9, 3, StepStatus::Failed),
        (0, 1, 1, StepStatus::Success),
    ] {
        let outcome = execute_step_with_retries(retries, |attempt| {
            if attempt >= succeeds_at {
                plain_outcome(Ok(None), 1)
            } else {
                plain_outcome(Err("no".to_string()), 1)
            }
        });
        assert_eq!((outcome.attempts, outcome.status), (attempts, status));
    }
}

#[test]
fn a_failure_is_settled_by_its_policy() {
    let failed = || StepResult {
        step_id: "a".to_string(),
        status: StepStatus::Failed,
        output: None,
        error: Some("no".to_string()),
    };
    assert!(apply_policy("fail", failed()).1);
    assert!(!apply_policy("continue", failed()).1);
    let (skipped, stops) = apply_policy("skip", failed());
    assert_eq!((skipped.status, stops), (StepStatus::Skipped, false));
}

#[test]
fn only_unblocked_steps_are_dispatched() {
    let plan = plan_of(vec![step("a", "ok", &[]), step("b", "ok", &["a"])]);
    let mut run = PlanRun::new();
    let ready = run.next_wave(&plan);
    assert_eq!(ready, [0]);
    run.settle_wave(&plan, &ready, vec![Some(plain_outcome(Ok(None), 1))]);
    assert_eq!(run.next_wave(&plan), [1]);
}

/// Steps that wait for each other are never dispatched, and the plan does not complete.
#[test]
fn a_cycle_never_completes() {
    let done = run(
        plan_of(vec![step("a", "ok", &["b"]), step("b", "ok", &["a"])]),
        |_, _| tool_reply(true, None),
    );
    assert!(!done.report.completed);
}
