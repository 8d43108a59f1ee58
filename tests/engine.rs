use workflow_core::json::JsonValue;
use workflow_core::parallel::{Batch, ParallelRun};
use workflow_core::records::{run_summary, ParserOutcome, RunStatus, ToolOutcome};
use workflow_core::sequence::{Action, SequenceItem, SequenceRun, SequenceStep, ToolCall, ToolGroup};

fn call(name: &str, skippable: bool) -> ToolCall {
    ToolCall {
        tool_name: name.to_string(),
        arguments: JsonValue::Object(vec![]),
        continue_on_error: Some(skippable),
        delay_ms: None,
        id: None,
    }
}

fn step(name: &str, id: Option<&str>, fallback: Option<&str>, if_expr: Option<&str>) -> SequenceStep {
    SequenceStep {
        id: id.map(|s| s.to_string()),
        if_expr: if_expr.map(|s| s.to_string()),
        retries: None,
        fallback_id: fallback.map(|s| s.to_string()),
        item: SequenceItem::Tool { tool_call: call(name, false) },
    }
}

fn skippable_step(name: &str) -> SequenceStep {
    SequenceStep {
        id: None,
        if_expr: None,
        retries: None,
        fallback_id: None,
        item: SequenceItem::Tool { tool_call: call(name, true) },
    }
}

/// Runs the engine to its end: the calls named in `failing` fail, conditions
/// take the value `cond`. Gives the names invoked, in order.
fn drive(run: &mut SequenceRun, failing: &[&str], cond: bool) -> Vec<String> {
    let ctx = JsonValue::Object(vec![]);
    let mut invoked = Vec::new();
    let mut action = run.start(&ctx);
    loop {
        action = match action {
            Action::Finished { .. } => break,
            Action::EvaluateCondition { .. } => run.condition_evaluated(cond, &ctx),
            Action::Invoke { tool_name, .. } => {
                let outcome = if failing.contains(&tool_name.as_str()) {
                    ToolOutcome::Failure("boom".to_string())
                } else {
                    ToolOutcome::Success(vec![])
                };
                invoked.push(tool_name);
                run.tool_finished(outcome, 1, &ctx)
            }
        };
    }
    invoked
}

fn indices(results: &[JsonValue]) -> Vec<u64> {
    results.iter().map(|r| r.get("index").and_then(|v| v.as_u64()).unwrap()).collect()
}

fn status_of(r: &JsonValue) -> String {
    r.get("status").and_then(|v| v.as_str()).unwrap().to_string()
}

#[test]
fn failed_step_jumps_to_its_fallback() {
    let mut a = step("A", Some("a"), Some("c"), None);
    if let SequenceItem::Tool { tool_call } = &mut a.item {
        tool_call.continue_on_error = Some(true);
    }
    let steps = vec![a, step("B", Some("b"), None, None), step("C", Some("c"), None, None)];
    let mut run = SequenceRun::new(steps, true, true);
    let invoked = drive(&mut run, &["A"], true);
    assert_eq!(invoked, vec!["A".to_string(), "C".to_string()]);
    assert_eq!(indices(&run.results), vec![0, 2]);
}

#[test]
fn critical_failure_jumps_to_fallback_which_is_then_skipped() {
    let steps = vec![
        step("A", Some("a"), Some("c"), None),
        step("B", Some("b"), None, None),
        step("C", Some("c"), None, None),
    ];
    let mut run = SequenceRun::new(steps, true, true);
    let invoked = drive(&mut run, &["A"], true);
    assert_eq!(invoked, vec!["A".to_string()]);
    assert_eq!(indices(&run.results), vec![0, 2]);
    assert_eq!(status_of(&run.results[1]), "skipped");
}

#[test]
fn always_step_runs_after_critical_failure() {
    let steps = vec![
        step("F", None, None, None),
        step("X", None, None, None),
        step("Y", None, None, Some("  always()  ")),
        step("Z", None, None, Some("other")),
    ];
    let mut run = SequenceRun::new(steps, true, true);
    let invoked = drive(&mut run, &["F"], true);
    assert_eq!(invoked, vec!["F".to_string(), "Y".to_string()]);
    assert_eq!(indices(&run.results), vec![0, 1, 2, 3]);
    assert_eq!(status_of(&run.results[0]), "error");
    assert_eq!(status_of(&run.results[1]), "skipped");
    assert!(run.results[1].get("reason").and_then(|v| v.as_str()).unwrap().contains("unrecoverable"));
    assert_eq!(status_of(&run.results[2]), "success");
    assert_eq!(status_of(&run.results[3]), "skipped");
    assert_eq!(run.status(), RunStatus::PartialSuccess);
}

#[test]
fn status_success_when_all_succeed() {
    let mut run = SequenceRun::new(vec![step("A", None, None, None), step("B", None, None, None)], true, true);
    drive(&mut run, &[], true);
    assert_eq!(run.status(), RunStatus::Success);
    assert_eq!(run.status().as_str(), "success");
}

#[test]
fn status_completed_with_errors_for_skippable_failure() {
    let mut run = SequenceRun::new(vec![skippable_step("A"), step("B", None, None, None)], true, true);
    let invoked = drive(&mut run, &["A"], true);
    assert_eq!(invoked.len(), 2);
    assert_eq!(status_of(&run.results[0]), "skipped");
    assert_eq!(run.status(), RunStatus::CompletedWithErrors);
    assert_eq!(run.status().as_str(), "completed_with_errors");
}

#[test]
fn status_partial_success_for_critical_failure() {
    let mut run = SequenceRun::new(vec![step("A", None, None, None), step("B", None, None, None)], true, true);
    let invoked = drive(&mut run, &["A"], true);
    assert_eq!(invoked, vec!["A".to_string()]);
    assert_eq!(run.status(), RunStatus::PartialSuccess);
    assert_eq!(run.status().as_str(), "partial_success");
}

#[test]
fn unmet_condition_skips_step() {
    let mut run = SequenceRun::new(vec![step("A", None, None, Some("x == 1"))], true, true);
    let invoked = drive(&mut run, &[], false);
    assert!(invoked.is_empty());
    assert_eq!(
        run.results[0].get("reason").and_then(|v| v.as_str()),
        Some("if_expr not met: x == 1")
    );
}

#[test]
fn retries_then_gives_up() {
    let mut s = step("A", None, None, None);
    s.retries = Some(2);
    if let SequenceItem::Tool { tool_call } = &mut s.item {
        tool_call.delay_ms = Some(100);
    }
    let mut run = SequenceRun::new(vec![s], true, true);
    let ctx = JsonValue::Object(vec![]);
    let mut action = run.start(&ctx);
    let mut pauses = Vec::new();
    let mut calls = 0;
    loop {
        action = match action {
            Action::Invoke { pause_ms, .. } => {
                pauses.push(pause_ms);
                calls += 1;
                run.tool_finished(ToolOutcome::Failure("no".to_string()), 1, &ctx)
            }
            Action::Finished { pause_ms } => {
                pauses.push(pause_ms);
                break;
            }
            other => panic!("unexpected {:?}", other),
        };
    }
    assert_eq!(calls, 3);
    assert_eq!(pauses, vec![0, 600, 600, 100]);
    assert_eq!(run.results.len(), 1);
}

#[test]
fn group_stops_at_critical_inner_failure() {
    let group = SequenceStep {
        id: None,
        if_expr: None,
        retries: None,
        fallback_id: None,
        item: SequenceItem::Group {
            tool_group: ToolGroup {
                group_name: "g".to_string(),
                steps: vec![call("G1", false), call("G2", false)],
                skippable: None,
            },
        },
    };
    let mut run = SequenceRun::new(vec![group, step("B", None, None, None)], true, true);
    let invoked = drive(&mut run, &["G1"], true);
    assert_eq!(invoked, vec!["G1".to_string()]);
    let g = &run.results[0];
    assert_eq!(g.get("group_name").and_then(|v| v.as_str()), Some("g"));
    assert_eq!(status_of(g), "partial_success");
    assert_eq!(g.get("results").unwrap().as_array().unwrap().len(), 1);
    assert_eq!(status_of(&run.results[1]), "skipped");
    assert_eq!(run.status(), RunStatus::PartialSuccess);
}

#[test]
fn skippable_group_failure_is_not_critical() {
    let group = SequenceStep {
        id: None,
        if_expr: None,
        retries: None,
        fallback_id: None,
        item: SequenceItem::Group {
            tool_group: ToolGroup {
                group_name: "g".to_string(),
                steps: vec![call("G1", true), call("G2", false)],
                skippable: Some(true),
            },
        },
    };
    let mut run = SequenceRun::new(vec![group, step("B", None, None, None)], true, true);
    let invoked = drive(&mut run, &["G1"], true);
    assert_eq!(invoked, vec!["G1".to_string(), "B".to_string()]);
    assert_eq!(run.status(), RunStatus::CompletedWithErrors);
}

#[test]
fn empty_group_succeeds() {
    let group = SequenceStep {
        id: None,
        if_expr: None,
        retries: None,
        fallback_id: None,
        item: SequenceItem::Group {
            tool_group: ToolGroup { group_name: "empty".to_string(), steps: vec![], skippable: None },
        },
    };
    let mut run = SequenceRun::new(vec![group], true, true);
    let invoked = drive(&mut run, &[], true);
    assert!(invoked.is_empty());
    assert_eq!(status_of(&run.results[0]), "success");
}

#[test]
fn fallback_cycle_stops_at_iteration_bound() {
    let mut s = step("A", Some("a"), Some("a"), None);
    if let SequenceItem::Tool { tool_call } = &mut s.item {
        tool_call.continue_on_error = Some(true);
    }
    let mut run = SequenceRun::new(vec![s], true, true);
    let invoked = drive(&mut run, &["A"], true);
    assert_eq!(invoked.len(), 10);
    assert!(run.iteration_limit_reached());
    assert_eq!(run.status(), RunStatus::CompletedWithErrors);
}

#[test]
fn arguments_are_substituted_before_invoking() {
    let mut s = step("A", Some("first"), None, None);
    if let SequenceItem::Tool { tool_call } = &mut s.item {
        tool_call.arguments = JsonValue::Object(vec![("x".to_string(), JsonValue::Str("{{v}}".to_string()))]);
    }
    let mut run = SequenceRun::new(vec![s], true, false);
    let ctx = JsonValue::Object(vec![("v".to_string(), JsonValue::Number("3".to_string()))]);
    match run.start(&ctx) {
        Action::Invoke { arguments, .. } => assert_eq!(arguments.get("x").unwrap().as_u64(), Some(3)),
        other => panic!("unexpected {:?}", other),
    }
    run.tool_finished(ToolOutcome::Success(vec![JsonValue::Null]), 42, &ctx);
    let r = &run.results[0];
    assert_eq!(r.get("step_id").and_then(|v| v.as_str()), Some("first"));
    assert_eq!(r.get("duration_ms").and_then(|v| v.as_u64()), Some(42));
    let summary = r.get("result").unwrap();
    assert_eq!(summary.get("type").and_then(|v| v.as_str()), Some("summary"));
    assert_eq!(summary.get("content_count").and_then(|v| v.as_u64()), Some(1));
}

#[test]
fn parallel_group_results_in_step_order() {
    let steps = vec![call("s0", false), call("s1", false), call("s2", false)];
    let mut run = ParallelRun::new(steps, vec![0], vec![vec![1, 2]], true, true);
    let ctx = JsonValue::Object(vec![]);
    match run.next_batch(&ctx) {
        Batch::Solo { index, tool_name, .. } => {
            assert_eq!(index, 0);
            assert_eq!(tool_name, "s0");
        }
        other => panic!("unexpected {:?}", other),
    }
    run.solo_finished(0, ToolOutcome::Success(vec![]), 1);
    match run.next_batch(&ctx) {
        Batch::Concurrent { calls } => {
            assert_eq!(calls.iter().map(|c| c.0).collect::<Vec<_>>(), vec![1, 2]);
        }
        other => panic!("unexpected {:?}", other),
    }
    run.group_finished(vec![
        (2, ToolOutcome::Success(vec![]), 5),
        (1, ToolOutcome::Success(vec![]), 9),
    ]);
    assert_eq!(indices(&run.results), vec![0, 1, 2]);
    assert!(matches!(run.next_batch(&ctx), Batch::Finished));
    assert_eq!(run.status(), RunStatus::Success);
}

#[test]
fn parallel_stops_after_critical_failure() {
    let steps = vec![call("s0", false), call("s1", false)];
    let mut run = ParallelRun::new(steps, vec![0, 1], vec![], true, true);
    let ctx = JsonValue::Object(vec![]);
    assert!(matches!(run.next_batch(&ctx), Batch::Solo { index: 0, .. }));
    run.solo_finished(0, ToolOutcome::Failure("x".to_string()), 1);
    assert!(matches!(run.next_batch(&ctx), Batch::Finished));
    assert_eq!(run.status(), RunStatus::PartialSuccess);
}

#[test]
fn summary_holds_status_and_parser_outcome() {
    let results = vec![JsonValue::Null];
    let s = run_summary(
        RunStatus::PartialSuccess,
        3,
        results,
        12,
        "t0",
        false,
        Some(ParserOutcome::Failed("bad".to_string())),
    );
    assert_eq!(s.get("status").and_then(|v| v.as_str()), Some("partial_success"));
    assert_eq!(s.get("executed_tools").and_then(|v| v.as_u64()), Some(1));
    assert_eq!(s.get("total_tools").and_then(|v| v.as_u64()), Some(3));
    assert_eq!(s.get("parser_error").and_then(|v| v.as_str()), Some("bad"));
    assert!(s.get("debug_info_on_failure").is_some());
    let s = run_summary(RunStatus::Success, 0, vec![], 0, "t", true, Some(ParserOutcome::Nothing));
    assert_eq!(s.get("execution_mode").and_then(|v| v.as_str()), Some("parallel"));
    assert!(s.get("parsed_output").is_some());
    assert!(s.get("debug_info_on_failure").is_none());
}

#[test]
fn failed_group_that_may_not_fail_is_critical_without_stop_on_error() {
    let group = SequenceStep {
        id: None,
        if_expr: None,
        retries: None,
        fallback_id: None,
        item: SequenceItem::Group {
            tool_group: ToolGroup { group_name: "g".to_string(), steps: vec![call("G1", true)], skippable: None },
        },
    };
    let mut run = SequenceRun::new(vec![group, step("B", None, None, None)], false, true);
    let invoked = drive(&mut run, &["G1"], true);
    assert_eq!(invoked, vec!["G1".to_string()]);
    assert_eq!(status_of(&run.results[1]), "skipped");
    assert_eq!(run.status(), RunStatus::PartialSuccess);
}

#[test]
fn client_prefix_removed_from_invoked_name() {
    let s = step("mcp_terminator-mcp-agent_click_element", None, None, None);
    let mut run = SequenceRun::new(vec![s], true, true);
    let invoked = drive(&mut run, &[], true);
    assert_eq!(invoked, vec!["click_element".to_string()]);
    assert_eq!(
        run.results[0].get("tool_name").and_then(|v| v.as_str()),
        Some("mcp_terminator-mcp-agent_click_element")
    );
}
