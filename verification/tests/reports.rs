//! Messages, records and progress lines, word for word.

use forge_scheduler::checkpoint::{saved_record, CheckpointService};
use forge_scheduler::cli::{ssh_address, trace_filter, TraceFilter};
use forge_scheduler::effect::SchedulerEffect;
use forge_scheduler::event::SchedulerEvent;
use forge_scheduler::failure::{ExhaustedAction, FailureKind, FailureReason};
use forge_scheduler::graph::{
    ModelTier, Node, NodeId, NodeKind, NodeOrigin, NodeStatus, RunGraph, TestPlanContext,
};
use forge_scheduler::integration::{
    attempt_id, integration_failure, planner_records, validation_record, worktree_failure_message,
};
use forge_scheduler::invariants::unknown_reference_message;
use forge_scheduler::language::{derive_validation_target, file_extension, substitute_stem};
use forge_scheduler::manifest::TaskField;
use forge_scheduler::node_ids::derive_node_id;
use forge_scheduler::progress::{is_progress_event, progress_lines};
use forge_scheduler::recovery::{build_retry_feedback, concise_retry_diagnostics};
use forge_scheduler::state::SchedulerState;
use forge_scheduler::teams::{LanguageSpec, RunConfig, ValidationTargetRule};
use forge_scheduler::telemetry::{effect_record, TelemetryEvent};
use forge_scheduler::text::{
    contains_part, decimal_text, insert_sorted, join_texts, lines_of, signed_decimal_text,
    trim_text,
};
use forge_scheduler::types::{
    IntegrationOutput, NodeFailure, NodeRequest, PlanOutput, PlannerTaskOutput, RecoveryAction,
    WorkOutput,
};
use forge_scheduler::validation::validation_retry_message;
use forge_scheduler::validation_plan::{ValidationCommandFailure, ValidationResult};
use forge_scheduler::workspace_changes::{
    changed_paths, git_diff, is_untracked, untracked_file_diff, workspace_diff, CommandOutput,
};

fn node(id: &str, status: NodeStatus) -> Node {
    Node {
        id: NodeId(id.to_string()),
        kind: NodeKind::Work,
        team: String::new(),
        task_id: None,
        adapter: String::new(),
        northstar: String::new(),
        worker_role: None,
        objective: format!("do {id}"),
        target_files: vec![],
        required_validation_targets: vec![],
        dependencies: vec![],
        status,
        attempt: 0,
        plan_depth: 0,
        model_tier: ModelTier::Cheap,
        summary: None,
        origin: NodeOrigin::Root,
        validation_plan: None,
        retry_feedback: None,
    }
}

fn id(text: &str) -> NodeId {
    NodeId(text.to_string())
}

fn output(success: bool, stdout: &str, stderr: &str) -> Option<CommandOutput> {
    Some(CommandOutput {
        success,
        stdout: stdout.to_string(),
        stderr: stderr.to_string(),
    })
}

// ── failure reasons ────────────────────────────────────────────────────────

#[test]
fn every_failure_reason_has_its_message() {
    let text = |s: &str| s.to_string();
    let cases = [
        (FailureReason::GraphInvariantViolation(text("two A")), "two A"),
        (FailureReason::ProtocolViolation(text("late")), "protocol violation: late"),
        (FailureReason::Deadlock(text("stuck")), "stuck"),
        (
            FailureReason::AttemptsExhausted {
                node_id: text("A"),
                max_attempts: 3,
                recovery_action: ExhaustedAction::Retry,
            },
            "node A exhausted all 3 attempts (Retry)",
        ),
        (
            FailureReason::AttemptsExhausted {
                node_id: text("A"),
                max_attempts: 3,
                recovery_action: ExhaustedAction::Split,
            },
            "node A exhausted all 3 attempts (Split)",
        ),
        (
            FailureReason::AttemptsExhausted {
                node_id: text("A"),
                max_attempts: 3,
                recovery_action: ExhaustedAction::ElevateModel,
            },
            "node A exhausted all 3 attempts (ElevateModel)",
        ),
        (
            FailureReason::NoHigherModelTierAvailable { node_id: text("A"), max_attempts: 3 },
            "node A exhausted all 3 attempts; no higher model tier available",
        ),
        (
            FailureReason::GraphCapacityExceeded { limit: 100 },
            "graph size limit exceeded; limit is 100",
        ),
        (
            FailureReason::PlanDepthExceeded { limit: 10 },
            "plan depth limit exceeded; limit is 10",
        ),
        (FailureReason::RequiredTestTargetsMissing(text("no tests")), "no tests"),
        (FailureReason::TargetDerivationFailed(text("no plugin")), "no plugin"),
        (
            FailureReason::TerminalTeamIncomplete {
                team: text("qa"),
                task_ids: vec![text("t1"), text("t2")],
            },
            "terminal team 'qa' has not completed tasks: t1, t2",
        ),
    ];
    for (reason, message) in cases {
        assert_eq!(reason.message(), message);
    }
}

#[test]
fn terminal_messages_are_combined_without_repetition() {
    let message = |terminal: &str, failure: &str| {
        FailureReason::TerminalRecovery {
            terminal_message: terminal.to_string(),
            failure_message: failure.to_string(),
        }
        .message()
    };
    assert_eq!(message("", "broke"), "broke");
    assert_eq!(message("halt", ""), "halt");
    assert_eq!(message("halt: broke", "broke"), "halt: broke");
    assert_eq!(message("halt", "halt and catch fire"), "halt and catch fire");
    assert_eq!(message("halt", "broke"), "halt: broke");
}

// ── quoting and ids ────────────────────────────────────────────────────────

#[test]
fn unknown_dependencies_are_quoted_and_escaped() {
    let request = |name: &str, dependency: &str| NodeRequest {
        id: id(name),
        kind: NodeKind::Work,
        team: String::new(),
        task_id: None,
        adapter: String::new(),
        northstar: String::new(),
        worker_role: None,
        objective: "work".to_string(),
        target_files: vec![],
        required_validation_targets: vec![],
        dependencies: vec![id(dependency)],
        validation_plan: None,
    };
    let graph = RunGraph { nodes: vec![node("A", NodeStatus::Pending)] };
    assert_eq!(graph.validate_plan_dependencies(&vec![request("x", "A")]), Ok(()));
    assert_eq!(
        graph.validate_plan_dependencies(&vec![request("x", "y"), request("y", "x")]),
        Ok(())
    );
    assert_eq!(
        graph.validate_plan_dependencies(&vec![request("x", "say \"hi\"\n")]),
        Err("plan output references unknown node id: \"say \\\"hi\\\"\\n\"".to_string())
    );
    assert_eq!(
        unknown_reference_message(&"\"B\"".to_string()),
        "plan output references unknown node id: \"B\""
    );
}

#[test]
fn derived_ids_show_the_bits_with_version_and_variant_set() {
    assert_eq!(derive_node_id(0, 0).0, "00000000-0000-4000-8000-000000000000");
    assert_eq!(
        derive_node_id(0x1234_5678_9abc_def0_1122_3344_5566_7788, 3).0,
        "12345678-9abc-4ef0-9122-33445566778b"
    );
    assert_eq!(derive_node_id(u128::MAX, 0).0, "ffffffff-ffff-4fff-bfff-ffffffffffff");
    assert_eq!(derive_node_id(u128::MAX, 1).0, "00000000-0000-4000-8000-000000000000");
}

#[test]
fn counters_that_differ_only_in_the_variant_bits_derive_the_same_id() {
    assert_eq!(derive_node_id(0, 0), derive_node_id(0, 1 << 62));
    assert_ne!(derive_node_id(0, 0), derive_node_id(0, 1 << 61));
}

#[test]
fn short_ids_end_between_characters() {
    assert_eq!(id("12345678").short(), "12345678");
    assert_eq!(id("123456789").short(), "12345678");
}

// ── progress ───────────────────────────────────────────────────────────────

#[test]
fn events_are_announced_by_the_short_id_of_their_node() {
    let long = "0123456789";
    let failure = |recovery: RecoveryAction| NodeFailure {
        kind: FailureKind::ToolFailure,
        message: "broke".to_string(),
        recovery,
    };
    let message = || "why".to_string();
    let failed = |recovery: RecoveryAction| SchedulerEvent::NodeFailed {
        node_id: id(long),
        failure: failure(recovery),
    };
    let cases: Vec<(SchedulerEvent, Vec<&str>)> = vec![
        (SchedulerEvent::Start, vec![]),
        (
            SchedulerEvent::PlanAccepted {
                node_id: id(long),
                plan: PlanOutput { children: vec![], tasks: vec![] },
            },
            vec!["[scheduler] returned 01234567"],
        ),
        (
            SchedulerEvent::WorkAccepted {
                node_id: id(long),
                work: WorkOutput { summary: "did".to_string() },
            },
            vec!["[scheduler] returned 01234567"],
        ),
        (
            failed(RecoveryAction::Retry { message: message() }),
            vec!["[scheduler] failed 01234567", "[scheduler] recovery Retry 01234567"],
        ),
        (
            failed(RecoveryAction::Split { message: message() }),
            vec!["[scheduler] failed 01234567", "[scheduler] recovery Split 01234567"],
        ),
        (
            failed(RecoveryAction::ElevateModel { message: message() }),
            vec!["[scheduler] failed 01234567", "[scheduler] recovery ElevateModel 01234567"],
        ),
        (
            failed(RecoveryAction::Terminal { message: message() }),
            vec!["[scheduler] failed 01234567", "[scheduler] recovery Terminal 01234567"],
        ),
        (
            SchedulerEvent::IntegrationSucceeded {
                node_id: id(long),
                output: IntegrationOutput { summary: "did".to_string() },
                manifest_tasks: vec![],
            },
            vec!["[integration] complete 01234567"],
        ),
        (
            SchedulerEvent::IntegrationFailed {
                node_id: id(long),
                failure: integration_failure("broke".to_string()),
            },
            vec!["[integration] failed 01234567"],
        ),
        (
            SchedulerEvent::PlannerTasksIntegrated { node_id: id(long), manifest_tasks: vec![] },
            vec!["[integration] complete 01234567"],
        ),
        (
            SchedulerEvent::PlannerTasksIntegrationFailed {
                node_id: id(long),
                failure: integration_failure("broke".to_string()),
            },
            vec!["[integration] failed 01234567"],
        ),
    ];
    for (event, lines) in cases {
        assert_eq!(progress_lines(&event), lines);
        assert_eq!(is_progress_event(&event), event != SchedulerEvent::Start);
    }
}

// ── checkpoints and records ────────────────────────────────────────────────

#[test]
fn checkpoints_are_due_while_a_run_goes_on() {
    let graph = RunGraph {
        nodes: vec![
            node("A", NodeStatus::Completed),
            node("B", NodeStatus::Failed),
            node("C", NodeStatus::Pending),
        ],
    };
    let going_on = SchedulerState::Active {
        graph: graph.clone(),
        run_config: RunConfig::default(),
    };
    let waiting = SchedulerState::Waiting {
        graph: graph.clone(),
        run_config: RunConfig::default(),
    };
    let complete = SchedulerState::Complete { graph: graph.clone() };
    let failed = SchedulerState::Failed {
        graph,
        reason: FailureReason::Deadlock("stuck".to_string()),
    };
    assert!(CheckpointService::disabled().checkpoint_due(&going_on).is_none());
    let service = CheckpointService::disabled().with_dir("/tmp/run".to_string());
    for state in [going_on, waiting] {
        let due = service.checkpoint_due(&state).expect("the run goes on");
        assert_eq!(due.dir, "/tmp/run");
        assert_eq!(due.node_count, 3);
        assert_eq!(due.completed_count, 1);
        let record = saved_record(&due);
        assert_eq!(record.source, "Checkpoint");
        assert_eq!(
            record.event,
            TelemetryEvent::CheckpointSaved { node_count: 3, completed_count: 1 }
        );
    }
    assert!(service.checkpoint_due(&complete).is_none());
    assert!(service.checkpoint_due(&failed).is_none());
}

#[test]
fn effects_are_recorded_with_the_node_they_are_about() {
    let run = SchedulerEffect::RunNode {
        node_id: id("A"),
        worker_role: None,
        kind: NodeKind::Work,
        objective: "work".to_string(),
        target_files: vec![],
        test_plan_context: TestPlanContext::default(),
        model_tier: ModelTier::Cheap,
        attempt: 2,
        retry_feedback: None,
        team: String::new(),
        adapter: String::new(),
        northstar: String::new(),
    };
    let record = effect_record(&run, "run it".to_string());
    assert_eq!(record.node_id.as_deref(), Some("A"));
    assert_eq!(record.attempt, Some(2));
    let plan = SchedulerEffect::IntegratePlannerTasks {
        node_id: id("P"),
        tasks: vec![],
        team: "planner".to_string(),
    };
    let record = effect_record(&plan, "record it".to_string());
    assert_eq!(record.node_id, None);
    assert_eq!(record.attempt, None);
    assert_eq!(
        record.event,
        TelemetryEvent::EffectEmitted {
            machine: "SchedulerMachine".to_string(),
            effect: "record it".to_string(),
        }
    );
}

#[test]
fn validations_are_recorded_in_full() {
    let passed = ValidationResult { passed: true, summary: "fine".to_string(), failure: None };
    assert_eq!(
        validation_record(&passed).event,
        TelemetryEvent::ValidationPassed { summary: "fine".to_string() }
    );
    let bare = ValidationResult { passed: false, summary: "bad".to_string(), failure: None };
    assert_eq!(
        validation_record(&bare).event,
        TelemetryEvent::ValidationFailed {
            summary: "bad".to_string(),
            command: None,
            exit_code: None,
            stdout: None,
            stderr: None,
        }
    );
}

#[test]
fn attempts_and_workspaces_are_named() {
    assert_eq!(attempt_id(&id("A"), 12), "A:12");
    assert_eq!(
        worktree_failure_message(&"disk full".to_string()),
        "worktree creation failed: disk full"
    );
}

#[test]
fn planner_rows_carry_the_team_and_no_commit() {
    let rows = planner_records(
        &vec![PlannerTaskOutput {
            id: "t1".to_string(),
            objective: "alpha".to_string(),
            task_kv: vec![TaskField { key: "name".to_string(), value: "a".to_string() }],
            depends_on: vec!["t0".to_string()],
        }],
        &"planner".to_string(),
        &"noon".to_string(),
    );
    assert_eq!(rows.len(), 1);
    assert_eq!(rows[0].id, "t1");
    assert_eq!(rows[0].objective, "alpha");
    assert_eq!(rows[0].commit, "");
    assert_eq!(rows[0].completed_at, "noon");
    assert_eq!(rows[0].team.as_deref(), Some("planner"));
    assert_eq!(rows[0].task_kv[0].value, "a");
    assert_eq!(rows[0].depends_on, vec!["t0".to_string()]);
}

// ── changes in a workspace ─────────────────────────────────────────────────

#[test]
fn status_lines_name_the_changed_files() {
    let listing = " M src/a.rs\n?? new file.txt\n\nxy\nR  old -> new\n";
    assert_eq!(
        changed_paths(&output(true, listing, "")),
        vec!["src/a.rs", "new file.txt", "old -> new"]
    );
    assert!(changed_paths(&output(false, listing, "")).is_empty());
    assert!(changed_paths(&None).is_empty());
}

#[test]
fn status_lines_cut_inside_a_character_are_left_out() {
    assert_eq!(changed_paths(&output(true, "ab\u{e9}x\n?? ok\n", "")), vec!["ok"]);
}

#[test]
fn diffs_say_why_they_are_missing() {
    assert_eq!(git_diff(output(true, "+a\n", "")), "+a\n");
    assert_eq!(git_diff(None), "(failed to collect git diff)");
    assert_eq!(
        git_diff(output(false, "", " not a repository \n")),
        "(failed to collect git diff: not a repository)"
    );
    let path = "new.txt".to_string();
    assert_eq!(untracked_file_diff(&path, output(false, "+a\n", "")), "+a\n");
    assert_eq!(untracked_file_diff(&path, output(true, "", "")), "");
    assert_eq!(
        untracked_file_diff(&path, None),
        "(failed to collect untracked diff for new.txt)\n"
    );
    assert_eq!(
        untracked_file_diff(&path, output(false, "", "denied\n")),
        "(failed to collect untracked diff for new.txt: denied)\n"
    );
    assert!(is_untracked(&output(false, "", "")));
    assert!(!is_untracked(&output(true, "", "")));
    assert!(!is_untracked(&None));
}

#[test]
fn diffs_of_new_files_start_on_lines_of_their_own() {
    let text = |s: &str| s.to_string();
    assert_eq!(workspace_diff(text(""), &vec![text("+a\n"), text("+b\n")]), "+a\n+b\n");
    assert_eq!(workspace_diff(text("+x"), &vec![text("+a"), text("+b\n")]), "+x\n+a\n+b\n");
    assert_eq!(workspace_diff(text("+x\n"), &vec![]), "+x\n");
}

// ── diagnostics ────────────────────────────────────────────────────────────

#[test]
fn diagnostics_are_cut_by_lines_and_by_characters() {
    assert_eq!(concise_retry_diagnostics("  one\ntwo  "), "one\ntwo");
    let twelve = vec!["line"; 12].join("\n");
    assert_eq!(concise_retry_diagnostics(&twelve), twelve);
    let thirteen = vec!["line"; 13].join("\n");
    assert_eq!(
        concise_retry_diagnostics(&thirteen),
        format!("{twelve}\n[diagnostics truncated]")
    );
    let long = "x".repeat(1200);
    assert_eq!(concise_retry_diagnostics(&long), long);
    assert_eq!(
        concise_retry_diagnostics(&format!("{long}y")),
        format!("{long}\n[diagnostics truncated]")
    );
}

#[test]
fn feedback_is_for_work_that_failed_validation() {
    let told = |kind, failure| {
        build_retry_feedback(kind, failure, " why ").map(|feedback| feedback.diagnostics)
    };
    assert_eq!(
        told(NodeKind::Work, FailureKind::ValidationFailure).as_deref(),
        Some("why")
    );
    assert_eq!(
        told(NodeKind::Work, FailureKind::WorkSemanticValidationFailure).as_deref(),
        Some("why")
    );
    assert_eq!(told(NodeKind::Plan, FailureKind::ValidationFailure), None);
    for failure in [
        FailureKind::ProviderFailure,
        FailureKind::ProviderTerminalFailure,
        FailureKind::ProtocolFailure,
        FailureKind::ToolFailure,
        FailureKind::PlannerValidationFailure,
        FailureKind::DeliberationFailure,
        FailureKind::IntegrationFailure,
        FailureKind::IntegrationConflict,
        FailureKind::UserTaskRejection,
        FailureKind::DispatchPanic,
    ] {
        assert_eq!(told(NodeKind::Work, failure), None);
    }
}

#[test]
fn validation_failures_without_a_command_keep_their_summary() {
    assert!(validation_retry_message("timed out", &None).contains("timed out"));
    let failure = ValidationCommandFailure {
        command: "make".to_string(),
        exit_code: None,
        stdout: String::new(),
        stderr: String::new(),
    };
    assert!(validation_retry_message("timed out", &Some(failure)).contains("make"));
}

// ── languages ──────────────────────────────────────────────────────────────

#[test]
fn targets_are_derived_by_the_rule_for_the_extension() {
    let plugins = vec![LanguageSpec {
        extensions: vec!["py".to_string()],
        validation_targets: vec![ValidationTargetRule {
            pattern: "{stem}.py".to_string(),
            target: "tests/test_{stem}.py".to_string(),
        }],
    }];
    assert_eq!(
        derive_validation_target(&plugins, "main.py").as_deref(),
        Some("tests/test_main.py")
    );
    assert_eq!(derive_validation_target(&plugins, "main.rs"), None);
    assert_eq!(substitute_stem("tests/test_{stem}.py", "main"), "tests/test_main.py");
    assert_eq!(file_extension("a/b.tar.gz").as_deref(), Some("gz"));
    assert_eq!(file_extension("Makefile"), None);
}

// ── command line ───────────────────────────────────────────────────────────

#[test]
fn prompts_come_before_failures_and_failures_before_the_summary() {
    assert_eq!(trace_filter(false, false, false), TraceFilter::Default);
    assert_eq!(trace_filter(true, false, false), TraceFilter::Summary);
    assert_eq!(trace_filter(true, false, true), TraceFilter::Failures);
    assert_eq!(trace_filter(true, true, true), TraceFilter::Prompts);
}

#[test]
fn instances_are_reachable_once_they_have_host_and_port() {
    assert_eq!(ssh_address(&Some("host".to_string()), Some(22)), "host:22");
    assert_eq!(ssh_address(&Some("host".to_string()), None), "not ready");
    assert_eq!(ssh_address(&None, Some(22)), "not ready");
}

// ── texts ──────────────────────────────────────────────────────────────────

#[test]
fn texts_are_taken_apart_and_put_together() {
    assert_eq!(decimal_text(0), "0");
    assert_eq!(decimal_text(u64::MAX), "18446744073709551615");
    assert_eq!(signed_decimal_text(i32::MIN), "-2147483648");
    assert_eq!(signed_decimal_text(7), "7");
    assert_eq!(join_texts(&vec![], ", "), "");
    assert_eq!(join_texts(&vec!["a".to_string(), "b".to_string()], ", "), "a, b");
    assert_eq!(lines_of("a\r\nb\n\nc"), vec!["a", "b", "", "c"]);
    assert!(lines_of("").is_empty());
    assert_eq!(trim_text("\u{2003} a b \n"), "a b");
    assert!(contains_part("abc", ""));
    assert!(contains_part("abc", "bc"));
    assert!(!contains_part("abc", "cb"));
}

#[test]
fn sorted_lists_hold_each_text_once() {
    let mut list = vec![];
    for item in ["b", "a", "c", "a", "\u{e9}", "B"] {
        insert_sorted(&mut list, item.to_string());
    }
    assert_eq!(list, vec!["B", "a", "b", "c", "\u{e9}"]);
}
