//! What holds of every run, on concrete runs.

use forge_scheduler::driver::{Driver, DriverAction};
use forge_scheduler::effect::SchedulerEffect;
use forge_scheduler::event::SchedulerEvent;
use forge_scheduler::failure::{ExhaustedAction, FailureKind, FailureReason};
use forge_scheduler::graph::{ModelTier, Node, NodeId, NodeKind, NodeOrigin, NodeStatus, RunGraph};
use forge_scheduler::handler::SchedulerHandler;
use forge_scheduler::machine::{
    apply_team_triggers, RecoverySummary, SchedulerMachine, SchedulerTerminalOutput,
};
use forge_scheduler::manifest::{TaskField, TaskRecord};
use forge_scheduler::node_runner::StaticNodeRunner;
use forge_scheduler::state::{SchedulerState, Transition};
use forge_scheduler::teams::{RunConfig, TeamConfig, Trigger};
use forge_scheduler::triggers::plan_team_spawns;
use forge_scheduler::types::{
    IntegrationFailure, IntegrationOutput, NodeFailure, NodeRequest, PlanOutput, RecoveryAction,
    WorkOutput,
};

type Step = Transition<SchedulerState, SchedulerEffect>;

fn id(text: &str) -> NodeId {
    NodeId(text.to_string())
}

fn node(name: &str, deps: &[&str]) -> Node {
    Node {
        id: id(name),
        kind: NodeKind::Work,
        team: String::new(),
        task_id: None,
        adapter: String::new(),
        northstar: String::new(),
        worker_role: None,
        objective: format!("do {name}"),
        target_files: vec![format!("{name}.txt")],
        required_validation_targets: vec![],
        dependencies: deps.iter().map(|d| id(d)).collect(),
        status: NodeStatus::Pending,
        attempt: 0,
        plan_depth: 0,
        model_tier: ModelTier::Cheap,
        summary: None,
        origin: NodeOrigin::Root,
        validation_plan: None,
        retry_feedback: None,
    }
}

fn with_status(name: &str, deps: &[&str], status: NodeStatus) -> Node {
    Node { status, ..node(name, deps) }
}

fn plan(name: &str, deps: &[&str]) -> Node {
    Node { kind: NodeKind::Plan, ..node(name, deps) }
}

fn config(dispatch_cap: usize) -> RunConfig {
    RunConfig { dispatch_cap, ..RunConfig::default() }
}

fn active(nodes: Vec<Node>, dispatch_cap: usize) -> SchedulerState {
    SchedulerState::Active { graph: RunGraph { nodes }, run_config: config(dispatch_cap) }
}

fn waiting(nodes: Vec<Node>, dispatch_cap: usize) -> SchedulerState {
    SchedulerState::Waiting { graph: RunGraph { nodes }, run_config: config(dispatch_cap) }
}

fn graph_of(state: &SchedulerState) -> &RunGraph {
    match state {
        SchedulerState::Active { graph, .. } => graph,
        SchedulerState::Waiting { graph, .. } => graph,
        SchedulerState::Complete { graph } => graph,
        SchedulerState::Failed { graph, .. } => graph,
    }
}

fn step(state: &SchedulerState, event: &SchedulerEvent) -> Step {
    SchedulerMachine.transition(state.clone(), event.clone())
}

fn started(effects: &[SchedulerEffect]) -> Vec<String> {
    effects
        .iter()
        .filter_map(|effect| match effect {
            SchedulerEffect::RunNode { node_id, .. } => Some(node_id.0.clone()),
            _ => None,
        })
        .collect()
}

fn accepted(name: &str) -> SchedulerEvent {
    SchedulerEvent::WorkAccepted {
        node_id: id(name),
        work: WorkOutput { summary: format!("did {name}") },
    }
}

fn integrated(name: &str) -> SchedulerEvent {
    SchedulerEvent::IntegrationSucceeded {
        node_id: id(name),
        output: IntegrationOutput { summary: format!("did {name}") },
        manifest_tasks: vec![],
    }
}

fn planned(name: &str, children: Vec<NodeRequest>) -> SchedulerEvent {
    SchedulerEvent::PlanAccepted { node_id: id(name), plan: PlanOutput { children, tasks: vec![] } }
}

fn child(name: &str, kind: NodeKind, deps: &[&str]) -> NodeRequest {
    NodeRequest {
        id: id(name),
        kind,
        team: String::new(),
        task_id: None,
        adapter: String::new(),
        northstar: String::new(),
        worker_role: None,
        objective: format!("do {name}"),
        target_files: vec![],
        required_validation_targets: vec![],
        dependencies: deps.iter().map(|d| id(d)).collect(),
        validation_plan: None,
    }
}

fn failed(name: &str, recovery: RecoveryAction) -> SchedulerEvent {
    SchedulerEvent::NodeFailed {
        node_id: id(name),
        failure: NodeFailure {
            kind: FailureKind::DeliberationFailure,
            message: "broke".to_string(),
            recovery,
        },
    }
}

fn retry() -> RecoveryAction {
    RecoveryAction::Retry { message: "again".to_string() }
}

fn elevate() -> RecoveryAction {
    RecoveryAction::ElevateModel { message: "higher".to_string() }
}

fn split() -> RecoveryAction {
    RecoveryAction::Split { message: "smaller".to_string() }
}

fn terminal() -> RecoveryAction {
    RecoveryAction::Terminal { message: "halt".to_string() }
}

/// One step of a run that was taken.
struct Taken {
    before: SchedulerState,
    event: SchedulerEvent,
    after: Step,
}

/// A run in which a plan adds three nodes, one of which is retried, one
/// elevated and one split, under a cap of two.
fn eventful_run() -> Vec<Taken> {
    let mut taken = vec![];
    let mut state = active(vec![plan("root", &[])], 2);
    let mut effects: Vec<SchedulerEffect> = vec![];
    let mut failures = vec![split(), elevate(), retry()];
    loop {
        let event = if let SchedulerState::Active { .. } = &state {
            if effects.is_empty() {
                SchedulerEvent::Start
            } else {
                answer(effects.remove(0), &mut failures)
            }
        } else if effects.is_empty() {
            return taken;
        } else {
            answer(effects.remove(0), &mut failures)
        };
        // A result for an active scheduler waits for the next tick.
        if matches!(state, SchedulerState::Active { .. }) && event != SchedulerEvent::Start {
            let tick = SchedulerEvent::Start;
            let after = step(&state, &tick);
            effects.extend(after.effects.clone());
            let next = after.state.clone();
            taken.push(Taken { before: state, event: tick, after });
            state = next;
        }
        let after = step(&state, &event);
        effects.extend(after.effects.clone());
        let next = after.state.clone();
        taken.push(Taken { before: state, event, after });
        state = next;
        if matches!(state, SchedulerState::Complete { .. } | SchedulerState::Failed { .. }) {
            return taken;
        }
    }
}

fn answer(effect: SchedulerEffect, failures: &mut Vec<RecoveryAction>) -> SchedulerEvent {
    match effect {
        SchedulerEffect::RunNode { node_id, kind: NodeKind::Plan, objective, .. } => {
            let children = if objective == "do root" {
                vec![
                    child("a", NodeKind::Work, &[]),
                    child("b", NodeKind::Work, &[]),
                    child("c", NodeKind::Work, &["a", "b"]),
                ]
            } else {
                vec![]
            };
            planned(&node_id.0, children)
        }
        SchedulerEffect::RunNode { node_id, .. } => match failures.pop() {
            Some(recovery) => failed(&node_id.0, recovery),
            None => accepted(&node_id.0),
        },
        SchedulerEffect::IntegrateWork { node_id, .. } => integrated(&node_id.0),
        SchedulerEffect::IntegratePlannerTasks { node_id, .. } => {
            SchedulerEvent::PlannerTasksIntegrated { node_id, manifest_tasks: vec![] }
        }
    }
}

#[test]
fn the_eventful_run_is_eventful() {
    let run = eventful_run();
    let end = &run.last().expect("steps were taken").after.state;
    assert!(matches!(end, SchedulerState::Complete { .. }), "got {end:#?}");
    let summary = RecoverySummary::from_graph(graph_of(end));
    assert_eq!(summary.retry_count, 1);
    assert_eq!(summary.elevate_count, 1);
    assert_eq!(summary.split_count, 1);
    assert_eq!(graph_of(end).nodes.len(), 7);
}

// ── the record ─────────────────────────────────────────────────────────────

#[test]
fn steps_extend_the_record() {
    for taken in eventful_run() {
        let before = &graph_of(&taken.before).nodes;
        let after = &graph_of(&taken.after.state).nodes;
        assert!(before.len() <= after.len());
        for (old, new) in before.iter().zip(after) {
            assert_eq!(old.id, new.id);
            assert_eq!(old.kind, new.kind);
            assert_eq!(old.objective, new.objective);
            assert_eq!(old.attempt, new.attempt);
            assert_eq!(old.origin, new.origin);
        }
        for new in &after[before.len()..] {
            assert_eq!(new.status, NodeStatus::Pending);
        }
    }
}

#[test]
fn finished_nodes_never_change() {
    for taken in eventful_run() {
        let after = &graph_of(&taken.after.state).nodes;
        for (old, new) in graph_of(&taken.before).nodes.iter().zip(after) {
            if matches!(
                old.status,
                NodeStatus::Completed | NodeStatus::Failed | NodeStatus::Cancelled
            ) {
                assert_eq!(old, new);
            }
        }
    }
}

#[test]
fn completion_needs_integration() {
    let running = waiting(vec![with_status("A", &[], NodeStatus::Running)], 1);
    let t = step(&running, &accepted("A"));
    assert_eq!(graph_of(&t.state).nodes[0].status, NodeStatus::Integrating);
    let t = step(&t.state, &integrated("A"));
    assert_eq!(graph_of(&t.state).nodes[0].status, NodeStatus::Completed);
    assert_eq!(graph_of(&t.state).nodes[0].summary.as_deref(), Some("did A"));
}

// ── dispatch ───────────────────────────────────────────────────────────────

#[test]
fn only_ready_nodes_run() {
    let nodes = vec![
        with_status("A", &[], NodeStatus::Completed),
        with_status("B", &[], NodeStatus::Failed),
        node("C", &["A"]),
        node("D", &["B"]),
        node("E", &["C"]),
    ];
    let t = step(&active(nodes, 5), &SchedulerEvent::Start);
    assert_eq!(started(&t.effects), vec!["C"]);
    let statuses: Vec<NodeStatus> = graph_of(&t.state).nodes.iter().map(|n| n.status).collect();
    assert_eq!(
        statuses,
        vec![
            NodeStatus::Completed,
            NodeStatus::Failed,
            NodeStatus::Running,
            NodeStatus::Pending,
            NodeStatus::Pending,
        ]
    );
}

#[test]
fn results_start_nothing() {
    let nodes = vec![with_status("A", &[], NodeStatus::Running), node("B", &[])];
    for event in [accepted("A"), failed("A", retry())] {
        let t = step(&waiting(nodes.clone(), 2), &event);
        assert!(graph_of(&t.state).nodes.iter().all(|n| n.status != NodeStatus::Running));
        assert!(started(&t.effects).is_empty());
    }
    for taken in eventful_run() {
        if taken.event != SchedulerEvent::Start {
            assert!(started(&taken.after.effects).is_empty());
        }
    }
}

#[test]
fn the_cap_is_kept_and_no_slot_is_left_idle() {
    for cap in 0..5 {
        let nodes = vec![node("A", &[]), node("B", &[]), node("C", &[])];
        let t = step(&active(nodes, cap), &SchedulerEvent::Start);
        let expected = cap.max(1).min(3);
        if cap > 0 {
            assert_eq!(started(&t.effects).len(), expected, "cap {cap}");
        }
        let running = graph_of(&t.state)
            .nodes
            .iter()
            .filter(|n| n.status == NodeStatus::Running)
            .count();
        assert!(running <= expected, "cap {cap}");
    }
    for taken in eventful_run() {
        let graph = graph_of(&taken.after.state);
        assert!(graph.active_nodes().len() <= 2);
    }
}

#[test]
fn the_newest_nodes_run_first() {
    let added = |name: &str| Node { origin: NodeOrigin::PlanExpansion, ..node(name, &[]) };
    let nodes = vec![node("R", &[]), added("A"), added("B")];
    let t = step(&active(nodes, 3), &SchedulerEvent::Start);
    assert_eq!(started(&t.effects), vec!["B", "A", "R"]);
}

// ── the end of a run ───────────────────────────────────────────────────────

#[test]
fn complete_runs_are_done() {
    let nodes = vec![
        with_status("A", &[], NodeStatus::Completed),
        with_status("B", &[], NodeStatus::Failed),
        with_status("C", &[], NodeStatus::Cancelled),
    ];
    let t = step(&active(nodes.clone(), 1), &SchedulerEvent::Start);
    assert!(matches!(t.state, SchedulerState::Complete { .. }));
    assert!(t.effects.is_empty());
    let mut untested = nodes;
    untested[0].required_validation_targets = vec!["a_test.txt".to_string()];
    let t = step(&active(untested, 1), &SchedulerEvent::Start);
    assert!(matches!(
        t.state,
        SchedulerState::Failed { reason: FailureReason::RequiredTestTargetsMissing(_), .. }
    ));
}

#[test]
fn ended_runs_stay_ended_and_events_out_of_turn_fail() {
    let nodes = vec![with_status("A", &[], NodeStatus::Running)];
    let complete = SchedulerState::Complete { graph: RunGraph { nodes: nodes.clone() } };
    for (state, event) in [
        (complete, SchedulerEvent::Start),
        (active(nodes.clone(), 1), accepted("A")),
        (waiting(nodes.clone(), 1), SchedulerEvent::Start),
    ] {
        let t = step(&state, &event);
        let SchedulerState::Failed { graph, reason } = t.state else {
            panic!("expected Failed");
        };
        assert_eq!(graph.nodes, nodes);
        assert!(matches!(reason, FailureReason::ProtocolViolation(_)));
        assert!(t.effects.is_empty());
    }
}

#[test]
fn effects_mean_waiting() {
    for taken in eventful_run() {
        if !taken.after.effects.is_empty() {
            assert!(matches!(taken.after.state, SchedulerState::Waiting { .. }));
        }
    }
}

#[test]
fn the_summary_reports_recovery() {
    let retried = Node { origin: NodeOrigin::Retry { source: id("A") }, ..node("B", &[]) };
    let clean = RecoverySummary::from_graph(&RunGraph { nodes: vec![node("A", &[])] });
    assert!(!clean.recovered);
    let graph = RunGraph { nodes: vec![node("A", &[]), retried] };
    let recovered = RecoverySummary::from_graph(&graph);
    assert!(recovered.recovered);
    assert_eq!(recovered.retry_count, 1);
    assert_eq!(recovered.elevate_count + recovered.split_count, 0);
    let output = SchedulerMachine.output(&SchedulerState::Complete { graph });
    let Some(SchedulerTerminalOutput::Complete { recovery_summary, .. }) = output else {
        panic!("a complete run has an output");
    };
    assert_eq!(recovery_summary, recovered);
}

#[test]
fn runs_end() {
    let left = |state: &SchedulerState| {
        let nodes = &graph_of(state).nodes;
        let steps: usize = nodes
            .iter()
            .map(|n| match n.status {
                NodeStatus::Pending => 3,
                NodeStatus::Running => 2,
                NodeStatus::Integrating => 1,
                _ => 0,
            })
            .sum();
        let tick = usize::from(matches!(state, SchedulerState::Active { .. }));
        2 * (steps + 4 * (100 - nodes.len())) + tick
    };
    for taken in eventful_run() {
        assert!(left(&taken.before) <= 801);
        if !matches!(taken.after.state, SchedulerState::Complete { .. }) {
            assert!(left(&taken.after.state) < left(&taken.before));
        }
    }
}

// ── recovery ───────────────────────────────────────────────────────────────

fn failing(attempt: u32) -> Vec<Node> {
    vec![
        Node { attempt, ..with_status("A", &[], NodeStatus::Running) },
        node("B", &["A"]),
        node("C", &["B"]),
        node("D", &[]),
    ]
}

#[test]
fn recovery_replaces_the_failed_node() {
    for recovery in [retry(), elevate(), split()] {
        let t = step(&waiting(failing(0), 1), &failed("A", recovery));
        let nodes = &graph_of(&t.state).nodes;
        assert_eq!(nodes.len(), 5);
        assert_eq!(nodes[0].status, NodeStatus::Failed);
        let fresh = &nodes[4];
        assert_eq!(fresh.status, NodeStatus::Pending);
        assert_ne!(fresh.id, nodes[0].id);
        assert_eq!(nodes[1].dependencies, vec![fresh.id.clone()]);
        assert_eq!(nodes[2], failing(0)[2]);
        assert_eq!(nodes[3], failing(0)[3]);
    }
}

#[test]
fn a_retry_keeps_work_and_tier() {
    let t = step(&waiting(failing(1), 1), &failed("A", retry()));
    let nodes = &graph_of(&t.state).nodes;
    assert_eq!(nodes[4].objective, "do A");
    assert_eq!(nodes[4].target_files, vec!["A.txt"]);
    assert_eq!(nodes[4].kind, NodeKind::Work);
    assert_eq!(nodes[4].model_tier, ModelTier::Cheap);
    assert_eq!(nodes[4].attempt, 2);
    assert_eq!(nodes[4].origin, NodeOrigin::Retry { source: id("A") });
}

#[test]
fn an_elevation_keeps_the_work() {
    let t = step(&waiting(failing(0), 1), &failed("A", elevate()));
    let nodes = &graph_of(&t.state).nodes;
    assert_eq!(nodes[4].objective, "do A");
    assert_eq!(nodes[4].model_tier, ModelTier::Strong);
    assert_eq!(nodes[4].attempt, 1);
    assert_eq!(nodes[4].origin, NodeOrigin::ElevateModel { source: id("A") });
    // Without a strong tier it is a retry.
    let state = SchedulerState::Waiting {
        graph: RunGraph { nodes: failing(0) },
        run_config: RunConfig { has_strong_tier: false, ..config(1) },
    };
    let t = step(&state, &failed("A", elevate()));
    let nodes = &graph_of(&t.state).nodes;
    assert_eq!(nodes[4].model_tier, ModelTier::Cheap);
    assert_eq!(nodes[4].origin, NodeOrigin::Retry { source: id("A") });
}

#[test]
fn a_split_plans_the_objective() {
    let t = step(&waiting(failing(0), 1), &failed("A", split()));
    let nodes = &graph_of(&t.state).nodes;
    assert_eq!(nodes[4].kind, NodeKind::Plan);
    assert_eq!(nodes[4].objective, "do A");
    assert_eq!(nodes[4].model_tier, ModelTier::Strong);
    assert_eq!(nodes[4].plan_depth, 1);
    assert_eq!(nodes[4].origin, NodeOrigin::Split { source: id("A") });
}

#[test]
fn a_terminal_failure_halts_the_run() {
    let t = step(&waiting(failing(0), 1), &failed("A", terminal()));
    let SchedulerState::Failed { graph, reason } = t.state else {
        panic!("expected Failed");
    };
    assert_eq!(reason.message(), "halt: broke");
    let statuses: Vec<NodeStatus> = graph.nodes.iter().map(|n| n.status).collect();
    assert_eq!(
        statuses,
        vec![
            NodeStatus::Failed,
            NodeStatus::Cancelled,
            NodeStatus::Cancelled,
            NodeStatus::Pending,
        ]
    );
}

#[test]
fn attempts_are_limited() {
    for (recovery, action) in [
        (retry(), ExhaustedAction::Retry),
        (split(), ExhaustedAction::Split),
        (elevate(), ExhaustedAction::ElevateModel),
    ] {
        let t = step(&waiting(failing(3), 1), &failed("A", recovery));
        let SchedulerState::Failed { graph, reason } = t.state else {
            panic!("expected Failed");
        };
        assert_eq!(graph.nodes.len(), 4);
        assert_eq!(
            reason,
            FailureReason::AttemptsExhausted {
                node_id: "A".to_string(),
                max_attempts: 3,
                recovery_action: action,
            }
        );
    }
    for taken in eventful_run() {
        assert!(graph_of(&taken.after.state).nodes.iter().all(|n| n.attempt <= 3));
    }
}

#[test]
fn a_node_without_a_higher_tier_exhausts_its_attempts() {
    let state = SchedulerState::Waiting {
        graph: RunGraph { nodes: failing(3) },
        run_config: RunConfig { has_strong_tier: false, ..config(1) },
    };
    let t = step(&state, &failed("A", elevate()));
    let SchedulerState::Failed { reason, .. } = t.state else {
        panic!("expected Failed");
    };
    assert_eq!(
        reason,
        FailureReason::NoHigherModelTierAvailable { node_id: "A".to_string(), max_attempts: 3 }
    );
}

#[test]
fn failed_integrations_recover_like_failed_nodes() {
    let nodes = vec![with_status("A", &[], NodeStatus::Integrating)];
    let event = SchedulerEvent::IntegrationFailed {
        node_id: id("A"),
        failure: IntegrationFailure {
            kind: FailureKind::ValidationFailure,
            message: "a.txt:1: bad".to_string(),
            recovery: RecoveryAction::Retry { message: "a.txt:1: bad".to_string() },
        },
    };
    let t = step(&waiting(nodes, 1), &event);
    let nodes = &graph_of(&t.state).nodes;
    assert_eq!(nodes[1].objective, "do A");
    let feedback = nodes[1].retry_feedback.as_ref().expect("the retry is told why");
    assert_eq!(feedback.diagnostics, "a.txt:1: bad");
}

// ── limits ─────────────────────────────────────────────────────────────────

#[test]
fn the_graph_stays_bounded() {
    let mut nodes: Vec<Node> = (0..99)
        .map(|i| with_status(&format!("n{i}"), &[], NodeStatus::Completed))
        .collect();
    nodes.push(Node { kind: NodeKind::Plan, ..with_status("P", &[], NodeStatus::Running) });
    let full = waiting(nodes.clone(), 1);
    let t = step(&full, &planned("P", vec![child("x", NodeKind::Work, &[])]));
    let SchedulerState::Failed { graph, reason } = t.state else {
        panic!("expected Failed");
    };
    assert_eq!(graph.nodes.len(), 100);
    assert_eq!(reason, FailureReason::GraphCapacityExceeded { limit: 100 });
    nodes.remove(0);
    let t = step(&waiting(nodes, 1), &planned("P", vec![child("x", NodeKind::Work, &[])]));
    assert_eq!(graph_of(&t.state).nodes.len(), 100);
}

#[test]
fn plans_stay_shallow() {
    let deep = |plan_depth: usize| {
        vec![Node {
            kind: NodeKind::Plan,
            plan_depth,
            ..with_status("P", &[], NodeStatus::Running)
        }]
    };
    let deeper = planned("P", vec![child("x", NodeKind::Plan, &[])]);
    let t = step(&waiting(deep(9), 1), &deeper);
    assert_eq!(graph_of(&t.state).nodes[1].plan_depth, 10);
    let t = step(&waiting(deep(10), 1), &deeper);
    let SchedulerState::Failed { graph, reason } = t.state else {
        panic!("expected Failed");
    };
    assert_eq!(graph.nodes.len(), 1);
    assert_eq!(reason, FailureReason::PlanDepthExceeded { limit: 10 });
    let t = step(&waiting(deep(10), 1), &planned("P", vec![child("x", NodeKind::Work, &[])]));
    assert_eq!(graph_of(&t.state).nodes[1].plan_depth, 10);
}

// ── soundness ──────────────────────────────────────────────────────────────

#[test]
fn soundness_is_kept() {
    for taken in eventful_run() {
        assert_eq!(graph_of(&taken.before).validate_graph_invariants(), Ok(()));
        assert_eq!(graph_of(&taken.after.state).validate_graph_invariants(), Ok(()));
    }
}

#[test]
fn validation_accepts_sound_graphs_whatever_their_ids() {
    let sound = |first: &str, second: &str| RunGraph {
        nodes: vec![
            node(first, &[]),
            Node { origin: NodeOrigin::Retry { source: id(first) }, ..node(second, &[first]) },
        ],
    };
    for (first, second) in [("A", "B"), ("", "\u{1f600}"), ("same prefix 1", "same prefix 2")] {
        assert_eq!(sound(first, second).validate_graph_invariants(), Ok(()));
    }
    assert!(sound("A", "A").validate_graph_invariants().is_err());
    let dangling = RunGraph { nodes: vec![node("A", &["B"])] };
    assert!(dangling.validate_graph_invariants().is_err());
    let orphan = Node { origin: NodeOrigin::Split { source: id("B") }, ..node("A", &[]) };
    assert!(RunGraph { nodes: vec![orphan] }.validate_graph_invariants().is_err());
}

#[test]
fn unsound_graphs_and_deadlocks_fail_the_run() {
    let t = step(&active(vec![node("A", &[]), node("A", &[])], 1), &SchedulerEvent::Start);
    assert!(matches!(
        t.state,
        SchedulerState::Failed { reason: FailureReason::GraphInvariantViolation(_), .. }
    ));
    let t = step(&active(vec![node("A", &["B"]), node("B", &["A"])], 1), &SchedulerEvent::Start);
    assert!(matches!(
        t.state,
        SchedulerState::Failed { reason: FailureReason::Deadlock(_), .. }
    ));
}

// ── triggers ───────────────────────────────────────────────────────────────

fn teams() -> RunConfig {
    let team = |name: &str, kind: NodeKind, trigger: Trigger| TeamConfig {
        name: name.to_string(),
        northstar: String::new(),
        adapter: String::new(),
        kind,
        trigger,
        language_plugins: vec![],
        language: String::new(),
        derives_target: false,
        worker_role: None,
    };
    let worker = Trigger::AfterTeams(vec!["planner".to_string()]);
    RunConfig {
        teams: vec![
            team("planner", NodeKind::Plan, Trigger::Start),
            team("worker", NodeKind::Work, worker),
        ],
        terminal_teams: vec!["worker".to_string()],
        ..config(1)
    }
}

fn row(task: &str, team: &str, depends_on: &[&str]) -> TaskRecord {
    TaskRecord {
        id: task.to_string(),
        objective: format!("do {task}"),
        commit: String::new(),
        completed_at: String::new(),
        team: Some(team.to_string()),
        task_kv: vec![TaskField { key: "file_path".to_string(), value: format!("{task}.txt") }],
        depends_on: depends_on.iter().map(|d| d.to_string()).collect(),
    }
}

#[test]
fn triggered_tasks_are_due_and_triggers_fire_once() {
    let root = Node { team: "planner".to_string(), ..plan("root", &[]) };
    let root = Node { status: NodeStatus::Completed, ..root };
    let graph = RunGraph { nodes: vec![root] };
    let manifest = vec![row("t1", "planner", &[]), row("t2", "planner", &["t1"])];
    let requests = plan_team_spawns(&graph, &teams(), &manifest).expect("targets are given");
    let due: Vec<Option<String>> = requests.iter().map(|r| r.task_id.clone()).collect();
    assert_eq!(due, vec![Some("t1".to_string())]);

    let graph = apply_team_triggers(graph, &id("root"), &teams(), &manifest).expect("spawned");
    assert_eq!(graph.nodes.len(), 2);
    assert_eq!(graph.nodes[1].team, "worker");
    assert!(plan_team_spawns(&graph, &teams(), &manifest).expect("nothing new").is_empty());

    let mut graph = graph;
    graph.nodes[1].status = NodeStatus::Completed;
    let mut manifest = manifest;
    manifest.push(row("t1", "worker", &[]));
    let requests = plan_team_spawns(&graph, &teams(), &manifest).expect("targets are given");
    assert_eq!(requests.len(), 1);
    assert_eq!(requests[0].task_id.as_deref(), Some("t2"));
}

#[test]
fn tasks_without_a_target_fail_the_run() {
    let mut config = teams();
    config.teams[1].derives_target = true;
    let nodes = vec![Node {
        team: "planner".to_string(),
        ..Node { kind: NodeKind::Plan, ..with_status("P", &[], NodeStatus::Integrating) }
    }];
    let state = SchedulerState::Waiting { graph: RunGraph { nodes }, run_config: config };
    let event = SchedulerEvent::PlannerTasksIntegrated {
        node_id: id("P"),
        manifest_tasks: vec![row("t1", "planner", &[])],
    };
    let t = step(&state, &event);
    assert!(matches!(
        t.state,
        SchedulerState::Failed { reason: FailureReason::TargetDerivationFailed(_), .. }
    ));
}

#[test]
fn minted_ids_are_random_identifiers() {
    let t = step(&waiting(failing(0), 1), &failed("A", retry()));
    let u = step(&waiting(failing(0), 1), &failed("A", retry()));
    let fresh = &graph_of(&t.state).nodes[4].id.0;
    assert_eq!(fresh.len(), 36);
    for (i, c) in fresh.chars().enumerate() {
        match i {
            8 | 13 | 18 | 23 => assert_eq!(c, '-'),
            14 => assert_eq!(c, '4'),
            19 => assert!("89ab".contains(c)),
            _ => assert!("0123456789abcdef".contains(c)),
        }
    }
    assert_ne!(fresh, &graph_of(&u.state).nodes[4].id.0);
}

// ── driving ────────────────────────────────────────────────────────────────

#[test]
fn waiting_is_never_in_vain() {
    let handler = SchedulerHandler::new(StaticNodeRunner);
    let mut failures = vec![split(), elevate(), retry()];
    let mut driver = Driver::new(active(vec![plan("root", &[])], 2));
    let mut under_way: Vec<SchedulerEffect> = vec![];
    let mut event = SchedulerMachine.start_event();
    loop {
        driver = driver.deliver(&handler, event).driver;
        event = loop {
            let (action, rest) = driver.next();
            driver = rest;
            match action {
                DriverAction::Finish(output) => {
                    assert!(matches!(output, SchedulerTerminalOutput::Complete { .. }));
                    assert!(under_way.is_empty());
                    return;
                }
                DriverAction::Tick => break SchedulerMachine.start_event(),
                DriverAction::Await => {
                    assert!(!under_way.is_empty(), "nothing is under way");
                    break answer(under_way.remove(0), &mut failures);
                }
                DriverAction::Perform(effect) => match effect {
                    SchedulerEffect::RunNode { .. } => under_way.push(effect),
                    _ => break answer(effect, &mut failures),
                },
            }
        };
    }
}

// ── names ──────────────────────────────────────────────────────────────────

fn renamed_nodes(nodes: &[Node], name: &dyn Fn(&NodeId) -> NodeId) -> Vec<Node> {
    nodes
        .iter()
        .map(|n| Node {
            id: name(&n.id),
            dependencies: n.dependencies.iter().map(name).collect(),
            origin: match &n.origin {
                NodeOrigin::Retry { source } => NodeOrigin::Retry { source: name(source) },
                NodeOrigin::ElevateModel { source } => {
                    NodeOrigin::ElevateModel { source: name(source) }
                }
                NodeOrigin::Split { source } => NodeOrigin::Split { source: name(source) },
                other => other.clone(),
            },
            ..n.clone()
        })
        .collect()
}

fn renamed_state(state: &SchedulerState, name: &dyn Fn(&NodeId) -> NodeId) -> SchedulerState {
    let graph = RunGraph { nodes: renamed_nodes(&graph_of(state).nodes, name) };
    match state.clone() {
        SchedulerState::Active { run_config, .. } => SchedulerState::Active { graph, run_config },
        SchedulerState::Waiting { run_config, .. } => SchedulerState::Waiting { graph, run_config },
        SchedulerState::Complete { .. } => SchedulerState::Complete { graph },
        SchedulerState::Failed { reason, .. } => SchedulerState::Failed { graph, reason },
    }
}

fn renamed_event(event: &SchedulerEvent, name: &dyn Fn(&NodeId) -> NodeId) -> SchedulerEvent {
    let mut event = event.clone();
    match &mut event {
        SchedulerEvent::Start => {}
        SchedulerEvent::PlanAccepted { node_id, plan } => {
            *node_id = name(node_id);
            for child in &mut plan.children {
                child.id = name(&child.id);
                child.dependencies = child.dependencies.iter().map(name).collect();
            }
        }
        SchedulerEvent::WorkAccepted { node_id, .. }
        | SchedulerEvent::NodeFailed { node_id, .. }
        | SchedulerEvent::IntegrationSucceeded { node_id, .. }
        | SchedulerEvent::IntegrationFailed { node_id, .. }
        | SchedulerEvent::PlannerTasksIntegrated { node_id, .. }
        | SchedulerEvent::PlannerTasksIntegrationFailed { node_id, .. } => *node_id = name(node_id),
    }
    event
}

#[test]
fn steps_agree_up_to_new_ids() {
    let planning = vec![
        Node { status: NodeStatus::Running, ..plan("P", &[]) },
        node("D", &["P"]),
    ];
    let children = vec![
        child("a", NodeKind::Work, &["D"]),
        child("b", NodeKind::Work, &["a", "D"]),
    ];
    let cases = vec![
        (waiting(planning, 1), planned("P", children)),
        (waiting(failing(0), 1), failed("A", retry())),
        (waiting(failing(0), 1), failed("A", split())),
    ];
    let name = |old: &NodeId| match old.0.as_str() {
        "x1" => id("y1"),
        "x2" => id("y2"),
        other => id(other),
    };
    for (state, event) in cases {
        let first = SchedulerMachine.transition_with_ids(
            state.clone(),
            event.clone(),
            vec![id("x1"), id("x2")],
        );
        let second = SchedulerMachine.transition_with_ids(state, event, vec![id("y1"), id("y2")]);
        assert_ne!(first, second);
        assert_eq!(renamed_state(&first.state, &name), second.state);
        assert_eq!(first.effects, second.effects);
    }
}

#[test]
fn ids_are_only_names() {
    let name = |old: &NodeId| NodeId(format!("n-{}", old.0));
    let fresh: Vec<NodeId> = (0..4).map(|i| NodeId(format!("new-{i}"))).collect();
    for taken in eventful_run() {
        let first = SchedulerMachine.transition_with_ids(
            taken.before.clone(),
            taken.event.clone(),
            fresh.clone(),
        );
        let second = SchedulerMachine.transition_with_ids(
            renamed_state(&taken.before, &name),
            renamed_event(&taken.event, &name),
            fresh.iter().map(name).collect(),
        );
        assert_eq!(renamed_state(&first.state, &name), second.state);
        let expected: Vec<String> =
            started(&first.effects).iter().map(|s| format!("n-{s}")).collect();
        assert_eq!(expected, started(&second.effects));
        assert_eq!(first.effects.len(), second.effects.len());
    }
}

#[test]
fn the_policy_stays() {
    for taken in eventful_run() {
        match taken.after.state {
            SchedulerState::Active { run_config, .. }
            | SchedulerState::Waiting { run_config, .. } => assert_eq!(run_config, config(2)),
            _ => {}
        }
    }
}

#[test]
fn triggers_apply_once_and_need_an_anchor_only_to_add() {
    let root = Node { team: "planner".to_string(), ..plan("root", &[]) };
    let graph = RunGraph { nodes: vec![Node { status: NodeStatus::Completed, ..root }] };
    let manifest = vec![row("t1", "planner", &[])];
    let once = apply_team_triggers(graph, &id("root"), &teams(), &manifest).expect("spawned");
    assert_eq!(once.nodes.len(), 2);
    let twice = apply_team_triggers(once.clone(), &id("root"), &teams(), &manifest);
    assert_eq!(twice.expect("nothing new"), once);
    let mut running = once.clone();
    running.nodes[1].status = NodeStatus::Running;
    assert!(plan_team_spawns(&running, &teams(), &manifest).expect("in flight").is_empty());
    running.nodes[1].status = NodeStatus::Failed;
    assert_eq!(plan_team_spawns(&running, &teams(), &manifest).expect("failed").len(), 1);
    let elsewhere = apply_team_triggers(once.clone(), &id("unknown"), &teams(), &manifest);
    assert_eq!(elsewhere.expect("nothing new"), once);
}
