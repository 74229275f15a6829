//! Recovery from failures.

use forge_scheduler::dispatch::render_objective;
use forge_scheduler::effect::SchedulerEffect;
use forge_scheduler::event::SchedulerEvent;
use forge_scheduler::failure::FailureKind;
use forge_scheduler::graph::{ModelTier, Node, NodeId, NodeKind, NodeOrigin, NodeStatus, RunGraph};
use forge_scheduler::machine::SchedulerMachine;
use forge_scheduler::queries::MAX_ATTEMPTS;
use forge_scheduler::state::{SchedulerState, Transition};
use forge_scheduler::teams::RunConfig;
use forge_scheduler::types::{IntegrationFailure, NodeFailure, RecoveryAction};

fn work_node(id: &str, objective: &str, deps: &[&str]) -> Node {
    Node {
        id: NodeId(id.to_string()),
        kind: NodeKind::Work,
        team: String::new(),
        task_id: None,
        adapter: String::new(),
        northstar: String::new(),
        worker_role: None,
        objective: objective.to_string(),
        target_files: vec![],
        required_validation_targets: vec![],
        dependencies: deps.iter().map(|d| NodeId(d.to_string())).collect(),
        status: NodeStatus::Pending,
        attempt: 0,
        plan_depth: 0,
        model_tier: ModelTier::Cheap,
        summary: None,
        origin: NodeOrigin::Root,
        validation_plan: None,
        retry_feedback: None,
    }
}

fn running(mut graph: RunGraph, id: &str) -> RunGraph {
    for n in &mut graph.nodes {
        if n.id.0 == id {
            n.status = NodeStatus::Running;
        }
    }
    graph
}

fn do_transition(
    state: SchedulerState,
    event: SchedulerEvent,
) -> Transition<SchedulerState, SchedulerEffect> {
    SchedulerMachine.transition(state, event)
}

#[test]
fn retry_creates_replacement_node() {
    let graph = RunGraph {
        nodes: vec![work_node("W", "do retry", &[])],
    };
    let t = do_transition(
        SchedulerState::Waiting {
            graph: running(graph, "W"),
            run_config: RunConfig::default(),
        },
        SchedulerEvent::NodeFailed {
            node_id: NodeId("W".to_string()),
            failure: NodeFailure {
                kind: FailureKind::DeliberationFailure,
                message: "first try failed".to_string(),
                recovery: RecoveryAction::Retry {
                    message: "try again".to_string(),
                },
            },
        },
    );

    let SchedulerState::Active { graph, .. } = t.state else {
        panic!("expected Active")
    };
    assert_eq!(graph.nodes[0].status, NodeStatus::Failed);
    assert_eq!(graph.nodes.len(), 2);
    let replacement = &graph.nodes[1];
    assert_eq!(replacement.status, NodeStatus::Pending);
    assert_eq!(replacement.attempt, 1);
    assert_eq!(replacement.model_tier, ModelTier::Cheap);
    assert_eq!(replacement.objective, "do retry");
}

#[test]
fn validation_failure_creates_retry_feedback() {
    let mut graph = RunGraph {
        nodes: vec![work_node("W", "fix main", &[])],
    };
    graph.nodes[0].target_files = vec!["main.py".to_string()];
    graph.nodes[0].status = NodeStatus::Integrating;

    let t = do_transition(
        SchedulerState::Waiting {
            graph,
            run_config: RunConfig::default(),
        },
        SchedulerEvent::IntegrationFailed {
            node_id: NodeId("W".to_string()),
            failure: IntegrationFailure {
                kind: FailureKind::ValidationFailure,
                message: "validation failed".to_string(),
                recovery: RecoveryAction::Retry {
                    message: "previous validation command: validate main.py\nexit code: 2\nstdout:\nchecking\nstderr:\ninvalid syntax".to_string(),
                },
            },
        },
    );

    let SchedulerState::Active { graph, .. } = t.state else {
        panic!("expected Active, got {:#?}", t.state);
    };
    assert_eq!(graph.nodes[0].status, NodeStatus::Failed);
    let retry = &graph.nodes[1];
    assert_eq!(retry.status, NodeStatus::Pending);
    assert_eq!(retry.attempt, 1);
    assert_eq!(retry.target_files, vec!["main.py"]);
    assert_eq!(retry.objective, "fix main");
    let told = render_objective(&retry.objective, &retry.target_files, &retry.retry_feedback);
    assert!(told.contains("fix main"));
    assert!(told.contains("Target files: main.py"));
    assert!(told.contains("previous validation command: validate main.py"));
    assert!(told.contains("invalid syntax"));
}

#[test]
fn retry_preserves_depth() {
    let mut graph = RunGraph {
        nodes: vec![work_node("W", "do retry", &[])],
    };
    graph.nodes[0].plan_depth = 7;

    let t = do_transition(
        SchedulerState::Waiting {
            graph: running(graph, "W"),
            run_config: RunConfig::default(),
        },
        SchedulerEvent::NodeFailed {
            node_id: NodeId("W".to_string()),
            failure: NodeFailure {
                kind: FailureKind::DeliberationFailure,
                message: "first try failed".to_string(),
                recovery: RecoveryAction::Retry {
                    message: "try again".to_string(),
                },
            },
        },
    );

    let SchedulerState::Active { graph, .. } = t.state else {
        panic!("expected Active, got {:#?}", t.state);
    };
    assert_eq!(graph.nodes[0].status, NodeStatus::Failed);
    assert_eq!(graph.nodes.len(), 2);
    assert_eq!(graph.nodes[1].plan_depth, 7);
}

#[test]
fn elevate_creates_replacement_node_with_strong_tier() {
    let graph = RunGraph {
        nodes: vec![work_node("W", "do elevate", &[])],
    };
    let t = do_transition(
        SchedulerState::Waiting {
            graph: running(graph, "W"),
            run_config: RunConfig::default(),
        },
        SchedulerEvent::NodeFailed {
            node_id: NodeId("W".to_string()),
            failure: NodeFailure {
                kind: FailureKind::DeliberationFailure,
                message: "needs stronger model".to_string(),
                recovery: RecoveryAction::ElevateModel {
                    message: "use strong".to_string(),
                },
            },
        },
    );

    let SchedulerState::Active { graph, .. } = t.state else {
        panic!("expected Active")
    };
    assert_eq!(graph.nodes[0].status, NodeStatus::Failed);
    assert_eq!(graph.nodes.len(), 2);
    let replacement = &graph.nodes[1];
    assert_eq!(replacement.status, NodeStatus::Pending);
    assert_eq!(replacement.attempt, 1);
    assert_eq!(replacement.model_tier, ModelTier::Strong);
    assert_eq!(replacement.objective, "do elevate");
}

#[test]
fn elevate_preserves_depth() {
    let mut graph = RunGraph {
        nodes: vec![work_node("W", "do elevate", &[])],
    };
    graph.nodes[0].plan_depth = 7;

    let t = do_transition(
        SchedulerState::Waiting {
            graph: running(graph, "W"),
            run_config: RunConfig::default(),
        },
        SchedulerEvent::NodeFailed {
            node_id: NodeId("W".to_string()),
            failure: NodeFailure {
                kind: FailureKind::DeliberationFailure,
                message: "needs stronger model".to_string(),
                recovery: RecoveryAction::ElevateModel {
                    message: "use strong".to_string(),
                },
            },
        },
    );

    let SchedulerState::Active { graph, .. } = t.state else {
        panic!("expected Active, got {:#?}", t.state);
    };
    assert_eq!(graph.nodes[0].status, NodeStatus::Failed);
    assert_eq!(graph.nodes.len(), 2);
    assert_eq!(graph.nodes[1].plan_depth, 7);
}

#[test]
fn recovery_exhaustion_fails_scheduler() {
    for (case, recovery) in [
        (
            "Retry",
            RecoveryAction::Retry {
                message: "try again".to_string(),
            },
        ),
        (
            "ElevateModel",
            RecoveryAction::ElevateModel {
                message: "escalate model".to_string(),
            },
        ),
        (
            "Split",
            RecoveryAction::Split {
                message: "decompose the work".to_string(),
            },
        ),
    ] {
        let mut node = work_node("W", "failing task", &[]);
        node.attempt = MAX_ATTEMPTS;
        let graph = RunGraph {
            nodes: vec![node],
        };

        let t = do_transition(
            SchedulerState::Waiting {
                graph: running(graph, "W"),
                run_config: RunConfig::default(),
            },
            SchedulerEvent::NodeFailed {
                node_id: NodeId("W".to_string()),
                failure: NodeFailure {
                    kind: FailureKind::DeliberationFailure,
                    message: "transient error".to_string(),
                    recovery,
                },
            },
        );

        let SchedulerState::Failed { graph, reason } = t.state else {
            panic!("[{case}] expected Failed, got {:#?}", t.state);
        };
        assert_eq!(
            graph.nodes.len(),
            1,
            "[{case}] no replacement node should be created"
        );
        assert_eq!(graph.nodes[0].status, NodeStatus::Failed, "[{case}]");
        assert!(
            reason.message().contains("exhausted"),
            "[{case}] reason should mention exhaustion, got: {reason:?}"
        );
        assert!(t.effects.is_empty(), "[{case}]");
    }
}

#[test]
fn terminal_failure_cancels_downstream_chain() {
    let mut graph = RunGraph {
        nodes: vec![
            work_node("A", "step A", &[]),
            work_node("B", "step B", &["A"]),
            work_node("C", "step C", &["B"]),
            work_node("D", "step D", &["C"]),
        ],
    };
    graph.nodes[0].status = NodeStatus::Completed;

    let t = do_transition(
        SchedulerState::Waiting {
            graph: running(graph, "B"),
            run_config: RunConfig::default(),
        },
        SchedulerEvent::NodeFailed {
            node_id: NodeId("B".to_string()),
            failure: NodeFailure {
                kind: FailureKind::DeliberationFailure,
                message: "unrecoverable".to_string(),
                recovery: RecoveryAction::Terminal {
                    message: "fatal error".to_string(),
                },
            },
        },
    );

    let SchedulerState::Failed { graph, .. } = t.state else {
        panic!("expected Failed, got {:#?}", t.state);
    };

    let status = |id: &str| {
        graph
            .nodes
            .iter()
            .find(|n| n.id.0 == id)
            .unwrap_or_else(|| panic!("node {id} not found"))
            .status
            .clone()
    };

    assert_eq!(status("A"), NodeStatus::Completed);
    assert_eq!(status("B"), NodeStatus::Failed);
    assert_eq!(status("C"), NodeStatus::Cancelled);
    assert_eq!(status("D"), NodeStatus::Cancelled);
}

#[test]
fn split_below_attempt_limit_still_creates_plan_node() {
    let mut graph = RunGraph {
        nodes: vec![
            work_node("A", "step A", &[]),
            work_node("W", "complex task", &["A"]),
            work_node("C", "step C", &["W"]),
        ],
    };
    graph.nodes[0].status = NodeStatus::Completed;

    let t = do_transition(
        SchedulerState::Waiting {
            graph: running(graph, "W"),
            run_config: RunConfig::default(),
        },
        SchedulerEvent::NodeFailed {
            node_id: NodeId("W".to_string()),
            failure: NodeFailure {
                kind: FailureKind::DeliberationFailure,
                message: "task too complex".to_string(),
                recovery: RecoveryAction::Split {
                    message: "decompose the work".to_string(),
                },
            },
        },
    );

    let SchedulerState::Active { graph, .. } = t.state else {
        panic!("expected Active, got {:#?}", t.state);
    };

    let w = graph.nodes.iter().find(|n| n.id.0 == "W").expect("W");
    assert_eq!(w.status, NodeStatus::Failed);

    let split = graph
        .nodes
        .iter()
        .find(|n| matches!(&n.origin, NodeOrigin::Split { source } if source.0 == "W"))
        .expect("split Plan node");
    assert_eq!(split.kind, NodeKind::Plan);
    assert_eq!(split.status, NodeStatus::Pending);
    assert_eq!(split.attempt, 1, "split Plan node must carry attempt + 1");
    assert_eq!(split.model_tier, ModelTier::Strong);

    let c = graph.nodes.iter().find(|n| n.id.0 == "C").expect("C");
    assert!(
        !c.dependencies.contains(&NodeId("W".to_string())),
        "C must not depend on failed W"
    );
    assert!(
        c.dependencies.contains(&split.id),
        "C must depend on the split Plan node"
    );
}

#[test]
fn integration_failure_terminal_cancels_downstream_dependents() {
    let mut graph = RunGraph {
        nodes: vec![
            work_node("A", "step A", &[]),
            work_node("B", "step B", &["A"]),
            work_node("C", "step C", &["B"]),
            work_node("D", "step D", &["C"]),
        ],
    };
    graph.nodes[0].status = NodeStatus::Completed;
    graph.nodes[1].status = NodeStatus::Integrating;

    let t = do_transition(
        SchedulerState::Waiting {
            graph,
            run_config: RunConfig::default(),
        },
        SchedulerEvent::IntegrationFailed {
            node_id: NodeId("B".to_string()),
            failure: IntegrationFailure {
                kind: FailureKind::IntegrationFailure,
                message: "integration error".to_string(),
                recovery: RecoveryAction::Terminal {
                    message: "integration cannot be recovered".to_string(),
                },
            },
        },
    );

    let SchedulerState::Failed { graph, .. } = t.state else {
        panic!("expected Failed, got {:#?}", t.state);
    };

    let status = |id: &str| {
        graph
            .nodes
            .iter()
            .find(|n| n.id.0 == id)
            .unwrap_or_else(|| panic!("node {id} not found"))
            .status
            .clone()
    };

    assert_eq!(status("B"), NodeStatus::Failed);
    assert_eq!(status("C"), NodeStatus::Cancelled);
    assert_eq!(status("D"), NodeStatus::Cancelled);
    assert!(t.effects.is_empty());
}

#[test]
fn integration_failure_exhaustion_fails_scheduler() {
    for (case, recovery) in [
        (
            "Retry",
            RecoveryAction::Retry {
                message: "retry integration".to_string(),
            },
        ),
        (
            "ElevateModel",
            RecoveryAction::ElevateModel {
                message: "use stronger model".to_string(),
            },
        ),
        (
            "Split",
            RecoveryAction::Split {
                message: "decompose step B".to_string(),
            },
        ),
    ] {
        let mut node = work_node("B", "step B", &[]);
        node.status = NodeStatus::Integrating;
        node.attempt = MAX_ATTEMPTS;
        let graph = RunGraph {
            nodes: vec![node],
        };

        let t = do_transition(
            SchedulerState::Waiting {
                graph,
                run_config: RunConfig::default(),
            },
            SchedulerEvent::IntegrationFailed {
                node_id: NodeId("B".to_string()),
                failure: IntegrationFailure {
                    kind: FailureKind::IntegrationFailure,
                    message: "integration error".to_string(),
                    recovery,
                },
            },
        );

        let SchedulerState::Failed { graph, reason } = t.state else {
            panic!("[{case}] expected Failed, got {:#?}", t.state);
        };
        assert_eq!(
            graph.nodes.len(),
            1,
            "[{case}] no replacement should be created"
        );
        assert_eq!(graph.nodes[0].status, NodeStatus::Failed, "[{case}]");
        assert!(
            reason.message().contains("exhausted"),
            "[{case}] reason should mention exhaustion, got: {reason:?}"
        );
        assert!(t.effects.is_empty(), "[{case}]");
    }
}

#[test]
fn single_tier_elevate_falls_back_to_retry() {
    let graph = RunGraph {
        nodes: vec![work_node("W", "do elevate", &[])],
    };
    let t = do_transition(
        SchedulerState::Waiting {
            graph: running(graph, "W"),
            run_config: RunConfig {
                has_strong_tier: false,
                ..RunConfig::default()
            },
        },
        SchedulerEvent::NodeFailed {
            node_id: NodeId("W".to_string()),
            failure: NodeFailure {
                kind: FailureKind::DeliberationFailure,
                message: "needs stronger model".to_string(),
                recovery: RecoveryAction::ElevateModel {
                    message: "use strong".to_string(),
                },
            },
        },
    );

    let SchedulerState::Active { graph, .. } = t.state else {
        panic!("expected Active, got {:#?}", t.state);
    };
    assert_eq!(graph.nodes.len(), 2, "must create a replacement node");
    assert_eq!(graph.nodes[0].status, NodeStatus::Failed);
    let replacement = &graph.nodes[1];
    assert!(
        matches!(replacement.origin, NodeOrigin::Retry { .. }),
        "single-tier ElevateModel must fall back to Retry, got origin: {:?}",
        replacement.origin
    );
    assert_eq!(
        replacement.model_tier,
        ModelTier::Cheap,
        "fallback Retry must preserve the original Cheap tier"
    );
    assert!(t.effects.is_empty());
}

#[test]
fn multi_tier_elevate_creates_strong_replacement() {
    let graph = RunGraph {
        nodes: vec![work_node("W", "do elevate", &[])],
    };
    let t = do_transition(
        SchedulerState::Waiting {
            graph: running(graph, "W"),
            run_config: RunConfig {
                has_strong_tier: true,
                ..RunConfig::default()
            },
        },
        SchedulerEvent::NodeFailed {
            node_id: NodeId("W".to_string()),
            failure: NodeFailure {
                kind: FailureKind::DeliberationFailure,
                message: "needs stronger model".to_string(),
                recovery: RecoveryAction::ElevateModel {
                    message: "use strong".to_string(),
                },
            },
        },
    );

    let SchedulerState::Active { graph, .. } = t.state else {
        panic!("expected Active, got {:#?}", t.state);
    };
    assert_eq!(graph.nodes[0].status, NodeStatus::Failed);
    assert_eq!(graph.nodes.len(), 2);
    let replacement = &graph.nodes[1];
    assert_eq!(replacement.model_tier, ModelTier::Strong);
    assert!(
        matches!(replacement.origin, NodeOrigin::ElevateModel { .. }),
        "multi-tier must produce ElevateModel replacement"
    );
}

#[test]
fn single_tier_elevate_exhausted_gives_clear_terminal_failure() {
    let mut node = work_node("W", "hard task", &[]);
    node.attempt = MAX_ATTEMPTS;
    let graph = RunGraph {
        nodes: vec![node],
    };
    let t = do_transition(
        SchedulerState::Waiting {
            graph: running(graph, "W"),
            run_config: RunConfig {
                has_strong_tier: false,
                ..RunConfig::default()
            },
        },
        SchedulerEvent::NodeFailed {
            node_id: NodeId("W".to_string()),
            failure: NodeFailure {
                kind: FailureKind::DeliberationFailure,
                message: "capability ceiling".to_string(),
                recovery: RecoveryAction::ElevateModel {
                    message: "escalate model".to_string(),
                },
            },
        },
    );

    let SchedulerState::Failed { graph, reason } = t.state else {
        panic!("expected Failed, got {:#?}", t.state);
    };
    assert_eq!(graph.nodes.len(), 1, "no replacement should be created");
    assert_eq!(graph.nodes[0].status, NodeStatus::Failed);
    assert!(
        reason.message().contains("no higher model tier available"),
        "reason must mention no higher model tier, got: {reason:?}"
    );
    assert!(
        reason.message().contains("exhausted") || reason.message().contains(&MAX_ATTEMPTS.to_string()),
        "reason must mention attempt exhaustion, got: {reason:?}"
    );
    assert!(t.effects.is_empty());
}

#[test]
fn elevate_at_strong_tier_falls_back_to_retry() {
    let mut node = work_node("W", "hard task at strong", &[]);
    node.model_tier = ModelTier::Strong;
    let graph = RunGraph {
        nodes: vec![node],
    };
    let t = do_transition(
        SchedulerState::Waiting {
            graph: running(graph, "W"),
            run_config: RunConfig {
                has_strong_tier: true,
                ..RunConfig::default()
            },
        },
        SchedulerEvent::NodeFailed {
            node_id: NodeId("W".to_string()),
            failure: NodeFailure {
                kind: FailureKind::DeliberationFailure,
                message: "still failing at strong tier".to_string(),
                recovery: RecoveryAction::ElevateModel {
                    message: "use even stronger".to_string(),
                },
            },
        },
    );

    let SchedulerState::Active { graph, .. } = t.state else {
        panic!("expected Active, got {:#?}", t.state);
    };
    assert_eq!(graph.nodes.len(), 2, "must create a Retry replacement");
    assert_eq!(graph.nodes[0].status, NodeStatus::Failed);
    let replacement = &graph.nodes[1];
    assert!(
        matches!(replacement.origin, NodeOrigin::Retry { .. }),
        "Strong-tier node with ElevateModel must fall back to Retry"
    );
}

#[test]
fn terminal_failure_does_not_touch_completed_nodes() {
    let mut graph = RunGraph {
        nodes: vec![
            work_node("A", "step A", &[]),
            work_node("B", "step B", &["A"]),
            work_node("C", "step C", &["B"]),
        ],
    };
    graph.nodes[0].status = NodeStatus::Completed;

    let t = do_transition(
        SchedulerState::Waiting {
            graph: running(graph, "B"),
            run_config: RunConfig::default(),
        },
        SchedulerEvent::NodeFailed {
            node_id: NodeId("B".to_string()),
            failure: NodeFailure {
                kind: FailureKind::DeliberationFailure,
                message: "unrecoverable".to_string(),
                recovery: RecoveryAction::Terminal {
                    message: "fatal error".to_string(),
                },
            },
        },
    );

    let SchedulerState::Failed { graph, .. } = t.state else {
        panic!("expected Failed, got {:#?}", t.state);
    };

    let a = graph.nodes.iter().find(|n| n.id.0 == "A").unwrap();
    let b = graph.nodes.iter().find(|n| n.id.0 == "B").unwrap();
    let c = graph.nodes.iter().find(|n| n.id.0 == "C").unwrap();

    assert_eq!(a.status, NodeStatus::Completed, "A must remain Completed");
    assert_eq!(b.status, NodeStatus::Failed);
    assert_eq!(c.status, NodeStatus::Cancelled);
}
