//! Events that are out of turn or out of place.

use forge_scheduler::effect::SchedulerEffect;
use forge_scheduler::event::SchedulerEvent;
use forge_scheduler::failure::FailureReason;
use forge_scheduler::graph::{ModelTier, Node, NodeId, NodeKind, NodeOrigin, NodeStatus, RunGraph};
use forge_scheduler::machine::SchedulerMachine;
use forge_scheduler::state::{SchedulerState, Transition};
use forge_scheduler::teams::RunConfig;
use forge_scheduler::types::{IntegrationOutput, PlanOutput, WorkOutput};

fn work_node(id: &str, objective: &str, deps: &[&str]) -> Node {
    Node {
        id: NodeId(id.to_string()),
        kind: NodeKind::Work,
        team: String::new(),
        task_id: None,
        adapter: String::new(),
        northstar: String::new(),
        worker_role: None,
        objective: objective.to_string(),
        target_files: vec![],
        required_validation_targets: vec![],
        dependencies: deps.iter().map(|d| NodeId(d.to_string())).collect(),
        status: NodeStatus::Pending,
        attempt: 0,
        plan_depth: 0,
        model_tier: ModelTier::Cheap,
        summary: None,
        origin: NodeOrigin::Root,
        validation_plan: None,
        retry_feedback: None,
    }
}

fn plan_node(id: &str, objective: &str, deps: &[&str]) -> Node {
    Node {
        id: NodeId(id.to_string()),
        kind: NodeKind::Plan,
        team: String::new(),
        task_id: None,
        adapter: String::new(),
        northstar: String::new(),
        worker_role: None,
        objective: objective.to_string(),
        target_files: vec![],
        required_validation_targets: vec![],
        dependencies: deps.iter().map(|d| NodeId(d.to_string())).collect(),
        status: NodeStatus::Pending,
        attempt: 0,
        plan_depth: 0,
        model_tier: ModelTier::Cheap,
        summary: None,
        origin: NodeOrigin::Root,
        validation_plan: None,
        retry_feedback: None,
    }
}

fn single_work_graph() -> RunGraph {
    RunGraph {
        nodes: vec![work_node("A", "do a thing", &[])],
    }
}

fn running(mut graph: RunGraph, id: &str) -> RunGraph {
    for n in &mut graph.nodes {
        if n.id.0 == id {
            n.status = NodeStatus::Running;
        }
    }
    graph
}

fn do_transition(
    state: SchedulerState,
    event: SchedulerEvent,
) -> Transition<SchedulerState, SchedulerEffect> {
    SchedulerMachine.transition(state, event)
}

fn assert_protocol_violation(t: &Transition<SchedulerState, SchedulerEffect>, expected: &str) {
    let SchedulerState::Failed { reason, .. } = &t.state else {
        panic!("expected Failed, got {:#?}", t.state);
    };
    let FailureReason::ProtocolViolation(detail) = reason else {
        panic!("expected ProtocolViolation, got {reason:?}");
    };
    assert_eq!(detail, expected);
    assert!(t.effects.is_empty());
}

#[test]
fn event_kind_or_status_mismatch_fails_with_protocol_violation() {
    struct Case {
        graph: RunGraph,
        event: SchedulerEvent,
        expected_detail: &'static str,
    }

    let cases = vec![
        Case {
            graph: running(
                RunGraph {
                    nodes: vec![plan_node("P", "plan something", &[])],
                },
                "P",
            ),
            event: SchedulerEvent::WorkAccepted {
                node_id: NodeId("P".to_string()),
                work: WorkOutput {
                    summary: "work done".to_string(),
                },
            },
            expected_detail: "node P is Plan but received WorkAccepted outcome",
        },
        Case {
            graph: running(single_work_graph(), "A"),
            event: SchedulerEvent::PlanAccepted {
                node_id: NodeId("A".to_string()),
                plan: PlanOutput {
                    children: vec![],
                    tasks: vec![],
                },
            },
            expected_detail: "node A is Work but received PlanAccepted outcome",
        },
        Case {
            graph: {
                let mut g = RunGraph {
                    nodes: vec![work_node("B", "do work", &[])],
                };
                g.nodes[0].status = NodeStatus::Integrating;
                g
            },
            event: SchedulerEvent::WorkAccepted {
                node_id: NodeId("B".to_string()),
                work: WorkOutput {
                    summary: "spurious result".to_string(),
                },
            },
            expected_detail: "protocol violation: NodeReturned for node B expected Running but found Integrating",
        },
        Case {
            graph: running(single_work_graph(), "A"),
            event: SchedulerEvent::IntegrationSucceeded {
                node_id: NodeId("A".to_string()),
                output: IntegrationOutput {
                    summary: "done".to_string(),
                },
                manifest_tasks: vec![],
            },
            expected_detail: "node A has status Running but IntegrationReturned requires Integrating",
        },
        Case {
            graph: running(
                RunGraph {
                    nodes: vec![plan_node("P", "plan something", &[])],
                },
                "P",
            ),
            event: SchedulerEvent::IntegrationSucceeded {
                node_id: NodeId("P".to_string()),
                output: IntegrationOutput {
                    summary: "done".to_string(),
                },
                manifest_tasks: vec![],
            },
            expected_detail: "node P is Plan but IntegrationReturned requires a Work node",
        },
    ];

    for case in cases {
        let t = do_transition(
            SchedulerState::Waiting {
                graph: case.graph,
                run_config: RunConfig::default(),
            },
            case.event,
        );
        assert_protocol_violation(&t, case.expected_detail);
    }
}

#[test]
fn wrong_node_id_fails_scheduler_with_protocol_violation() {
    struct Case {
        graph: RunGraph,
        event: SchedulerEvent,
        expected_detail: &'static str,
    }

    let cases = vec![
        Case {
            graph: running(
                RunGraph {
                    nodes: vec![work_node("A", "task A", &[])],
                },
                "A",
            ),
            event: SchedulerEvent::WorkAccepted {
                node_id: NodeId("B".to_string()),
                work: WorkOutput {
                    summary: "spurious result".to_string(),
                },
            },
            expected_detail: "expected result for node A but received B",
        },
        Case {
            graph: {
                let mut g = RunGraph {
                    nodes: vec![work_node("A", "task A", &[])],
                };
                g.nodes[0].status = NodeStatus::Integrating;
                g
            },
            event: SchedulerEvent::IntegrationSucceeded {
                node_id: NodeId("B".to_string()),
                output: IntegrationOutput {
                    summary: "spurious result".to_string(),
                },
                manifest_tasks: vec![],
            },
            expected_detail: "expected integration result for node A but received B",
        },
        Case {
            graph: {
                let mut g = RunGraph {
                    nodes: vec![work_node("B", "do B", &[]), work_node("C", "do C", &[])],
                };
                g.nodes[1].status = NodeStatus::Running;
                g
            },
            event: SchedulerEvent::WorkAccepted {
                node_id: NodeId("B".to_string()),
                work: WorkOutput {
                    summary: "irrelevant".to_string(),
                },
            },
            expected_detail: "expected result for node C but received B",
        },
    ];

    for case in cases {
        let t = do_transition(
            SchedulerState::Waiting {
                graph: case.graph,
                run_config: RunConfig::default(),
            },
            case.event,
        );
        assert_protocol_violation(&t, case.expected_detail);
    }
}

#[test]
fn active_state_rejects_return_events() {
    struct Case {
        event: SchedulerEvent,
        expected_detail: &'static str,
    }

    let cases = vec![
        Case {
            event: SchedulerEvent::WorkAccepted {
                node_id: NodeId("A".to_string()),
                work: WorkOutput {
                    summary: "spurious".to_string(),
                },
            },
            expected_detail: "state Active cannot consume NodeReturned",
        },
        Case {
            event: SchedulerEvent::IntegrationSucceeded {
                node_id: NodeId("A".to_string()),
                output: IntegrationOutput {
                    summary: "spurious".to_string(),
                },
                manifest_tasks: vec![],
            },
            expected_detail: "state Active cannot consume IntegrationReturned",
        },
    ];

    for case in cases {
        let t = do_transition(
            SchedulerState::Active {
                graph: single_work_graph(),
                run_config: RunConfig::default(),
            },
            case.event,
        );
        assert_protocol_violation(&t, case.expected_detail);
    }
}

#[test]
fn waiting_rejects_start() {
    let graph = single_work_graph();
    let t = do_transition(
        SchedulerState::Waiting {
            graph,
            run_config: RunConfig::default(),
        },
        SchedulerEvent::Start,
    );

    let SchedulerState::Failed { reason, .. } = t.state else {
        panic!("expected Failed, got {:#?}", t.state);
    };
    let FailureReason::ProtocolViolation(detail) = reason else {
        panic!("expected ProtocolViolation, got {reason:?}");
    };
    assert!(
        detail.contains("Waiting"),
        "detail should mention Waiting, got: {detail:?}"
    );
    assert!(
        detail.contains("Start"),
        "detail should mention Start, got: {detail:?}"
    );
    assert!(t.effects.is_empty());
}

#[test]
fn waiting_with_no_active_node_fails_with_protocol_violation() {
    struct Case {
        graph: RunGraph,
    }

    let cases = vec![
        Case {
            graph: single_work_graph(),
        },
        Case {
            graph: {
                let mut g = RunGraph {
                    nodes: vec![
                        work_node("A", "done", &[]),
                        work_node("B", "also done", &["A"]),
                    ],
                };
                g.nodes[0].status = NodeStatus::Completed;
                g.nodes[1].status = NodeStatus::Completed;
                g
            },
        },
        Case {
            graph: RunGraph {
                nodes: vec![work_node("B", "do B", &[])],
            },
        },
    ];

    for case in cases {
        let t = do_transition(
            SchedulerState::Waiting {
                graph: case.graph,
                run_config: RunConfig::default(),
            },
            SchedulerEvent::WorkAccepted {
                node_id: NodeId("B".to_string()),
                work: WorkOutput {
                    summary: "irrelevant".to_string(),
                },
            },
        );

        assert_protocol_violation(
            &t,
            "invalid waiting state: expected exactly one active node; found none",
        );
    }
}

#[test]
fn waiting_with_running_node_still_works() {
    let graph = single_work_graph();
    let t = do_transition(
        SchedulerState::Waiting {
            graph: running(graph, "A"),
            run_config: RunConfig::default(),
        },
        SchedulerEvent::WorkAccepted {
            node_id: NodeId("A".to_string()),
            work: WorkOutput {
                summary: "success".to_string(),
            },
        },
    );

    assert!(
        matches!(t.state, SchedulerState::Waiting { .. }),
        "expected Waiting (Integrating), got {:#?}",
        t.state
    );
    assert!(matches!(
        t.effects.as_slice(),
        [SchedulerEffect::IntegrateWork { .. }]
    ));
}

#[test]
fn active_state_rejects_preexisting_active_node() {
    struct Case {
        status: NodeStatus,
        expected_detail: &'static str,
    }

    let cases = vec![
        Case {
            status: NodeStatus::Running,
            expected_detail: "invalid running state: node A is Running",
        },
        Case {
            status: NodeStatus::Integrating,
            expected_detail: "invalid running state: node A is Integrating",
        },
    ];

    for case in cases {
        let mut graph = single_work_graph();
        graph.nodes[0].status = case.status;

        let t = do_transition(
            SchedulerState::Active {
                graph,
                run_config: RunConfig::default(),
            },
            SchedulerEvent::Start,
        );

        assert_protocol_violation(&t, case.expected_detail);
    }
}

#[test]
fn waiting_state_rejects_multiple_active_nodes() {
    let mut graph = RunGraph {
        nodes: vec![work_node("B", "do B", &[]), work_node("C", "do C", &[])],
    };
    graph.nodes[0].status = NodeStatus::Running;
    graph.nodes[1].status = NodeStatus::Running;

    let t = do_transition(
        SchedulerState::Waiting {
            graph,
            run_config: RunConfig::default(),
        },
        SchedulerEvent::WorkAccepted {
            node_id: NodeId("B".to_string()),
            work: WorkOutput {
                summary: "irrelevant".to_string(),
            },
        },
    );

    let SchedulerState::Failed { reason, .. } = t.state else {
        panic!("expected Failed, got {:#?}", t.state);
    };
    let FailureReason::ProtocolViolation(detail) = reason else {
        panic!("expected ProtocolViolation, got {reason:?}");
    };
    assert!(
        detail.contains("multiple active nodes"),
        "detail should contain 'multiple active nodes', got: {detail:?}"
    );
    assert!(
        detail.contains('B'),
        "detail should contain node id B, got: {detail:?}"
    );
    assert!(
        detail.contains('C'),
        "detail should contain node id C, got: {detail:?}"
    );
    assert!(t.effects.is_empty());
}
