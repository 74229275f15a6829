//! Runs that complete, and what keeps them from completing.

use forge_scheduler::dispatch::dispatch_run_node;
use forge_scheduler::driver::{Driver, DriverAction};
use forge_scheduler::effect::SchedulerEffect;
use forge_scheduler::effect_steps::{EffectAction, EffectStage};
use forge_scheduler::event::SchedulerEvent;
use forge_scheduler::failure::{FailureKind, FailureReason};
use forge_scheduler::graph::{ModelTier, Node, NodeId, NodeKind, NodeOrigin, NodeStatus, RunGraph};
use forge_scheduler::handler::SchedulerHandler;
use forge_scheduler::machine::{RunRequest, SchedulerMachine, SchedulerTerminalOutput};
use forge_scheduler::manifest::{TaskField, TaskRecord};
use forge_scheduler::node_runner::{NodeRunner, StaticNodeRunner};
use forge_scheduler::state::{SchedulerState, Transition};
use forge_scheduler::teams::{RunConfig, TeamConfig, Trigger};
use forge_scheduler::telemetry::NoopTelemetry;
use forge_scheduler::types::{IntegrationOutput, NodeFailure, NodeRequest, PlanOutput, RecoveryAction, WorkOutput};

fn work_node(id: &str, objective: &str, deps: &[&str]) -> Node {
    Node {
        id: NodeId(id.to_string()),
        kind: NodeKind::Work,
        team: String::new(),
        task_id: None,
        adapter: String::new(),
        northstar: String::new(),
        worker_role: None,
        objective: objective.to_string(),
        target_files: vec![],
        required_validation_targets: vec![],
        dependencies: deps.iter().map(|d| NodeId(d.to_string())).collect(),
        status: NodeStatus::Pending,
        attempt: 0,
        plan_depth: 0,
        model_tier: ModelTier::Cheap,
        summary: None,
        origin: NodeOrigin::Root,
        validation_plan: None,
        retry_feedback: None,
    }
}

fn plan_node(id: &str, objective: &str, deps: &[&str]) -> Node {
    Node {
        id: NodeId(id.to_string()),
        kind: NodeKind::Plan,
        team: String::new(),
        task_id: None,
        adapter: String::new(),
        northstar: String::new(),
        worker_role: None,
        objective: objective.to_string(),
        target_files: vec![],
        required_validation_targets: vec![],
        dependencies: deps.iter().map(|d| NodeId(d.to_string())).collect(),
        status: NodeStatus::Pending,
        attempt: 0,
        plan_depth: 0,
        model_tier: ModelTier::Cheap,
        summary: None,
        origin: NodeOrigin::Root,
        validation_plan: None,
        retry_feedback: None,
    }
}

fn single_work_graph() -> RunGraph {
    RunGraph {
        nodes: vec![work_node("A", "do a thing", &[])],
    }
}

fn chain_graph() -> RunGraph {
    RunGraph {
        nodes: vec![
            work_node("A", "step one", &[]),
            work_node("B", "step two", &["A"]),
            work_node("C", "step three", &["B"]),
        ],
    }
}

fn active_node_id(graph: &RunGraph) -> Option<NodeId> {
    graph
        .nodes
        .iter()
        .find(|n| matches!(n.status, NodeStatus::Running | NodeStatus::Integrating))
        .map(|n| n.id.clone())
}

fn do_transition(
    state: SchedulerState,
    event: SchedulerEvent,
) -> Transition<SchedulerState, SchedulerEffect> {
    SchedulerMachine.transition(state, event)
}

fn scheduler_handler() -> SchedulerHandler<StaticNodeRunner> {
    SchedulerHandler::new(StaticNodeRunner)
}

/// Performs an effect of a run without an artifact.
fn handle_effect<R: NodeRunner>(
    handler: &mut SchedulerHandler<R>,
    effect: SchedulerEffect,
) -> SchedulerEvent {
    let mut stage = EffectStage::Emitted(effect);
    loop {
        stage = match handler.handle_effect(stage).action {
            EffectAction::Report { event, .. } => return event,
            EffectAction::RunNode { command, artifact, work_attempt } => {
                let event =
                    dispatch_run_node(&handler.runner, &NoopTelemetry, command, &artifact, None);
                let quoted = format!("{event:#?}");
                EffectStage::NodeReturned { event, work_attempt, quoted }
            }
            _ => panic!("there is no artifact to work on"),
        };
    }
}

/// Drives a run to its end, performing every effect as it comes up.
fn run_scheduler<R: NodeRunner>(
    mut handler: SchedulerHandler<R>,
    state: SchedulerState,
) -> SchedulerTerminalOutput {
    let mut driver = Driver::new(state)
        .deliver(&handler, SchedulerMachine.start_event())
        .driver;
    let mut returned: std::collections::VecDeque<SchedulerEvent> = Default::default();
    loop {
        let (action, rest) = driver.next();
        let event = match action {
            DriverAction::Finish(output) => return output,
            DriverAction::Tick => SchedulerMachine.start_event(),
            DriverAction::Await => returned.pop_front().expect("a result must be under way"),
            DriverAction::Perform(effect) => {
                let runs_node = matches!(effect, SchedulerEffect::RunNode { .. });
                let event = handle_effect(&mut handler, effect);
                if runs_node {
                    returned.push_back(event);
                    driver = rest;
                    continue;
                }
                event
            }
        };
        driver = rest.deliver(&handler, event).driver;
    }
}

#[test]
fn run_request_starts_scheduler_end_to_end() {
    let request = RunRequest {
        objective: "plan demo".to_string(),
    };
    let state = SchedulerMachine::initial_state(request, RunConfig::default());
    let output = run_scheduler(scheduler_handler(), state);
    assert!(matches!(output, SchedulerTerminalOutput::Complete { .. }));
}

#[test]
fn active_start_all_complete_moves_to_complete() {
    let mut graph = single_work_graph();
    graph.nodes[0].status = NodeStatus::Completed;
    let t = do_transition(
        SchedulerState::Active {
            graph,
            run_config: RunConfig::default(),
        },
        SchedulerEvent::Start,
    );
    assert!(matches!(t.state, SchedulerState::Complete { .. }));
    assert!(t.effects.is_empty());
}

#[test]
fn final_run_gate_on_required_test_target() {
    struct Case {
        test_target_completed: bool,
    }

    for case in [
        Case {
            test_target_completed: false,
        },
        Case {
            test_target_completed: true,
        },
    ] {
        let mut nodes = vec![Node {
            target_files: vec!["main.py".to_string()],
            required_validation_targets: vec!["test_main.py".to_string()],
            status: NodeStatus::Completed,
            ..work_node("source", "implement fibonacci", &[])
        }];
        if case.test_target_completed {
            nodes.push(Node {
                target_files: vec!["test_main.py".to_string()],
                status: NodeStatus::Completed,
                ..work_node("tests", "write tests", &["source"])
            });
        }
        let graph = RunGraph { nodes };

        let t = do_transition(
            SchedulerState::Active {
                graph,
                run_config: RunConfig::default(),
            },
            SchedulerEvent::Start,
        );

        if case.test_target_completed {
            assert!(matches!(t.state, SchedulerState::Complete { .. }));
        } else {
            let SchedulerState::Failed { reason, .. } = t.state else {
                panic!("expected Failed, got {:#?}", t.state);
            };
            let FailureReason::RequiredTestTargetsMissing(detail) = reason else {
                panic!("expected RequiredTestTargetsMissing, got {reason:?}");
            };
            assert!(
                detail.contains("test_main.py"),
                "failure reason should identify missing required test target; got: {detail}"
            );
            assert!(t.effects.is_empty());
        }
    }
}

#[test]
fn active_start_dispatches_ready_node_and_waits() {
    let t = do_transition(
        SchedulerState::Active {
            graph: single_work_graph(),
            run_config: RunConfig::default(),
        },
        SchedulerEvent::Start,
    );

    let SchedulerState::Waiting { graph, .. } = t.state else {
        panic!("expected Waiting")
    };
    assert_eq!(active_node_id(&graph), Some(NodeId("A".to_string())));
    assert_eq!(graph.nodes[0].status, NodeStatus::Running);
    assert!(matches!(
        t.effects.as_slice(),
        [SchedulerEffect::RunNode { .. }]
    ));
}

#[test]
fn terminal_failure_produces_failed_scheduler_terminal_output() {
    let graph = RunGraph {
        nodes: vec![Node {
            id: NodeId("T".to_string()),
            kind: NodeKind::Work,
            team: String::new(),
            task_id: None,
            adapter: String::new(),
            northstar: String::new(),
            worker_role: None,
            objective: "fail this step".to_string(),
            target_files: vec![],
            required_validation_targets: vec![],
            dependencies: vec![],
            status: NodeStatus::Pending,
            attempt: 0,
            plan_depth: 0,
            model_tier: ModelTier::Cheap,
            summary: None,
            origin: NodeOrigin::Root,
            validation_plan: None,
            retry_feedback: None,
        }],
    };
    let output = run_scheduler(
        scheduler_handler(),
        SchedulerState::Active {
            graph,
            run_config: RunConfig::default(),
        },
    );
    assert!(matches!(output, SchedulerTerminalOutput::Failed { .. }));
}

#[test]
fn scheduler_terminal_output_includes_node_failure_reason() {
    let graph = RunGraph {
        nodes: vec![Node {
            id: NodeId("T".to_string()),
            kind: NodeKind::Work,
            team: String::new(),
            task_id: None,
            adapter: String::new(),
            northstar: String::new(),
            worker_role: None,
            objective: "fail this step".to_string(),
            target_files: vec![],
            required_validation_targets: vec![],
            dependencies: vec![],
            status: NodeStatus::Running,
            attempt: 0,
            plan_depth: 0,
            model_tier: ModelTier::Cheap,
            summary: None,
            origin: NodeOrigin::Root,
            validation_plan: None,
            retry_feedback: None,
        }],
    };

    let t = do_transition(
        SchedulerState::Waiting {
            graph,
            run_config: RunConfig::default(),
        },
        SchedulerEvent::NodeFailed {
            node_id: NodeId("T".to_string()),
            failure: NodeFailure {
                kind: FailureKind::DeliberationFailure,
                message: "provider error (Retryable): connection refused".to_string(),
                recovery: RecoveryAction::Terminal {
                    message: "deliberation failed".to_string(),
                },
            },
        },
    );

    let SchedulerState::Failed { reason, .. } = t.state else {
        panic!("expected Failed, got {:#?}", t.state);
    };
    let FailureReason::TerminalRecovery {
        terminal_message,
        failure_message,
    } = reason
    else {
        panic!("expected TerminalRecovery, got {reason:?}");
    };
    assert_eq!(terminal_message, "deliberation failed");
    assert!(failure_message.contains("provider error (Retryable): connection refused"));
}

#[test]
fn split_remaps_downstream_dependencies_and_chain_completes() {
    let graph = RunGraph {
        nodes: vec![
            work_node("A", "step A", &[]),
            work_node("B", "do split", &["A"]),
            work_node("C", "step C", &["B"]),
        ],
    };

    let t = do_transition(
        SchedulerState::Active {
            graph,
            run_config: RunConfig::default(),
        },
        SchedulerEvent::Start,
    );
    let SchedulerState::Waiting { graph, .. } = t.state else {
        panic!("expected Waiting after dispatching A")
    };

    let t = do_transition(
        SchedulerState::Waiting {
            graph,
            run_config: RunConfig::default(),
        },
        SchedulerEvent::WorkAccepted {
            node_id: NodeId("A".to_string()),
            work: WorkOutput {
                summary: "A done".to_string(),
            },
        },
    );
    let SchedulerState::Waiting { graph, .. } = t.state else {
        panic!("expected Waiting after A WorkAccepted")
    };

    let t = do_transition(
        SchedulerState::Waiting {
            graph,
            run_config: RunConfig::default(),
        },
        SchedulerEvent::IntegrationSucceeded {
            node_id: NodeId("A".to_string()),
            output: IntegrationOutput {
                summary: "A integrated".to_string(),
            },
            manifest_tasks: vec![],
        },
    );
    let SchedulerState::Active { graph, .. } = t.state else {
        panic!("expected Active after A integrates")
    };

    let t = do_transition(
        SchedulerState::Active {
            graph,
            run_config: RunConfig::default(),
        },
        SchedulerEvent::Start,
    );
    let SchedulerState::Waiting { graph, .. } = t.state else {
        panic!("expected Waiting after dispatching B")
    };

    let t = do_transition(
        SchedulerState::Waiting {
            graph,
            run_config: RunConfig::default(),
        },
        SchedulerEvent::NodeFailed {
            node_id: NodeId("B".to_string()),
            failure: NodeFailure {
                kind: FailureKind::DeliberationFailure,
                message: "task too complex".to_string(),
                recovery: RecoveryAction::Split {
                    message: "decompose the work".to_string(),
                },
            },
        },
    );
    let SchedulerState::Active { graph, .. } = t.state else {
        panic!("expected Active after Split")
    };

    let b = graph.nodes.iter().find(|n| n.id.0 == "B").expect("B");
    assert_eq!(b.status, NodeStatus::Failed);

    let p = graph
        .nodes
        .iter()
        .find(|n| matches!(&n.origin, NodeOrigin::Split { source } if source.0 == "B"))
        .expect("split Plan node");
    let split_id = p.id.clone();
    assert_eq!(p.kind, NodeKind::Plan);
    assert_eq!(p.status, NodeStatus::Pending);

    let c = graph.nodes.iter().find(|n| n.id.0 == "C").expect("C");
    assert!(
        !c.dependencies.contains(&NodeId("B".to_string())),
        "C still depends on failed B"
    );
    assert!(
        c.dependencies.contains(&split_id),
        "C does not depend on split Plan node"
    );

    let t = do_transition(
        SchedulerState::Active {
            graph,
            run_config: RunConfig::default(),
        },
        SchedulerEvent::Start,
    );
    let SchedulerState::Waiting { graph, .. } = t.state else {
        panic!("expected Waiting after dispatching P")
    };

    let t = do_transition(
        SchedulerState::Waiting {
            graph,
            run_config: RunConfig::default(),
        },
        SchedulerEvent::PlanAccepted {
            node_id: split_id.clone(),
            plan: PlanOutput {
                children: vec![],
                tasks: vec![],
            },
        },
    );
    let SchedulerState::Active { graph, .. } = t.state else {
        panic!("expected Active after P completes")
    };

    let t = do_transition(
        SchedulerState::Active {
            graph,
            run_config: RunConfig::default(),
        },
        SchedulerEvent::Start,
    );
    let SchedulerState::Waiting { graph, .. } = t.state else {
        panic!("expected Waiting after dispatching C")
    };

    let t = do_transition(
        SchedulerState::Waiting {
            graph,
            run_config: RunConfig::default(),
        },
        SchedulerEvent::WorkAccepted {
            node_id: NodeId("C".to_string()),
            work: WorkOutput {
                summary: "C done".to_string(),
            },
        },
    );
    let SchedulerState::Waiting { graph, .. } = t.state else {
        panic!("expected Waiting after C WorkAccepted")
    };

    let t = do_transition(
        SchedulerState::Waiting {
            graph,
            run_config: RunConfig::default(),
        },
        SchedulerEvent::IntegrationSucceeded {
            node_id: NodeId("C".to_string()),
            output: IntegrationOutput {
                summary: "C integrated".to_string(),
            },
            manifest_tasks: vec![],
        },
    );
    let SchedulerState::Active { graph, .. } = t.state else {
        panic!("expected Active after C integrates")
    };

    let t = do_transition(
        SchedulerState::Active {
            graph,
            run_config: RunConfig::default(),
        },
        SchedulerEvent::Start,
    );
    let SchedulerState::Complete { graph, .. } = t.state else {
        panic!("expected Complete, got non-Complete state")
    };

    let c = graph.nodes.iter().find(|n| n.id.0 == "C").expect("C");
    assert_eq!(c.status, NodeStatus::Completed);

    let b = graph.nodes.iter().find(|n| n.id.0 == "B").expect("B");
    assert_eq!(b.status, NodeStatus::Failed);
}

#[test]
fn full_chain_run() {
    let output = run_scheduler(
        scheduler_handler(),
        SchedulerState::Active {
            graph: chain_graph(),
            run_config: RunConfig::default(),
        },
    );
    let SchedulerTerminalOutput::Complete { graph, .. } = output else {
        panic!("expected Complete")
    };
    assert!(
        graph
            .nodes
            .iter()
            .all(|n| n.status == NodeStatus::Completed)
    );
}

#[test]
fn clean_success_has_no_recovery() {
    let output = run_scheduler(
        scheduler_handler(),
        SchedulerState::Active {
            graph: single_work_graph(),
            run_config: RunConfig::default(),
        },
    );
    let SchedulerTerminalOutput::Complete {
        recovery_summary, ..
    } = output
    else {
        panic!("expected Complete");
    };
    assert!(!recovery_summary.recovered);
    assert_eq!(recovery_summary.retry_count, 0);
    assert_eq!(recovery_summary.elevate_count, 0);
    assert_eq!(recovery_summary.split_count, 0);
}

#[test]
fn split_success_reports_recovery() {
    let source_id = NodeId("S".to_string());
    let split_id = NodeId("S-split-0".to_string());
    let graph = RunGraph {
        nodes: vec![
            Node {
                id: source_id.clone(),
                kind: NodeKind::Work,
                team: String::new(),
                task_id: None,
                adapter: String::new(),
                northstar: String::new(),
                worker_role: None,
                objective: "complex task".to_string(),
                target_files: vec![],
                required_validation_targets: vec![],
                dependencies: vec![],
                status: NodeStatus::Failed,
                attempt: 0,
                plan_depth: 0,
                model_tier: ModelTier::Cheap,
                summary: None,
                origin: NodeOrigin::Root,
                validation_plan: None,
                retry_feedback: None,
            },
            Node {
                id: split_id,
                kind: NodeKind::Plan,
                team: String::new(),
                task_id: None,
                adapter: String::new(),
                northstar: String::new(),
                worker_role: None,
                objective: "decompose complex task".to_string(),
                target_files: vec![],
                required_validation_targets: vec![],
                dependencies: vec![],
                status: NodeStatus::Completed,
                attempt: 1,
                plan_depth: 1,
                model_tier: ModelTier::Strong,
                summary: Some("planned".to_string()),
                origin: NodeOrigin::Split { source: source_id },
                validation_plan: None,
                retry_feedback: None,
            },
        ],
    };
    let state = SchedulerState::Complete { graph };
    let output = SchedulerMachine
        .output(&state)
        .expect("Complete is a terminal state");
    let SchedulerTerminalOutput::Complete {
        recovery_summary, ..
    } = output
    else {
        panic!("expected Complete");
    };
    assert!(recovery_summary.recovered);
    assert_eq!(recovery_summary.retry_count, 0);
    assert_eq!(recovery_summary.elevate_count, 0);
    assert_eq!(recovery_summary.split_count, 1);
}

#[test]
fn event_at_terminal_state_returns_protocol_violation() {
    let mut terminal_node = work_node("A", "done", &[]);
    terminal_node.status = NodeStatus::Completed;
    let terminal_graph = RunGraph {
        nodes: vec![terminal_node],
    };
    for (label, state) in [
        (
            "Complete",
            SchedulerState::Complete {
                graph: terminal_graph.clone(),
            },
        ),
        (
            "Failed",
            SchedulerState::Failed {
                graph: terminal_graph.clone(),
                reason: FailureReason::ProtocolViolation("prior failure".to_string()),
            },
        ),
    ] {
        let t = do_transition(state, SchedulerEvent::Start);
        let SchedulerState::Failed { reason, .. } = t.state else {
            panic!("[{label}] expected Failed, got {:#?}", t.state);
        };
        assert!(
            matches!(reason, FailureReason::ProtocolViolation(_)),
            "[{label}] expected ProtocolViolation, got {reason:?}"
        );
        assert!(t.effects.is_empty(), "[{label}]");
    }
}

fn simple_team(name: &str, trigger: Trigger, kind: NodeKind) -> TeamConfig {
    TeamConfig {
        name: name.to_string(),
        northstar: String::new(),
        adapter: String::new(),
        kind,
        trigger,
        language_plugins: vec![],
        language: String::new(),
        derives_target: false,
        worker_role: None,
    }
}

fn manifest_record(id: &str, objective: &str, team: &str) -> TaskRecord {
    TaskRecord {
        id: id.to_string(),
        objective: objective.to_string(),
        commit: String::new(),
        completed_at: String::new(),
        team: Some(team.to_string()),
        task_kv: vec![],
        depends_on: vec![],
    }
}

fn declared_record(id: &str, objective: &str, team: &str, file_path: &str) -> TaskRecord {
    let mut r = manifest_record(id, objective, team);
    r.task_kv.push(TaskField {
        key: "file_path".to_string(),
        value: file_path.to_string(),
    });
    r
}

#[test]
fn split_replan_task_id_fix_lets_dual_predecessor_terminal_team_spawn() {
    let run_config = RunConfig {
        has_strong_tier: true,
        teams: vec![
            simple_team("planner", Trigger::Start, NodeKind::Plan),
            simple_team(
                "implement",
                Trigger::AfterTeams(vec!["planner".to_string()]),
                NodeKind::Work,
            ),
            simple_team(
                "create_test",
                Trigger::AfterTeams(vec!["planner".to_string()]),
                NodeKind::Work,
            ),
            simple_team(
                "pass_tests",
                Trigger::AfterTeams(vec!["implement".to_string(), "create_test".to_string()]),
                NodeKind::Work,
            ),
        ],
        terminal_teams: vec!["pass_tests".to_string()],
        dispatch_cap: 1,
    };

    let planner_node = Node {
        team: "planner".to_string(),
        status: NodeStatus::Integrating,
        ..plan_node("planner", "build a fibonacci program", &[])
    };
    let graph = RunGraph {
        nodes: vec![planner_node],
    };

    let mut manifest = vec![declared_record(
        "t1",
        "build a fibonacci program",
        "planner",
        "main.py",
    )];
    let t = do_transition(
        SchedulerState::Waiting {
            graph,
            run_config: run_config.clone(),
        },
        SchedulerEvent::PlannerTasksIntegrated {
            node_id: NodeId("planner".to_string()),
            manifest_tasks: manifest.clone(),
        },
    );
    let SchedulerState::Active { mut graph, .. } = t.state else {
        panic!(
            "expected Active after planner's tasks integrate, got {:#?}",
            t.state
        );
    };
    assert_eq!(
        graph.nodes.iter().filter(|n| n.team == "implement").count(),
        1,
        "implement must have spawned for t1"
    );
    assert_eq!(
        graph
            .nodes
            .iter()
            .filter(|n| n.team == "create_test")
            .count(),
        1,
        "create_test must have spawned for t1"
    );

    let mut create_test_done = false;
    let mut implement_done = false;
    while !(create_test_done && implement_done) {
        let t = do_transition(
            SchedulerState::Active {
                graph,
                run_config: run_config.clone(),
            },
            SchedulerEvent::Start,
        );
        let SchedulerState::Waiting { graph: g, .. } = t.state else {
            panic!("expected Waiting, got {:#?}", t.state);
        };
        let running_id = active_node_id(&g).expect("a node should be running");
        let running_team = g
            .nodes
            .iter()
            .find(|n| n.id == running_id)
            .unwrap()
            .team
            .clone();

        if running_team == "create_test" {
            let t = do_transition(
                SchedulerState::Waiting {
                    graph: g,
                    run_config: run_config.clone(),
                },
                SchedulerEvent::WorkAccepted {
                    node_id: running_id.clone(),
                    work: WorkOutput {
                        summary: "tests written".to_string(),
                    },
                },
            );
            let SchedulerState::Waiting { graph: g2, .. } = t.state else {
                panic!("expected Waiting (Integrating) for create_test")
            };
            manifest.push(manifest_record("t1", "write tests", "create_test"));
            let t = do_transition(
                SchedulerState::Waiting {
                    graph: g2,
                    run_config: run_config.clone(),
                },
                SchedulerEvent::IntegrationSucceeded {
                    node_id: running_id,
                    output: IntegrationOutput {
                        summary: "tests integrated".to_string(),
                    },
                    manifest_tasks: manifest.clone(),
                },
            );
            let SchedulerState::Active { graph: g3, .. } = t.state else {
                panic!(
                    "expected Active after create_test integrates, got {:#?}",
                    t.state
                );
            };
            graph = g3;
            create_test_done = true;
        } else if running_team == "implement" {
            let t = do_transition(
                SchedulerState::Waiting {
                    graph: g,
                    run_config: run_config.clone(),
                },
                SchedulerEvent::NodeFailed {
                    node_id: running_id.clone(),
                    failure: NodeFailure {
                        kind: FailureKind::DeliberationFailure,
                        message: "task too complex".to_string(),
                        recovery: RecoveryAction::Split {
                            message: "decompose the work".to_string(),
                        },
                    },
                },
            );
            let SchedulerState::Active { graph: g2, .. } = t.state else {
                panic!("expected Active after Split, got {:#?}", t.state);
            };
            let split_plan = g2
                .nodes
                .iter()
                .find(
                    |n| matches!(&n.origin, NodeOrigin::Split { source } if *source == running_id),
                )
                .expect("split Plan node");
            assert_eq!(
                split_plan.task_id,
                Some("t1".to_string()),
                "Split Plan node must inherit the failed node's task_id"
            );
            let split_id = split_plan.id.clone();

            let t = do_transition(
                SchedulerState::Active {
                    graph: g2,
                    run_config: run_config.clone(),
                },
                SchedulerEvent::Start,
            );
            let SchedulerState::Waiting { graph: g3, .. } = t.state else {
                panic!("expected Waiting after dispatching split Plan node")
            };

            let t = do_transition(
                SchedulerState::Waiting {
                    graph: g3,
                    run_config: run_config.clone(),
                },
                SchedulerEvent::PlanAccepted {
                    node_id: split_id,
                    plan: PlanOutput {
                        children: vec![NodeRequest {
                            id: NodeId("implement-retry".to_string()),
                            kind: NodeKind::Work,
                            team: "implement".to_string(),
                            task_id: None,
                            adapter: String::new(),
                            northstar: String::new(),
                            worker_role: None,
                            objective: "implement fibonacci, simplified".to_string(),
                            target_files: vec!["main.py".to_string()],
                            required_validation_targets: vec![],
                            dependencies: vec![],
                            validation_plan: None,
                        }],
                        tasks: vec![],
                    },
                },
            );
            let SchedulerState::Active { graph: g4, .. } = t.state else {
                panic!("expected Active after replan, got {:#?}", t.state);
            };
            let child = g4
                .nodes
                .iter()
                .find(|n| n.objective == "implement fibonacci, simplified")
                .expect("replanned child");
            assert_eq!(
                child.task_id,
                Some("t1".to_string()),
                "replanned child must inherit t1, not be dropped to None"
            );
            let child_id = child.id.clone();

            let t = do_transition(
                SchedulerState::Active {
                    graph: g4,
                    run_config: run_config.clone(),
                },
                SchedulerEvent::Start,
            );
            let SchedulerState::Waiting { graph: g5, .. } = t.state else {
                panic!("expected Waiting after dispatching replanned child")
            };
            let t = do_transition(
                SchedulerState::Waiting {
                    graph: g5,
                    run_config: run_config.clone(),
                },
                SchedulerEvent::WorkAccepted {
                    node_id: child_id.clone(),
                    work: WorkOutput {
                        summary: "fibonacci implemented".to_string(),
                    },
                },
            );
            let SchedulerState::Waiting { graph: g6, .. } = t.state else {
                panic!("expected Waiting (Integrating) for replanned child")
            };
            manifest.push(manifest_record("t1", "implement fibonacci", "implement"));
            let t = do_transition(
                SchedulerState::Waiting {
                    graph: g6,
                    run_config: run_config.clone(),
                },
                SchedulerEvent::IntegrationSucceeded {
                    node_id: child_id,
                    output: IntegrationOutput {
                        summary: "implementation integrated".to_string(),
                    },
                    manifest_tasks: manifest.clone(),
                },
            );
            let SchedulerState::Active { graph: g7, .. } = t.state else {
                panic!(
                    "expected Active after replanned child integrates, got {:#?}",
                    t.state
                );
            };
            graph = g7;
            implement_done = true;
        } else {
            panic!("unexpected running team: {running_team}");
        }
    }

    let pass_tests_node = graph
        .nodes
        .iter()
        .find(|n| n.team == "pass_tests")
        .expect("pass_tests must have spawned once both predecessors share t1");
    assert_eq!(pass_tests_node.status, NodeStatus::Pending);
    assert_eq!(pass_tests_node.task_id, Some("t1".to_string()));

    let t = do_transition(
        SchedulerState::Active {
            graph,
            run_config: run_config.clone(),
        },
        SchedulerEvent::Start,
    );
    let SchedulerState::Waiting { graph, .. } = t.state else {
        panic!("expected Waiting after dispatching pass_tests")
    };
    let pass_tests_id = active_node_id(&graph).expect("pass_tests should be running");
    let t = do_transition(
        SchedulerState::Waiting {
            graph,
            run_config: run_config.clone(),
        },
        SchedulerEvent::WorkAccepted {
            node_id: pass_tests_id.clone(),
            work: WorkOutput {
                summary: "tests passed".to_string(),
            },
        },
    );
    let SchedulerState::Waiting { graph, .. } = t.state else {
        panic!("expected Waiting (Integrating) for pass_tests")
    };
    manifest.push(manifest_record("t1", "run pytest", "pass_tests"));
    let t = do_transition(
        SchedulerState::Waiting {
            graph,
            run_config: run_config.clone(),
        },
        SchedulerEvent::IntegrationSucceeded {
            node_id: pass_tests_id,
            output: IntegrationOutput {
                summary: "pass_tests integrated".to_string(),
            },
            manifest_tasks: manifest,
        },
    );
    let SchedulerState::Active { graph, .. } = t.state else {
        panic!(
            "expected Active after pass_tests integrates, got {:#?}",
            t.state
        );
    };
    let t = do_transition(
        SchedulerState::Active { graph, run_config },
        SchedulerEvent::Start,
    );
    assert!(
        matches!(t.state, SchedulerState::Complete { .. }),
        "expected Complete, got {:#?}",
        t.state
    );
}

#[test]
fn terminal_team_with_lost_task_id_fails_run_with_terminal_team_incomplete() {
    let run_config = RunConfig {
        has_strong_tier: true,
        teams: vec![
            simple_team("planner", Trigger::Start, NodeKind::Plan),
            simple_team(
                "worker",
                Trigger::AfterTeams(vec!["planner".to_string()]),
                NodeKind::Work,
            ),
        ],
        terminal_teams: vec!["worker".to_string()],
        dispatch_cap: 1,
    };

    let planner_node = Node {
        team: "planner".to_string(),
        status: NodeStatus::Integrating,
        ..plan_node("planner", "build something", &[])
    };
    let graph = RunGraph {
        nodes: vec![planner_node],
    };
    let manifest = vec![declared_record(
        "t1",
        "build something",
        "planner",
        "main.py",
    )];
    let t = do_transition(
        SchedulerState::Waiting {
            graph,
            run_config: run_config.clone(),
        },
        SchedulerEvent::PlannerTasksIntegrated {
            node_id: NodeId("planner".to_string()),
            manifest_tasks: manifest.clone(),
        },
    );
    let SchedulerState::Active { graph, .. } = t.state else {
        panic!(
            "expected Active after planner's tasks integrate, got {:#?}",
            t.state
        );
    };

    let t = do_transition(
        SchedulerState::Active {
            graph,
            run_config: run_config.clone(),
        },
        SchedulerEvent::Start,
    );
    let SchedulerState::Waiting { graph, .. } = t.state else {
        panic!("expected Waiting after dispatching worker")
    };
    let worker_id = active_node_id(&graph).expect("worker should be running");
    let t = do_transition(
        SchedulerState::Waiting {
            graph,
            run_config: run_config.clone(),
        },
        SchedulerEvent::WorkAccepted {
            node_id: worker_id.clone(),
            work: WorkOutput {
                summary: "done".to_string(),
            },
        },
    );
    let SchedulerState::Waiting { graph, .. } = t.state else {
        panic!("expected Waiting (Integrating) for worker")
    };

    let mut manifest = manifest;
    manifest.push(manifest_record(&worker_id.0, "do the work", "worker"));
    let t = do_transition(
        SchedulerState::Waiting { graph, run_config },
        SchedulerEvent::IntegrationSucceeded {
            node_id: worker_id,
            output: IntegrationOutput {
                summary: "worker integrated".to_string(),
            },
            manifest_tasks: manifest,
        },
    );
    let SchedulerState::Failed { reason, .. } = t.state else {
        panic!("expected Failed, got {:#?}", t.state);
    };
    assert_eq!(
        reason,
        FailureReason::TerminalTeamIncomplete {
            team: "worker".to_string(),
            task_ids: vec!["t1".to_string()],
        }
    );
}
