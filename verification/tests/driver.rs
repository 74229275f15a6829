//! Driving runs whose nodes take time, on a clock of their own.

use std::collections::HashMap;

use forge_scheduler::dispatch::dispatch_run_node;
use forge_scheduler::driver::{dispatch_panicked, Driver, DriverAction};
use forge_scheduler::effect::SchedulerEffect;
use forge_scheduler::effect_steps::{EffectAction, EffectStage};
use forge_scheduler::event::SchedulerEvent;
use forge_scheduler::failure::{FailureKind, FailureReason};
use forge_scheduler::graph::{
    ModelTier, Node, NodeId, NodeKind, NodeOrigin, NodeStatus, RunGraph,
};
use forge_scheduler::handler::SchedulerHandler;
use forge_scheduler::machine::{SchedulerMachine, SchedulerTerminalOutput};
use forge_scheduler::node_runner::{NodeRunRequest, NodeRunResult, NodeRunWorkResult, NodeRunner};
use forge_scheduler::state::SchedulerState;
use forge_scheduler::teams::RunConfig;
use forge_scheduler::telemetry::{NoopTelemetry, TelemetrySink};
use forge_scheduler::types::{NodeFailure, RecoveryAction, WorkOutput};

fn work_node(id: &str) -> Node {
    Node {
        id: NodeId(id.to_string()),
        kind: NodeKind::Work,
        team: String::new(),
        task_id: None,
        adapter: String::new(),
        northstar: String::new(),
        worker_role: None,
        objective: format!("do {id}"),
        target_files: vec![],
        required_validation_targets: vec![],
        dependencies: vec![],
        status: NodeStatus::Pending,
        attempt: 0,
        plan_depth: 0,
        model_tier: ModelTier::Cheap,
        summary: None,
        origin: NodeOrigin::Root,
        validation_plan: None,
        retry_feedback: None,
    }
}

fn active(ids: &[&str], dispatch_cap: usize) -> SchedulerState {
    SchedulerState::Active {
        graph: RunGraph { nodes: ids.iter().map(|id| work_node(id)).collect() },
        run_config: RunConfig { dispatch_cap, ..RunConfig::default() },
    }
}

fn work_accepted() -> NodeRunResult {
    NodeRunResult::WorkAccepted(NodeRunWorkResult {
        work: WorkOutput { summary: "done".to_string() },
    })
}

/// Accepts all work.
struct AcceptingRunner;

impl NodeRunner for AcceptingRunner {
    fn run_node(&self, _request: NodeRunRequest, _telemetry: &dyn TelemetrySink) -> NodeRunResult {
        work_accepted()
    }
}

/// A dispatch under way: when it returns, and what.
struct InFlight {
    node_id: String,
    ends: u64,
    event: SchedulerEvent,
}

/// What a run on the clock came to.
struct Timed {
    output: SchedulerTerminalOutput,
    /// When each node was dispatched.
    starts: HashMap<String, u64>,
    /// When each node returned, also after the end of the run.
    ends: HashMap<String, u64>,
    /// The most dispatches that were ever under way at once.
    max_in_flight: usize,
    /// When the last of them had returned.
    elapsed: u64,
}

/// Drives a run whose dispatches take time. Those under way go on side by
/// side; with `permits`, no more than so many make progress at once.
fn run_timed<R: NodeRunner>(
    mut handler: SchedulerHandler<R>,
    state: SchedulerState,
    permits: Option<usize>,
    delay: fn(&str) -> u64,
) -> Timed {
    let mut now = 0;
    let mut in_flight: Vec<InFlight> = vec![];
    let mut busy: Vec<u64> = vec![0; permits.unwrap_or(0)];
    let mut starts = HashMap::new();
    let mut ends = HashMap::new();
    let mut max_in_flight = 0;
    let mut driver = Driver::new(state);
    let mut event = SchedulerMachine.start_event();
    loop {
        driver = driver.deliver(&handler, event).driver;
        event = loop {
            let (action, rest) = driver.next();
            driver = rest;
            match action {
                DriverAction::Finish(output) => {
                    let mut elapsed = now;
                    for dispatch in in_flight {
                        elapsed = elapsed.max(dispatch.ends);
                        ends.insert(dispatch.node_id, dispatch.ends);
                    }
                    return Timed { output, starts, ends, max_in_flight, elapsed };
                }
                DriverAction::Tick => break SchedulerMachine.start_event(),
                DriverAction::Await => {
                    let next = in_flight
                        .iter()
                        .enumerate()
                        .min_by_key(|(_, dispatch)| dispatch.ends)
                        .map(|(i, _)| i)
                        .expect("a node must be running");
                    let dispatch = in_flight.remove(next);
                    now = dispatch.ends;
                    ends.insert(dispatch.node_id, now);
                    break dispatch.event;
                }
                DriverAction::Perform(effect) => match handler
                    .handle_effect(EffectStage::Emitted(effect))
                    .action
                {
                    EffectAction::RunNode { command, artifact, work_attempt } => {
                        let node_id = command.node_id.0.clone();
                        let from = match busy.iter_mut().min() {
                            Some(permit) => {
                                let from = now.max(*permit);
                                *permit = from + delay(&node_id);
                                from
                            }
                            None => now,
                        };
                        starts.insert(node_id.clone(), now);
                        let event = dispatch_run_node(
                            &handler.runner,
                            &NoopTelemetry,
                            command,
                            &artifact,
                            work_attempt,
                        );
                        let ends = from + delay(&node_id);
                        in_flight.push(InFlight { node_id, ends, event });
                        max_in_flight = max_in_flight.max(in_flight.len());
                    }
                    EffectAction::Report { event, .. } => break event,
                    _ => panic!("there is no artifact to work on"),
                },
            }
        };
    }
}

#[test]
fn two_nodes_with_dispatch_cap_two_run_concurrently_not_serially() {
    let delay = 200;
    let run = run_timed(
        SchedulerHandler::new(AcceptingRunner),
        active(&["A", "B"], 2),
        None,
        |_| 200,
    );
    let output = run.output;
    assert!(
        matches!(output, SchedulerTerminalOutput::Complete { .. }),
        "expected Complete, got {output:#?}"
    );
    assert_eq!(
        run.max_in_flight, 2,
        "both nodes must have been dispatched at the same time at some point"
    );
    assert!(
        run.elapsed < delay * 3 / 2,
        "two concurrent dispatches should take about one delay, took {}",
        run.elapsed
    );
}

#[test]
fn freed_slot_is_backfilled_as_soon_as_the_fast_node_completes_not_waiting_for_the_slow_one() {
    let fast = 150;
    let slow = 600;
    let run = run_timed(
        SchedulerHandler::new(AcceptingRunner),
        active(&["A", "B", "C"], 2),
        None,
        |id| if id == "B" { 600 } else { 150 },
    );
    let output = run.output;
    assert!(
        matches!(output, SchedulerTerminalOutput::Complete { .. }),
        "expected Complete, got {output:#?}"
    );

    let a_start = run.starts["A"];
    let b_start = run.starts["B"];
    let c_start = *run
        .starts
        .get("C")
        .expect("C must have been dispatched at some point");
    assert!(
        a_start < 100 && b_start < 100,
        "A and B must both dispatch immediately at the start of the run: \
         a_start={a_start:?}, b_start={b_start:?}"
    );
    assert!(
        c_start >= a_start + fast,
        "C must not start before A actually completes: c_start={c_start:?}"
    );
    assert!(
        c_start < b_start + slow / 2,
        "C must be backfilled into A's freed slot well before B completes: c_start={c_start:?}"
    );
}

#[test]
fn panic_in_dispatch_thread_becomes_a_node_failed_event_not_a_crash() {
    let handler = SchedulerHandler::new(AcceptingRunner);
    let mut driver = Driver::new(active(&["W"], 1));
    driver = driver.deliver(&handler, SchedulerMachine.start_event()).driver;
    let (action, rest) = driver.next();
    let DriverAction::Perform(SchedulerEffect::RunNode { node_id, .. }) = action else {
        panic!("W must be dispatched");
    };
    let message = "boom: deliberate dispatch-thread panic for test coverage";
    let event = dispatch_panicked(node_id, Some(message.to_string()));
    let SchedulerEvent::NodeFailed { failure, .. } = &event else {
        panic!("expected NodeFailed, got {event:#?}");
    };
    assert_eq!(failure.kind, FailureKind::DispatchPanic);
    assert_eq!(
        failure.message,
        "node dispatch thread panicked: boom: deliberate dispatch-thread panic for test coverage"
    );
    let (action, _) = rest.deliver(&handler, event).driver.next();
    let DriverAction::Finish(output) = action else {
        panic!("a panic must end the run");
    };
    let SchedulerTerminalOutput::Failed { graph, reason } = output else {
        panic!("expected Failed after a dispatch-thread panic, got {output:#?}");
    };
    assert!(
        matches!(reason, FailureReason::TerminalRecovery { .. }),
        "a dispatch-thread panic must route through Terminal recovery; got {reason:?}"
    );
    assert_eq!(graph.nodes[0].status, NodeStatus::Failed);
}

#[test]
fn events_can_be_delivered_with_given_ids() {
    let handler = SchedulerHandler::new(AcceptingRunner);
    let driver = Driver::new(active(&["W"], 1))
        .deliver(&handler, SchedulerMachine.start_event())
        .driver;
    let event = SchedulerEvent::NodeFailed {
        node_id: NodeId("W".to_string()),
        failure: NodeFailure {
            kind: FailureKind::ToolFailure,
            message: "broke".to_string(),
            recovery: RecoveryAction::Retry { message: "again".to_string() },
        },
    };
    let driver = driver.deliver_with_ids(event, vec![NodeId("W2".to_string())]);
    let SchedulerState::Active { graph, .. } = driver.state else {
        panic!("a retry leaves the run active");
    };
    assert_eq!(graph.nodes[1].id, NodeId("W2".to_string()));
}

#[test]
fn panic_without_a_message_says_so() {
    let event = dispatch_panicked(NodeId("W".to_string()), None);
    let SchedulerEvent::NodeFailed { failure, .. } = event else {
        panic!("expected NodeFailed");
    };
    assert_eq!(
        failure.message,
        "node dispatch thread panicked: non-string panic payload"
    );
}

#[test]
fn resource_manager_serializes_provider_calls_across_concurrently_dispatched_nodes() {
    let run = run_timed(
        SchedulerHandler::new(AcceptingRunner),
        active(&["A", "B", "C"], 3),
        Some(1),
        |_| 80,
    );
    let output = run.output;
    assert!(
        matches!(output, SchedulerTerminalOutput::Complete { .. }),
        "expected Complete, got {output:#?}"
    );
    assert_eq!(run.max_in_flight, 3, "3 nodes were dispatched concurrently");
    assert_eq!(
        run.elapsed,
        3 * 80,
        "one permit must serialize gated work even though 3 nodes were dispatched concurrently"
    );
}

/// `A` ends the run, everything else is accepted.
struct TerminalCancellationRunner;

impl NodeRunner for TerminalCancellationRunner {
    fn run_node(&self, request: NodeRunRequest, _telemetry: &dyn TelemetrySink) -> NodeRunResult {
        match request.node_id.0.as_str() {
            "A" => NodeRunResult::Failed(NodeFailure {
                kind: FailureKind::ProviderTerminalFailure,
                message: "fatal provider error".to_string(),
                recovery: RecoveryAction::Terminal { message: "unrecoverable".to_string() },
            }),
            "B" | "C" => work_accepted(),
            other => panic!("unexpected node dispatched: {other}"),
        }
    }
}

#[test]
fn terminal_recovery_stops_new_dispatch_but_joins_already_inflight_siblings() {
    let run = run_timed(
        SchedulerHandler::new(TerminalCancellationRunner),
        active(&["A", "B", "C"], 2),
        None,
        |id| if id == "B" { 200 } else { 0 },
    );
    let output = run.output;
    let SchedulerTerminalOutput::Failed { graph, reason } = output else {
        panic!("expected Failed after a Terminal recovery, got {output:#?}");
    };
    assert!(
        matches!(reason, FailureReason::TerminalRecovery { .. }),
        "expected TerminalRecovery, got {reason:?}"
    );
    assert!(
        !run.starts.contains_key("C"),
        "C must never be dispatched once the run's outcome is already Failed"
    );
    assert_eq!(
        graph.nodes.iter().find(|n| n.id.0 == "C").unwrap().status,
        NodeStatus::Pending,
        "C must remain untouched, having never been dispatched or cancelled"
    );
    assert_eq!(
        run.ends.get("B"),
        Some(&200),
        "B was already dispatched alongside A and must still run to completion"
    );
}
