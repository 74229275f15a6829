//! The scheduler state machine: the transition function and its outputs.

use vstd::prelude::*;

use crate::closure;
use crate::effect;
use crate::effect::{EffectView, SchedulerEffect};
use crate::event::{EventView, SchedulerEvent};
use crate::failure::{FailureReason, ReasonView};
use crate::graph;
use crate::graph::{
    ModelTier, Node, NodeId, NodeKind, NodeOrigin, NodeStatus, NodeView, OriginView, RunGraph,
};
use crate::invariants;
use crate::invariants::invalid_node_event_reason;
use crate::manifest;
use crate::manifest::{TaskRecord, TaskRecordView};
use crate::mutations;
use crate::mutations::validate_plan_child_depths;
use crate::node_ids;
use crate::node_ids::{mint_ids, new_node_id};
use crate::queries;
use crate::queries::{MAX_GRAPH_NODES, MAX_PLAN_DEPTH};
use crate::recovery;
use crate::recovery::route_recovery;
use crate::search;
use crate::state;
use crate::state::{
    failed_transition, quiet_transition, SchedulerState, StateView, StepView, Transition,
};
use crate::teams;
use crate::teams::{ConfigView, RunConfig, TeamConfig, TeamView, Trigger};
use crate::text::{copy_opt_text, copy_texts, Text};
use crate::triggers;
use crate::triggers::{find_incomplete_terminal_team, plan_team_spawns};
use crate::types;
use crate::types::{PlanOutput, PlannerTaskView, RequestView, WorkOutput};
use crate::validation_plan::copy_opt_plan;

verus! {

// ── starting ───────────────────────────────────────────────────────────────

/// The external input to the scheduler.
pub struct RunRequest {
    /// What this run should accomplish.
    pub objective: String,
}

/// The team at a position, if it acts at the start.
pub open spec fn start_check(teams: Seq<TeamView>) -> spec_fn(int) -> Option<TeamView> {
    |i: int|
        if teams[i].trigger is Start {
            Some(teams[i])
        } else {
            None
        }
}

/// The first team that acts at the start.
pub open spec fn start_team(teams: Seq<TeamView>) -> Option<TeamView> {
    search::first_some(teams.len(), start_check(teams))
}

/// The root node of a run: a plan for the objective, owned by the team that
/// acts at the start if there is one.
pub open spec fn root_node(objective: Text, config: ConfigView, id: Text) -> NodeView {
    let team = start_team(config.teams);
    NodeView {
        id,
        kind: NodeKind::Plan,
        team: if team is Some {
            team->0.name
        } else {
            Seq::empty()
        },
        task_id: None,
        adapter: if team is Some {
            team->0.adapter
        } else {
            Seq::empty()
        },
        northstar: if team is Some {
            team->0.northstar
        } else {
            Seq::empty()
        },
        worker_role: None,
        objective,
        target_files: Seq::empty(),
        required_validation_targets: Seq::empty(),
        dependencies: Seq::empty(),
        status: NodeStatus::Pending,
        attempt: 0,
        plan_depth: 0,
        model_tier: ModelTier::Cheap,
        summary: None,
        origin: OriginView::Root,
        validation_plan: None,
        retry_feedback: None,
    }
}

/// The state a run starts in.
pub open spec fn initial(objective: Text, config: ConfigView, id: Text) -> StateView {
    StateView::Active { graph: seq![root_node(objective, config, id)], run_config: config }
}

// ── dispatching ────────────────────────────────────────────────────────────

/// The effect that runs a node of the graph.
pub open spec fn run_effect(g: Seq<NodeView>, id: Text) -> EffectView {
    let n = queries::lookup(g, id)->0;
    EffectView::RunNode {
        node_id: id,
        worker_role: n.worker_role,
        kind: n.kind,
        objective: n.objective,
        target_files: n.target_files,
        test_plan_context: closure::test_plan_context(g, n),
        model_tier: n.model_tier,
        attempt: n.attempt,
        retry_feedback: n.retry_feedback,
        team: n.team,
        adapter: n.adapter,
        northstar: n.northstar,
    }
}

/// The effects that run some nodes of the graph.
pub open spec fn run_effects(g: Seq<NodeView>, ids: Seq<Text>) -> Seq<EffectView> {
    ids.map_values(|id: Text| run_effect(g, id))
}

/// `n`, running if its id is among `ids`.
pub open spec fn dispatched_node(n: NodeView, ids: Seq<Text>) -> NodeView {
    if ids.contains(n.id) {
        NodeView { status: NodeStatus::Running, ..n }
    } else {
        n
    }
}

/// The graph with some nodes running.
pub open spec fn dispatched(g: Seq<NodeView>, ids: Seq<Text>) -> Seq<NodeView> {
    g.map_values(|n: NodeView| dispatched_node(n, ids))
}

/// The nodes to dispatch now: the first ready ones, as many as slots are free.
pub open spec fn chosen(g: Seq<NodeView>, config: ConfigView) -> Seq<Text> {
    let order = queries::dispatch_order(g);
    let free = teams::slots(config) - queries::active(g).len();
    if order.len() <= free {
        order
    } else {
        order.take(free)
    }
}

/// What a tick does: fail on a broken graph or a full one, finish when every
/// node is done, wait when nothing is ready, dispatch otherwise.
pub open spec fn start_step(g: Seq<NodeView>, config: ConfigView) -> StepView {
    let active = queries::active(g);
    match invariants::graph_violation(g) {
        Some(detail) => state::failed(g, ReasonView::GraphInvariantViolation(detail)),
        None => if active.len() >= teams::slots(config) {
            state::failed(
                g,
                ReasonView::ProtocolViolation(
                    "invalid running state: node "@ + active[0].id + " is "@
                        + invariants::status_name(active[0].status),
                ),
            )
        } else if queries::all_terminal(g) {
            match invariants::missing_tests(g) {
                Some(detail) => state::failed(g, ReasonView::RequiredTestTargetsMissing(detail)),
                None => state::quiet(StateView::Complete { graph: g }),
            }
        } else if queries::dispatch_order(g).len() == 0 {
            if active.len() == 0 {
                state::failed(g, ReasonView::Deadlock(invariants::deadlock_message(g)))
            } else {
                state::quiet(StateView::Waiting { graph: g, run_config: config })
            }
        } else {
            StepView {
                state: StateView::Waiting {
                    graph: dispatched(g, chosen(g, config)),
                    run_config: config,
                },
                effects: run_effects(g, chosen(g, config)),
            }
        },
    }
}

// ── results ────────────────────────────────────────────────────────────────

/// A protocol violation, with nothing changed.
pub open spec fn violation(g: Seq<NodeView>, detail: Text) -> StepView {
    state::failed(g, ReasonView::ProtocolViolation(detail))
}

/// What an accepted plan of `n` does: its children are inserted, or its tasks
/// are handed to integration. A plan that breaks a limit fails the run.
pub open spec fn plan_step(
    config: ConfigView,
    g: Seq<NodeView>,
    n: NodeView,
    children: Seq<RequestView>,
    tasks: Seq<PlannerTaskView>,
    ids: Seq<Text>,
) -> StepView {
    match invariants::plan_violation(g, children) {
        Some(detail) => state::failed(g, ReasonView::GraphInvariantViolation(detail)),
        None => if g.len() + children.len() > MAX_GRAPH_NODES {
            state::failed(g, ReasonView::GraphCapacityExceeded { limit: MAX_GRAPH_NODES })
        } else if mutations::depth_violation(n.plan_depth, children) is Some {
            state::failed(
                mutations::mark(g, n.id, NodeStatus::Failed),
                ReasonView::PlanDepthExceeded { limit: MAX_PLAN_DEPTH },
            )
        } else if tasks.len() == 0 {
            state::quiet(
                state::resumed(
                    mutations::mark(g, n.id, NodeStatus::Completed) + mutations::child_nodes(
                        n,
                        children,
                        ids,
                    ),
                    config,
                ),
            )
        } else {
            StepView {
                state: StateView::Waiting {
                    graph: mutations::mark(g, n.id, NodeStatus::Integrating),
                    run_config: config,
                },
                effects: seq![
                    EffectView::IntegratePlannerTasks { node_id: n.id, tasks, team: n.team },
                ],
            }
        },
    }
}

/// What accepted work of `n` does: it is handed to integration.
pub open spec fn work_step(
    config: ConfigView,
    g: Seq<NodeView>,
    n: NodeView,
    summary: Text,
) -> StepView {
    StepView {
        state: StateView::Waiting {
            graph: mutations::mark(g, n.id, NodeStatus::Integrating),
            run_config: config,
        },
        effects: seq![
            EffectView::IntegrateWork {
                node_id: n.id,
                objective: n.objective,
                summary,
                attempt: n.attempt,
                target_files: n.target_files,
                validation_plan: n.validation_plan,
                team: n.team,
                task_id: n.task_id,
            },
        ],
    }
}

/// What a node's result does once it is known to be in place.
pub open spec fn accepted_step(
    config: ConfigView,
    g: Seq<NodeView>,
    n: NodeView,
    event: EventView,
    ids: Seq<Text>,
) -> StepView {
    match event {
        EventView::PlanAccepted { children, tasks, .. } => plan_step(
            config,
            g,
            n,
            children,
            tasks,
            ids,
        ),
        EventView::WorkAccepted { summary, .. } => work_step(config, g, n, summary),
        EventView::NodeFailed { failure, .. } => recovery::recovery_step(
            config,
            g,
            n,
            failure,
            ids[0],
        ),
        _ => state::quiet(StateView::Waiting { graph: g, run_config: config }),
    }
}

/// What a node's result does.
pub open spec fn node_result_step(
    config: ConfigView,
    g: Seq<NodeView>,
    id: Text,
    event: EventView,
    ids: Seq<Text>,
) -> StepView {
    match invariants::delivery_violation(g, teams::slots(config), id, "result"@) {
        Some(detail) => violation(g, detail),
        None => match invariants::return_violation(g, id) {
            Some(detail) => violation(g, detail),
            None => {
                let n = queries::lookup(g, id)->0;
                match invariants::outcome_violation(id, n.kind, event) {
                    Some(detail) => violation(g, detail),
                    None => accepted_step(config, g, n, event, ids),
                }
            },
        },
    }
}

/// What follows once a node is completed and the manifest is known: teams
/// that should act get nodes below `depth`. When everything is done but a
/// terminal team has not acted on all its tasks, the run fails.
pub open spec fn triggered_step(
    config: ConfigView,
    g: Seq<NodeView>,
    depth: usize,
    m: Seq<TaskRecordView>,
    ids: Seq<Text>,
) -> StepView {
    match triggers::triggered(g, config, m) {
        Err(detail) => state::failed(g, ReasonView::TargetDerivationFailed(detail)),
        Ok(requests) => {
            let grown = g + mutations::spawned_nodes(depth, requests, ids);
            match triggers::incomplete_terminal_team(config, m) {
                Some((team, task_ids)) => if queries::all_terminal(grown) {
                    state::failed(grown, ReasonView::TerminalTeamIncomplete { team, task_ids })
                } else {
                    state::quiet(state::resumed(grown, config))
                },
                None => state::quiet(state::resumed(grown, config)),
            }
        },
    }
}

/// What the result of a work integration does.
pub open spec fn integration_step(
    config: ConfigView,
    g: Seq<NodeView>,
    id: Text,
    event: EventView,
    ids: Seq<Text>,
) -> StepView {
    match invariants::delivery_violation(g, teams::slots(config), id, "integration result"@) {
        Some(detail) => violation(g, detail),
        None => match invariants::integration_violation(
            g,
            id,
            NodeKind::Work,
            "IntegrationReturned"@,
        ) {
            Some(detail) => violation(g, detail),
            None => {
                let n = queries::lookup(g, id)->0;
                match event {
                    EventView::IntegrationSucceeded { summary, manifest, .. } => triggered_step(
                        config,
                        mutations::complete_with_summary(g, id, summary),
                        n.plan_depth,
                        manifest,
                        ids,
                    ),
                    EventView::IntegrationFailed { failure, .. } => recovery::recovery_step(
                        config,
                        g,
                        n,
                        failure,
                        ids[0],
                    ),
                    _ => state::quiet(StateView::Waiting { graph: g, run_config: config }),
                }
            },
        },
    }
}

/// What the result of a planner-task integration does.
pub open spec fn planner_tasks_step(
    config: ConfigView,
    g: Seq<NodeView>,
    id: Text,
    event: EventView,
    ids: Seq<Text>,
) -> StepView {
    match invariants::delivery_violation(
        g,
        teams::slots(config),
        id,
        "planner-task integration result"@,
    ) {
        Some(detail) => violation(g, detail),
        None => match invariants::integration_violation(
            g,
            id,
            NodeKind::Plan,
            "PlannerTaskIntegrationReturned"@,
        ) {
            Some(detail) => violation(g, detail),
            None => {
                let n = queries::lookup(g, id)->0;
                match event {
                    EventView::PlannerTasksIntegrated { manifest, .. } => triggered_step(
                        config,
                        mutations::mark(g, id, NodeStatus::Completed),
                        n.plan_depth,
                        manifest,
                        ids,
                    ),
                    EventView::PlannerTasksIntegrationFailed { failure, .. } =>
                        recovery::recovery_step(config, g, n, failure, ids[0]),
                    _ => state::quiet(StateView::Waiting { graph: g, run_config: config }),
                }
            },
        },
    }
}

/// What an event does to a waiting scheduler.
pub open spec fn waiting_step(
    config: ConfigView,
    g: Seq<NodeView>,
    event: EventView,
    ids: Seq<Text>,
) -> StepView {
    match event {
        EventView::Start => violation(g, "state Waiting cannot consume Start"@),
        EventView::PlanAccepted { node_id, .. } => node_result_step(
            config,
            g,
            node_id,
            event,
            ids,
        ),
        EventView::WorkAccepted { node_id, .. } => node_result_step(
            config,
            g,
            node_id,
            event,
            ids,
        ),
        EventView::NodeFailed { node_id, .. } => node_result_step(config, g, node_id, event, ids),
        EventView::IntegrationSucceeded { node_id, .. } => integration_step(
            config,
            g,
            node_id,
            event,
            ids,
        ),
        EventView::IntegrationFailed { node_id, .. } => integration_step(
            config,
            g,
            node_id,
            event,
            ids,
        ),
        EventView::PlannerTasksIntegrated { node_id, .. } => planner_tasks_step(
            config,
            g,
            node_id,
            event,
            ids,
        ),
        EventView::PlannerTasksIntegrationFailed { node_id, .. } => planner_tasks_step(
            config,
            g,
            node_id,
            event,
            ids,
        ),
    }
}

/// What an event does to an active scheduler: it takes only `Start`.
pub open spec fn active_step(config: ConfigView, g: Seq<NodeView>, event: EventView) -> StepView {
    match event {
        EventView::Start => start_step(g, config),
        EventView::PlanAccepted { .. } => violation(
            g,
            "state Active cannot consume NodeReturned"@,
        ),
        EventView::WorkAccepted { .. } => violation(
            g,
            "state Active cannot consume NodeReturned"@,
        ),
        EventView::NodeFailed { .. } => violation(g, "state Active cannot consume NodeReturned"@),
        EventView::IntegrationSucceeded { .. } => violation(
            g,
            "state Active cannot consume IntegrationReturned"@,
        ),
        EventView::IntegrationFailed { .. } => violation(
            g,
            "state Active cannot consume IntegrationReturned"@,
        ),
        EventView::PlannerTasksIntegrated { .. } => violation(
            g,
            "state Active cannot consume PlannerTaskIntegrationReturned"@,
        ),
        EventView::PlannerTasksIntegrationFailed { .. } => violation(
            g,
            "state Active cannot consume PlannerTaskIntegrationReturned"@,
        ),
    }
}

/// The scheduler's step: from a state and an event to the next state and the
/// effects, with `ids` for the nodes it creates.
pub open spec fn next_step(state: StateView, event: EventView, ids: Seq<Text>) -> StepView {
    match state {
        StateView::Active { graph, run_config } => active_step(run_config, graph, event),
        StateView::Waiting { graph, run_config } => waiting_step(run_config, graph, event, ids),
        StateView::Complete { graph } => violation(graph, "event delivered to terminal state"@),
        StateView::Failed { graph, .. } => violation(graph, "event delivered to terminal state"@),
    }
}

/// How many ids the triggers use up.
pub open spec fn trigger_ids(g: Seq<NodeView>, config: ConfigView, m: Seq<TaskRecordView>) -> nat {
    match triggers::triggered(g, config, m) {
        Ok(requests) => requests.len(),
        Err(_) => 0,
    }
}

/// How many ids a step can use up.
pub open spec fn ids_needed(state: StateView, event: EventView) -> nat {
    match state {
        StateView::Waiting { graph, run_config } => match event {
            EventView::PlanAccepted { children, .. } => children.len(),
            EventView::NodeFailed { .. } => 1,
            EventView::IntegrationFailed { .. } => 1,
            EventView::PlannerTasksIntegrationFailed { .. } => 1,
            EventView::IntegrationSucceeded { node_id, summary, manifest } => trigger_ids(
                mutations::complete_with_summary(graph, node_id, summary),
                run_config,
                manifest,
            ),
            EventView::PlannerTasksIntegrated { node_id, manifest } => trigger_ids(
                mutations::mark(graph, node_id, NodeStatus::Completed),
                run_config,
                manifest,
            ),
            EventView::Start => 0,
            EventView::WorkAccepted { .. } => 0,
        },
        _ => 0,
    }
}

// ── outputs ────────────────────────────────────────────────────────────────

/// What recovery occurred during a run.
#[derive(Clone, Debug, PartialEq)]
pub struct RecoverySummary {
    /// Whether any recovery occurred.
    pub recovered: bool,
    /// Nodes created by `Retry`.
    pub retry_count: usize,
    /// Nodes created by `ElevateModel`.
    pub elevate_count: usize,
    /// Nodes created by `Split`.
    pub split_count: usize,
}

/// The number of nodes of each kind of recovery.
pub open spec fn retry_nodes(g: Seq<NodeView>) -> nat {
    g.filter(|n: NodeView| n.origin is Retry).len()
}

/// The number of nodes created by `ElevateModel`.
pub open spec fn elevate_nodes(g: Seq<NodeView>) -> nat {
    g.filter(|n: NodeView| n.origin is ElevateModel).len()
}

/// The number of nodes created by `Split`.
pub open spec fn split_nodes(g: Seq<NodeView>) -> nat {
    g.filter(|n: NodeView| n.origin is Split).len()
}

/// The summary counts the replacements in the graph.
pub open spec fn summarizes(summary: RecoverySummary, g: Seq<NodeView>) -> bool {
    &&& summary.retry_count == retry_nodes(g)
    &&& summary.elevate_count == elevate_nodes(g)
    &&& summary.split_count == split_nodes(g)
    &&& summary.recovered == (retry_nodes(g) + elevate_nodes(g) + split_nodes(g) > 0)
}

impl RecoverySummary {
    /// Counts the replacements in a graph.
    pub fn from_graph(graph: &RunGraph) -> (summary: RecoverySummary)
        ensures
            summarizes(summary, graph@),
    {
        let ghost retry = |n: NodeView| n.origin is Retry;
        let ghost elevate = |n: NodeView| n.origin is ElevateModel;
        let ghost split = |n: NodeView| n.origin is Split;
        let mut retry_count: usize = 0;
        let mut elevate_count: usize = 0;
        let mut split_count: usize = 0;
        let mut i: usize = 0;
        proof {
            reveal(Seq::filter);
            assert(graph@.take(0).len() == 0);
        }
        while i < graph.nodes.len()
            invariant
                i <= graph.nodes.len(),
                retry == (|n: NodeView| n.origin is Retry),
                elevate == (|n: NodeView| n.origin is ElevateModel),
                split == (|n: NodeView| n.origin is Split),
                retry_count + elevate_count + split_count <= i,
                retry_count == graph@.take(i as int).filter(retry).len(),
                elevate_count == graph@.take(i as int).filter(elevate).len(),
                split_count == graph@.take(i as int).filter(split).len(),
            decreases graph.nodes.len() - i,
        {
            proof {
                queries::lemma_filter_step(graph@, retry, i as int);
                queries::lemma_filter_step(graph@, elevate, i as int);
                queries::lemma_filter_step(graph@, split, i as int);
                assert(graph@[i as int] == graph.nodes@[i as int]@);
            }
            match &graph.nodes[i].origin {
                NodeOrigin::Retry { .. } => {
                    retry_count += 1;
                },
                NodeOrigin::ElevateModel { .. } => {
                    elevate_count += 1;
                },
                NodeOrigin::Split { .. } => {
                    split_count += 1;
                },
                NodeOrigin::Root => {},
                NodeOrigin::PlanExpansion => {},
            }
            i += 1;
        }
        assert(graph@.take(graph@.len() as int) =~= graph@);
        RecoverySummary {
            recovered: retry_count > 0 || elevate_count > 0 || split_count > 0,
            retry_count,
            elevate_count,
            split_count,
        }
    }
}

/// The terminal result of a scheduler run.
#[derive(Clone, Debug, PartialEq)]
pub enum SchedulerTerminalOutput {
    /// Every node reached a terminal status and the run succeeded.
    Complete {
        /// The final graph.
        graph: RunGraph,
        /// Which recovery actions occurred.
        recovery_summary: RecoverySummary,
    },
    /// The run was halted.
    Failed {
        /// The graph at the point of failure.
        graph: RunGraph,
        /// The cause.
        reason: FailureReason,
    },
}

/// The output is that of a run that ended in the state.
pub open spec fn is_output_of(output: SchedulerTerminalOutput, state: StateView) -> bool {
    match output {
        SchedulerTerminalOutput::Complete { graph, recovery_summary } => state
            == StateView::Complete { graph: graph@ } && summarizes(recovery_summary, graph@),
        SchedulerTerminalOutput::Failed { graph, reason } => state == StateView::Failed {
            graph: graph@,
            reason: reason@,
        },
    }
}

// ── the machine ────────────────────────────────────────────────────────────

/// The scheduler state machine. It has no data of its own: everything durable
/// travels in the state.
pub struct SchedulerMachine;

fn find_start_team(teams: &Vec<TeamConfig>) -> (found: Option<&TeamConfig>)
    ensures
        match found {
            Some(t) => start_team(teams@.map_values(|t: TeamConfig| t@)) == Some(t@),
            None => start_team(teams@.map_values(|t: TeamConfig| t@)) is None,
        },
{
    let ghost views = teams@.map_values(|t: TeamConfig| t@);
    let mut i: usize = 0;
    while i < teams.len()
        invariant
            i <= teams.len(),
            views == teams@.map_values(|t: TeamConfig| t@),
            search::first_some(i as nat, start_check(views)) is None,
        decreases teams.len() - i,
    {
        assert(views[i as int] == teams@[i as int]@);
        match &teams[i].trigger {
            Trigger::Start => {
                proof {
                    search::lemma_first_some_extends(
                        (i + 1) as nat,
                        views.len(),
                        start_check(views),
                    );
                }
                return Some(&teams[i]);
            },
            _ => {},
        }
        i += 1;
    }
    None
}

fn dispatch_effect(graph: &RunGraph, id: &NodeId) -> (effect: SchedulerEffect)
    requires
        queries::has_id(graph@, id@),
    ensures
        effect@ == run_effect(graph@, id@),
{
    let n = graph.get_node(id);
    SchedulerEffect::RunNode {
        node_id: id.clone(),
        worker_role: copy_opt_text(&n.worker_role),
        kind: n.kind,
        objective: n.objective.clone(),
        target_files: copy_texts(&n.target_files),
        test_plan_context: graph.test_plan_context_for_node(n),
        model_tier: n.model_tier,
        attempt: n.attempt,
        retry_feedback: graph::copy_opt_feedback(&n.retry_feedback),
        team: n.team.clone(),
        adapter: n.adapter.clone(),
        northstar: n.northstar.clone(),
    }
}

/// What is dispatched is in the graph.
pub proof fn lemma_order_has_ids(g: Seq<NodeView>)
    ensures
        forall|k: int|
            0 <= k < queries::dispatch_order(g).len() ==> queries::has_id(
                g,
                #[trigger] queries::dispatch_order(g)[k],
            ),
{
    let order = queries::dispatch_order(g);
    let added = queries::ready_of(g, g, false);
    let initial = queries::ready_of(g, g, true);
    queries::lemma_filter_members(
        g,
        |n: NodeView| queries::is_ready(g, n) && (n.origin is Root <==> false),
    );
    queries::lemma_filter_members(
        g,
        |n: NodeView| queries::is_ready(g, n) && (n.origin is Root <==> true),
    );
    assert forall|k: int| 0 <= k < order.len() implies queries::has_id(g, #[trigger] order[k]) by {
        let n = if k < added.len() {
            added[added.len() - 1 - k]
        } else {
            initial[k - added.len()]
        };
        assert(order[k] == n.id);
        if k < added.len() {
            assert(added.contains(n));
        } else {
            assert(initial.contains(n));
        }
        assert(g.contains(n));
        let i = choose|i: int| 0 <= i < g.len() && g[i] == n;
        assert(g[i].id == order[k]);
    }
}

fn dispatch(graph: RunGraph, run_config: RunConfig, order: Vec<NodeId>, free: usize) -> (t:
    Transition<SchedulerState, SchedulerEffect>)
    requires
        graph::id_texts(order@) == queries::dispatch_order(graph@),
        free == teams::slots(run_config@) - queries::active(graph@).len(),
    ensures
        state::step_view(t) == (StepView {
            state: StateView::Waiting {
                graph: dispatched(graph@, chosen(graph@, run_config@)),
                run_config: run_config@,
            },
            effects: run_effects(graph@, chosen(graph@, run_config@)),
        }),
{
    let ghost g = graph@;
    let ghost ids = chosen(g, run_config@);
    let ghost full = queries::dispatch_order(g);
    proof {
        lemma_order_has_ids(g);
        assert(graph::id_texts(order@).len() == order@.len());
    }
    let count: usize = if order.len() <= free {
        order.len()
    } else {
        free
    };
    assert(ids =~= full.take(count as int));
    let mut effects: Vec<SchedulerEffect> = Vec::new();
    let mut i: usize = 0;
    while i < count
        invariant
            i <= count,
            count <= order.len(),
            graph@ == g,
            full == queries::dispatch_order(g),
            graph::id_texts(order@) == full,
            ids == full.take(count as int),
            forall|k: int| 0 <= k < full.len() ==> queries::has_id(g, #[trigger] full[k]),
            effects@.len() == i,
            forall|j: int| 0 <= j < i ==> (#[trigger] effects@[j])@ == run_effect(g, ids[j]),
        decreases count - i,
    {
        assert(full[i as int] == order@[i as int]@);
        effects.push(dispatch_effect(&graph, &order[i]));
        i += 1;
    }
    assert(effect::effect_views(effects@) =~= run_effects(g, ids));
    let mut graph = graph;
    let mut k: usize = 0;
    assert(graph@ =~= dispatched(g, ids.take(0)));
    while k < count
        invariant
            k <= count,
            count <= order.len(),
            full == queries::dispatch_order(g),
            graph::id_texts(order@) == full,
            ids == full.take(count as int),
            graph@ == dispatched(g, ids.take(k as int)),
        decreases count - k,
    {
        let ghost reached = graph@;
        assert(ids[k as int] == order@[k as int]@) by {
            assert(full[k as int] == order@[k as int]@);
        }
        graph = graph.mark_node(&order[k], NodeStatus::Running);
        proof {
            let part = ids.take(k as int);
            let grown = ids.take(k + 1);
            assert forall|j: int| 0 <= j < g.len() implies #[trigger] graph@[j] == dispatched_node(
                g[j],
                grown,
            ) by {
                assert(reached[j] == dispatched_node(g[j], part));
                assert(grown =~= part.push(ids[k as int]));
                if part.contains(g[j].id) {
                    let x = choose|x: int| 0 <= x < part.len() && part[x] == g[j].id;
                    assert(grown[x] == g[j].id);
                }
                if grown.contains(g[j].id) && g[j].id != ids[k as int] {
                    let x = choose|x: int| 0 <= x < grown.len() && grown[x] == g[j].id;
                    assert(part[x] == g[j].id);
                }
                if g[j].id == ids[k as int] {
                    assert(grown[k as int] == g[j].id);
                }
            }
            assert(graph@ =~= dispatched(g, grown));
        }
        k += 1;
    }
    assert(ids.take(count as int) =~= ids);
    Transition { state: SchedulerState::Waiting { graph, run_config }, effects }
}

fn start(graph: RunGraph, run_config: RunConfig) -> (t: Transition<SchedulerState, SchedulerEffect>)
    ensures
        state::step_view(t) == start_step(graph@, run_config@),
{
    if let Err(detail) = graph.validate_graph_invariants() {
        return failed_transition(graph, FailureReason::GraphInvariantViolation(detail));
    }
    let active = graph.active_nodes();
    let slots = run_config.slots();
    if active.len() >= slots {
        let ghost first = queries::active(graph@)[0];
        proof {
            assert(graph::id_texts(active@)[0] == active@[0]@);
            assert(queries::ids_of(queries::active(graph@))[0] == first.id);
        }
        let status = first_active_status(&graph);
        let mut detail = "invalid running state: node ".to_string();
        detail.append(active[0].0.as_str());
        detail.append(" is ");
        detail.append(status.name());
        return failed_transition(graph, FailureReason::ProtocolViolation(detail));
    }
    if graph.all_complete() {
        return match graph.validate_required_tests_completed() {
            Err(detail) => failed_transition(
                graph,
                FailureReason::RequiredTestTargetsMissing(detail),
            ),
            Ok(_) => quiet_transition(SchedulerState::Complete { graph }),
        };
    }
    let order = graph.ready_in_dispatch_order();
    assert(graph::id_texts(order@).len() == order@.len());
    if order.len() == 0 {
        if active.len() == 0 {
            let detail = graph.diagnose_no_ready();
            failed_transition(graph, FailureReason::Deadlock(detail))
        } else {
            quiet_transition(SchedulerState::Waiting { graph, run_config })
        }
    } else {
        dispatch(graph, run_config, order, slots - active.len())
    }
}

fn first_active_status(graph: &RunGraph) -> (status: NodeStatus)
    requires
        queries::active(graph@).len() > 0,
    ensures
        status == queries::active(graph@)[0].status,
{
    let ghost pred = |n: NodeView| queries::is_active(n);
    let mut i: usize = 0;
    assert(graph@.take(0).filter(pred).len() == 0) by {
        reveal(Seq::filter);
    }
    while i < graph.nodes.len()
        invariant
            i <= graph.nodes.len(),
            pred == (|n: NodeView| queries::is_active(n)),
            graph@.take(i as int).filter(pred).len() == 0,
        decreases graph.nodes.len() - i,
    {
        proof {
            queries::lemma_filter_step(graph@, pred, i as int);
            assert(graph@[i as int] == graph.nodes@[i as int]@);
        }
        let status = graph.nodes[i].status;
        if status == NodeStatus::Running || status == NodeStatus::Integrating {
            proof {
                lemma_filter_first(graph@, pred, i + 1);
            }
            return status;
        }
        i += 1;
    }
    assert(graph@.take(graph@.len() as int) =~= graph@);
    NodeStatus::Running
}

proof fn lemma_filter_first<A>(s: Seq<A>, pred: spec_fn(A) -> bool, k: int)
    requires
        0 <= k <= s.len(),
        s.take(k).filter(pred).len() > 0,
    ensures
        s.filter(pred).len() > 0,
        s.filter(pred)[0] == s.take(k).filter(pred)[0],
    decreases s.len() - k,
{
    if k == s.len() {
        assert(s.take(k) =~= s);
    } else {
        queries::lemma_filter_step(s, pred, k);
        lemma_filter_first(s, pred, k + 1);
    }
}

proof fn lemma_lookup_marked(g: Seq<NodeView>, id: Text, status: NodeStatus)
    requires
        queries::has_id(g, id),
    ensures
        queries::has_id(mutations::mark(g, id, status), id),
        queries::lookup(mutations::mark(g, id, status), id) == Some(
            mutations::marked_node(queries::lookup(g, id)->0, id, status),
        ),
{
    queries::lemma_lookup_some(g, id);
    let i = choose|i: int| queries::first_at(g, id, i);
    assert(queries::first_at(g, id, i));
    queries::lemma_lookup_at(g, id, i);
    let marked = mutations::mark(g, id, status);
    assert(marked[i].id == id);
    assert forall|j: int| 0 <= j < i implies (#[trigger] marked[j]).id != id by {
        assert(g[j].id != id);
    }
    queries::lemma_lookup_at(marked, id, i);
}

fn accept_plan(
    graph: RunGraph,
    run_config: RunConfig,
    node_id: NodeId,
    plan: PlanOutput,
    ids: &Vec<NodeId>,
) -> (t: Transition<SchedulerState, SchedulerEffect>)
    requires
        queries::has_id(graph@, node_id@),
        ids@.len() >= plan.children@.len(),
    ensures
        state::step_view(t) == plan_step(
            run_config@,
            graph@,
            queries::lookup(graph@, node_id@)->0,
            types::request_views(plan.children@),
            types::task_views(plan.tasks@),
            graph::id_texts(ids@),
        ),
{
    proof {
        queries::lemma_lookup_some(graph@, node_id@);
    }
    let ghost g = graph@;
    let ghost n = queries::lookup(g, node_id@)->0;
    let ghost children = types::request_views(plan.children@);
    if let Err(detail) = graph.validate_plan_dependencies(&plan.children) {
        return failed_transition(graph, FailureReason::GraphInvariantViolation(detail));
    }
    if !graph.graph_has_capacity(plan.children.len()) {
        return failed_transition(
            graph,
            FailureReason::GraphCapacityExceeded { limit: MAX_GRAPH_NODES },
        );
    }
    let parent_depth = graph.get_node(&node_id).plan_depth;
    if validate_plan_child_depths(parent_depth, &plan.children).is_err() {
        return failed_transition(
            graph.mark_node(&node_id, NodeStatus::Failed),
            FailureReason::PlanDepthExceeded { limit: MAX_PLAN_DEPTH },
        );
    }
    if plan.tasks.len() == 0 {
        let graph = graph.mark_node(&node_id, NodeStatus::Completed);
        proof {
            lemma_lookup_marked(g, node_id@, NodeStatus::Completed);
        }
        let graph = graph.insert_children(&node_id, &plan.children, ids);
        proof {
            let marked = mutations::marked_node(n, node_id@, NodeStatus::Completed);
            assert(mutations::child_nodes(marked, children, graph::id_texts(ids@))
                =~= mutations::child_nodes(n, children, graph::id_texts(ids@)));
        }
        quiet_transition(SchedulerState::resuming(graph, run_config))
    } else {
        let team = graph.get_node(&node_id).team.clone();
        let graph = graph.mark_node(&node_id, NodeStatus::Integrating);
        let effects = vec![
            SchedulerEffect::IntegratePlannerTasks { node_id, tasks: plan.tasks, team },
        ];
        assert(effect::effect_views(effects@) =~= seq![effects@[0]@]);
        Transition { state: SchedulerState::Waiting { graph, run_config }, effects }
    }
}

fn accept_work(graph: RunGraph, run_config: RunConfig, node_id: NodeId, work: WorkOutput) -> (t:
    Transition<SchedulerState, SchedulerEffect>)
    requires
        queries::has_id(graph@, node_id@),
    ensures
        state::step_view(t) == work_step(
            run_config@,
            graph@,
            queries::lookup(graph@, node_id@)->0,
            work.summary@,
        ),
{
    proof {
        queries::lemma_lookup_some(graph@, node_id@);
    }
    let node = graph.get_node(&node_id);
    let objective = node.objective.clone();
    let target_files = copy_texts(&node.target_files);
    let validation_plan = copy_opt_plan(&node.validation_plan);
    let attempt = node.attempt;
    let team = node.team.clone();
    let task_id = copy_opt_text(&node.task_id);
    let graph = graph.mark_node(&node_id, NodeStatus::Integrating);
    let effects = vec![
        SchedulerEffect::IntegrateWork {
            node_id,
            objective,
            work,
            attempt,
            target_files,
            validation_plan,
            team,
            task_id,
        },
    ];
    assert(effect::effect_views(effects@) =~= seq![effects@[0]@]);
    Transition { state: SchedulerState::Waiting { graph, run_config }, effects }
}

fn node_result(
    graph: RunGraph,
    run_config: RunConfig,
    node_id: NodeId,
    event: SchedulerEvent,
    ids: Vec<NodeId>,
) -> (t: Transition<SchedulerState, SchedulerEffect>)
    requires
        event is PlanAccepted || event is WorkAccepted || event is NodeFailed,
        ids@.len() >= ids_needed(
            StateView::Waiting { graph: graph@, run_config: run_config@ },
            event@,
        ),
    ensures
        state::step_view(t) == node_result_step(
            run_config@,
            graph@,
            node_id@,
            event@,
            graph::id_texts(ids@),
        ),
{
    let slots = run_config.slots();
    if let Err(detail) = graph.resolve_in_flight(slots, &node_id, "result") {
        return failed_transition(graph, FailureReason::ProtocolViolation(detail));
    }
    if let Some(detail) = graph.invalid_node_return_reason(&node_id) {
        return failed_transition(graph, FailureReason::ProtocolViolation(detail));
    }
    proof {
        queries::lemma_lookup_some(graph@, node_id@);
    }
    let kind = graph.get_node(&node_id).kind;
    if let Some(detail) = invalid_node_event_reason(&node_id, kind, &event) {
        return failed_transition(graph, FailureReason::ProtocolViolation(detail));
    }
    match event {
        SchedulerEvent::PlanAccepted { plan, .. } => accept_plan(
            graph,
            run_config,
            node_id,
            plan,
            &ids,
        ),
        SchedulerEvent::WorkAccepted { work, .. } => accept_work(graph, run_config, node_id, work),
        SchedulerEvent::NodeFailed { failure, .. } => {
            assert(graph::id_texts(ids@)[0] == ids@[0]@);
            route_recovery(
                run_config,
                graph,
                &node_id,
                failure.kind,
                failure.message,
                failure.recovery,
                ids[0].clone(),
            )
        },
        _ => quiet_transition(SchedulerState::Waiting { graph, run_config }),
    }
}

fn trigger_teams(
    graph: RunGraph,
    run_config: RunConfig,
    depth: usize,
    m: &Vec<TaskRecord>,
    ids: &Vec<NodeId>,
) -> (t: Transition<SchedulerState, SchedulerEffect>)
    requires
        ids@.len() >= trigger_ids(graph@, run_config@, manifest::record_views(m@)),
    ensures
        state::step_view(t) == triggered_step(
            run_config@,
            graph@,
            depth,
            manifest::record_views(m@),
            graph::id_texts(ids@),
        ),
{
    match plan_team_spawns(&graph, &run_config, m) {
        Err(detail) => failed_transition(graph, FailureReason::TargetDerivationFailed(detail)),
        Ok(requests) => {
            let graph = graph.insert_spawned(depth, &requests, ids);
            match find_incomplete_terminal_team(&run_config, m) {
                Some(found) => {
                    if graph.all_complete() {
                        let (team, task_ids) = found;
                        failed_transition(
                            graph,
                            FailureReason::TerminalTeamIncomplete { team, task_ids },
                        )
                    } else {
                        quiet_transition(SchedulerState::resuming(graph, run_config))
                    }
                },
                None => quiet_transition(SchedulerState::resuming(graph, run_config)),
            }
        },
    }
}

fn integration_result(
    graph: RunGraph,
    run_config: RunConfig,
    node_id: NodeId,
    event: SchedulerEvent,
    ids: Vec<NodeId>,
) -> (t: Transition<SchedulerState, SchedulerEffect>)
    requires
        event matches SchedulerEvent::IntegrationSucceeded { node_id: id, .. } ==> id@ == node_id@,
        event is IntegrationSucceeded || event is IntegrationFailed,
        ids@.len() >= ids_needed(
            StateView::Waiting { graph: graph@, run_config: run_config@ },
            event@,
        ),
    ensures
        state::step_view(t) == integration_step(
            run_config@,
            graph@,
            node_id@,
            event@,
            graph::id_texts(ids@),
        ),
{
    let slots = run_config.slots();
    if let Err(detail) = graph.resolve_in_flight(slots, &node_id, "integration result") {
        return failed_transition(graph, FailureReason::ProtocolViolation(detail));
    }
    if let Some(detail) = graph.invalid_integration_reason(&node_id) {
        return failed_transition(graph, FailureReason::ProtocolViolation(detail));
    }
    proof {
        queries::lemma_lookup_some(graph@, node_id@);
    }
    match event {
        SchedulerEvent::IntegrationSucceeded { output, manifest_tasks, .. } => {
            let depth = graph.get_node(&node_id).plan_depth;
            let graph = graph.mark_node_completed_with_summary(&node_id, output.summary);
            trigger_teams(graph, run_config, depth, &manifest_tasks, &ids)
        },
        SchedulerEvent::IntegrationFailed { failure, .. } => {
            assert(graph::id_texts(ids@)[0] == ids@[0]@);
            route_recovery(
                run_config,
                graph,
                &node_id,
                failure.kind,
                failure.message,
                failure.recovery,
                ids[0].clone(),
            )
        },
        _ => quiet_transition(SchedulerState::Waiting { graph, run_config }),
    }
}

fn planner_task_result(
    graph: RunGraph,
    run_config: RunConfig,
    node_id: NodeId,
    event: SchedulerEvent,
    ids: Vec<NodeId>,
) -> (t: Transition<SchedulerState, SchedulerEffect>)
    requires
        event matches SchedulerEvent::PlannerTasksIntegrated { node_id: id, .. } ==> id@
            == node_id@,
        event is PlannerTasksIntegrated || event is PlannerTasksIntegrationFailed,
        ids@.len() >= ids_needed(
            StateView::Waiting { graph: graph@, run_config: run_config@ },
            event@,
        ),
    ensures
        state::step_view(t) == planner_tasks_step(
            run_config@,
            graph@,
            node_id@,
            event@,
            graph::id_texts(ids@),
        ),
{
    let slots = run_config.slots();
    if let Err(detail) = graph.resolve_in_flight(
        slots,
        &node_id,
        "planner-task integration result",
    ) {
        return failed_transition(graph, FailureReason::ProtocolViolation(detail));
    }
    if let Some(detail) = graph.invalid_planner_task_integration_reason(&node_id) {
        return failed_transition(graph, FailureReason::ProtocolViolation(detail));
    }
    proof {
        queries::lemma_lookup_some(graph@, node_id@);
    }
    match event {
        SchedulerEvent::PlannerTasksIntegrated { manifest_tasks, .. } => {
            let depth = graph.get_node(&node_id).plan_depth;
            let graph = graph.mark_node(&node_id, NodeStatus::Completed);
            trigger_teams(graph, run_config, depth, &manifest_tasks, &ids)
        },
        SchedulerEvent::PlannerTasksIntegrationFailed { failure, .. } => {
            assert(graph::id_texts(ids@)[0] == ids@[0]@);
            route_recovery(
                run_config,
                graph,
                &node_id,
                failure.kind,
                failure.message,
                failure.recovery,
                ids[0].clone(),
            )
        },
        _ => quiet_transition(SchedulerState::Waiting { graph, run_config }),
    }
}

/// The graph with the nodes that the triggers request below the node
/// `anchor`, or why the files of one cannot be derived.
pub open spec fn with_triggered(
    g: Seq<NodeView>,
    anchor: Text,
    config: ConfigView,
    m: Seq<TaskRecordView>,
    ids: Seq<Text>,
) -> Result<Seq<NodeView>, Text> {
    match triggers::triggered(g, config, m) {
        Err(detail) => Err(detail),
        Ok(requests) => Ok(
            g + mutations::spawned_nodes(
                queries::lookup(g, anchor)->0.plan_depth,
                requests,
                ids,
            ),
        ),
    }
}

/// The value of a graph or of an error message.
pub open spec fn graph_result(r: Result<RunGraph, String>) -> Result<Seq<NodeView>, Text> {
    match r {
        Ok(graph) => Ok(graph@),
        Err(message) => Err(message@),
    }
}

/// Adds the nodes that the triggers request, below the anchor, with `ids` for
/// them. Where nothing is requested, the graph stays as it is, whatever the
/// anchor.
pub fn apply_team_triggers_with_ids(
    graph: RunGraph,
    anchor: &NodeId,
    run_config: &RunConfig,
    m: &Vec<TaskRecord>,
    ids: &Vec<NodeId>,
) -> (out: Result<RunGraph, String>)
    requires
        trigger_ids(graph@, run_config@, manifest::record_views(m@)) > 0 ==> queries::has_id(
            graph@,
            anchor@,
        ),
        ids@.len() >= trigger_ids(graph@, run_config@, manifest::record_views(m@)),
    ensures
        graph_result(out) == with_triggered(
            graph@,
            anchor@,
            run_config@,
            manifest::record_views(m@),
            graph::id_texts(ids@),
        ),
{
    let requests = match plan_team_spawns(&graph, run_config, m) {
        Ok(requests) => requests,
        Err(detail) => return Err(detail),
    };
    assert(types::request_views(requests@).len() == requests@.len());
    if requests.len() == 0 {
        assert(graph@ + mutations::spawned_nodes(
            queries::lookup(graph@, anchor@)->0.plan_depth,
            types::request_views(requests@),
            graph::id_texts(ids@),
        ) =~= graph@);
        return Ok(graph);
    }
    let depth = graph.get_node(anchor).plan_depth;
    Ok(graph.insert_spawned(depth, &requests, ids))
}

/// Adds the nodes that the triggers request, below the anchor. Their ids are
/// minted. Where nothing is requested, the graph stays as it is, whatever the
/// anchor.
pub fn apply_team_triggers(
    graph: RunGraph,
    anchor: &NodeId,
    run_config: &RunConfig,
    m: &Vec<TaskRecord>,
) -> (out: Result<RunGraph, String>)
    requires
        trigger_ids(graph@, run_config@, manifest::record_views(m@)) > 0 ==> queries::has_id(
            graph@,
            anchor@,
        ),
    ensures
        exists|ids: Seq<Text>|
            ids.len() == trigger_ids(graph@, run_config@, manifest::record_views(m@)) && (
            forall|i: int| 0 <= i < ids.len() ==> node_ids::is_v4_text(#[trigger] ids[i]))
                && graph_result(out) == #[trigger] with_triggered(
                graph@,
                anchor@,
                run_config@,
                manifest::record_views(m@),
                ids,
            ),
{
    let count = count_trigger_ids(&graph, run_config, m);
    let ids = mint_ids(count);
    proof {
        let texts = graph::id_texts(ids@);
        assert(texts.len() == count);
        assert forall|i: int| 0 <= i < texts.len() implies node_ids::is_v4_text(
            #[trigger] texts[i],
        ) by {
            assert(texts[i] == ids@[i]@);
        }
    }
    apply_team_triggers_with_ids(graph, anchor, run_config, m, &ids)
}

fn count_trigger_ids(graph: &RunGraph, run_config: &RunConfig, m: &Vec<TaskRecord>) -> (count: usize)
    ensures
        count == trigger_ids(graph@, run_config@, manifest::record_views(m@)),
{
    match plan_team_spawns(graph, run_config, m) {
        Ok(requests) => {
            assert(types::request_views(requests@).len() == requests@.len());
            requests.len()
        },
        Err(_) => 0,
    }
}

impl SchedulerMachine {
    /// Builds the state a run starts in, with a freshly minted root id.
    pub fn initial_state(request: RunRequest, run_config: RunConfig) -> (state: SchedulerState)
        ensures
            exists|id: Text|
                node_ids::is_v4_text(id) && state@ == #[trigger] initial(
                    request.objective@,
                    run_config@,
                    id,
                ),
    {
        let id = new_node_id();
        assert(node_ids::is_v4_text(id@));
        Self::initial_state_with_id(request, run_config, id)
    }

    /// Builds the state a run starts in, with the given root id.
    pub fn initial_state_with_id(request: RunRequest, run_config: RunConfig, id: NodeId) -> (state:
        SchedulerState)
        ensures
            state@ == initial(request.objective@, run_config@, id@),
    {
        let (team, adapter, northstar) = match find_start_team(&run_config.teams) {
            Some(team) => (team.name.clone(), team.adapter.clone(), team.northstar.clone()),
            None => (String::new(), String::new(), String::new()),
        };
        let root = Node {
            id,
            kind: NodeKind::Plan,
            team,
            task_id: None,
            adapter,
            northstar,
            worker_role: None,
            objective: request.objective,
            target_files: vec![],
            required_validation_targets: vec![],
            dependencies: vec![],
            status: NodeStatus::Pending,
            attempt: 0,
            plan_depth: 0,
            model_tier: ModelTier::Cheap,
            summary: None,
            origin: NodeOrigin::Root,
            validation_plan: None,
            retry_feedback: None,
        };
        proof {
            assert(root@.target_files =~= Seq::<Text>::empty());
            assert(root@.required_validation_targets =~= Seq::<Text>::empty());
            assert(root@.dependencies =~= Seq::<Text>::empty());
        }
        let graph = RunGraph { nodes: vec![root] };
        assert(graph@ =~= seq![root@]);
        SchedulerState::Active { graph, run_config }
    }

    /// The ids of the nodes that may run now, in insertion order.
    pub fn find_ready(graph: &RunGraph) -> (ready: Vec<NodeId>)
        ensures
            graph::id_texts(ready@) == queries::ready_ids(graph@),
    {
        graph.find_ready()
    }

    /// The event that sets a run going.
    pub fn start_event(&self) -> (event: SchedulerEvent)
        ensures
            event is Start,
    {
        SchedulerEvent::Start
    }

    /// How many ids the step for `event` can use up.
    pub fn ids_needed(&self, state: &SchedulerState, event: &SchedulerEvent) -> (count: usize)
        ensures
            count == ids_needed(state@, event@),
    {
        match state {
            SchedulerState::Waiting { graph, run_config } => match event {
                SchedulerEvent::PlanAccepted { plan, .. } => {
                    assert(types::request_views(plan.children@).len() == plan.children@.len());
                    plan.children.len()
                },
                SchedulerEvent::NodeFailed { .. } => 1,
                SchedulerEvent::IntegrationFailed { .. } => 1,
                SchedulerEvent::PlannerTasksIntegrationFailed { .. } => 1,
                SchedulerEvent::IntegrationSucceeded { node_id, output, manifest_tasks } => {
                    let completed = graph.clone().mark_node_completed_with_summary(
                        node_id,
                        output.summary.clone(),
                    );
                    count_trigger_ids(&completed, run_config, manifest_tasks)
                },
                SchedulerEvent::PlannerTasksIntegrated { node_id, manifest_tasks } => {
                    let completed = graph.clone().mark_node(node_id, NodeStatus::Completed);
                    count_trigger_ids(&completed, run_config, manifest_tasks)
                },
                SchedulerEvent::Start => 0,
                SchedulerEvent::WorkAccepted { .. } => 0,
            },
            _ => 0,
        }
    }

    /// Takes the step for `event`, with `ids` for the nodes it creates.
    pub fn transition_with_ids(
        &self,
        state: SchedulerState,
        event: SchedulerEvent,
        ids: Vec<NodeId>,
    ) -> (t: Transition<SchedulerState, SchedulerEffect>)
        requires
            ids@.len() >= ids_needed(state@, event@),
        ensures
            state::step_view(t) == next_step(state@, event@, graph::id_texts(ids@)),
    {
        match state {
            SchedulerState::Active { graph, run_config } => match event {
                SchedulerEvent::Start => start(graph, run_config),
                SchedulerEvent::PlanAccepted { .. }
                | SchedulerEvent::WorkAccepted { .. }
                | SchedulerEvent::NodeFailed { .. } => failed_transition(
                    graph,
                    FailureReason::ProtocolViolation(
                        "state Active cannot consume NodeReturned".to_string(),
                    ),
                ),
                SchedulerEvent::IntegrationSucceeded { .. }
                | SchedulerEvent::IntegrationFailed { .. } => failed_transition(
                    graph,
                    FailureReason::ProtocolViolation(
                        "state Active cannot consume IntegrationReturned".to_string(),
                    ),
                ),
                SchedulerEvent::PlannerTasksIntegrated { .. }
                | SchedulerEvent::PlannerTasksIntegrationFailed { .. } => failed_transition(
                    graph,
                    FailureReason::ProtocolViolation(
                        "state Active cannot consume PlannerTaskIntegrationReturned".to_string(),
                    ),
                ),
            },
            SchedulerState::Waiting { graph, run_config } => {
                let node_id = event_node_id(&event);
                match event {
                    SchedulerEvent::Start => failed_transition(
                        graph,
                        FailureReason::ProtocolViolation(
                            "state Waiting cannot consume Start".to_string(),
                        ),
                    ),
                    SchedulerEvent::PlanAccepted { .. }
                    | SchedulerEvent::WorkAccepted { .. }
                    | SchedulerEvent::NodeFailed { .. } => node_result(
                        graph,
                        run_config,
                        node_id,
                        event,
                        ids,
                    ),
                    SchedulerEvent::IntegrationSucceeded { .. }
                    | SchedulerEvent::IntegrationFailed { .. } => integration_result(
                        graph,
                        run_config,
                        node_id,
                        event,
                        ids,
                    ),
                    SchedulerEvent::PlannerTasksIntegrated { .. }
                    | SchedulerEvent::PlannerTasksIntegrationFailed { .. } => planner_task_result(
                        graph,
                        run_config,
                        node_id,
                        event,
                        ids,
                    ),
                }
            },
            SchedulerState::Complete { graph } => failed_transition(
                graph,
                FailureReason::ProtocolViolation("event delivered to terminal state".to_string()),
            ),
            SchedulerState::Failed { graph, .. } => failed_transition(
                graph,
                FailureReason::ProtocolViolation("event delivered to terminal state".to_string()),
            ),
        }
    }

    /// Takes the step for `event`. Only the ids of new nodes are not
    /// determined by the state and the event: they are minted at random.
    pub fn transition(&self, state: SchedulerState, event: SchedulerEvent) -> (t: Transition<
        SchedulerState,
        SchedulerEffect,
    >)
        ensures
            exists|ids: Seq<Text>|
                ids.len() == ids_needed(state@, event@) && (forall|i: int|
                    0 <= i < ids.len() ==> node_ids::is_v4_text(#[trigger] ids[i]))
                    && state::step_view(t) == #[trigger] next_step(state@, event@, ids),
    {
        let count = self.ids_needed(&state, &event);
        let ids = mint_ids(count);
        proof {
            let texts = graph::id_texts(ids@);
            assert(texts.len() == ids_needed(state@, event@));
            assert forall|i: int| 0 <= i < texts.len() implies node_ids::is_v4_text(
                #[trigger] texts[i],
            ) by {
                assert(texts[i] == ids@[i]@);
            }
        }
        self.transition_with_ids(state, event, ids)
    }

    /// The output of a run that has ended in `state`; `None` for a run that
    /// goes on.
    pub fn output(&self, state: &SchedulerState) -> (output: Option<SchedulerTerminalOutput>)
        ensures
            output is Some <==> state::is_final(state@),
            output matches Some(o) ==> is_output_of(o, state@),
    {
        match state {
            SchedulerState::Complete { graph } => Some(
                SchedulerTerminalOutput::Complete {
                    recovery_summary: RecoverySummary::from_graph(graph),
                    graph: graph.clone(),
                },
            ),
            SchedulerState::Failed { graph, reason } => Some(
                SchedulerTerminalOutput::Failed { graph: graph.clone(), reason: reason.clone() },
            ),
            _ => None,
        }
    }
}

/// The node that an event is about.
pub open spec fn node_of(event: EventView) -> Text {
    match event {
        EventView::Start => Seq::empty(),
        EventView::PlanAccepted { node_id, .. } => node_id,
        EventView::WorkAccepted { node_id, .. } => node_id,
        EventView::NodeFailed { node_id, .. } => node_id,
        EventView::IntegrationSucceeded { node_id, .. } => node_id,
        EventView::IntegrationFailed { node_id, .. } => node_id,
        EventView::PlannerTasksIntegrated { node_id, .. } => node_id,
        EventView::PlannerTasksIntegrationFailed { node_id, .. } => node_id,
    }
}

/// The node that an event is about.
pub fn event_node_id(event: &SchedulerEvent) -> (id: NodeId)
    ensures
        id@ == node_of(event@),
{
    match event {
        SchedulerEvent::Start => NodeId(String::new()),
        SchedulerEvent::PlanAccepted { node_id, .. } => node_id.clone(),
        SchedulerEvent::WorkAccepted { node_id, .. } => node_id.clone(),
        SchedulerEvent::NodeFailed { node_id, .. } => node_id.clone(),
        SchedulerEvent::IntegrationSucceeded { node_id, .. } => node_id.clone(),
        SchedulerEvent::IntegrationFailed { node_id, .. } => node_id.clone(),
        SchedulerEvent::PlannerTasksIntegrated { node_id, .. } => node_id.clone(),
        SchedulerEvent::PlannerTasksIntegrationFailed { node_id, .. } => node_id.clone(),
    }
}

} // verus!
