//! What the results of nodes and of integrations do to a run.

use vstd::prelude::*;

use crate::effect::EffectView;
use crate::event::EventView;
use crate::failure::{ExhaustedAction, FailureKind, ReasonView};
use crate::graph::{NodeKind, NodeStatus, NodeView, OriginView};
use crate::invariants;
use crate::laws::plain;
use crate::machine;
use crate::manifest::TaskRecordView;
use crate::mutations;
use crate::queries;
use crate::recovery;
use crate::search;
use crate::soundness;
use crate::state;
use crate::state::{StateView, StepView};
use crate::teams;
use crate::teams::ConfigView;
use crate::text::Text;
use crate::triggers;
use crate::types::{FailureView, RecoveryView, RequestView};

verus! {

/// A delivery to a waiting scheduler.
pub open spec fn result(
    g: Seq<NodeView>,
    config: ConfigView,
    event: EventView,
    ids: Seq<Text>,
) -> StepView {
    machine::next_step(StateView::Waiting { graph: g, run_config: config }, event, ids)
}

/// The node that an event is about.
pub open spec fn subject(event: EventView) -> Text {
    match event {
        EventView::Start => Seq::empty(),
        EventView::PlanAccepted { node_id, .. } => node_id,
        EventView::WorkAccepted { node_id, .. } => node_id,
        EventView::NodeFailed { node_id, .. } => node_id,
        EventView::IntegrationSucceeded { node_id, .. } => node_id,
        EventView::IntegrationFailed { node_id, .. } => node_id,
        EventView::PlannerTasksIntegrated { node_id, .. } => node_id,
        EventView::PlannerTasksIntegrationFailed { node_id, .. } => node_id,
    }
}

/// Whether a node is where the event finds it: a node that returns is running,
/// and returns what its kind returns; one that was integrated was integrating.
pub open spec fn expects(event: EventView, n: NodeView) -> bool {
    match event {
        EventView::Start => false,
        EventView::PlanAccepted { .. } => n.status is Running && n.kind is Plan,
        EventView::WorkAccepted { .. } => n.status is Running && n.kind is Work,
        EventView::NodeFailed { .. } => n.status is Running,
        EventView::IntegrationSucceeded { .. } => n.status is Integrating && n.kind is Work,
        EventView::IntegrationFailed { .. } => n.status is Integrating && n.kind is Work,
        EventView::PlannerTasksIntegrated { .. } => n.status is Integrating && n.kind is Plan,
        EventView::PlannerTasksIntegrationFailed { .. } => n.status is Integrating
            && n.kind is Plan,
    }
}

/// Whether an event is in turn: the cap is kept, and the node at `i` is the
/// one that the event is about and is where the event finds it.
pub open spec fn in_turn(g: Seq<NodeView>, config: ConfigView, event: EventView, i: int) -> bool {
    &&& plain::is_first(g, subject(event), i)
    &&& expects(event, g[i])
    &&& plain::in_flight(g) <= plain::room(config)
}

proof fn lemma_in_turn(g: Seq<NodeView>, config: ConfigView, event: EventView, label: Text, i: int)
    requires
        plain::is_first(g, subject(event), i),
        plain::is_in_flight(g[i]),
        plain::in_flight(g) <= plain::room(config),
    ensures
        queries::lookup(g, subject(event)) == Some(g[i]),
        invariants::delivery_violation(g, teams::slots(config), subject(event), label) is None,
{
    assert(queries::first_at(g, subject(event), i));
    queries::lemma_lookup_at(g, subject(event), i);
    plain::lemma_in_flight(g);
    plain::lemma_counts(g, i);
    let active = queries::active(g);
    queries::lemma_filter_members(g, |n: NodeView| queries::is_active(n));
    assert(g.contains(g[i]));
    assert(active.contains(g[i]));
    let k = choose|k: int| 0 <= k < active.len() && active[k] == g[i];
    assert(queries::ids_of(active)[k] == subject(event));
    assert(queries::ids_of(active).len() == active.len());
}

/// An event out of turn fails the run and changes nothing: one about no node,
/// about a node that is not where the event finds it, or delivered while more
/// nodes are in flight than may be.
pub proof fn law_results_out_of_turn_fail(
    g: Seq<NodeView>,
    config: ConfigView,
    event: EventView,
    ids: Seq<Text>,
)
    requires
        forall|i: int| !(#[trigger] in_turn(g, config, event, i)),
    ensures
        result(g, config, event, ids).effects.len() == 0,
        result(g, config, event, ids).state matches StateView::Failed { graph, reason } && graph
            == g && reason is ProtocolViolation,
{
    let id = subject(event);
    plain::lemma_in_flight(g);
    assert(queries::ids_of(queries::active(g)).len() == queries::active(g).len());
    if let Some(n) = queries::lookup(g, id) {
        let i = choose|i: int| queries::first_at(g, id, i);
        assert(queries::first_at(g, id, i));
        assert(n == g[i]);
        assert(plain::is_first(g, id, i));
        assert(!in_turn(g, config, event, i));
    }
}

// ── accepted work ──────────────────────────────────────────────────────────

/// Accepted work is handed to integration as it is: the node is integrating,
/// nothing else changes, and one effect asks to integrate it, with the node's
/// own objective, attempt, files, team, task and validation plan and with the
/// summary of the work.
pub proof fn law_accepted_work_is_handed_on(
    g: Seq<NodeView>,
    config: ConfigView,
    event: EventView,
    ids: Seq<Text>,
    i: int,
)
    requires
        event is WorkAccepted,
        in_turn(g, config, event, i),
    ensures
        ({
            let next = result(g, config, event, ids);
            &&& next.state matches StateView::Waiting { graph: h, run_config } && run_config
                == config && h.len() == g.len() && forall|j: int|
                0 <= j < g.len() ==> #[trigger] h[j] == if g[j].id == g[i].id {
                    NodeView { status: NodeStatus::Integrating, ..g[j] }
                } else {
                    g[j]
                }
            &&& next.effects.len() == 1
            &&& next.effects[0] matches EffectView::IntegrateWork {
                node_id,
                objective,
                summary,
                attempt,
                target_files,
                validation_plan,
                team,
                task_id,
            } && node_id == g[i].id && objective == g[i].objective && summary == event->WorkAccepted_summary
                && attempt == g[i].attempt && target_files == g[i].target_files && validation_plan
                == g[i].validation_plan && team == g[i].team && task_id == g[i].task_id
        }),
{
    lemma_in_turn(g, config, event, "result"@, i);
}

// ── accepted plans ─────────────────────────────────────────────────────────

/// The request at `s` is the last of that name.
pub open spec fn is_last_named(children: Seq<RequestView>, name: Text, s: int) -> bool {
    &&& 0 <= s < children.len()
    &&& children[s].id == name
    &&& forall|t: int| s < t < children.len() ==> (#[trigger] children[t]).id != name
}

/// Every dependency of a child is a node of the graph or the name of a child.
pub open spec fn references_known(g: Seq<NodeView>, children: Seq<RequestView>) -> bool {
    forall|c: int, k: int|
        0 <= c < children.len() && 0 <= k < children[c].dependencies.len() ==> plain::known(
            g,
            #[trigger] children[c].dependencies[k],
        ) || exists|s: int|
            0 <= s < children.len() && (#[trigger] children[s]).id == children[c].dependencies[k]
}

/// How deep a child of a node at a depth is nested: plans go one deeper.
pub open spec fn nested(depth: usize, kind: NodeKind) -> int {
    if kind is Plan {
        depth + 1
    } else {
        depth as int
    }
}

/// A child becomes a new pending node with everything that was requested of
/// it, below its parent. Names of children stand for the nodes they became.
pub open spec fn becomes(
    parent: NodeView,
    children: Seq<RequestView>,
    ids: Seq<Text>,
    c: int,
    n: NodeView,
) -> bool {
    let r = children[c];
    &&& n.kind == r.kind
    &&& n.team == r.team
    &&& n.adapter == r.adapter
    &&& n.northstar == r.northstar
    &&& n.worker_role == r.worker_role
    &&& n.objective == r.objective
    &&& n.target_files == r.target_files
    &&& n.required_validation_targets == r.required_validation_targets
    &&& n.validation_plan == r.validation_plan
    &&& n.task_id == if r.task_id is Some {
        r.task_id
    } else {
        parent.task_id
    }
    &&& n.status is Pending
    &&& n.attempt == 0
    &&& n.model_tier is Cheap
    &&& n.summary is None
    &&& n.retry_feedback is None
    &&& n.origin is PlanExpansion
    &&& n.plan_depth == nested(parent.plan_depth, r.kind)
    &&& forall|s: int| #[trigger] is_last_named(children, r.id, s) ==> n.id == ids[s]
    &&& n.dependencies.len() == r.dependencies.len()
    &&& forall|k: int, s: int|
        0 <= k < r.dependencies.len() && #[trigger] is_last_named(
            children,
            #[trigger] r.dependencies[k],
            s,
        ) ==> n.dependencies[k] == ids[s]
    &&& forall|k: int|
        0 <= k < r.dependencies.len() && (forall|s: int|
            0 <= s < children.len() ==> (#[trigger] children[s]).id != r.dependencies[k])
            ==> #[trigger] n.dependencies[k] == r.dependencies[k]
}

proof fn lemma_assigned(children: Seq<RequestView>, ids: Seq<Text>, name: Text)
    ensures
        forall|s: int| #[trigger]
            is_last_named(children, name, s) ==> mutations::assigned(children, ids, name) == Some(
                ids[s],
            ),
        (forall|s: int| 0 <= s < children.len() ==> (#[trigger] children[s]).id != name)
            ==> mutations::assigned(children, ids, name) is None,
    decreases children.len(),
{
    if children.len() > 0 {
        let front = children.drop_last();
        lemma_assigned(front, ids, name);
        assert forall|s: int| #[trigger] is_last_named(children, name, s) implies
            mutations::assigned(children, ids, name) == Some(ids[s]) by {
            if s < children.len() - 1 {
                assert(children[children.len() - 1].id != name);
                assert forall|t: int| s < t < front.len() implies (#[trigger] front[t]).id
                    != name by {
                    assert(front[t] == children[t]);
                }
                assert(is_last_named(front, name, s));
            }
        }
        if forall|s: int| 0 <= s < children.len() ==> (#[trigger] children[s]).id != name {
            assert(children[children.len() - 1].id != name);
            assert forall|s: int| 0 <= s < front.len() implies (#[trigger] front[s]).id != name by {
                assert(front[s] == children[s]);
            }
        }
    }
}

proof fn lemma_becomes(
    parent: NodeView,
    children: Seq<RequestView>,
    ids: Seq<Text>,
    c: int,
)
    requires
        0 <= c < children.len(),
        parent.plan_depth < usize::MAX,
    ensures
        becomes(parent, children, ids, c, mutations::child_nodes(parent, children, ids)[c]),
{
    let n = mutations::child_nodes(parent, children, ids)[c];
    let r = children[c];
    lemma_assigned(children, ids, r.id);
    assert forall|k: int, s: int|
        0 <= k < r.dependencies.len() && #[trigger] is_last_named(
            children,
            #[trigger] r.dependencies[k],
            s,
        ) implies n.dependencies[k] == ids[s] by {
        lemma_assigned(children, ids, r.dependencies[k]);
    }
    assert forall|k: int|
        0 <= k < r.dependencies.len() && (forall|s: int|
            0 <= s < children.len() ==> (#[trigger] children[s]).id != r.dependencies[k])
        implies #[trigger] n.dependencies[k] == r.dependencies[k] by {
        lemma_assigned(children, ids, r.dependencies[k]);
    }
}

proof fn lemma_references(g: Seq<NodeView>, children: Seq<RequestView>)
    ensures
        (invariants::plan_violation(g, children) is None) == references_known(g, children),
{
    plain::lemma_words(g);
    let check = invariants::child_check(g, children);
    search::lemma_first_some_none(children.len(), check);
    assert forall|c: int| 0 <= c < children.len() implies (#[trigger] check(c) is None
        <==> forall|k: int|
        0 <= k < children[c].dependencies.len() ==> plain::known(
            g,
            #[trigger] children[c].dependencies[k],
        ) || invariants::names_sibling(children, children[c].dependencies[k])) by {
        let d = children[c].dependencies;
        let inner = invariants::reference_check(g, children, d);
        search::lemma_first_some_none(d.len(), inner);
        if forall|k: int| 0 <= k < d.len() ==> #[trigger] inner(k) is None {
            assert forall|k: int| 0 <= k < children[c].dependencies.len() implies plain::known(
                g,
                #[trigger] children[c].dependencies[k],
            ) || invariants::names_sibling(children, children[c].dependencies[k]) by {
                assert(inner(k) is None);
            }
        }
        if forall|k: int|
            0 <= k < children[c].dependencies.len() ==> plain::known(
                g,
                #[trigger] children[c].dependencies[k],
            ) || invariants::names_sibling(children, children[c].dependencies[k]) {
            assert forall|k: int| 0 <= k < d.len() implies #[trigger] inner(k) is None by {
                assert(plain::known(g, children[c].dependencies[k]) || invariants::names_sibling(
                    children,
                    children[c].dependencies[k],
                ));
            }
        }
    }
    if references_known(g, children) {
        assert forall|c: int| 0 <= c < children.len() implies #[trigger] check(c) is None by {
            assert forall|k: int| 0 <= k < children[c].dependencies.len() implies plain::known(
                g,
                #[trigger] children[c].dependencies[k],
            ) || invariants::names_sibling(children, children[c].dependencies[k]) by {}
        }
    }
    if invariants::plan_violation(g, children) is None {
        assert forall|c: int, k: int|
            0 <= c < children.len() && 0 <= k < children[c].dependencies.len() implies plain::known(
            g,
            #[trigger] children[c].dependencies[k],
        ) || exists|s: int|
            0 <= s < children.len() && (#[trigger] children[s]).id
                == children[c].dependencies[k] by {
            assert(check(c) is None);
        }
    }
}

proof fn lemma_depths(depth: usize, children: Seq<RequestView>)
    requires
        depth < usize::MAX,
    ensures
        (mutations::depth_violation(depth, children) is Some) == exists|c: int|
            0 <= c < children.len() && nested(depth, (#[trigger] children[c]).kind) > 10,
{
    let check = mutations::depth_check(depth, children);
    search::lemma_first_some_none(children.len(), check);
    assert forall|c: int| 0 <= c < children.len() implies (#[trigger] check(c) is Some) == (nested(
        depth,
        children[c].kind,
    ) > 10) by {}
    if exists|c: int| 0 <= c < children.len() && nested(depth, (#[trigger] children[c]).kind) > 10 {
        let c = choose|c: int|
            0 <= c < children.len() && nested(depth, (#[trigger] children[c]).kind) > 10;
        assert(check(c) is Some);
    }
    if mutations::depth_violation(depth, children) is Some {
        let c = search::lemma_first_some_found(children.len(), check);
        assert(nested(depth, children[c].kind) > 10);
    }
}

/// What an accepted plan does. A reference to nothing known fails the run, as
/// does a plan that would make the graph too large; one that nests too deep
/// also fails its node. A plan without tasks completes its node, and each child
/// becomes a new node, in order. Tasks of a plan are handed to integration,
/// and the node is integrating meanwhile.
pub proof fn law_accepted_plans_are_carried_out(
    g: Seq<NodeView>,
    config: ConfigView,
    event: EventView,
    ids: Seq<Text>,
    i: int,
)
    requires
        event is PlanAccepted,
        in_turn(g, config, event, i),
        g[i].plan_depth < usize::MAX,
    ensures
        ({
            let next = result(g, config, event, ids);
            let h = state::graph_of(next.state);
            let children = event->children;
            let tasks = event->tasks;
            if !references_known(g, children) {
                &&& next.effects.len() == 0
                &&& h == g
                &&& next.state matches StateView::Failed { reason, .. }
                    && reason is GraphInvariantViolation
            } else if g.len() + children.len() > 100 {
                &&& next.effects.len() == 0
                &&& h == g
                &&& next.state matches StateView::Failed { reason, .. } && reason == (
                ReasonView::GraphCapacityExceeded { limit: 100 })
            } else if exists|c: int|
                0 <= c < children.len() && nested(
                    g[i].plan_depth,
                    (#[trigger] children[c]).kind,
                ) > 10 {
                &&& next.effects.len() == 0
                &&& is_marked(g, h, g[i].id, NodeStatus::Failed)
                &&& h.len() == g.len()
                &&& next.state matches StateView::Failed { reason, .. } && reason == (
                ReasonView::PlanDepthExceeded { limit: 10 })
            } else if tasks.len() == 0 {
                &&& next.effects.len() == 0
                &&& goes_on(next.state, config)
                &&& is_marked(g, h, g[i].id, NodeStatus::Completed)
                &&& h.len() == g.len() + children.len()
                &&& forall|c: int|
                    0 <= c < children.len() ==> becomes(
                        g[i],
                        children,
                        ids,
                        c,
                        #[trigger] h[g.len() + c],
                    )
            } else {
                &&& next.state is Waiting
                &&& goes_on_as(next.state, config)
                &&& is_marked(g, h, g[i].id, NodeStatus::Integrating)
                &&& h.len() == g.len()
                &&& next.effects.len() == 1
                &&& next.effects[0] matches EffectView::IntegratePlannerTasks {
                    node_id,
                    tasks: t,
                    team,
                } && node_id == g[i].id && t == tasks && team == g[i].team
            }
        }),
{
    lemma_in_turn(g, config, event, "result"@, i);
    let children = event->children;
    lemma_references(g, children);
    lemma_depths(g[i].plan_depth, children);
    let next = result(g, config, event, ids);
    let h = state::graph_of(next.state);
    let done = mutations::mark(g, g[i].id, NodeStatus::Completed);
    let grown = done + mutations::child_nodes(g[i], children, ids);
    lemma_resumed(grown, config);
    if h == grown {
        assert forall|c: int| 0 <= c < children.len() implies becomes(
            g[i],
            children,
            ids,
            c,
            #[trigger] h[g.len() + c],
        ) by {
            lemma_becomes(g[i], children, ids, c);
            assert(h[g.len() + c] == mutations::child_nodes(g[i], children, ids)[c]);
        }
    }
}

/// The nodes that were there are as they were, but for the status of those
/// that carry the id.
pub open spec fn is_marked(
    g: Seq<NodeView>,
    h: Seq<NodeView>,
    id: Text,
    status: NodeStatus,
) -> bool {
    &&& g.len() <= h.len()
    &&& forall|j: int|
        0 <= j < g.len() ==> #[trigger] h[j] == if g[j].id == id {
            NodeView { status, ..g[j] }
        } else {
            g[j]
        }
}

/// The run goes on with the same policy.
pub open spec fn goes_on_as(s: StateView, config: ConfigView) -> bool {
    match s {
        StateView::Active { run_config, .. } => run_config == config,
        StateView::Waiting { run_config, .. } => run_config == config,
        _ => false,
    }
}

/// The run goes on: ready for a tick while there is room, waiting otherwise.
pub open spec fn goes_on(s: StateView, config: ConfigView) -> bool {
    &&& goes_on_as(s, config)
    &&& s is Active == (plain::in_flight(state::graph_of(s)) < plain::room(config))
}

proof fn lemma_resumed(g: Seq<NodeView>, config: ConfigView)
    ensures
        goes_on(state::resumed(g, config), config),
        state::graph_of(state::resumed(g, config)) == g,
{
    plain::lemma_in_flight(g);
}

// ── integrated work and tasks ──────────────────────────────────────────────

/// A request becomes a new pending node with everything that was requested of
/// it, below the node whose integration set it off.
pub open spec fn spawns(depth: usize, r: RequestView, id: Text, n: NodeView) -> bool {
    &&& n.id == id
    &&& n.kind == r.kind
    &&& n.team == r.team
    &&& n.task_id == r.task_id
    &&& n.adapter == r.adapter
    &&& n.northstar == r.northstar
    &&& n.worker_role == r.worker_role
    &&& n.objective == r.objective
    &&& n.target_files == r.target_files
    &&& n.required_validation_targets == r.required_validation_targets
    &&& n.validation_plan == r.validation_plan
    &&& n.dependencies == r.dependencies
    &&& n.status is Pending
    &&& n.attempt == 0
    &&& n.model_tier is Cheap
    &&& n.summary is None
    &&& n.retry_feedback is None
    &&& n.origin is PlanExpansion
    &&& n.plan_depth == nested(depth, r.kind)
}

/// What becomes of a run once its node is completed as in `done`: the teams
/// that should act get their nodes, in order, and the run goes on. It fails
/// where the files of a task cannot be told, and where everything is over while
/// a terminal team has tasks left.
pub open spec fn teams_act(
    done: Seq<NodeView>,
    config: ConfigView,
    depth: usize,
    m: Seq<TaskRecordView>,
    ids: Seq<Text>,
    next: StepView,
) -> bool {
    let h = state::graph_of(next.state);
    &&& next.effects.len() == 0
    &&& match triggers::triggered(done, config, m) {
        Err(message) => next.state == (StateView::Failed {
            graph: done,
            reason: ReasonView::TargetDerivationFailed(message),
        }),
        Ok(requests) => {
            &&& h.len() == done.len() + requests.len()
            &&& forall|j: int| 0 <= j < done.len() ==> #[trigger] h[j] == done[j]
            &&& forall|c: int|
                0 <= c < requests.len() ==> spawns(
                    depth,
                    requests[c],
                    ids[c],
                    #[trigger] h[done.len() + c],
                )
            &&& match triggers::incomplete_terminal_team(config, m) {
                Some((team, task_ids)) => if plain::is_over(h) {
                    next.state == (StateView::Failed {
                        graph: h,
                        reason: ReasonView::TerminalTeamIncomplete { team, task_ids },
                    })
                } else {
                    goes_on(next.state, config)
                },
                None => goes_on(next.state, config),
            }
        },
    }
}

proof fn lemma_teams_act(
    done: Seq<NodeView>,
    config: ConfigView,
    depth: usize,
    m: Seq<TaskRecordView>,
    ids: Seq<Text>,
)
    requires
        depth < usize::MAX,
    ensures
        teams_act(done, config, depth, m, ids, machine::triggered_step(config, done, depth, m, ids)),
{
    if let Ok(requests) = triggers::triggered(done, config, m) {
        let more = mutations::spawned_nodes(depth, requests, ids);
        let h = done + more;
        lemma_resumed(h, config);
        plain::lemma_words(h);
        assert forall|c: int| 0 <= c < requests.len() implies spawns(
            depth,
            requests[c],
            ids[c],
            #[trigger] h[done.len() + c],
        ) by {
            assert(h[done.len() + c] == more[c]);
        }
    }
}

/// Integrated work is complete, with the summary of its integration, and teams
/// act on the manifest that came with it. Nothing else about the nodes that
/// were there changes.
pub proof fn law_integrated_work_is_complete(
    g: Seq<NodeView>,
    config: ConfigView,
    event: EventView,
    ids: Seq<Text>,
    i: int,
)
    requires
        event is IntegrationSucceeded,
        in_turn(g, config, event, i),
        g[i].plan_depth < usize::MAX,
    ensures
        exists|done: Seq<NodeView>|
            done.len() == g.len() && (forall|j: int|
                0 <= j < g.len() ==> #[trigger] done[j] == if g[j].id == g[i].id {
                    NodeView {
                        status: NodeStatus::Completed,
                        summary: Some(event->IntegrationSucceeded_summary),
                        ..g[j]
                    }
                } else {
                    g[j]
                }) && #[trigger] teams_act(
                done,
                config,
                g[i].plan_depth,
                event->IntegrationSucceeded_manifest,
                ids,
                result(g, config, event, ids),
            ),
{
    lemma_in_turn(g, config, event, "integration result"@, i);
    let done = mutations::complete_with_summary(g, g[i].id, event->IntegrationSucceeded_summary);
    lemma_teams_act(done, config, g[i].plan_depth, event->IntegrationSucceeded_manifest, ids);
}

/// A plan whose tasks are integrated is complete, and teams act on the
/// manifest that holds them. Nothing else about the nodes that were there
/// changes.
pub proof fn law_integrated_tasks_complete_the_plan(
    g: Seq<NodeView>,
    config: ConfigView,
    event: EventView,
    ids: Seq<Text>,
    i: int,
)
    requires
        event is PlannerTasksIntegrated,
        in_turn(g, config, event, i),
        g[i].plan_depth < usize::MAX,
    ensures
        exists|done: Seq<NodeView>|
            done.len() == g.len() && (forall|j: int|
                0 <= j < g.len() ==> #[trigger] done[j] == if g[j].id == g[i].id {
                    NodeView { status: NodeStatus::Completed, ..g[j] }
                } else {
                    g[j]
                }) && #[trigger] teams_act(
                done,
                config,
                g[i].plan_depth,
                event->PlannerTasksIntegrated_manifest,
                ids,
                result(g, config, event, ids),
            ),
{
    lemma_in_turn(g, config, event, "planner-task integration result"@, i);
    let done = mutations::mark(g, g[i].id, NodeStatus::Completed);
    lemma_teams_act(done, config, g[i].plan_depth, event->PlannerTasksIntegrated_manifest, ids);
}

/// Teams that are asked to act on a graph get their nodes below the anchor.
pub proof fn law_triggered_nodes_are_added(
    g: Seq<NodeView>,
    anchor: Text,
    config: ConfigView,
    m: Seq<TaskRecordView>,
    ids: Seq<Text>,
    i: int,
)
    requires
        plain::is_first(g, anchor, i),
        g[i].plan_depth < usize::MAX,
    ensures
        match (triggers::triggered(g, config, m), machine::with_triggered(g, anchor, config, m, ids)) {
            (Err(a), Err(b)) => a == b,
            (Ok(requests), Ok(h)) => {
                &&& h.len() == g.len() + requests.len()
                &&& forall|j: int| 0 <= j < g.len() ==> #[trigger] h[j] == g[j]
                &&& forall|c: int|
                    0 <= c < requests.len() ==> spawns(
                        g[i].plan_depth,
                        requests[c],
                        ids[c],
                        #[trigger] h[g.len() + c],
                    )
            },
            _ => false,
        },
{
    assert(queries::first_at(g, anchor, i));
    queries::lemma_lookup_at(g, anchor, i);
    if let Ok(requests) = triggers::triggered(g, config, m) {
        let h = machine::with_triggered(g, anchor, config, m, ids)->Ok_0;
        assert forall|c: int| 0 <= c < requests.len() implies spawns(
            g[i].plan_depth,
            requests[c],
            ids[c],
            #[trigger] h[g.len() + c],
        ) by {
            assert(h[g.len() + c] == mutations::spawned_nodes(
                g[i].plan_depth,
                requests,
                ids,
            )[c]);
        }
    }
}

// ── failures ───────────────────────────────────────────────────────────────

/// The failure that an event reports.
pub open spec fn reported(event: EventView) -> Option<FailureView> {
    match event {
        EventView::NodeFailed { failure, .. } => Some(failure),
        EventView::IntegrationFailed { failure, .. } => Some(failure),
        EventView::PlannerTasksIntegrationFailed { failure, .. } => Some(failure),
        _ => None,
    }
}

/// There is a tier above the node's to elevate it to.
pub open spec fn can_rise(config: ConfigView, n: NodeView) -> bool {
    config.has_strong_tier && n.model_tier is Cheap
}

/// The failure is one that a worker can mend if it is told of it.
pub open spec fn can_be_told(n: NodeView, kind: FailureKind) -> bool {
    n.kind is Work && (kind is ValidationFailure || kind is WorkSemanticValidationFailure)
}

/// `r` is one more attempt at what `n` was to do: the same work for the same
/// team and task on the same files, waiting for the same nodes.
pub open spec fn tries_again(r: NodeView, n: NodeView, fresh: Text) -> bool {
    &&& r.id == fresh
    &&& r.status is Pending
    &&& r.attempt == n.attempt + 1
    &&& r.summary is None
    &&& r.team == n.team
    &&& r.task_id == n.task_id
    &&& r.adapter == n.adapter
    &&& r.northstar == n.northstar
    &&& r.objective == n.objective
    &&& r.target_files == n.target_files
    &&& r.required_validation_targets == n.required_validation_targets
}

/// The nodes that were there after `n` was replaced: those of its id have
/// failed, and pending ones wait for the replacement where they waited for it.
/// Nothing else about them changes.
pub open spec fn makes_way(g: Seq<NodeView>, h: Seq<NodeView>, id: Text, fresh: Text) -> bool {
    &&& h.len() == g.len() + 1
    &&& forall|j: int|
        0 <= j < g.len() ==> {
            &&& (#[trigger] h[j]) == (NodeView {
                status: h[j].status,
                dependencies: h[j].dependencies,
                ..g[j]
            })
            &&& h[j].status == if g[j].id == id {
                NodeStatus::Failed
            } else {
                g[j].status
            }
            &&& h[j].dependencies.len() == g[j].dependencies.len()
            &&& forall|k: int|
                0 <= k < g[j].dependencies.len() ==> #[trigger] h[j].dependencies[k] == if h[j].status
                    is Pending && g[j].dependencies[k] == id {
                    fresh
                } else {
                    g[j].dependencies[k]
                }
        }
}

proof fn lemma_makes_way(g: Seq<NodeView>, n: NodeView, r: NodeView)
    ensures
        makes_way(g, recovery::replaced(g, n, r), n.id, r.id),
{
    let h = recovery::replaced(g, n, r);
    assert forall|j: int| 0 <= j < g.len() implies {
        &&& (#[trigger] h[j]) == (NodeView {
            status: h[j].status,
            dependencies: h[j].dependencies,
            ..g[j]
        })
        &&& h[j].status == if g[j].id == n.id {
            NodeStatus::Failed
        } else {
            g[j].status
        }
        &&& h[j].dependencies.len() == g[j].dependencies.len()
        &&& forall|k: int|
            0 <= k < g[j].dependencies.len() ==> #[trigger] h[j].dependencies[k] == if h[j].status
                is Pending && g[j].dependencies[k] == n.id {
                r.id
            } else {
                g[j].dependencies[k]
            }
    } by {
        let marked = mutations::mark(g, n.id, NodeStatus::Failed).push(r);
        assert(marked[j] == mutations::marked_node(g[j], n.id, NodeStatus::Failed));
        assert(h[j] == mutations::remapped_node(marked[j], n.id, r.id));
    }
}

/// What a replacement waits for: what the failed node waited for. A node that
/// waited for itself would wait for its replacement.
pub open spec fn waits_alike(r: NodeView, n: NodeView) -> bool {
    &&& r.dependencies.len() == n.dependencies.len()
    &&& forall|k: int|
        0 <= k < n.dependencies.len() ==> #[trigger] r.dependencies[k] == if n.dependencies[k]
            == n.id {
            r.id
        } else {
            n.dependencies[k]
        }
}

proof fn lemma_replacement(g: Seq<NodeView>, n: NodeView, r: NodeView)
    requires
        r.status is Pending,
        r.dependencies == n.dependencies,
    ensures
        recovery::replaced(g, n, r).last() == (NodeView {
            dependencies: recovery::replaced(g, n, r).last().dependencies,
            ..r
        }),
        waits_alike(recovery::replaced(g, n, r).last(), n),
{
    let h = recovery::replaced(g, n, r);
    assert(h.last() == mutations::remapped_node(r, n.id, r.id));
}

proof fn lemma_failure(
    g: Seq<NodeView>,
    config: ConfigView,
    event: EventView,
    ids: Seq<Text>,
    i: int,
)
    requires
        reported(event) is Some,
        in_turn(g, config, event, i),
    ensures
        result(g, config, event, ids) == recovery::recovery_step(
            config,
            g,
            g[i],
            reported(event)->0,
            ids[0],
        ),
{
    lemma_in_turn(g, config, event, "result"@, i);
    lemma_in_turn(g, config, event, "integration result"@, i);
    lemma_in_turn(g, config, event, "planner-task integration result"@, i);
}

/// A retry is one more attempt at the same work, in the same role, at the same
/// tier and depth, validated by the same plan. A worker whose changes were
/// found wanting is told of it, other nodes are told nothing.
pub proof fn law_retries_try_the_same_again(
    g: Seq<NodeView>,
    config: ConfigView,
    event: EventView,
    ids: Seq<Text>,
    i: int,
)
    requires
        reported(event) is Some,
        reported(event)->0.recovery is Retry,
        in_turn(g, config, event, i),
        g[i].attempt < 3,
        g.len() < 100,
    ensures
        ({
            let next = result(g, config, event, ids);
            let n = g[i];
            let h = state::graph_of(next.state);
            let r = h.last();
            &&& next.effects.len() == 0
            &&& next.state == (StateView::Active { graph: h, run_config: config })
            &&& makes_way(g, h, n.id, ids[0])
            &&& tries_again(r, n, ids[0])
            &&& waits_alike(r, n)
            &&& r.kind == n.kind
            &&& r.worker_role == n.worker_role
            &&& r.model_tier == n.model_tier
            &&& r.plan_depth == n.plan_depth
            &&& r.validation_plan == n.validation_plan
            &&& r.origin == (OriginView::Retry { source: n.id })
            &&& r.retry_feedback == if can_be_told(n, reported(event)->0.kind) {
                Some(recovery::concise(reported(event)->0.recovery->Retry_message))
            } else {
                None
            }
        }),
{
    lemma_failure(g, config, event, ids, i);
    let failure = reported(event)->0;
    let r = recovery::retry_node(
        g[i],
        ids[0],
        recovery::retry_feedback(g[i].kind, failure.kind, failure.recovery->Retry_message),
    );
    lemma_makes_way(g, g[i], r);
    lemma_replacement(g, g[i], r);
}

/// An elevation is one more attempt at the same work, in the same role, at the
/// strong tier, validated by the same plan. Where there is no tier to rise to,
/// it is a retry that is told nothing.
pub proof fn law_elevations_raise_the_same_work(
    g: Seq<NodeView>,
    config: ConfigView,
    event: EventView,
    ids: Seq<Text>,
    i: int,
)
    requires
        reported(event) is Some,
        reported(event)->0.recovery is ElevateModel,
        in_turn(g, config, event, i),
        g[i].attempt < 3,
        g.len() < 100,
    ensures
        ({
            let next = result(g, config, event, ids);
            let n = g[i];
            let h = state::graph_of(next.state);
            let r = h.last();
            &&& next.effects.len() == 0
            &&& next.state == (StateView::Active { graph: h, run_config: config })
            &&& makes_way(g, h, n.id, ids[0])
            &&& tries_again(r, n, ids[0])
            &&& waits_alike(r, n)
            &&& r.kind == n.kind
            &&& r.worker_role == n.worker_role
            &&& r.plan_depth == n.plan_depth
            &&& r.validation_plan == n.validation_plan
            &&& if can_rise(config, n) {
                &&& r.model_tier is Strong
                &&& r.origin == (OriginView::ElevateModel { source: n.id })
                &&& r.retry_feedback is None
            } else {
                &&& r.model_tier == n.model_tier
                &&& r.origin == (OriginView::Retry { source: n.id })
                &&& r.retry_feedback == if can_be_told(n, reported(event)->0.kind) {
                    Some(recovery::concise(Seq::empty()))
                } else {
                    None
                }
            }
        }),
{
    lemma_failure(g, config, event, ids, i);
    let failure = reported(event)->0;
    let raised = recovery::elevated_node(g[i], ids[0]);
    lemma_makes_way(g, g[i], raised);
    lemma_replacement(g, g[i], raised);
    let again = recovery::retry_node(
        g[i],
        ids[0],
        recovery::retry_feedback(g[i].kind, failure.kind, Seq::empty()),
    );
    lemma_makes_way(g, g[i], again);
    lemma_replacement(g, g[i], again);
}

/// A split plans the same objective at the strong tier, one level deeper, and
/// is told why. It has no role and no validation plan of its own.
pub proof fn law_splits_plan_the_same_objective(
    g: Seq<NodeView>,
    config: ConfigView,
    event: EventView,
    ids: Seq<Text>,
    i: int,
)
    requires
        reported(event) is Some,
        reported(event)->0.recovery is Split,
        in_turn(g, config, event, i),
        g[i].attempt < 3,
        g.len() < 100,
        g[i].plan_depth < 10,
    ensures
        ({
            let next = result(g, config, event, ids);
            let n = g[i];
            let h = state::graph_of(next.state);
            let r = h.last();
            &&& next.effects.len() == 0
            &&& next.state == (StateView::Active { graph: h, run_config: config })
            &&& makes_way(g, h, n.id, ids[0])
            &&& tries_again(r, n, ids[0])
            &&& waits_alike(r, n)
            &&& r.kind is Plan
            &&& r.worker_role is None
            &&& r.model_tier is Strong
            &&& r.plan_depth == n.plan_depth + 1
            &&& r.validation_plan is None
            &&& r.origin == (OriginView::Split { source: n.id })
            &&& r.retry_feedback == Some(reported(event)->0.recovery->Split_message)
        }),
{
    lemma_failure(g, config, event, ids, i);
    let r = recovery::split_node(g[i], ids[0], reported(event)->0.recovery->Split_message);
    lemma_makes_way(g, g[i], r);
    lemma_replacement(g, g[i], r);
}

/// When a node may not be replaced: its attempts are used up, the graph is
/// full, or a split would nest too deep. The run then ends with the node
/// failed, for the first of these reasons, and nothing else changes.
pub proof fn law_recovery_has_limits(
    g: Seq<NodeView>,
    config: ConfigView,
    event: EventView,
    ids: Seq<Text>,
    i: int,
)
    requires
        reported(event) is Some,
        !(reported(event)->0.recovery is Terminal),
        in_turn(g, config, event, i),
        g[i].attempt >= 3 || g.len() >= 100 || (reported(event)->0.recovery is Split
            && g[i].plan_depth >= 10),
    ensures
        ({
            let next = result(g, config, event, ids);
            let n = g[i];
            let h = state::graph_of(next.state);
            &&& next.effects.len() == 0
            &&& h.len() == g.len()
            &&& is_marked(g, h, n.id, NodeStatus::Failed)
            &&& next.state == (StateView::Failed {
                graph: h,
                reason: if n.attempt >= 3 {
                    match reported(event)->0.recovery {
                        RecoveryView::Retry { .. } => ReasonView::AttemptsExhausted {
                            node_id: n.id,
                            max_attempts: 3,
                            recovery_action: ExhaustedAction::Retry,
                        },
                        RecoveryView::Split { .. } => ReasonView::AttemptsExhausted {
                            node_id: n.id,
                            max_attempts: 3,
                            recovery_action: ExhaustedAction::Split,
                        },
                        _ => if can_rise(config, n) {
                            ReasonView::AttemptsExhausted {
                                node_id: n.id,
                                max_attempts: 3,
                                recovery_action: ExhaustedAction::ElevateModel,
                            }
                        } else {
                            ReasonView::NoHigherModelTierAvailable { node_id: n.id, max_attempts: 3 }
                        },
                    }
                } else if g.len() >= 100 {
                    ReasonView::GraphCapacityExceeded { limit: 100 }
                } else {
                    ReasonView::PlanDepthExceeded { limit: 10 }
                },
            })
        }),
{
    lemma_failure(g, config, event, ids, i);
}

/// A terminal failure ends the run and says why: the node has failed, every
/// pending node that waits for it, directly or through other pending nodes, is
/// cancelled, and nothing else changes.
pub proof fn law_terminal_failures_end_the_run(
    g: Seq<NodeView>,
    config: ConfigView,
    event: EventView,
    ids: Seq<Text>,
    i: int,
    j: int,
)
    requires
        reported(event) is Some,
        reported(event)->0.recovery is Terminal,
        in_turn(g, config, event, i),
        soundness::unique_ids(g),
        0 <= j < g.len(),
    ensures
        ({
            let next = result(g, config, event, ids);
            let h = state::graph_of(next.state);
            &&& next.effects.len() == 0
            &&& h.len() == g.len()
            &&& next.state == (StateView::Failed {
                graph: h,
                reason: ReasonView::TerminalRecovery {
                    terminal_message: reported(event)->0.recovery->Terminal_message,
                    failure_message: reported(event)->0.message,
                },
            })
            &&& h[j] == (NodeView {
                status: if j == i {
                    NodeStatus::Failed
                } else if plain::waits_for(g, true, j, g[i].id) {
                    NodeStatus::Cancelled
                } else {
                    g[j].status
                },
                ..g[j]
            })
        }),
{
    lemma_failure(g, config, event, ids, i);
    let id = g[i].id;
    let failed = mutations::mark(g, id, NodeStatus::Failed);
    assert forall|a: int, b: int|
        0 <= a < failed.len() && 0 <= b < failed.len() && a != b implies (#[trigger] failed[a]).id
        != (#[trigger] failed[b]).id by {
        assert(g[a].id != g[b].id);
    }
    assert(failed[j] == mutations::marked_node(g[j], id, NodeStatus::Failed));
    if j != i {
        assert(g[j].id != g[i].id);
        plain::lemma_dependents(failed, true, id, j);
        assert forall|n: nat, a: int| #[trigger] plain::waits_within(failed, true, a, id, n)
            == plain::waits_within(g, true, a, id, n) by {
            lemma_same_waiting(g, i, a, n);
        }
        if plain::waits_for(g, true, j, id) {
            let n = choose|n: nat| #[trigger] plain::waits_within(g, true, j, id, n);
            assert(plain::waits_within(failed, true, j, id, n));
        }
        if plain::waits_for(failed, true, j, id) {
            let n = choose|n: nat| #[trigger] plain::waits_within(failed, true, j, id, n);
            assert(plain::waits_within(g, true, j, id, n));
        }
    }
}

/// Marking a node that is in flight changes nothing about who waits.
proof fn lemma_same_waiting(g: Seq<NodeView>, i: int, a: int, n: nat)
    requires
        soundness::unique_ids(g),
        0 <= i < g.len(),
        plain::is_in_flight(g[i]),
    ensures
        plain::waits_within(mutations::mark(g, g[i].id, NodeStatus::Failed), true, a, g[i].id, n)
            == plain::waits_within(g, true, a, g[i].id, n),
    decreases n,
{
    let id = g[i].id;
    let failed = mutations::mark(g, id, NodeStatus::Failed);
    if n > 0 && 0 <= a < g.len() {
        assert(failed[a] == mutations::marked_node(g[a], id, NodeStatus::Failed));
        if a != i {
            assert(g[a].id != g[i].id);
        }
        assert forall|j: int| 0 <= j < g.len() implies (#[trigger] failed[j]).id == g[j].id
            && plain::waits_within(failed, true, j, id, (n - 1) as nat) == plain::waits_within(
            g,
            true,
            j,
            id,
            (n - 1) as nat,
        ) by {
            lemma_same_waiting(g, i, j, (n - 1) as nat);
        }
        if plain::waits_within(g, true, a, id, n) && !g[a].dependencies.contains(id) {
            let j = choose|j: int|
                0 <= j < g.len() && g[a].dependencies.contains((#[trigger] g[j]).id)
                    && plain::waits_within(g, true, j, id, (n - 1) as nat);
            assert(failed[j].id == g[j].id);
        }
        if plain::waits_within(failed, true, a, id, n) && !g[a].dependencies.contains(id) {
            let j = choose|j: int|
                0 <= j < failed.len() && failed[a].dependencies.contains((#[trigger] failed[j]).id)
                    && plain::waits_within(failed, true, j, id, (n - 1) as nat);
            assert(g[j].id == failed[j].id);
        }
    }
}

} // verus!
