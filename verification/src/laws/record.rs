//! The record of a run: what a step may do to the nodes that are there.

use vstd::prelude::*;

use crate::closure;
use crate::event::EventView;
use crate::graph::{NodeStatus, NodeView};
use crate::machine;
use crate::manifest::TaskRecordView;
use crate::mutations;
use crate::queries;
use crate::recovery;
use crate::soundness;
use crate::state;
use crate::state::StateView;
use crate::teams;
use crate::teams::ConfigView;
use crate::text::Text;
use crate::triggers;
use crate::types::{FailureView, RecoveryView};

verus! {

// ── the record of a run ────────────────────────────────────────────────────

/// A status may be kept, or move forward: a pending node is dispatched or
/// cancelled, a running one is integrated, completes or fails, an integrating
/// one completes or fails.
pub open spec fn may_become(before: NodeStatus, after: NodeStatus) -> bool {
    ||| after == before
    ||| before is Pending && (after is Running || after is Cancelled)
    ||| before is Running && (after is Integrating || after is Completed || after is Failed)
    ||| before is Integrating && (after is Completed || after is Failed)
}

/// `after` records the same work as `before`: only the status, the summary of
/// a completion, and what a pending node waits for may differ.
pub open spec fn node_step(before: NodeView, after: NodeView) -> bool {
    &&& after == (NodeView {
        status: after.status,
        summary: after.summary,
        dependencies: after.dependencies,
        ..before
    })
    &&& may_become(before.status, after.status)
    &&& after.summary != before.summary ==> before.status !is Completed && after.status is Completed
    &&& after.dependencies != before.dependencies ==> before.status is Pending
        && after.status is Pending
}

/// `after` has every node of `before`, in place, moved by a [`node_step`] or
/// not at all; the nodes it adds are pending.
pub open spec fn graph_step(before: Seq<NodeView>, after: Seq<NodeView>) -> bool {
    &&& before.len() <= after.len()
    &&& forall|i: int| 0 <= i < before.len() ==> node_step(before[i], #[trigger] after[i])
    &&& forall|i: int| before.len() <= i < after.len() ==> (#[trigger] after[i]).status is Pending
}

proof fn lemma_mark_step(g: Seq<NodeView>, id: Text, status: NodeStatus)
    requires
        soundness::unique_ids(g),
        queries::has_id(g, id),
        may_become(queries::lookup(g, id)->0.status, status),
    ensures
        graph_step(g, mutations::mark(g, id, status)),
{
    let after = mutations::mark(g, id, status);
    assert forall|i: int| 0 <= i < g.len() implies node_step(g[i], #[trigger] after[i]) by {
        soundness::lemma_unique_lookup(g, i);
        assert(after[i] == mutations::marked_node(g[i], id, status));
    }
}

proof fn lemma_summary_step(g: Seq<NodeView>, id: Text, summary: Text)
    requires
        soundness::unique_ids(g),
        queries::has_id(g, id),
        queries::lookup(g, id)->0.status is Integrating,
    ensures
        graph_step(g, mutations::complete_with_summary(g, id, summary)),
{
    let after = mutations::complete_with_summary(g, id, summary);
    assert forall|i: int| 0 <= i < g.len() implies node_step(g[i], #[trigger] after[i]) by {
        soundness::lemma_unique_lookup(g, i);
        assert(after[i] == mutations::summarized_node(g[i], id, summary));
    }
}

/// What is chosen for dispatch is ready.
pub proof fn lemma_order_ready(g: Seq<NodeView>, k: int)
    requires
        0 <= k < queries::dispatch_order(g).len(),
    ensures
        exists|i: int|
            0 <= i < g.len() && (#[trigger] g[i]).id == queries::dispatch_order(g)[k]
                && queries::is_ready(g, g[i]),
{
    let order = queries::dispatch_order(g);
    let added = queries::ready_of(g, g, false);
    let initial = queries::ready_of(g, g, true);
    queries::lemma_filter_members(
        g,
        |n: NodeView| queries::is_ready(g, n) && (n.origin is Root <==> false),
    );
    queries::lemma_filter_members(
        g,
        |n: NodeView| queries::is_ready(g, n) && (n.origin is Root <==> true),
    );
    let n = if k < added.len() {
        added[added.len() - 1 - k]
    } else {
        initial[k - added.len()]
    };
    assert(order[k] == n.id);
    if k < added.len() {
        assert(added.contains(n));
    } else {
        assert(initial.contains(n));
    }
    assert(g.contains(n));
    let i = choose|i: int| 0 <= i < g.len() && g[i] == n;
    assert(g[i].id == order[k]);
}

pub proof fn lemma_chosen_ready(g: Seq<NodeView>, config: ConfigView, i: int)
    requires
        soundness::unique_ids(g),
        queries::active(g).len() < teams::slots(config),
        0 <= i < g.len(),
        machine::chosen(g, config).contains(g[i].id),
    ensures
        queries::is_ready(g, g[i]),
{
    let ids = machine::chosen(g, config);
    let k = choose|k: int| 0 <= k < ids.len() && ids[k] == g[i].id;
    assert(queries::dispatch_order(g)[k] == ids[k]);
    lemma_order_ready(g, k);
    let j = choose|j: int|
        0 <= j < g.len() && (#[trigger] g[j]).id == queries::dispatch_order(g)[k]
            && queries::is_ready(g, g[j]);
    assert(i == j);
}

proof fn lemma_dispatched_step(g: Seq<NodeView>, config: ConfigView)
    requires
        soundness::unique_ids(g),
        queries::active(g).len() < teams::slots(config),
    ensures
        graph_step(g, machine::dispatched(g, machine::chosen(g, config))),
{
    let ids = machine::chosen(g, config);
    let after = machine::dispatched(g, ids);
    assert forall|i: int| 0 <= i < g.len() implies node_step(g[i], #[trigger] after[i]) by {
        assert(after[i] == machine::dispatched_node(g[i], ids));
        if ids.contains(g[i].id) {
            lemma_chosen_ready(g, config, i);
        }
    }
}

proof fn lemma_replaced_step(g: Seq<NodeView>, n: NodeView, replacement: NodeView)
    requires
        soundness::unique_ids(g),
        queries::has_id(g, n.id),
        queries::lookup(g, n.id) == Some(n),
        n.status is Running || n.status is Integrating,
        replacement.status is Pending,
    ensures
        graph_step(g, recovery::replaced(g, n, replacement)),
{
    let marked = mutations::mark(g, n.id, NodeStatus::Failed);
    let after = recovery::replaced(g, n, replacement);
    lemma_mark_step(g, n.id, NodeStatus::Failed);
    assert forall|i: int| 0 <= i < g.len() implies node_step(g[i], #[trigger] after[i]) by {
        soundness::lemma_unique_lookup(g, i);
        assert(marked.push(replacement)[i] == marked[i]);
        assert(marked[i] == mutations::marked_node(g[i], n.id, NodeStatus::Failed));
        assert(after[i] == mutations::remapped_node(marked[i], n.id, replacement.id));
    }
    assert(after.last() == mutations::remapped_node(replacement, n.id, replacement.id));
}

/// Nothing but a pending node is among the pending dependents of another.
proof fn lemma_cancelled_pending(g: Seq<NodeView>, source: Text, i: int)
    requires
        soundness::unique_ids(g),
        0 <= i < g.len(),
        closure::is_dependent(g, true, source, g[i].id),
    ensures
        g[i].status is Pending,
{
    if g[i].status !is Pending {
        let id = g[i].id;
        let others = Set::new(|t: Text| t != id);
        assert(closure::closed_under_dependents(g, true, others)) by {
            assert forall|j: int|
                0 <= j < g.len() && (g[j].status is Pending) && closure::depends_on_any(
                    g[j],
                    others,
                ) implies others.contains((#[trigger] g[j]).id) by {
                assert(j != i);
            }
        }
        assert(others.contains(source));
        assert(others.contains(id));
    }
}

proof fn lemma_cancel_step(g: Seq<NodeView>, n: NodeView)
    requires
        soundness::unique_ids(g),
        queries::has_id(g, n.id),
        queries::lookup(g, n.id) == Some(n),
        n.status is Running || n.status is Integrating,
    ensures
        graph_step(
            g,
            closure::cancel_dependents(mutations::mark(g, n.id, NodeStatus::Failed), n.id),
        ),
{
    let marked = mutations::mark(g, n.id, NodeStatus::Failed);
    let after = closure::cancel_dependents(marked, n.id);
    lemma_mark_step(g, n.id, NodeStatus::Failed);
    lemma_mark_unique(g, n.id, NodeStatus::Failed);
    assert forall|i: int| 0 <= i < g.len() implies node_step(g[i], #[trigger] after[i]) by {
        soundness::lemma_unique_lookup(g, i);
        assert(marked[i] == mutations::marked_node(g[i], n.id, NodeStatus::Failed));
        assert(after[i] == closure::cancelled_node(marked, n.id, marked[i]));
        if closure::is_dependent(marked, true, n.id, marked[i].id) {
            lemma_cancelled_pending(marked, n.id, i);
        }
    }
}

pub proof fn lemma_mark_unique(g: Seq<NodeView>, id: Text, status: NodeStatus)
    requires
        soundness::unique_ids(g),
    ensures
        soundness::unique_ids(mutations::mark(g, id, status)),
{
    let after = mutations::mark(g, id, status);
    assert forall|i: int, j: int|
        0 <= i < after.len() && 0 <= j < after.len() && i != j implies (#[trigger] after[i]).id != (
    #[trigger] after[j]).id by {
        assert(after[i].id == g[i].id);
        assert(after[j].id == g[j].id);
    }
}

proof fn lemma_recovery_graph_step(
    config: ConfigView,
    g: Seq<NodeView>,
    n: NodeView,
    failure: FailureView,
    fresh: Text,
)
    requires
        soundness::unique_ids(g),
        queries::has_id(g, n.id),
        queries::lookup(g, n.id) == Some(n),
        n.status is Running || n.status is Integrating,
    ensures
        graph_step(
            g,
            state::graph_of(recovery::recovery_step(config, g, n, failure, fresh).state),
        ),
{
    let next = recovery::recovery_step(config, g, n, failure, fresh);
    lemma_mark_step(g, n.id, NodeStatus::Failed);
    lemma_cancel_step(g, n);
    if next.state is Active {
        match failure.recovery {
            RecoveryView::Retry { message } => {
                lemma_replaced_step(
                    g,
                    n,
                    recovery::retry_node(
                        n,
                        fresh,
                        recovery::retry_feedback(n.kind, failure.kind, message),
                    ),
                );
            },
            RecoveryView::Split { message } => {
                lemma_replaced_step(g, n, recovery::split_node(n, fresh, message));
            },
            RecoveryView::ElevateModel { .. } => {
                lemma_replaced_step(g, n, recovery::elevated_node(n, fresh));
                lemma_replaced_step(
                    g,
                    n,
                    recovery::retry_node(
                        n,
                        fresh,
                        recovery::retry_feedback(n.kind, failure.kind, Seq::empty()),
                    ),
                );
            },
            RecoveryView::Terminal { .. } => {},
        }
    }
}

proof fn lemma_grown_step(g: Seq<NodeView>, after: Seq<NodeView>, more: Seq<NodeView>)
    requires
        graph_step(g, after),
        forall|i: int| 0 <= i < more.len() ==> (#[trigger] more[i]).status is Pending,
    ensures
        graph_step(g, after + more),
{
    let grown = after + more;
    assert forall|i: int| 0 <= i < g.len() implies node_step(g[i], #[trigger] grown[i]) by {
        assert(grown[i] == after[i]);
    }
    assert forall|i: int| g.len() <= i < grown.len() implies (
    #[trigger] grown[i]).status is Pending by {
        if i >= after.len() {
            assert(grown[i] == more[i - after.len()]);
        } else {
            assert(grown[i] == after[i]);
        }
    }
}

proof fn lemma_unchanged_step(g: Seq<NodeView>)
    ensures
        graph_step(g, g),
{
}

proof fn lemma_triggered_step(
    config: ConfigView,
    before: Seq<NodeView>,
    g: Seq<NodeView>,
    depth: usize,
    m: Seq<TaskRecordView>,
    ids: Seq<Text>,
)
    requires
        graph_step(before, g),
    ensures
        graph_step(
            before,
            state::graph_of(machine::triggered_step(config, g, depth, m, ids).state),
        ),
{
    match triggers::triggered(g, config, m) {
        Err(_) => {},
        Ok(requests) => {
            lemma_grown_step(before, g, mutations::spawned_nodes(depth, requests, ids));
        },
    }
}

/// A result that finds no fault in its delivery is about a node in the graph.
pub proof fn lemma_delivered(g: Seq<NodeView>, id: Text)
    requires
        queries::lookup(g, id) is Some,
    ensures
        queries::has_id(g, id),
        queries::lookup(g, id)->0.id == id,
{
    queries::lemma_lookup_some(g, id);
}

/// The run's record only grows. No step drops or reorders a node, rewrites
/// what it was asked to do, or moves its status backwards; what a step adds
/// is pending.
#[verifier::rlimit(40)]
pub proof fn law_steps_extend_the_record(state: StateView, event: EventView, ids: Seq<Text>)
    requires
        soundness::unique_ids(state::graph_of(state)),
    ensures
        graph_step(
            state::graph_of(state),
            state::graph_of(machine::next_step(state, event, ids).state),
        ),
{
    let g = state::graph_of(state);
    lemma_unchanged_step(g);
    match state {
        StateView::Active { run_config, .. } => {
            if event is Start && queries::active(g).len() < teams::slots(run_config) {
                lemma_dispatched_step(g, run_config);
            }
        },
        StateView::Waiting { run_config, .. } => {
            let id = machine::node_of(event);
            if queries::lookup(g, id) is Some {
                lemma_delivered(g, id);
                let n = queries::lookup(g, id)->0;
                match event {
                    EventView::Start => {},
                    EventView::PlanAccepted { children, .. } => {
                        if n.status is Running {
                            lemma_mark_step(g, id, NodeStatus::Failed);
                            lemma_mark_step(g, id, NodeStatus::Completed);
                            lemma_mark_step(g, id, NodeStatus::Integrating);
                            lemma_grown_step(
                                g,
                                mutations::mark(g, id, NodeStatus::Completed),
                                mutations::child_nodes(n, children, ids),
                            );
                        }
                    },
                    EventView::WorkAccepted { .. } => {
                        if n.status is Running {
                            lemma_mark_step(g, id, NodeStatus::Integrating);
                        }
                    },
                    EventView::NodeFailed { failure, .. } => {
                        if n.status is Running {
                            lemma_recovery_graph_step(run_config, g, n, failure, ids[0]);
                        }
                    },
                    EventView::IntegrationSucceeded { summary, manifest, .. } => {
                        if n.status is Integrating {
                            lemma_summary_step(g, id, summary);
                            lemma_triggered_step(
                                run_config,
                                g,
                                mutations::complete_with_summary(g, id, summary),
                                n.plan_depth,
                                manifest,
                                ids,
                            );
                        }
                    },
                    EventView::IntegrationFailed { failure, .. } => {
                        if n.status is Integrating {
                            lemma_recovery_graph_step(run_config, g, n, failure, ids[0]);
                        }
                    },
                    EventView::PlannerTasksIntegrated { manifest, .. } => {
                        if n.status is Integrating {
                            lemma_mark_step(g, id, NodeStatus::Completed);
                            lemma_triggered_step(
                                run_config,
                                g,
                                mutations::mark(g, id, NodeStatus::Completed),
                                n.plan_depth,
                                manifest,
                                ids,
                            );
                        }
                    },
                    EventView::PlannerTasksIntegrationFailed { failure, .. } => {
                        if n.status is Integrating {
                            lemma_recovery_graph_step(run_config, g, n, failure, ids[0]);
                        }
                    },
                }
            }
        },
        _ => {},
    }
}

/// Completed, failed and cancelled nodes are permanent records: no step
/// changes anything about them.
pub proof fn law_finished_nodes_never_change(
    state: StateView,
    event: EventView,
    ids: Seq<Text>,
    i: int,
)
    requires
        soundness::unique_ids(state::graph_of(state)),
        0 <= i < state::graph_of(state).len(),
        queries::is_terminal(state::graph_of(state)[i]),
    ensures
        state::graph_of(machine::next_step(state, event, ids).state)[i] == state::graph_of(
            state,
        )[i],
{
    law_steps_extend_the_record(state, event, ids);
    let before = state::graph_of(state)[i];
    let after = state::graph_of(machine::next_step(state, event, ids).state)[i];
    assert(node_step(before, after));
}

/// Work that was accepted is not yet complete: a work node completes only
/// when its integration succeeds. A plan node completes when its plan is
/// accepted and holds no tasks, or when its tasks are integrated.
pub proof fn law_completion_needs_integration(
    state: StateView,
    event: EventView,
    ids: Seq<Text>,
    i: int,
)
    requires
        soundness::unique_ids(state::graph_of(state)),
        0 <= i < state::graph_of(state).len(),
        state::graph_of(state)[i].status !is Completed,
        state::graph_of(machine::next_step(state, event, ids).state)[i].status is Completed,
    ensures
        state is Waiting,
        state::graph_of(state)[i].id == machine::node_of(event),
        state::graph_of(state)[i].kind is Work ==> event is IntegrationSucceeded,
        state::graph_of(state)[i].kind is Plan ==> event is PlannerTasksIntegrated || (
        event matches EventView::PlanAccepted { tasks, .. } && tasks.len() == 0),
{
    let g = state::graph_of(state);
    let n = g[i];
    let next = machine::next_step(state, event, ids);
    let h = state::graph_of(next.state);
    soundness::lemma_unique_lookup(g, i);
    match state {
        StateView::Active { run_config, .. } => {
            if event is Start && h != g {
                let chosen = machine::chosen(g, run_config);
                assert(h[i] == machine::dispatched_node(n, chosen));
            }
        },
        StateView::Waiting { run_config, .. } => {
            let id = machine::node_of(event);
            if h != g {
                lemma_delivered(g, id);
                lemma_moved_nodes(run_config, g, event, ids, i);
            }
        },
        _ => {},
    }
}

/// A step of a waiting scheduler completes, fails or integrates only the node
/// that the event is about; of the others, only pending ones change.
proof fn lemma_moved_nodes(
    config: ConfigView,
    g: Seq<NodeView>,
    event: EventView,
    ids: Seq<Text>,
    i: int,
)
    requires
        soundness::unique_ids(g),
        0 <= i < g.len(),
        ({
            let h = state::graph_of(machine::waiting_step(config, g, event, ids).state);
            h[i].status is Completed && g[i].status !is Completed
        }),
    ensures
        g[i].id == machine::node_of(event),
        g[i].kind is Work ==> event is IntegrationSucceeded,
        g[i].kind is Plan ==> event is PlannerTasksIntegrated || (
        event matches EventView::PlanAccepted { tasks, .. } && tasks.len() == 0),
{
    let id = machine::node_of(event);
    let h = state::graph_of(machine::waiting_step(config, g, event, ids).state);
    soundness::lemma_unique_lookup(g, i);
    queries::lemma_lookup_some(g, id);
    let n = queries::lookup(g, id)->0;
    match event {
        EventView::Start => {},
        EventView::PlanAccepted { children, tasks, .. } => {
            let failed = mutations::mark(g, id, NodeStatus::Failed);
            let integrating = mutations::mark(g, id, NodeStatus::Integrating);
            let grown = mutations::mark(g, id, NodeStatus::Completed) + mutations::child_nodes(
                n,
                children,
                ids,
            );
            assert(failed[i] == mutations::marked_node(g[i], id, NodeStatus::Failed));
            assert(integrating[i] == mutations::marked_node(g[i], id, NodeStatus::Integrating));
            assert(grown[i] == mutations::marked_node(g[i], id, NodeStatus::Completed));
        },
        EventView::WorkAccepted { .. } => {
            let integrating = mutations::mark(g, id, NodeStatus::Integrating);
            assert(integrating[i] == mutations::marked_node(g[i], id, NodeStatus::Integrating));
        },
        EventView::NodeFailed { failure, .. } => {
            if h != g {
                lemma_recovery_completes_nothing(config, g, n, failure, ids[0], i);
            }
        },
        EventView::IntegrationSucceeded { summary, manifest, .. } => {
            let done = mutations::complete_with_summary(g, id, summary);
            if h != g {
                lemma_triggered_keeps(config, done, n.plan_depth, manifest, ids, i);
                assert(done[i] == mutations::summarized_node(g[i], id, summary));
            }
        },
        EventView::IntegrationFailed { failure, .. } => {
            if h != g {
                lemma_recovery_completes_nothing(config, g, n, failure, ids[0], i);
            }
        },
        EventView::PlannerTasksIntegrated { manifest, .. } => {
            let done = mutations::mark(g, id, NodeStatus::Completed);
            if h != g {
                lemma_triggered_keeps(config, done, n.plan_depth, manifest, ids, i);
                assert(done[i] == mutations::marked_node(g[i], id, NodeStatus::Completed));
            }
        },
        EventView::PlannerTasksIntegrationFailed { failure, .. } => {
            if h != g {
                lemma_recovery_completes_nothing(config, g, n, failure, ids[0], i);
            }
        },
    }
}

proof fn lemma_triggered_keeps(
    config: ConfigView,
    g: Seq<NodeView>,
    depth: usize,
    m: Seq<TaskRecordView>,
    ids: Seq<Text>,
    i: int,
)
    requires
        0 <= i < g.len(),
    ensures
        state::graph_of(machine::triggered_step(config, g, depth, m, ids).state)[i] == g[i],
{
    if let Ok(requests) = triggers::triggered(g, config, m) {
        let grown = g + mutations::spawned_nodes(depth, requests, ids);
        assert(grown[i] == g[i]);
    }
}

proof fn lemma_recovery_completes_nothing(
    config: ConfigView,
    g: Seq<NodeView>,
    n: NodeView,
    failure: FailureView,
    fresh: Text,
    i: int,
)
    requires
        0 <= i < g.len(),
    ensures
        state::graph_of(
            recovery::recovery_step(config, g, n, failure, fresh).state,
        )[i].status is Completed ==> g[i].status is Completed,
{
    let marked = mutations::mark(g, n.id, NodeStatus::Failed);
    let cancelled = closure::cancel_dependents(marked, n.id);
    assert(marked[i] == mutations::marked_node(g[i], n.id, NodeStatus::Failed));
    assert(cancelled[i] == closure::cancelled_node(marked, n.id, marked[i]));
    assert forall|r: NodeView| #[trigger]
        recovery::replaced(g, n, r)[i].status == marked[i].status by {
        assert(marked.push(r)[i] == marked[i]);
        assert(recovery::replaced(g, n, r)[i] == mutations::remapped_node(marked[i], n.id, r.id));
    }
}

} // verus!
