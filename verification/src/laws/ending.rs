//! Why runs end.

use vstd::prelude::*;

use crate::event::EventView;
use crate::graph::{NodeStatus, NodeView};
use crate::laws::record;
use crate::machine;
use crate::mutations;
use crate::queries;
use crate::queries::MAX_GRAPH_NODES;
use crate::recovery;
use crate::soundness;
use crate::state;
use crate::state::StateView;
use crate::teams::ConfigView;
use crate::text::Text;
use crate::triggers;
use crate::types::FailureView;

verus! {

/// How many steps a node can still take at most.
pub open spec fn steps_left(status: NodeStatus) -> nat {
    match status {
        NodeStatus::Pending => 3,
        NodeStatus::Running => 2,
        NodeStatus::Integrating => 1,
        _ => 0,
    }
}

/// How many steps the nodes of a graph can still take at most.
pub open spec fn node_steps_left(g: Seq<NodeView>) -> nat
    decreases g.len(),
{
    if g.len() == 0 {
        0
    } else {
        node_steps_left(g.drop_last()) + steps_left(g.last().status)
    }
}

/// How many steps a run can still take at most, as long as its graph keeps
/// within the limit: those of the nodes that are there and of those that there
/// is room for, each with a tick.
pub open spec fn run_steps_left(state: StateView) -> int {
    let g = state::graph_of(state);
    2 * (node_steps_left(g) + 4 * (MAX_GRAPH_NODES - g.len())) + if state is Active {
        1int
    } else {
        0int
    }
}

proof fn lemma_steps_bounded(g: Seq<NodeView>)
    ensures
        node_steps_left(g) <= 3 * g.len(),
    decreases g.len(),
{
    if g.len() > 0 {
        lemma_steps_bounded(g.drop_last());
    }
}

/// A graph step takes up at least one step of a node whose status it changes,
/// and gives three to each node that it adds.
proof fn lemma_steps_taken(before: Seq<NodeView>, after: Seq<NodeView>, i: int)
    requires
        record::graph_step(before, after),
    ensures
        node_steps_left(after) + (if 0 <= i < before.len() && after[i].status != before[i].status {
            1int
        } else {
            0int
        }) <= node_steps_left(before) + 3 * (after.len() - before.len()),
    decreases after.len(),
{
    if after.len() > before.len() {
        let shorter = after.drop_last();
        assert(after.last().status is Pending);
        assert(record::graph_step(before, shorter)) by {
            assert forall|k: int| 0 <= k < before.len() implies record::node_step(
                before[k],
                #[trigger] shorter[k],
            ) by {
                assert(shorter[k] == after[k]);
            }
            assert forall|k: int| before.len() <= k < shorter.len() implies (
            #[trigger] shorter[k]).status is Pending by {
                assert(shorter[k] == after[k]);
            }
        }
        lemma_steps_taken(before, shorter, i);
        if 0 <= i < before.len() {
            assert(shorter[i] == after[i]);
        }
    } else if before.len() > 0 {
        let last = before.len() - 1;
        let b = before.drop_last();
        let a = after.drop_last();
        assert(record::node_step(before[last], after[last]));
        assert(record::graph_step(b, a)) by {
            assert forall|k: int| 0 <= k < b.len() implies record::node_step(
                b[k],
                #[trigger] a[k],
            ) by {
                assert(a[k] == after[k]);
            }
        }
        lemma_steps_taken(b, a, i);
        if 0 <= i < last {
            assert(a[i] == after[i] && b[i] == before[i]);
        }
    }
}

proof fn lemma_recovery_moves(
    config: ConfigView,
    g: Seq<NodeView>,
    n: NodeView,
    failure: FailureView,
    fresh: Text,
    i: int,
)
    requires
        0 <= i < g.len(),
        g[i] == n,
        n.status is Running || n.status is Integrating,
        !state::is_final(recovery::recovery_step(config, g, n, failure, fresh).state),
    ensures
        state::graph_of(recovery::recovery_step(config, g, n, failure, fresh).state)[i].status
            != n.status,
{
    let marked = mutations::mark(g, n.id, NodeStatus::Failed);
    assert(marked[i] == mutations::marked_node(g[i], n.id, NodeStatus::Failed));
    assert forall|r: NodeView| #[trigger]
        recovery::replaced(g, n, r)[i].status == marked[i].status by {
        assert(marked.push(r)[i] == marked[i]);
        assert(recovery::replaced(g, n, r)[i] == mutations::remapped_node(marked[i], n.id, r.id));
    }
}

/// A result that does not end the run moves the node it is about.
proof fn lemma_results_move(config: ConfigView, g: Seq<NodeView>, event: EventView, ids: Seq<Text>)
    requires
        !state::is_final(machine::waiting_step(config, g, event, ids).state),
    ensures
        exists|i: int|
            0 <= i < g.len() && state::graph_of(
                machine::waiting_step(config, g, event, ids).state,
            )[i].status != (#[trigger] g[i]).status,
{
    let id = machine::node_of(event);
    let h = state::graph_of(machine::waiting_step(config, g, event, ids).state);
    queries::lemma_lookup_some(g, id);
    soundness::lemma_lookup_position(g, id);
    let n = queries::lookup(g, id)->0;
    let i = choose|i: int| 0 <= i < g.len() && #[trigger] g[i] == n;
    match event {
        EventView::Start => {},
        EventView::PlanAccepted { children, .. } => {
            let completed = mutations::mark(g, id, NodeStatus::Completed);
            let integrating = mutations::mark(g, id, NodeStatus::Integrating);
            assert(completed[i] == mutations::marked_node(g[i], id, NodeStatus::Completed));
            assert(integrating[i] == mutations::marked_node(g[i], id, NodeStatus::Integrating));
            assert((completed + mutations::child_nodes(n, children, ids))[i] == completed[i]);
        },
        EventView::WorkAccepted { .. } => {
            let integrating = mutations::mark(g, id, NodeStatus::Integrating);
            assert(integrating[i] == mutations::marked_node(g[i], id, NodeStatus::Integrating));
        },
        EventView::NodeFailed { failure, .. } => {
            lemma_recovery_moves(config, g, n, failure, ids[0], i);
        },
        EventView::IntegrationSucceeded { summary, manifest, .. } => {
            let done = mutations::complete_with_summary(g, id, summary);
            assert(done[i] == mutations::summarized_node(g[i], id, summary));
            if let Ok(requests) = triggers::triggered(done, config, manifest) {
                let grown = done + mutations::spawned_nodes(n.plan_depth, requests, ids);
                assert(grown[i] == done[i]);
            }
        },
        EventView::IntegrationFailed { failure, .. } => {
            lemma_recovery_moves(config, g, n, failure, ids[0], i);
        },
        EventView::PlannerTasksIntegrated { manifest, .. } => {
            let done = mutations::mark(g, id, NodeStatus::Completed);
            assert(done[i] == mutations::marked_node(g[i], id, NodeStatus::Completed));
            if let Ok(requests) = triggers::triggered(done, config, manifest) {
                let grown = done + mutations::spawned_nodes(n.plan_depth, requests, ids);
                assert(grown[i] == done[i]);
            }
        },
        EventView::PlannerTasksIntegrationFailed { failure, .. } => {
            lemma_recovery_moves(config, g, n, failure, ids[0], i);
        },
    }
    assert(h[i].status != g[i].status);
}

/// Runs end: as long as the graph keeps within its limit, every step either
/// ends the run or uses up one of a limited number of steps.
pub proof fn law_runs_end(state: StateView, event: EventView, ids: Seq<Text>)
    requires
        soundness::unique_ids(state::graph_of(state)),
        !state::is_final(machine::next_step(state, event, ids).state),
        state::graph_of(machine::next_step(state, event, ids).state).len() <= MAX_GRAPH_NODES,
    ensures
        0 <= run_steps_left(machine::next_step(state, event, ids).state) < run_steps_left(state),
        run_steps_left(state) <= 8 * MAX_GRAPH_NODES + 1,
{
    let g = state::graph_of(state);
    let next = machine::next_step(state, event, ids).state;
    let h = state::graph_of(next);
    record::law_steps_extend_the_record(state, event, ids);
    lemma_steps_bounded(g);
    match state {
        StateView::Active { run_config, .. } => {
            lemma_steps_taken(g, h, -1);
            if queries::dispatch_order(g).len() > 0 {
                record::lemma_order_ready(g, 0);
                let first = queries::dispatch_order(g)[0];
                let i = choose|i: int|
                    0 <= i < g.len() && (#[trigger] g[i]).id == first && queries::is_ready(g, g[i]);
                let chosen = machine::chosen(g, run_config);
                assert(chosen[0] == first);
                assert(chosen.contains(first));
                assert(h[i] == machine::dispatched_node(g[i], chosen));
                lemma_steps_taken(g, h, i);
            }
        },
        StateView::Waiting { run_config, .. } => {
            lemma_results_move(run_config, g, event, ids);
            let i = choose|i: int| 0 <= i < g.len() && h[i].status != (#[trigger] g[i]).status;
            lemma_steps_taken(g, h, i);
        },
        _ => {},
    }
}

} // verus!
