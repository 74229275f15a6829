//! The circuit breakers: attempts, graph size and plan depth.

use vstd::prelude::*;

use crate::event::EventView;
use crate::graph::{NodeStatus, NodeView};
use crate::laws::record;
use crate::machine;
use crate::manifest::TaskRecordView;
use crate::mutations;
use crate::queries;
use crate::queries::{MAX_ATTEMPTS, MAX_GRAPH_NODES, MAX_PLAN_DEPTH};
use crate::recovery;
use crate::search;
use crate::soundness;
use crate::state;
use crate::state::StateView;
use crate::teams::ConfigView;
use crate::text::Text;
use crate::triggers;
use crate::types::{FailureView, RequestView};

verus! {

/// No node has had more attempts than allowed.
pub open spec fn attempts_bounded(g: Seq<NodeView>) -> bool {
    forall|i: int| 0 <= i < g.len() ==> (#[trigger] g[i]).attempt <= MAX_ATTEMPTS
}

/// No node is nested deeper than allowed.
pub open spec fn depths_bounded(g: Seq<NodeView>) -> bool {
    forall|i: int| 0 <= i < g.len() ==> (#[trigger] g[i]).plan_depth <= MAX_PLAN_DEPTH
}

/// The event reports an integration that may make teams act.
pub open spec fn may_trigger(event: EventView) -> bool {
    event is IntegrationSucceeded || event is PlannerTasksIntegrated
}

proof fn lemma_children_bounded(
    n: NodeView,
    children: Seq<RequestView>,
    ids: Seq<Text>,
    i: int,
)
    requires
        mutations::depth_violation(n.plan_depth, children) is None,
        0 <= i < children.len(),
    ensures
        mutations::child_nodes(n, children, ids)[i].attempt == 0,
        mutations::child_nodes(n, children, ids)[i].plan_depth <= MAX_PLAN_DEPTH,
{
    let check = mutations::depth_check(n.plan_depth, children);
    search::lemma_first_some_none(children.len(), check);
    assert(check(i) is None);
}

proof fn lemma_recovery_bounded(
    config: ConfigView,
    g: Seq<NodeView>,
    n: NodeView,
    failure: FailureView,
    fresh: Text,
)
    ensures
        ({
            let h = state::graph_of(recovery::recovery_step(config, g, n, failure, fresh).state);
            &&& h.len() == g.len() || (h.len() == g.len() + 1 && h.len() <= MAX_GRAPH_NODES
                && h.last().attempt <= MAX_ATTEMPTS && (n.plan_depth <= MAX_PLAN_DEPTH
                ==> h.last().plan_depth <= MAX_PLAN_DEPTH))
        }),
{
    assert forall|r: NodeView| (#[trigger] recovery::replaced(g, n, r)).len() == g.len() + 1
        && recovery::replaced(g, n, r).last().attempt == r.attempt && recovery::replaced(
        g,
        n,
        r,
    ).last().plan_depth == r.plan_depth by {
        let h = recovery::replaced(g, n, r);
        assert(h.last() == mutations::remapped_node(r, n.id, r.id));
    }
}

proof fn lemma_added_bounded(state: StateView, event: EventView, ids: Seq<Text>, i: int)
    requires
        ({
            let g = state::graph_of(state);
            let h = state::graph_of(machine::next_step(state, event, ids).state);
            g.len() <= i < h.len()
        }),
    ensures
        ({
            let g = state::graph_of(state);
            let h = state::graph_of(machine::next_step(state, event, ids).state);
            &&& h[i].attempt <= MAX_ATTEMPTS
            &&& !may_trigger(event) ==> h.len() <= MAX_GRAPH_NODES && (depths_bounded(g)
                ==> h[i].plan_depth <= MAX_PLAN_DEPTH)
        }),
{
    let g = state::graph_of(state);
    let h = state::graph_of(machine::next_step(state, event, ids).state);
    if let StateView::Waiting { run_config, .. } = state {
        let id = machine::node_of(event);
        queries::lemma_lookup_some(g, id);
        let n = queries::lookup(g, id)->0;
        if queries::lookup(g, id) is Some {
            let at = choose|at: int| 0 <= at < g.len() && g[at] == n;
            assert(g[at].plan_depth <= MAX_PLAN_DEPTH || !depths_bounded(g));
        }
        match event {
            EventView::PlanAccepted { children, .. } => {
                let more = mutations::child_nodes(n, children, ids);
                assert(h[i] == more[i - g.len()]);
                lemma_children_bounded(n, children, ids, i - g.len());
            },
            EventView::NodeFailed { failure, .. } => {
                lemma_recovery_bounded(run_config, g, n, failure, ids[0]);
            },
            EventView::IntegrationFailed { failure, .. } => {
                lemma_recovery_bounded(run_config, g, n, failure, ids[0]);
            },
            EventView::PlannerTasksIntegrationFailed { failure, .. } => {
                lemma_recovery_bounded(run_config, g, n, failure, ids[0]);
            },
            EventView::IntegrationSucceeded { summary, manifest, .. } => {
                lemma_spawned_bounded(
                    run_config,
                    mutations::complete_with_summary(g, id, summary),
                    n.plan_depth,
                    manifest,
                    ids,
                    i,
                );
            },
            EventView::PlannerTasksIntegrated { manifest, .. } => {
                lemma_spawned_bounded(
                    run_config,
                    mutations::mark(g, id, NodeStatus::Completed),
                    n.plan_depth,
                    manifest,
                    ids,
                    i,
                );
            },
            _ => {},
        }
    }
}

proof fn lemma_spawned_bounded(
    config: ConfigView,
    g: Seq<NodeView>,
    depth: usize,
    m: Seq<TaskRecordView>,
    ids: Seq<Text>,
    i: int,
)
    requires
        g.len() <= i,
        i < state::graph_of(machine::triggered_step(config, g, depth, m, ids).state).len(),
    ensures
        state::graph_of(machine::triggered_step(config, g, depth, m, ids).state)[i].attempt == 0,
{
    if let Ok(requests) = triggers::triggered(g, config, m) {
        let more = mutations::spawned_nodes(depth, requests, ids);
        let grown = g + more;
        assert(grown[i] == more[i - g.len()]);
    }
}

/// No step gives any work more attempts than allowed.
pub proof fn law_attempts_stay_bounded(state: StateView, event: EventView, ids: Seq<Text>)
    requires
        soundness::unique_ids(state::graph_of(state)),
        attempts_bounded(state::graph_of(state)),
    ensures
        attempts_bounded(state::graph_of(machine::next_step(state, event, ids).state)),
{
    let g = state::graph_of(state);
    let h = state::graph_of(machine::next_step(state, event, ids).state);
    record::law_steps_extend_the_record(state, event, ids);
    assert forall|i: int| 0 <= i < h.len() implies (#[trigger] h[i]).attempt <= MAX_ATTEMPTS by {
        if i < g.len() {
            assert(record::node_step(g[i], h[i]));
        } else {
            lemma_added_bounded(state, event, ids, i);
        }
    }
}

/// Plans and recoveries never grow a graph beyond its limit. Only teams that
/// act on an integration may.
pub proof fn law_graph_size_stays_bounded(state: StateView, event: EventView, ids: Seq<Text>)
    requires
        state::graph_of(state).len() <= MAX_GRAPH_NODES,
        !may_trigger(event),
    ensures
        state::graph_of(machine::next_step(state, event, ids).state).len() <= MAX_GRAPH_NODES,
{
    let g = state::graph_of(state);
    let h = state::graph_of(machine::next_step(state, event, ids).state);
    if h.len() > g.len() {
        lemma_added_bounded(state, event, ids, g.len() as int);
    }
}

/// Plans and recoveries never nest deeper than allowed. Only teams that act
/// on an integration may.
pub proof fn law_plan_depth_stays_bounded(state: StateView, event: EventView, ids: Seq<Text>)
    requires
        soundness::unique_ids(state::graph_of(state)),
        depths_bounded(state::graph_of(state)),
        !may_trigger(event),
    ensures
        depths_bounded(state::graph_of(machine::next_step(state, event, ids).state)),
{
    let g = state::graph_of(state);
    let h = state::graph_of(machine::next_step(state, event, ids).state);
    record::law_steps_extend_the_record(state, event, ids);
    assert forall|i: int| 0 <= i < h.len() implies (#[trigger] h[i]).plan_depth
        <= MAX_PLAN_DEPTH by {
        if i < g.len() {
            assert(record::node_step(g[i], h[i]));
        } else {
            lemma_added_bounded(state, event, ids, i);
        }
    }
}

} // verus!
