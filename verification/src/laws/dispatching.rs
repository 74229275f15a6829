//! Dispatch: what runs, how much at once, and when a run is over.

use vstd::prelude::*;

use crate::closure;
use crate::event::EventView;
use crate::failure::ReasonView;
use crate::graph::{NodeStatus, NodeView};
use crate::invariants;
use crate::laws::record;
use crate::machine;
use crate::machine::RecoverySummary;
use crate::manifest::TaskRecordView;
use crate::mutations;
use crate::queries;
use crate::recovery;
use crate::soundness;
use crate::state;
use crate::state::StateView;
use crate::teams;
use crate::teams::ConfigView;
use crate::text::Text;
use crate::triggers;
use crate::types::FailureView;

verus! {

/// A node runs only when everything it depends on is completed: each effect
/// of a tick runs a node that was ready and now is running, and there is one
/// effect for each node that the tick set running.
pub proof fn law_only_ready_nodes_run(g: Seq<NodeView>, config: ConfigView)
    requires
        soundness::unique_ids(g),
    ensures
        ({
            let next = machine::start_step(g, config);
            let h = state::graph_of(next.state);
            &&& forall|k: int|
                0 <= k < next.effects.len() ==> #[trigger] next.effects[k] is RunNode
            &&& forall|i: int|
                0 <= i < g.len() && h[i] != g[i] ==> queries::is_ready(g, #[trigger] g[i])
                    && h[i].status is Running && exists|k: int|
                    0 <= k < next.effects.len() && #[trigger] next.effects[k]
                        == machine::run_effect(g, g[i].id)
            &&& forall|k: int|
                0 <= k < next.effects.len() ==> exists|i: int|
                    0 <= i < g.len() && queries::is_ready(g, #[trigger] g[i])
                        && h[i].status is Running && #[trigger] next.effects[k]
                        == machine::run_effect(g, g[i].id)
        }),
{
    let next = machine::start_step(g, config);
    let h = state::graph_of(next.state);
    let ids = machine::chosen(g, config);
    if next.effects.len() > 0 {
        assert(h == machine::dispatched(g, ids));
        assert forall|i: int| 0 <= i < g.len() && h[i] != g[i] implies queries::is_ready(
            g,
            #[trigger] g[i],
        ) && h[i].status is Running && exists|k: int|
            0 <= k < next.effects.len() && #[trigger] next.effects[k] == machine::run_effect(
                g,
                g[i].id,
            ) by {
            assert(h[i] == machine::dispatched_node(g[i], ids));
            record::lemma_chosen_ready(g, config, i);
            let k = choose|k: int| 0 <= k < ids.len() && ids[k] == g[i].id;
            assert(next.effects[k] == machine::run_effect(g, g[i].id));
        }
        assert forall|k: int| 0 <= k < next.effects.len() implies exists|i: int|
            0 <= i < g.len() && queries::is_ready(g, #[trigger] g[i]) && h[i].status is Running
                && #[trigger] next.effects[k] == machine::run_effect(g, g[i].id) by {
            assert(ids[k] == queries::dispatch_order(g)[k]);
            record::lemma_order_ready(g, k);
            let i = choose|i: int|
                0 <= i < g.len() && (#[trigger] g[i]).id == queries::dispatch_order(g)[k]
                    && queries::is_ready(g, g[i]);
            assert(ids.contains(g[i].id));
            assert(h[i] == machine::dispatched_node(g[i], ids));
            assert(next.effects[k] == machine::run_effect(g, g[i].id));
        }
    }
}

// ── the dispatch cap ───────────────────────────────────────────────────────

/// Nodes of `h` are active only where those of `g` are, but for one place.
proof fn lemma_active_but_one(g: Seq<NodeView>, h: Seq<NodeView>, place: int, k: int)
    requires
        g.len() == h.len(),
        0 <= k <= g.len(),
        forall|i: int|
            0 <= i < g.len() && i != place && queries::is_active(#[trigger] h[i])
                ==> queries::is_active(g[i]),
    ensures
        queries::active(h.take(k)).len() <= queries::active(g.take(k)).len() + if 0 <= place < k {
            1int
        } else {
            0int
        },
    decreases k,
{
    let pred = |n: NodeView| queries::is_active(n);
    if k == 0 {
        reveal(Seq::filter);
        assert(h.take(0).len() == 0);
    } else {
        lemma_active_but_one(g, h, place, k - 1);
        queries::lemma_filter_step(g, pred, k - 1);
        queries::lemma_filter_step(h, pred, k - 1);
    }
}

/// Pending nodes at the end do not count as active.
proof fn lemma_active_grown(g: Seq<NodeView>, more: Seq<NodeView>, k: int)
    requires
        0 <= k <= more.len(),
        forall|i: int| 0 <= i < more.len() ==> (#[trigger] more[i]).status is Pending,
    ensures
        queries::active((g + more).take(g.len() + k)) == queries::active(g),
    decreases k,
{
    let pred = |n: NodeView| queries::is_active(n);
    let grown = g + more;
    if k == 0 {
        assert(grown.take(g.len() as int) =~= g);
    } else {
        lemma_active_grown(g, more, k - 1);
        queries::lemma_filter_step(grown, pred, g.len() + k - 1);
        assert(grown[g.len() + k - 1] == more[k - 1]);
    }
}

/// Dispatching some nodes makes at most that many active.
proof fn lemma_active_dispatched(g: Seq<NodeView>, ids: Seq<Text>)
    requires
        soundness::unique_ids(g),
    ensures
        queries::active(machine::dispatched(g, ids)).len() <= queries::active(g).len() + ids.len(),
    decreases ids.len(),
{
    let after = machine::dispatched(g, ids);
    if ids.len() == 0 {
        assert(after =~= g);
    } else {
        let part = ids.drop_last();
        let before = machine::dispatched(g, part);
        lemma_active_dispatched(g, part);
        let place = if exists|p: int| 0 <= p < g.len() && (#[trigger] g[p]).id == ids.last() {
            choose|p: int| 0 <= p < g.len() && (#[trigger] g[p]).id == ids.last()
        } else {
            -1
        };
        assert forall|i: int|
            0 <= i < g.len() && i != place && queries::is_active(
                #[trigger] after[i],
            ) implies queries::is_active(before[i]) by {
            assert(after[i] == machine::dispatched_node(g[i], ids));
            assert(before[i] == machine::dispatched_node(g[i], part));
            if ids.contains(g[i].id) && !part.contains(g[i].id) {
                let x = choose|x: int| 0 <= x < ids.len() && ids[x] == g[i].id;
                if x < part.len() {
                    assert(part[x] == g[i].id);
                }
                assert(g[i].id == ids.last());
            }
        }
        lemma_active_but_one(before, after, place, g.len() as int);
        assert(before.take(g.len() as int) =~= before);
        assert(after.take(g.len() as int) =~= after);
    }
}

/// No node of `h` is active that was not in `g`.
pub open spec fn settles(g: Seq<NodeView>, h: Seq<NodeView>) -> bool {
    &&& g.len() <= h.len()
    &&& forall|i: int|
        0 <= i < g.len() && queries::is_active(#[trigger] h[i]) ==> queries::is_active(g[i])
    &&& forall|i: int| g.len() <= i < h.len() ==> (#[trigger] h[i]).status is Pending
}

proof fn lemma_settles_active(g: Seq<NodeView>, h: Seq<NodeView>)
    requires
        settles(g, h),
    ensures
        queries::active(h).len() <= queries::active(g).len(),
{
    let first = h.take(g.len() as int);
    let more = h.skip(g.len() as int);
    lemma_active_but_one(g, first, -1, g.len() as int);
    assert(first.take(g.len() as int) =~= first);
    assert(g.take(g.len() as int) =~= g);
    lemma_active_grown(first, more, more.len() as int);
    assert((first + more) =~= h);
    assert(h.take(h.len() as int) =~= h);
}

proof fn lemma_mark_settles(g: Seq<NodeView>, id: Text, status: NodeStatus)
    requires
        soundness::unique_ids(g),
        queries::lookup(g, id) matches Some(n) && queries::is_active(n),
    ensures
        settles(g, mutations::mark(g, id, status)),
{
    let h = mutations::mark(g, id, status);
    assert forall|i: int| 0 <= i < g.len() && queries::is_active(
        #[trigger] h[i],
    ) implies queries::is_active(g[i]) by {
        soundness::lemma_unique_lookup(g, i);
        assert(h[i] == mutations::marked_node(g[i], id, status));
    }
}

proof fn lemma_triggered_settles(
    config: ConfigView,
    before: Seq<NodeView>,
    g: Seq<NodeView>,
    depth: usize,
    m: Seq<TaskRecordView>,
    ids: Seq<Text>,
)
    requires
        settles(before, g),
    ensures
        settles(
            before,
            state::graph_of(machine::triggered_step(config, g, depth, m, ids).state),
        ),
{
    if let Ok(requests) = triggers::triggered(g, config, m) {
        let more = mutations::spawned_nodes(depth, requests, ids);
        let grown = g + more;
        assert forall|i: int| 0 <= i < before.len() && queries::is_active(
            #[trigger] grown[i],
        ) implies queries::is_active(before[i]) by {
            assert(grown[i] == g[i]);
        }
        assert forall|i: int| before.len() <= i < grown.len() implies (
        #[trigger] grown[i]).status is Pending by {
            if i < g.len() {
                assert(grown[i] == g[i]);
            } else {
                assert(grown[i] == more[i - g.len()]);
            }
        }
    }
}

proof fn lemma_recovery_settles(
    config: ConfigView,
    g: Seq<NodeView>,
    n: NodeView,
    failure: FailureView,
    fresh: Text,
)
    ensures
        settles(
            g,
            state::graph_of(recovery::recovery_step(config, g, n, failure, fresh).state),
        ),
{
    let marked = mutations::mark(g, n.id, NodeStatus::Failed);
    let cancelled = closure::cancel_dependents(marked, n.id);
    assert forall|i: int| 0 <= i < g.len() && queries::is_active(
        #[trigger] marked[i],
    ) implies queries::is_active(g[i]) by {
        assert(marked[i] == mutations::marked_node(g[i], n.id, NodeStatus::Failed));
    }
    assert forall|i: int| 0 <= i < g.len() && queries::is_active(
        #[trigger] cancelled[i],
    ) implies queries::is_active(g[i]) by {
        assert(cancelled[i] == closure::cancelled_node(marked, n.id, marked[i]));
    }
    assert forall|r: NodeView| r.status is Pending implies settles(
        g,
        #[trigger] recovery::replaced(g, n, r),
    ) by {
        let h = recovery::replaced(g, n, r);
        assert forall|i: int| 0 <= i < g.len() && queries::is_active(
            #[trigger] h[i],
        ) implies queries::is_active(g[i]) by {
            assert(marked.push(r)[i] == marked[i]);
            assert(h[i] == mutations::remapped_node(marked[i], n.id, r.id));
        }
        assert(h.last() == mutations::remapped_node(r, n.id, r.id));
    }
}

/// No result sets a node running: after one, at most the nodes that were
/// active are.
pub proof fn law_results_start_nothing(
    config: ConfigView,
    g: Seq<NodeView>,
    event: EventView,
    ids: Seq<Text>,
)
    requires
        soundness::unique_ids(g),
    ensures
        settles(g, state::graph_of(machine::waiting_step(config, g, event, ids).state)),
{
    let id = machine::node_of(event);
    queries::lemma_lookup_some(g, id);
    if queries::lookup(g, id) matches Some(n) && queries::is_active(n) {
        let n = queries::lookup(g, id)->0;
        lemma_mark_settles(g, id, NodeStatus::Failed);
        lemma_mark_settles(g, id, NodeStatus::Completed);
        lemma_mark_settles(g, id, NodeStatus::Integrating);
        match event {
            EventView::Start => {},
            EventView::PlanAccepted { children, .. } => {
                let done = mutations::mark(g, id, NodeStatus::Completed);
                let more = mutations::child_nodes(n, children, ids);
                let grown = done + more;
                assert forall|i: int| 0 <= i < g.len() && queries::is_active(
                    #[trigger] grown[i],
                ) implies queries::is_active(g[i]) by {
                    assert(grown[i] == done[i]);
                }
                assert forall|i: int| g.len() <= i < grown.len() implies (
                #[trigger] grown[i]).status is Pending by {
                    assert(grown[i] == more[i - g.len()]);
                }
            },
            EventView::WorkAccepted { .. } => {},
            EventView::NodeFailed { failure, .. } => {
                lemma_recovery_settles(config, g, n, failure, ids[0]);
            },
            EventView::IntegrationSucceeded { summary, manifest, .. } => {
                let done = mutations::complete_with_summary(g, id, summary);
                assert forall|i: int| 0 <= i < g.len() && queries::is_active(
                    #[trigger] done[i],
                ) implies queries::is_active(g[i]) by {
                    assert(done[i] == mutations::summarized_node(g[i], id, summary));
                }
                lemma_triggered_settles(config, g, done, n.plan_depth, manifest, ids);
            },
            EventView::IntegrationFailed { failure, .. } => {
                lemma_recovery_settles(config, g, n, failure, ids[0]);
            },
            EventView::PlannerTasksIntegrated { manifest, .. } => {
                lemma_triggered_settles(
                    config,
                    g,
                    mutations::mark(g, id, NodeStatus::Completed),
                    n.plan_depth,
                    manifest,
                    ids,
                );
            },
            EventView::PlannerTasksIntegrationFailed { failure, .. } => {
                lemma_recovery_settles(config, g, n, failure, ids[0]);
            },
        }
    }
}

/// The state is within the dispatch cap: no more nodes are active than there
/// are slots.
pub open spec fn within_cap(state: StateView) -> bool {
    match state {
        StateView::Active { graph, run_config } => queries::active(graph).len() <= teams::slots(
            run_config,
        ),
        StateView::Waiting { graph, run_config } => queries::active(graph).len() <= teams::slots(
            run_config,
        ),
        _ => true,
    }
}

/// The configuration of a run that goes on.
pub open spec fn config_of(state: StateView) -> Option<ConfigView> {
    match state {
        StateView::Active { run_config, .. } => Some(run_config),
        StateView::Waiting { run_config, .. } => Some(run_config),
        _ => None,
    }
}

proof fn lemma_config_kept(
    config: ConfigView,
    g: Seq<NodeView>,
    event: EventView,
    ids: Seq<Text>,
)
    ensures
        ({
            let next = machine::waiting_step(config, g, event, ids).state;
            state::is_final(next) || next == (StateView::Active {
                graph: state::graph_of(next),
                run_config: config,
            }) || next == (StateView::Waiting {
                graph: state::graph_of(next),
                run_config: config,
            })
        }),
{
}

/// The policy of a run never changes while the run goes on.
pub proof fn law_policy_stays(state: StateView, event: EventView, ids: Seq<Text>)
    ensures
        state::is_final(machine::next_step(state, event, ids).state) || config_of(
            machine::next_step(state, event, ids).state,
        ) == config_of(state),
{
    if let StateView::Waiting { graph, run_config } = state {
        lemma_config_kept(run_config, graph, event, ids);
    }
}

/// Dispatch never exceeds the cap: no step makes more nodes active than there
/// are slots, and none changes the configuration of a run that goes on.
pub proof fn law_cap_is_kept(state: StateView, event: EventView, ids: Seq<Text>)
    requires
        soundness::unique_ids(state::graph_of(state)),
        within_cap(state),
    ensures
        within_cap(machine::next_step(state, event, ids).state),
        state::is_final(machine::next_step(state, event, ids).state) || config_of(
            machine::next_step(state, event, ids).state,
        ) == config_of(state),
{
    let g = state::graph_of(state);
    match state {
        StateView::Active { run_config, .. } => {
            if queries::active(g).len() < teams::slots(run_config) {
                lemma_active_dispatched(g, machine::chosen(g, run_config));
            }
        },
        StateView::Waiting { run_config, .. } => {
            lemma_config_kept(run_config, g, event, ids);
            law_results_start_nothing(run_config, g, event, ids);
            lemma_settles_active(
                g,
                state::graph_of(machine::waiting_step(run_config, g, event, ids).state),
            );
        },
        _ => {},
    }
}

/// A tick fills every slot it can: when it dispatches fewer nodes than there
/// were free slots, everything that was ready is running.
pub proof fn law_no_slot_is_left_idle(g: Seq<NodeView>, config: ConfigView, i: int)
    requires
        machine::start_step(g, config).state is Waiting,
        queries::active(g).len() + machine::start_step(g, config).effects.len() < teams::slots(
            config,
        ),
        0 <= i < g.len(),
        queries::is_ready(g, g[i]),
    ensures
        state::graph_of(machine::start_step(g, config).state)[i].status is Running,
{
    let ids = machine::chosen(g, config);
    let order = queries::dispatch_order(g);
    lemma_order_holds(g, i);
    assert(order.len() > 0);
    assert(ids == order);
    assert(machine::dispatched(g, ids)[i] == machine::dispatched_node(g[i], ids));
}

/// Every ready node has its place in the order of dispatch.
pub proof fn lemma_order_holds(g: Seq<NodeView>, i: int)
    requires
        0 <= i < g.len(),
        queries::is_ready(g, g[i]),
    ensures
        queries::dispatch_order(g).contains(g[i].id),
{
    let added = queries::ready_of(g, g, false);
    let initial = queries::ready_of(g, g, true);
    queries::lemma_filter_members(
        g,
        |n: NodeView| queries::is_ready(g, n) && (n.origin is Root <==> false),
    );
    queries::lemma_filter_members(
        g,
        |n: NodeView| queries::is_ready(g, n) && (n.origin is Root <==> true),
    );
    assert(g.contains(g[i]));
    let order = queries::dispatch_order(g);
    if g[i].origin is Root {
        assert(initial.contains(g[i]));
        let k = choose|k: int| 0 <= k < initial.len() && initial[k] == g[i];
        assert(order[added.len() + k] == g[i].id);
    } else {
        assert(added.contains(g[i]));
        let k = choose|k: int| 0 <= k < added.len() && added[k] == g[i];
        assert(order[added.len() - 1 - k] == g[i].id);
    }
}

/// Filtering keeps the order.
proof fn lemma_filter_keeps_order<A>(s: Seq<A>, pred: spec_fn(A) -> bool, i: int, j: int, k: int)
    requires
        0 <= i < j < k <= s.len(),
        pred(s[i]),
        pred(s[j]),
    ensures
        exists|a: int, b: int|
            0 <= a < b < s.take(k).filter(pred).len() && #[trigger] s.take(k).filter(pred)[a]
                == s[i] && #[trigger] s.take(k).filter(pred)[b] == s[j],
    decreases k,
{
    queries::lemma_filter_step(s, pred, k - 1);
    let part = s.take(k - 1).filter(pred);
    let all = s.take(k).filter(pred);
    if j == k - 1 {
        queries::lemma_filter_members(s.take(k - 1), pred);
        assert(s.take(k - 1)[i] == s[i]);
        assert(s.take(k - 1).contains(s[i]));
        assert(part.contains(s[i]));
        let a = choose|a: int| 0 <= a < part.len() && part[a] == s[i];
        assert(all[a] == s[i] && all[part.len() as int] == s[j]);
    } else {
        lemma_filter_keeps_order(s, pred, i, j, k - 1);
        let (a, b) = choose|a: int, b: int|
            0 <= a < b < part.len() && #[trigger] part[a] == s[i] && #[trigger] part[b] == s[j];
        assert(all[a] == s[i] && all[b] == s[j]);
    }
}

/// Dispatch is depth-first: of two ready nodes that the run added, the one
/// added later is dispatched first.
pub proof fn law_newest_nodes_run_first(g: Seq<NodeView>, i: int, j: int)
    requires
        0 <= i < j < g.len(),
        queries::is_ready(g, g[i]),
        queries::is_ready(g, g[j]),
        g[i].origin !is Root,
        g[j].origin !is Root,
    ensures
        exists|a: int, b: int|
            0 <= a < b < queries::dispatch_order(g).len() && #[trigger] queries::dispatch_order(
                g,
            )[a] == g[j].id && #[trigger] queries::dispatch_order(g)[b] == g[i].id,
{
    let pred = |n: NodeView| queries::is_ready(g, n) && (n.origin is Root <==> false);
    let added = queries::ready_of(g, g, false);
    let order = queries::dispatch_order(g);
    lemma_filter_keeps_order(g, pred, i, j, g.len() as int);
    assert(g.take(g.len() as int) =~= g);
    let (a, b) = choose|a: int, b: int|
        0 <= a < b < added.len() && #[trigger] added[a] == g[i] && #[trigger] added[b] == g[j];
    let n = added.len();
    assert(order[n - 1 - b] == g[j].id);
    assert(order[n - 1 - a] == g[i].id);
}

// ── the end of a run ───────────────────────────────────────────────────────

/// A run completes only at a tick, when every node is completed, failed or
/// cancelled and every required test target was completed.
pub proof fn law_complete_runs_are_done(state: StateView, event: EventView, ids: Seq<Text>)
    requires
        machine::next_step(state, event, ids).state is Complete,
    ensures
        state is Active,
        event is Start,
        machine::next_step(state, event, ids).state == (StateView::Complete {
            graph: state::graph_of(state),
        }),
        queries::all_terminal(state::graph_of(state)),
        invariants::missing_tests(state::graph_of(state)) is None,
        soundness::sound(state::graph_of(state)),
{
    soundness::law_validation_accepts_sound_graphs(state::graph_of(state));
}

/// A run that has ended stays ended: an event delivered to it is a protocol
/// violation that changes no node.
pub proof fn law_ended_runs_stay_ended(state: StateView, event: EventView, ids: Seq<Text>)
    requires
        state::is_final(state),
    ensures
        machine::next_step(state, event, ids) == state::failed(
            state::graph_of(state),
            ReasonView::ProtocolViolation("event delivered to terminal state"@),
        ),
{
}

/// An active scheduler takes only `Start`, and a waiting one never does: any
/// other event fails the run and changes no node.
pub proof fn law_events_out_of_turn_fail(state: StateView, event: EventView, ids: Seq<Text>)
    requires
        state is Active && event !is Start || state is Waiting && event is Start,
    ensures
        ({
            let next = machine::next_step(state, event, ids);
            &&& next.effects.len() == 0
            &&& next.state matches StateView::Failed { graph, reason } && graph == state::graph_of(
                state,
            ) && reason is ProtocolViolation
        }),
{
}

/// A run that ends has nothing more to do: effects are emitted only by steps
/// that leave the scheduler waiting.
pub proof fn law_effects_mean_waiting(state: StateView, event: EventView, ids: Seq<Text>)
    requires
        machine::next_step(state, event, ids).effects.len() > 0,
    ensures
        machine::next_step(state, event, ids).state is Waiting,
{
}

/// The summary of a completed run tells a clean run from a recovered one: it
/// reports recovery exactly when some node stands for one that failed.
pub proof fn law_summary_reports_recovery(summary: RecoverySummary, g: Seq<NodeView>)
    requires
        machine::summarizes(summary, g),
    ensures
        summary.recovered <==> exists|i: int|
            0 <= i < g.len() && invariants::origin_source((#[trigger] g[i]).origin) is Some,
{
    let retry = |n: NodeView| n.origin is Retry;
    let elevate = |n: NodeView| n.origin is ElevateModel;
    let split = |n: NodeView| n.origin is Split;
    queries::lemma_filter_members(g, retry);
    queries::lemma_filter_members(g, elevate);
    queries::lemma_filter_members(g, split);
    if summary.recovered {
        let n = if g.filter(retry).len() > 0 {
            assert(g.filter(retry).contains(g.filter(retry)[0]));
            g.filter(retry)[0]
        } else if g.filter(elevate).len() > 0 {
            assert(g.filter(elevate).contains(g.filter(elevate)[0]));
            g.filter(elevate)[0]
        } else {
            assert(g.filter(split).contains(g.filter(split)[0]));
            g.filter(split)[0]
        };
        let i = choose|i: int| 0 <= i < g.len() && g[i] == n;
        assert(invariants::origin_source(g[i].origin) is Some);
    }
    if exists|i: int|
        0 <= i < g.len() && invariants::origin_source((#[trigger] g[i]).origin) is Some {
        let i = choose|i: int|
            0 <= i < g.len() && invariants::origin_source((#[trigger] g[i]).origin) is Some;
        assert(g.contains(g[i]));
        assert(g.filter(retry).contains(g[i]) || g.filter(elevate).contains(g[i]) || g.filter(
            split,
        ).contains(g[i]));
    }
}

} // verus!
