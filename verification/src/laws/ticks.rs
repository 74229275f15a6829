//! What a tick does: which nodes it runs, in which order, as what; and how it
//! ends a run.

use vstd::prelude::*;

use crate::closure;
use crate::effect::EffectView;
use crate::event::EventView;
use crate::graph::{NodeStatus, NodeView};
use crate::invariants;
use crate::laws::plain;
use crate::machine;
use crate::queries;
use crate::search;
use crate::soundness;
use crate::state;
use crate::state::{StateView, StepView};
use crate::teams::ConfigView;
use crate::text::Text;

verus! {

/// A tick of an active scheduler.
pub open spec fn tick(g: Seq<NodeView>, config: ConfigView, ids: Seq<Text>) -> StepView {
    machine::next_step(StateView::Active { graph: g, run_config: config }, EventView::Start, ids)
}

/// The effect runs a node as it is: everything the runner is told is the
/// node's own.
pub open spec fn runs_as_it_is(effect: EffectView, n: NodeView) -> bool {
    effect matches EffectView::RunNode {
        node_id,
        worker_role,
        kind,
        objective,
        target_files,
        test_plan_context,
        model_tier,
        attempt,
        retry_feedback,
        team,
        adapter,
        northstar,
    } && node_id == n.id && worker_role == n.worker_role && kind == n.kind && objective
        == n.objective && target_files == n.target_files
        && test_plan_context.required_validation_targets == n.required_validation_targets
        && model_tier == n.model_tier && attempt == n.attempt && retry_feedback == n.retry_feedback
        && team == n.team && adapter == n.adapter && northstar == n.northstar
}

/// Of two nodes, which one runs first: what the run added goes before what was
/// there from the start; of the former the newest, of the latter the oldest.
pub open spec fn goes_before(g: Seq<NodeView>, i: int, j: int) -> bool {
    if g[i].origin is Root {
        g[j].origin is Root && i < j
    } else {
        g[j].origin is Root || i > j
    }
}

/// Where the nodes stand that may run, in the order in which they run.
proof fn lemma_order(g: Seq<NodeView>) -> (at: Seq<int>)
    ensures
        at.len() == queries::dispatch_order(g).len(),
        forall|p: int|
            0 <= p < at.len() ==> 0 <= #[trigger] at[p] < g.len() && queries::dispatch_order(g)[p]
                == g[at[p]].id && plain::may_run(g, at[p]),
        forall|p: int, q: int|
            0 <= p < q < at.len() ==> goes_before(g, #[trigger] at[p], #[trigger] at[q]),
        forall|i: int| 0 <= i < g.len() && #[trigger] plain::may_run(g, i) ==> at.contains(i),
{
    plain::lemma_words(g);
    let added_pred = |n: NodeView| queries::is_ready(g, n) && (n.origin is Root <==> false);
    let root_pred = |n: NodeView| queries::is_ready(g, n) && (n.origin is Root <==> true);
    let added = plain::lemma_kept(g, added_pred);
    let root = plain::lemma_kept(g, root_pred);
    let a = queries::ready_of(g, g, false);
    let b = queries::ready_of(g, g, true);
    assert(a == g.filter(added_pred));
    assert(b == g.filter(root_pred));
    let at = added.reverse() + root;
    let order = queries::dispatch_order(g);
    assert(queries::ids_of(a).len() == a.len());
    assert(queries::ids_of(b).len() == b.len());
    assert forall|p: int| 0 <= p < at.len() implies 0 <= #[trigger] at[p] < g.len() && order[p]
        == g[at[p]].id && plain::may_run(g, at[p]) by {
        if p < added.len() {
            let q = added.len() - 1 - p;
            assert(at[p] == added[q]);
            assert(added_pred(g[added[q]]));
            assert(order[p] == a[q].id);
        } else {
            let q = p - added.len();
            assert(at[p] == root[q]);
            assert(root_pred(g[root[q]]));
            assert(order[p] == b[q].id);
        }
    }
    assert forall|p: int, q: int| 0 <= p < q < at.len() implies goes_before(
        g,
        #[trigger] at[p],
        #[trigger] at[q],
    ) by {
        let n = added.len() as int;
        if p < n {
            assert(added_pred(g[added[n - 1 - p]]));
        } else {
            assert(root_pred(g[root[p - n]]));
        }
        if q < n {
            assert(added_pred(g[added[n - 1 - q]]));
            assert(added[n - 1 - q] < added[n - 1 - p]);
        } else {
            assert(root_pred(g[root[q - n]]));
            if p >= n {
                assert(root[p - n] < root[q - n]);
            }
        }
    }
    assert forall|i: int| 0 <= i < g.len() && #[trigger] plain::may_run(g, i) implies at.contains(
        i,
    ) by {
        assert(queries::is_ready(g, g[i]));
        if g[i].origin is Root {
            assert(root_pred(g[i]));
            let p = choose|p: int| 0 <= p < root.len() && root[p] == i;
            assert(at[added.len() + p] == i);
        } else {
            assert(added_pred(g[i]));
            let p = choose|p: int| 0 <= p < added.len() && added[p] == i;
            assert(at[added.len() - 1 - p] == i);
        }
    }
    at
}

/// A tick that runs nodes has a whole graph with room in it, and runs the
/// first of those that may run.
proof fn lemma_tick(g: Seq<NodeView>, config: ConfigView, ids: Seq<Text>) -> (at: Seq<int>)
    requires
        tick(g, config, ids).effects.len() > 0,
    ensures
        soundness::unique_ids(g),
        plain::is_whole(g),
        plain::in_flight(g) < plain::room(config),
        at.len() == queries::dispatch_order(g).len(),
        forall|p: int|
            0 <= p < at.len() ==> 0 <= #[trigger] at[p] < g.len() && queries::dispatch_order(g)[p]
                == g[at[p]].id && plain::may_run(g, at[p]),
        forall|p: int, q: int|
            0 <= p < q < at.len() ==> goes_before(g, #[trigger] at[p], #[trigger] at[q]),
        forall|i: int| 0 <= i < g.len() && #[trigger] plain::may_run(g, i) ==> at.contains(i),
        tick(g, config, ids).effects.len() == machine::chosen(g, config).len(),
        machine::chosen(g, config).len() <= at.len(),
        machine::chosen(g, config).len() <= plain::room(config) - plain::in_flight(g),
        machine::chosen(g, config).len() < at.len() ==> machine::chosen(g, config).len()
            == plain::room(config) - plain::in_flight(g),
        forall|p: int|
            0 <= p < machine::chosen(g, config).len() ==> #[trigger] machine::chosen(g, config)[p]
                == g[at[p]].id,
        state::graph_of(tick(g, config, ids).state) == machine::dispatched(
            g,
            machine::chosen(g, config),
        ),
{
    soundness::law_validation_accepts_sound_graphs(g);
    plain::lemma_whole(g);
    plain::lemma_in_flight(g);
    let at = lemma_order(g);
    let chosen = machine::chosen(g, config);
    assert forall|p: int| 0 <= p < chosen.len() implies #[trigger] chosen[p] == g[at[p]].id by {
        assert(chosen[p] == queries::dispatch_order(g)[p]);
    }
    at
}

/// What a tick runs, it runs as it is: each effect runs one node of the graph
/// that waits for nothing any more, tells the runner that node's own data, and
/// sets that node running.
pub proof fn law_ticks_run_nodes_as_they_are(
    g: Seq<NodeView>,
    config: ConfigView,
    ids: Seq<Text>,
    k: int,
)
    requires
        0 <= k < tick(g, config, ids).effects.len(),
    ensures
        exists|i: int|
            0 <= i < g.len() && plain::may_run(g, i) && runs_as_it_is(
                tick(g, config, ids).effects[k],
                #[trigger] g[i],
            ) && state::graph_of(tick(g, config, ids).state)[i] == (NodeView {
                status: NodeStatus::Running,
                ..g[i]
            }),
{
    let at = lemma_tick(g, config, ids);
    let chosen = machine::chosen(g, config);
    let i = at[k];
    assert(chosen[k] == g[i].id);
    assert(queries::first_at(g, g[i].id, i));
    queries::lemma_lookup_at(g, g[i].id, i);
    assert(tick(g, config, ids).effects[k] == machine::run_effect(g, chosen[k]));
    assert(chosen.contains(g[i].id));
    assert(runs_as_it_is(tick(g, config, ids).effects[k], g[i]));
}

/// A runner is told which files are planned to be written by what waits for
/// its node, each once and in the order of a dictionary.
pub proof fn law_runners_are_told_the_planned_targets(
    g: Seq<NodeView>,
    config: ConfigView,
    ids: Seq<Text>,
    k: int,
    target: Text,
)
    requires
        0 <= k < tick(g, config, ids).effects.len(),
    ensures
        tick(g, config, ids).effects[k] matches EffectView::RunNode { node_id, test_plan_context, .. }
            && plain::in_order(test_plan_context.planned_test_targets)
            && test_plan_context.planned_test_targets.contains(target) == exists|j: int|
            0 <= j < g.len() && (#[trigger] g[j]).id != node_id && plain::waits_for(
                g,
                false,
                j,
                node_id,
            ) && g[j].target_files.contains(target),
{
    let at = lemma_tick(g, config, ids);
    let i = at[k];
    let id = machine::chosen(g, config)[k];
    assert(queries::first_at(g, g[i].id, i));
    queries::lemma_lookup_at(g, g[i].id, i);
    assert(tick(g, config, ids).effects[k] == machine::run_effect(g, id));
    plain::lemma_sorted(closure::dependent_targets(g, id, g.len() as int));
    plain::lemma_planned_targets(g, id, g.len() as int, target);
}

/// A tick changes nothing but what it runs: every other node stays as it was,
/// no node is added, and the policy stays.
pub proof fn law_ticks_change_nothing_else(
    g: Seq<NodeView>,
    config: ConfigView,
    ids: Seq<Text>,
    i: int,
)
    requires
        0 <= i < g.len(),
    ensures
        state::graph_of(tick(g, config, ids).state).len() == g.len(),
        state::graph_of(tick(g, config, ids).state)[i] == g[i] || exists|k: int|
            0 <= k < tick(g, config, ids).effects.len() && runs_as_it_is(
                #[trigger] tick(g, config, ids).effects[k],
                g[i],
            ),
{
    if tick(g, config, ids).effects.len() > 0 {
        let at = lemma_tick(g, config, ids);
        let chosen = machine::chosen(g, config);
        if chosen.contains(g[i].id) {
            let k = choose|k: int| 0 <= k < chosen.len() && chosen[k] == g[i].id;
            assert(chosen[k] == g[at[k]].id);
            assert(at[k] == i);
            assert(queries::first_at(g, g[i].id, i));
            queries::lemma_lookup_at(g, g[i].id, i);
            assert(tick(g, config, ids).effects[k] == machine::run_effect(g, chosen[k]));
            assert(runs_as_it_is(tick(g, config, ids).effects[k], g[i]));
        }
    }
}

/// A tick runs nodes in order: of any two that it runs, the one that goes
/// first is run first.
pub proof fn law_ticks_run_in_order(
    g: Seq<NodeView>,
    config: ConfigView,
    ids: Seq<Text>,
    k: int,
    l: int,
    i: int,
    j: int,
)
    requires
        0 <= k < l < tick(g, config, ids).effects.len(),
        0 <= i < g.len(),
        0 <= j < g.len(),
        runs_as_it_is(tick(g, config, ids).effects[k], g[i]),
        runs_as_it_is(tick(g, config, ids).effects[l], g[j]),
    ensures
        goes_before(g, i, j),
{
    let at = lemma_tick(g, config, ids);
    let chosen = machine::chosen(g, config);
    assert(tick(g, config, ids).effects[k] == machine::run_effect(g, chosen[k]));
    assert(tick(g, config, ids).effects[l] == machine::run_effect(g, chosen[l]));
    assert(at[k] == i && at[l] == j);
}

/// A tick runs as much as it may and no more: it stays within the cap, and
/// where it leaves a node out that may run, it has filled the cap with nodes
/// that go before it.
pub proof fn law_ticks_fill_the_cap(
    g: Seq<NodeView>,
    config: ConfigView,
    ids: Seq<Text>,
    i: int,
)
    requires
        tick(g, config, ids).effects.len() > 0,
        0 <= i < g.len(),
        plain::may_run(g, i),
    ensures
        plain::in_flight(g) + tick(g, config, ids).effects.len() <= plain::room(config),
        state::graph_of(tick(g, config, ids).state)[i].status is Running || (plain::in_flight(g)
            + tick(g, config, ids).effects.len() == plain::room(config) && forall|j: int|
            0 <= j < g.len() && g[j].status is Pending && (#[trigger] state::graph_of(
                tick(g, config, ids).state,
            )[j]).status is Running ==> goes_before(g, j, i)),
{
    let at = lemma_tick(g, config, ids);
    let chosen = machine::chosen(g, config);
    let h = state::graph_of(tick(g, config, ids).state);
    let p = choose|p: int| 0 <= p < at.len() && at[p] == i;
    if p < chosen.len() {
        assert(chosen[p] == g[i].id);
        assert(chosen.contains(g[i].id));
    } else {
        assert forall|j: int|
            0 <= j < g.len() && g[j].status is Pending && (#[trigger] h[j]).status
                is Running implies goes_before(g, j, i) by {
            assert(chosen.contains(g[j].id));
            let k = choose|k: int| 0 <= k < chosen.len() && chosen[k] == g[j].id;
            assert(chosen[k] == g[at[k]].id);
            assert(at[k] == j);
            assert(goes_before(g, at[k], at[p]));
        }
    }
}

// ── how a tick ends a run ──────────────────────────────────────────────────

/// A file that completed work requires to be written was written: some
/// completed work has it as a target.
pub open spec fn is_written(g: Seq<NodeView>, target: Text) -> bool {
    exists|j: int|
        0 <= j < g.len() && (#[trigger] g[j]).kind is Work && g[j].status is Completed
            && g[j].target_files.contains(target)
}

/// Everything that completed work requires to be written was written.
pub open spec fn all_written(g: Seq<NodeView>) -> bool {
    forall|i: int, k: int|
        0 <= i < g.len() && g[i].kind is Work && g[i].status is Completed && 0 <= k
            < g[i].required_validation_targets.len() ==> is_written(
            g,
            #[trigger] g[i].required_validation_targets[k],
        )
}

proof fn lemma_written(g: Seq<NodeView>)
    ensures
        (invariants::missing_tests(g) is None) == all_written(g),
{
    let check = invariants::tests_check(g);
    search::lemma_first_some_none(g.len(), check);
    assert forall|target: Text| #[trigger]
        is_written(g, target) == invariants::target_done(g, target) by {
        if is_written(g, target) {
            let j = choose|j: int|
                0 <= j < g.len() && (#[trigger] g[j]).kind is Work && g[j].status is Completed
                    && g[j].target_files.contains(target);
            assert(invariants::is_done_work(g[j]));
        }
        if invariants::target_done(g, target) {
            let j = choose|j: int|
                0 <= j < g.len() && invariants::is_done_work(#[trigger] g[j])
                    && g[j].target_files.contains(target);
            assert(g[j].kind is Work);
        }
    }
    if all_written(g) {
        assert forall|i: int| 0 <= i < g.len() implies #[trigger] check(i) is None by {
            let inner = invariants::required_check(g, g[i]);
            search::lemma_first_some_none(g[i].required_validation_targets.len(), inner);
            if invariants::is_done_work(g[i]) {
                assert forall|k: int|
                    0 <= k < g[i].required_validation_targets.len() implies #[trigger] inner(
                    k,
                ) is None by {
                    assert(is_written(g, g[i].required_validation_targets[k]));
                }
            }
        }
    }
    if invariants::missing_tests(g) is None {
        assert forall|i: int, k: int|
            0 <= i < g.len() && g[i].kind is Work && g[i].status is Completed && 0 <= k
                < g[i].required_validation_targets.len() implies is_written(
            g,
            #[trigger] g[i].required_validation_targets[k],
        ) by {
            let inner = invariants::required_check(g, g[i]);
            search::lemma_first_some_none(g[i].required_validation_targets.len(), inner);
            assert(check(i) is None);
            assert(invariants::is_done_work(g[i]));
            assert(inner(k) is None);
            assert(invariants::target_done(g, g[i].required_validation_targets[k]));
        }
    }
}

/// How a tick turns out. A graph that is not whole fails the run, and so does
/// one without room. When nothing more becomes of any node, the run is
/// complete if everything that was required was written, and fails otherwise.
/// When nothing may run, the run waits for what is in flight, and is deadlocked
/// if nothing is. Otherwise something runs.
pub proof fn law_ticks_turn_out_so(g: Seq<NodeView>, config: ConfigView, ids: Seq<Text>)
    ensures
        ({
            let next = tick(g, config, ids);
            let failed = next.effects.len() == 0 && next.state is Failed && state::graph_of(
                next.state,
            ) == g;
            let stuck = forall|i: int| 0 <= i < g.len() ==> !(#[trigger] plain::may_run(g, i));
            if !plain::is_whole(g) {
                failed && (next.state matches StateView::Failed { reason, .. }
                    && reason is GraphInvariantViolation)
            } else if plain::in_flight(g) >= plain::room(config) {
                failed && (next.state matches StateView::Failed { reason, .. }
                    && reason is ProtocolViolation)
            } else if plain::is_over(g) {
                if all_written(g) {
                    next.effects.len() == 0 && next.state == (StateView::Complete { graph: g })
                } else {
                    failed && (next.state matches StateView::Failed { reason, .. }
                        && reason is RequiredTestTargetsMissing)
                }
            } else if stuck && plain::in_flight(g) == 0 {
                failed && (next.state matches StateView::Failed { reason, .. }
                    && reason is Deadlock)
            } else if stuck {
                next.effects.len() == 0 && next.state == (StateView::Waiting {
                    graph: g,
                    run_config: config,
                })
            } else {
                next.effects.len() > 0 && (next.state matches StateView::Waiting {
                    run_config,
                    ..
                } && run_config == config)
            }
        }),
{
    soundness::law_validation_accepts_sound_graphs(g);
    plain::lemma_whole(g);
    plain::lemma_in_flight(g);
    plain::lemma_words(g);
    lemma_written(g);
    let at = lemma_order(g);
    if at.len() > 0 {
        assert(plain::may_run(g, at[0]));
    }
    if !(forall|i: int| 0 <= i < g.len() ==> !(#[trigger] plain::may_run(g, i))) {
        let i = choose|i: int| 0 <= i < g.len() && #[trigger] plain::may_run(g, i);
        assert(at.contains(i));
    }
}

/// The ready nodes are reported in the order in which they were added, and
/// all of them.
pub proof fn law_ready_nodes_are_reported_in_order(g: Seq<NodeView>) -> (at: Seq<int>)
    ensures
        queries::ready_ids(g).len() == at.len(),
        forall|p: int|
            0 <= p < at.len() ==> 0 <= #[trigger] at[p] < g.len() && plain::may_run(g, at[p])
                && queries::ready_ids(g)[p] == g[at[p]].id,
        forall|p: int, q: int| 0 <= p < q < at.len() ==> #[trigger] at[p] < #[trigger] at[q],
        forall|i: int| 0 <= i < g.len() && #[trigger] plain::may_run(g, i) ==> at.contains(i),
{
    plain::lemma_words(g);
    let pred = |n: NodeView| queries::is_ready(g, n);
    let at = plain::lemma_kept(g, pred);
    assert(queries::ready_in(g, g) == g.filter(pred));
    assert forall|p: int| 0 <= p < at.len() implies 0 <= #[trigger] at[p] < g.len()
        && plain::may_run(g, at[p]) && queries::ready_ids(g)[p] == g[at[p]].id by {
        assert(pred(g[at[p]]));
    }
    assert forall|i: int| 0 <= i < g.len() && #[trigger] plain::may_run(g, i) implies at.contains(
        i,
    ) by {
        assert(pred(g[i]));
    }
    at
}

} // verus!
