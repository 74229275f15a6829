//! Driving: a run that waits for a result waits for one that is under way.

use vstd::prelude::*;

use crate::driver;
use crate::driver::DriverView;
use crate::effect::EffectView;
use crate::event::EventView;
use crate::graph::{NodeStatus, NodeView};
use crate::laws::record;
use crate::laws::references;
use crate::machine;
use crate::manifest::TaskRecordView;
use crate::mutations;
use crate::queries;
use crate::recovery;
use crate::soundness;
use crate::state;
use crate::state::StateView;
use crate::teams::ConfigView;
use crate::text::Text;
use crate::triggers;
use crate::types::FailureView;

verus! {

/// The effect runs the node.
pub open spec fn runs(effect: EffectView, id: Text) -> bool {
    effect matches EffectView::RunNode { node_id, .. } && node_id == id
}

/// The effect integrates what the node returned.
pub open spec fn integrates(effect: EffectView, id: Text) -> bool {
    ||| effect matches EffectView::IntegrateWork { node_id, .. } && node_id == id
    ||| effect matches EffectView::IntegratePlannerTasks { node_id, .. } && node_id == id
}

/// The node is taken care of: if it is running, it is under way or about to
/// be run; if it is integrating, it is about to be integrated.
pub open spec fn cared_for(n: NodeView, pending: Seq<EffectView>, under_way: Set<Text>) -> bool {
    &&& n.status is Running ==> under_way.contains(n.id) || exists|k: int|
        0 <= k < pending.len() && runs(#[trigger] pending[k], n.id)
    &&& n.status is Integrating ==> exists|k: int|
        0 <= k < pending.len() && integrates(#[trigger] pending[k], n.id)
}

/// Every active node of a run that goes on is taken care of, and a run that
/// waits has an active node. The dispatches of the nodes in `under_way` have
/// been started and have not returned.
pub open spec fn healthy(run: DriverView, under_way: Set<Text>) -> bool {
    let g = state::graph_of(run.state);
    state::is_final(run.state) || {
        &&& soundness::sound(g)
        &&& forall|i: int|
            0 <= i < g.len() ==> cared_for(#[trigger] g[i], run.pending, under_way)
        &&& run.state is Waiting ==> queries::active(g).len() > 0
    }
}

proof fn lemma_active_there(g: Seq<NodeView>, i: int)
    requires
        0 <= i < g.len(),
        queries::is_active(g[i]),
    ensures
        queries::active(g).len() > 0,
{
    queries::lemma_filter_members(g, |n: NodeView| queries::is_active(n));
    assert(g.contains(g[i]));
    assert(queries::active(g).contains(g[i]));
}

proof fn lemma_active_where(g: Seq<NodeView>) -> (i: int)
    requires
        queries::active(g).len() > 0,
    ensures
        0 <= i < g.len(),
        queries::is_active(g[i]),
{
    queries::lemma_filter_members(g, |n: NodeView| queries::is_active(n));
    let n = queries::active(g)[0];
    assert(queries::active(g).contains(n));
    let i = choose|i: int| 0 <= i < g.len() && g[i] == n;
    i
}

/// A run starts healthy: with a sound graph that has no active node, and
/// nothing pending or under way.
pub proof fn law_runs_start_healthy(g: Seq<NodeView>, config: ConfigView)
    requires
        soundness::sound(g),
        queries::active(g).len() == 0,
    ensures
        healthy(
            DriverView {
                state: StateView::Active { graph: g, run_config: config },
                pending: Seq::empty(),
            },
            Set::empty(),
        ),
{
    let none = Seq::<EffectView>::empty();
    let nowhere = Set::<Text>::empty();
    assert forall|i: int| 0 <= i < g.len() implies cared_for(#[trigger] g[i], none, nowhere) by {
        if queries::is_active(g[i]) {
            lemma_active_there(g, i);
        }
    }
}

/// Taking up the first pending effect, where it runs a node, keeps a run
/// healthy: the node is now under way.
pub proof fn law_dispatch_keeps_runs_healthy(run: DriverView, under_way: Set<Text>, id: Text)
    requires
        healthy(run, under_way),
        run.pending.len() > 0,
        runs(run.pending[0], id),
    ensures
        healthy(
            DriverView { pending: run.pending.drop_first(), ..run },
            under_way.insert(id),
        ),
{
    let g = state::graph_of(run.state);
    if !state::is_final(run.state) {
        assert forall|i: int| 0 <= i < g.len() implies cared_for(
            #[trigger] g[i],
            run.pending.drop_first(),
            under_way.insert(id),
        ) by {
            assert(cared_for(g[i], run.pending, under_way));
            lemma_dropped(g[i], run.pending, under_way, under_way.insert(id));
        }
    }
}

/// Without the first effect a node is still taken care of, unless that effect
/// was about it.
proof fn lemma_dropped(
    n: NodeView,
    pending: Seq<EffectView>,
    under_way: Set<Text>,
    now_under_way: Set<Text>,
)
    requires
        cared_for(n, pending, under_way),
        pending.len() > 0,
        under_way.contains(n.id) ==> now_under_way.contains(n.id),
        runs(pending[0], n.id) ==> now_under_way.contains(n.id),
        n.status is Integrating ==> !integrates(pending[0], n.id),
    ensures
        cared_for(n, pending.drop_first(), now_under_way),
{
    let rest = pending.drop_first();
    if n.status is Running && !now_under_way.contains(n.id) {
        let k = choose|k: int| 0 <= k < pending.len() && runs(#[trigger] pending[k], n.id);
        assert(rest[k - 1] == pending[k]);
    }
    if n.status is Integrating {
        let k = choose|k: int| 0 <= k < pending.len() && integrates(#[trigger] pending[k], n.id);
        assert(rest[k - 1] == pending[k]);
    }
}

/// More effects take nothing away.
proof fn lemma_more(
    n: NodeView,
    pending: Seq<EffectView>,
    more: Seq<EffectView>,
    under_way: Set<Text>,
)
    requires
        cared_for(n, pending, under_way),
    ensures
        cared_for(n, pending + more, under_way),
{
    let all = pending + more;
    if n.status is Running && !under_way.contains(n.id) {
        let k = choose|k: int| 0 <= k < pending.len() && runs(#[trigger] pending[k], n.id);
        assert(all[k] == pending[k]);
    }
    if n.status is Integrating {
        let k = choose|k: int| 0 <= k < pending.len() && integrates(#[trigger] pending[k], n.id);
        assert(all[k] == pending[k]);
    }
}

/// A tick keeps a run healthy.
pub proof fn law_ticks_keep_runs_healthy(run: DriverView, under_way: Set<Text>)
    requires
        healthy(run, under_way),
        run.state is Active,
    ensures
        healthy(driver::delivered(run, EventView::Start, Seq::empty()), under_way),
{
    if let StateView::Active { graph: g, run_config } = run.state {
        let none = Seq::<Text>::empty();
        let after = driver::delivered(run, EventView::Start, none);
        let step = machine::next_step(run.state, EventView::Start, none);
        let h = state::graph_of(after.state);
        if !state::is_final(after.state) {
            references::law_soundness_is_kept(run.state, EventView::Start, none);
            if h == g {
                assert forall|i: int| 0 <= i < h.len() implies cared_for(
                    #[trigger] h[i],
                    after.pending,
                    under_way,
                ) by {
                    lemma_more(g[i], run.pending, step.effects, under_way);
                }
            } else {
                let ids = machine::chosen(g, run_config);
                assert(h == machine::dispatched(g, ids));
                assert forall|i: int| 0 <= i < h.len() implies cared_for(
                    #[trigger] h[i],
                    after.pending,
                    under_way,
                ) by {
                    assert(h[i] == machine::dispatched_node(g[i], ids));
                    lemma_more(g[i], run.pending, step.effects, under_way);
                    if ids.contains(g[i].id) {
                        let k = choose|k: int| 0 <= k < ids.len() && ids[k] == g[i].id;
                        assert(step.effects[k] == machine::run_effect(g, g[i].id));
                        assert(after.pending[run.pending.len() + k] == step.effects[k]);
                    }
                }
            }
            if step.effects.len() > 0 {
                let ids = machine::chosen(g, run_config);
                assert(ids[0] == queries::dispatch_order(g)[0]);
                record::lemma_order_ready(g, 0);
                let i = choose|i: int|
                    0 <= i < g.len() && (#[trigger] g[i]).id == queries::dispatch_order(g)[0]
                        && queries::is_ready(g, g[i]);
                assert(ids.contains(g[i].id));
                assert(machine::dispatched(g, ids)[i] == machine::dispatched_node(g[i], ids));
                lemma_active_there(machine::dispatched(g, ids), i);
            }
        }
    }
}

/// What a result does to the nodes: that of `id` no longer runs, and is being
/// integrated only if an effect says so; no other node becomes active.
spec fn resolves(
    g: Seq<NodeView>,
    h: Seq<NodeView>,
    id: Text,
    effects: Seq<EffectView>,
) -> bool {
    forall|i: int|
        0 <= i < h.len() ==> ({
            &&& (#[trigger] h[i]).status is Running ==> i < g.len() && g[i].id == h[i].id
                && g[i].status is Running && h[i].id != id
            &&& h[i].status is Integrating ==> i < g.len() && g[i].id == h[i].id && ((
            g[i].status is Integrating && h[i].id != id) || (exists|k: int|
                0 <= k < effects.len() && integrates(#[trigger] effects[k], h[i].id)))
        })
}

proof fn lemma_mark_resolves(
    g: Seq<NodeView>,
    id: Text,
    status: NodeStatus,
    more: Seq<NodeView>,
    effects: Seq<EffectView>,
)
    requires
        status is Completed || status is Failed || (status is Integrating && exists|k: int|
            0 <= k < effects.len() && integrates(#[trigger] effects[k], id)),
        forall|i: int| 0 <= i < more.len() ==> (#[trigger] more[i]).status is Pending,
    ensures
        resolves(g, mutations::mark(g, id, status) + more, id, effects),
{
    let marked = mutations::mark(g, id, status);
    let h = marked + more;
    assert forall|i: int| 0 <= i < h.len() implies ({
        &&& (#[trigger] h[i]).status is Running ==> i < g.len() && g[i].id == h[i].id
            && g[i].status is Running && h[i].id != id
        &&& h[i].status is Integrating ==> i < g.len() && g[i].id == h[i].id && ((
        g[i].status is Integrating && h[i].id != id) || (exists|k: int|
            0 <= k < effects.len() && integrates(#[trigger] effects[k], h[i].id)))
    }) by {
        if i < g.len() {
            assert(h[i] == marked[i]);
            assert(marked[i] == mutations::marked_node(g[i], id, status));
        } else {
            assert(h[i] == more[i - g.len()]);
        }
    }
}

proof fn lemma_recovery_resolves(
    config: ConfigView,
    g: Seq<NodeView>,
    n: NodeView,
    failure: FailureView,
    fresh: Text,
)
    requires
        !state::is_final(recovery::recovery_step(config, g, n, failure, fresh).state),
    ensures
        resolves(
            g,
            state::graph_of(recovery::recovery_step(config, g, n, failure, fresh).state),
            n.id,
            Seq::empty(),
        ),
        recovery::recovery_step(config, g, n, failure, fresh).state is Active,
{
    let marked = mutations::mark(g, n.id, NodeStatus::Failed);
    let none = Seq::<EffectView>::empty();
    assert forall|r: NodeView| r.status is Pending implies resolves(
        g,
        #[trigger] recovery::replaced(g, n, r),
        n.id,
        none,
    ) by {
        let h = recovery::replaced(g, n, r);
        let pushed = marked.push(r);
        assert forall|i: int| 0 <= i < h.len() implies ({
            &&& (#[trigger] h[i]).status is Running ==> i < g.len() && g[i].id == h[i].id
                && g[i].status is Running && h[i].id != n.id
            &&& h[i].status is Integrating ==> i < g.len() && g[i].id == h[i].id && ((
            g[i].status is Integrating && h[i].id != n.id) || (exists|k: int|
                0 <= k < none.len() && integrates(#[trigger] none[k], h[i].id)))
        }) by {
            assert(h[i] == mutations::remapped_node(pushed[i], n.id, r.id));
            if i < g.len() {
                assert(pushed[i] == mutations::marked_node(g[i], n.id, NodeStatus::Failed));
            }
        }
    }
}

proof fn lemma_resolved_healthy(
    run: DriverView,
    under_way: Set<Text>,
    event: EventView,
    ids: Seq<Text>,
    id: Text,
    now_under_way: Set<Text>,
)
    requires
        run.state is Waiting,
        soundness::sound(state::graph_of(run.state)),
        soundness::fresh(ids, state::graph_of(run.state)),
        ids.len() >= machine::ids_needed(run.state, event),
        event matches EventView::PlanAccepted { children, .. } ==> references::distinct_names(
            children,
        ),
        forall|i: int|
            0 <= i < state::graph_of(run.state).len() && state::graph_of(run.state)[i].id != id
                ==> cared_for(#[trigger] state::graph_of(run.state)[i], run.pending, under_way),
        forall|x: Text| x != id && under_way.contains(x) ==> #[trigger] now_under_way.contains(x),
        ({
            let step = machine::next_step(run.state, event, ids);
            let h = state::graph_of(step.state);
            state::is_final(step.state) || {
                &&& resolves(state::graph_of(run.state), h, id, step.effects)
                &&& step.state is Waiting ==> queries::active(h).len() > 0
            }
        }),
    ensures
        healthy(driver::delivered(run, event, ids), now_under_way),
{
    let g = state::graph_of(run.state);
    let step = machine::next_step(run.state, event, ids);
    let after = driver::delivered(run, event, ids);
    let h = state::graph_of(after.state);
    if !state::is_final(after.state) {
        references::law_soundness_is_kept(run.state, event, ids);
        assert forall|i: int| 0 <= i < h.len() implies cared_for(
            #[trigger] h[i],
            after.pending,
            now_under_way,
        ) by {
            if h[i].status is Running {
                assert(cared_for(g[i], run.pending, under_way));
                lemma_more(g[i], run.pending, step.effects, under_way);
                if !under_way.contains(g[i].id) {
                    let k = choose|k: int|
                        0 <= k < after.pending.len() && runs(
                            #[trigger] after.pending[k],
                            g[i].id,
                        );
                    assert(runs(after.pending[k], h[i].id));
                }
            }
            if h[i].status is Integrating {
                if g[i].status is Integrating && h[i].id != id {
                    assert(cared_for(g[i], run.pending, under_way));
                    lemma_more(g[i], run.pending, step.effects, under_way);
                } else {
                    let k = choose|k: int|
                        0 <= k < step.effects.len() && integrates(
                            #[trigger] step.effects[k],
                            h[i].id,
                        );
                    assert(after.pending[run.pending.len() + k] == step.effects[k]);
                }
            }
        }
    }
}

/// The result of a dispatch keeps a run healthy: its node is no longer under
/// way.
pub proof fn law_results_keep_runs_healthy(
    run: DriverView,
    under_way: Set<Text>,
    event: EventView,
    ids: Seq<Text>,
)
    requires
        healthy(run, under_way),
        run.state is Waiting,
        event is PlanAccepted || event is WorkAccepted || event is NodeFailed,
        event matches EventView::PlanAccepted { children, .. } ==> references::distinct_names(
            children,
        ),
        soundness::fresh(ids, state::graph_of(run.state)),
        ids.len() >= machine::ids_needed(run.state, event),
    ensures
        healthy(driver::delivered(run, event, ids), under_way.remove(machine::node_of(event))),
{
    if let StateView::Waiting { graph: g, run_config } = run.state {
        let id = machine::node_of(event);
        let step = machine::next_step(run.state, event, ids);
        let h = state::graph_of(step.state);
        if !state::is_final(step.state) {
            queries::lemma_lookup_some(g, id);
            let n = queries::lookup(g, id)->0;
            let at = soundness::lemma_lookup_position(g, id);
            let nothing = Seq::<NodeView>::empty();
            match event {
                EventView::PlanAccepted { children, tasks, .. } => {
                    if tasks.len() == 0 {
                        let more = mutations::child_nodes(n, children, ids);
                        lemma_mark_resolves(g, id, NodeStatus::Completed, more, step.effects);
                    } else {
                        assert(integrates(step.effects[0], id));
                        lemma_mark_resolves(g, id, NodeStatus::Integrating, nothing, step.effects);
                        assert(mutations::mark(g, id, NodeStatus::Integrating) + nothing =~= h);
                        assert(h[at] == mutations::marked_node(g[at], id, NodeStatus::Integrating));
                        lemma_active_there(h, at);
                    }
                },
                EventView::WorkAccepted { .. } => {
                    assert(integrates(step.effects[0], id));
                    lemma_mark_resolves(g, id, NodeStatus::Integrating, nothing, step.effects);
                    assert(mutations::mark(g, id, NodeStatus::Integrating) + nothing =~= h);
                    assert(h[at] == mutations::marked_node(g[at], id, NodeStatus::Integrating));
                    lemma_active_there(h, at);
                },
                EventView::NodeFailed { failure, .. } => {
                    lemma_recovery_resolves(run_config, g, n, failure, ids[0]);
                },
                _ => {},
            }
        }
        lemma_resolved_healthy(run, under_way, event, ids, id, under_way.remove(id));
    }
}

proof fn lemma_triggered_resolves(
    config: ConfigView,
    g: Seq<NodeView>,
    done: Seq<NodeView>,
    id: Text,
    depth: usize,
    m: Seq<TaskRecordView>,
    ids: Seq<Text>,
)
    requires
        resolves(g, done, id, Seq::empty()),
        g.len() == done.len(),
    ensures
        resolves(
            g,
            state::graph_of(machine::triggered_step(config, done, depth, m, ids).state),
            id,
            Seq::empty(),
        ),
        ({
            let next = machine::triggered_step(config, done, depth, m, ids).state;
            next is Waiting ==> queries::active(state::graph_of(next)).len() > 0
        }),
{
    if let Ok(requests) = triggers::triggered(done, config, m) {
        let more = mutations::spawned_nodes(depth, requests, ids);
        let h = done + more;
        let none = Seq::<EffectView>::empty();
        assert forall|i: int| 0 <= i < h.len() implies ({
            &&& (#[trigger] h[i]).status is Running ==> i < g.len() && g[i].id == h[i].id
                && g[i].status is Running && h[i].id != id
            &&& h[i].status is Integrating ==> i < g.len() && g[i].id == h[i].id && ((
            g[i].status is Integrating && h[i].id != id) || (exists|k: int|
                0 <= k < none.len() && integrates(#[trigger] none[k], h[i].id)))
        }) by {
            if i < done.len() {
                assert(h[i] == done[i]);
            } else {
                assert(h[i] == more[i - done.len()]);
            }
        }
    }
}

/// Performing the first pending effect, where it integrates a node, and
/// delivering what it came to keeps a run healthy.
pub proof fn law_integrations_keep_runs_healthy(
    run: DriverView,
    under_way: Set<Text>,
    event: EventView,
    ids: Seq<Text>,
)
    requires
        healthy(run, under_way),
        run.state is Waiting,
        run.pending.len() > 0,
        integrates(run.pending[0], machine::node_of(event)),
        event is IntegrationSucceeded || event is IntegrationFailed
            || event is PlannerTasksIntegrated || event is PlannerTasksIntegrationFailed,
        soundness::fresh(ids, state::graph_of(run.state)),
        ids.len() >= machine::ids_needed(run.state, event),
    ensures
        healthy(
            driver::delivered(
                DriverView { pending: run.pending.drop_first(), ..run },
                event,
                ids,
            ),
            under_way,
        ),
{
    if let StateView::Waiting { graph: g, run_config } = run.state {
        let id = machine::node_of(event);
        let rest = DriverView { pending: run.pending.drop_first(), ..run };
        let step = machine::next_step(run.state, event, ids);
        assert forall|i: int| 0 <= i < g.len() && g[i].id != id implies cared_for(
            #[trigger] g[i],
            rest.pending,
            under_way,
        ) by {
            assert(cared_for(g[i], run.pending, under_way));
            lemma_dropped(g[i], run.pending, under_way, under_way);
        }
        if !state::is_final(step.state) {
            queries::lemma_lookup_some(g, id);
            let n = queries::lookup(g, id)->0;
            let nothing = Seq::<NodeView>::empty();
            let none = Seq::<EffectView>::empty();
            match event {
                EventView::IntegrationSucceeded { summary, manifest, .. } => {
                    let done = mutations::complete_with_summary(g, id, summary);
                    assert(resolves(g, done, id, none)) by {
                        assert forall|i: int| 0 <= i < done.len() implies ({
                            &&& (#[trigger] done[i]).status is Running ==> i < g.len() && g[i].id
                                == done[i].id && g[i].status is Running && done[i].id != id
                            &&& done[i].status is Integrating ==> i < g.len() && g[i].id
                                == done[i].id && ((g[i].status is Integrating && done[i].id != id)
                                || (exists|k: int|
                                0 <= k < none.len() && integrates(
                                    #[trigger] none[k],
                                    done[i].id,
                                )))
                        }) by {
                            assert(done[i] == mutations::summarized_node(g[i], id, summary));
                        }
                    }
                    lemma_triggered_resolves(
                        run_config,
                        g,
                        done,
                        id,
                        n.plan_depth,
                        manifest,
                        ids,
                    );
                },
                EventView::PlannerTasksIntegrated { manifest, .. } => {
                    let done = mutations::mark(g, id, NodeStatus::Completed);
                    lemma_mark_resolves(g, id, NodeStatus::Completed, nothing, none);
                    assert(done + nothing =~= done);
                    lemma_triggered_resolves(
                        run_config,
                        g,
                        done,
                        id,
                        n.plan_depth,
                        manifest,
                        ids,
                    );
                },
                EventView::IntegrationFailed { failure, .. } => {
                    lemma_recovery_resolves(run_config, g, n, failure, ids[0]);
                },
                EventView::PlannerTasksIntegrationFailed { failure, .. } => {
                    lemma_recovery_resolves(run_config, g, n, failure, ids[0]);
                },
                _ => {},
            }
        }
        lemma_resolved_healthy(rest, under_way, event, ids, id, under_way);
    }
}

/// A healthy run never waits in vain: when it waits for a result, a node that
/// is running is under way.
pub proof fn law_waiting_is_never_in_vain(run: DriverView, under_way: Set<Text>)
    requires
        healthy(run, under_way),
        run.state is Waiting,
        run.pending.len() == 0,
    ensures
        exists|i: int|
            0 <= i < state::graph_of(run.state).len() && (#[trigger] state::graph_of(
                run.state,
            )[i]).status is Running && under_way.contains(state::graph_of(run.state)[i].id),
{
    let g = state::graph_of(run.state);
    let i = lemma_active_where(g);
    assert(cared_for(g[i], run.pending, under_way));
}

} // verus!
