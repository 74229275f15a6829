//! Ids are only names: two steps that differ in the ids they were given for
//! new nodes differ in nothing else.

use vstd::prelude::*;

use crate::closure;
use crate::effect::EffectView;
use crate::event::EventView;
use crate::failure::ReasonView;
use crate::graph::{NodeStatus, NodeView, OriginView};
use crate::laws::triggering;
use crate::machine;
use crate::manifest::TaskRecordView;
use crate::mutations;
use crate::queries;
use crate::recovery;
use crate::soundness;
use crate::state;
use crate::state::{StateView, StepView};
use crate::teams;
use crate::teams::ConfigView;
use crate::text::Text;
use crate::triggers;
use crate::types::{FailureView, RequestView};

verus! {

// ── renaming ───────────────────────────────────────────────────────────────

/// Why a run failed, with the id of the node renamed where one is given.
pub open spec fn renamed_reason(reason: ReasonView, rename: spec_fn(Text) -> Text) -> ReasonView {
    match reason {
        ReasonView::AttemptsExhausted { node_id, max_attempts, recovery_action } =>
            ReasonView::AttemptsExhausted {
            node_id: rename(node_id),
            max_attempts,
            recovery_action,
        },
        ReasonView::NoHigherModelTierAvailable { node_id, max_attempts } =>
            ReasonView::NoHigherModelTierAvailable { node_id: rename(node_id), max_attempts },
        _ => reason,
    }
}

/// A state with the ids renamed.
pub open spec fn renamed_state(s: StateView, rename: spec_fn(Text) -> Text) -> StateView {
    match s {
        StateView::Active { graph, run_config } => StateView::Active {
            graph: soundness::renamed(graph, rename),
            run_config,
        },
        StateView::Waiting { graph, run_config } => StateView::Waiting {
            graph: soundness::renamed(graph, rename),
            run_config,
        },
        StateView::Complete { graph } => StateView::Complete {
            graph: soundness::renamed(graph, rename),
        },
        StateView::Failed { graph, reason } => StateView::Failed {
            graph: soundness::renamed(graph, rename),
            reason: renamed_reason(reason, rename),
        },
    }
}

/// An effect with the id of its node renamed.
pub open spec fn renamed_effect(effect: EffectView, rename: spec_fn(Text) -> Text) -> EffectView {
    match effect {
        EffectView::RunNode {
            node_id,
            worker_role,
            kind,
            objective,
            target_files,
            test_plan_context,
            model_tier,
            attempt,
            retry_feedback,
            team,
            adapter,
            northstar,
        } => EffectView::RunNode {
            node_id: rename(node_id),
            worker_role,
            kind,
            objective,
            target_files,
            test_plan_context,
            model_tier,
            attempt,
            retry_feedback,
            team,
            adapter,
            northstar,
        },
        EffectView::IntegrateWork {
            node_id,
            objective,
            summary,
            attempt,
            target_files,
            validation_plan,
            team,
            task_id,
        } => EffectView::IntegrateWork {
            node_id: rename(node_id),
            objective,
            summary,
            attempt,
            target_files,
            validation_plan,
            team,
            task_id,
        },
        EffectView::IntegratePlannerTasks { node_id, tasks, team } =>
            EffectView::IntegratePlannerTasks { node_id: rename(node_id), tasks, team },
    }
}

/// Some effects with the ids of their nodes renamed.
pub open spec fn renamed_effects(
    effects: Seq<EffectView>,
    rename: spec_fn(Text) -> Text,
) -> Seq<EffectView> {
    effects.map_values(|e: EffectView| renamed_effect(e, rename))
}

/// A step with the ids renamed.
pub open spec fn renamed_step(step: StepView, rename: spec_fn(Text) -> Text) -> StepView {
    StepView {
        state: renamed_state(step.state, rename),
        effects: renamed_effects(step.effects, rename),
    }
}

// ── what a renaming leaves alone ───────────────────────────────────────────

/// Every one of the ids keeps its name.
pub open spec fn keeps_ids(ids: Seq<Text>, rename: spec_fn(Text) -> Text) -> bool {
    forall|i: int| 0 <= i < ids.len() ==> rename(#[trigger] ids[i]) == ids[i]
}

/// Every id that an event mentions keeps its name.
pub open spec fn keeps_event(event: EventView, rename: spec_fn(Text) -> Text) -> bool {
    &&& !(event is Start) ==> rename(machine::node_of(event)) == machine::node_of(event)
    &&& event matches EventView::PlanAccepted { children, .. } ==> forall|i: int|
        0 <= i < children.len() ==> keeps_ids((#[trigger] children[i]).dependencies, rename)
}

proof fn lemma_kept_node(g: Seq<NodeView>, rename: spec_fn(Text) -> Text, i: int)
    requires
        soundness::renamed(g, rename) == g,
        0 <= i < g.len(),
    ensures
        soundness::renamed_node(g[i], rename) == g[i],
{
    assert(soundness::renamed(g, rename)[i] == soundness::renamed_node(g[i], rename));
}

/// A graph whose nodes have the ids of another is left alone with it.
proof fn lemma_kept_alike(g: Seq<NodeView>, h: Seq<NodeView>, rename: spec_fn(Text) -> Text)
    requires
        soundness::renamed(g, rename) == g,
        g.len() == h.len(),
        forall|i: int|
            0 <= i < g.len() ==> (#[trigger] h[i]).id == g[i].id && h[i].dependencies
                == g[i].dependencies && h[i].origin == g[i].origin,
    ensures
        soundness::renamed(h, rename) == h,
{
    assert forall|i: int| 0 <= i < h.len() implies soundness::renamed(h, rename)[i] == h[i] by {
        lemma_kept_node(g, rename, i);
        assert(h[i].id == g[i].id);
    }
    assert(soundness::renamed(h, rename) =~= h);
}

proof fn lemma_kept_lookup(g: Seq<NodeView>, rename: spec_fn(Text) -> Text, id: Text)
    requires
        soundness::renamed(g, rename) == g,
        queries::lookup(g, id) is Some,
    ensures
        soundness::renamed_node(queries::lookup(g, id)->0, rename) == queries::lookup(g, id)->0,
        queries::lookup(g, id)->0.id == id,
{
    let i = choose|i: int| queries::first_at(g, id, i);
    assert(queries::first_at(g, id, i));
    lemma_kept_node(g, rename, i);
}

proof fn lemma_renamed_sum(
    g: Seq<NodeView>,
    more: Seq<NodeView>,
    others: Seq<NodeView>,
    rename: spec_fn(Text) -> Text,
)
    requires
        soundness::renamed(g, rename) == g,
        soundness::renamed(more, rename) == others,
    ensures
        soundness::renamed(g + more, rename) == g + others,
{
    assert(soundness::renamed(g + more, rename) =~= soundness::renamed(g, rename) + soundness::renamed(
        more,
        rename,
    ));
}

/// Renaming keeps how many nodes are active, and whether all are done.
pub proof fn lemma_same_statuses(g: Seq<NodeView>, rename: spec_fn(Text) -> Text)
    ensures
        queries::active(soundness::renamed(g, rename)).len() == queries::active(g).len(),
        queries::all_terminal(soundness::renamed(g, rename)) == queries::all_terminal(g),
    decreases g.len(),
{
    let h = soundness::renamed(g, rename);
    reveal(Seq::filter);
    if g.len() > 0 {
        lemma_same_statuses(g.drop_last(), rename);
        assert(soundness::renamed(g.drop_last(), rename) =~= h.drop_last());
    }
    assert forall|i: int| 0 <= i < g.len() implies queries::is_terminal(#[trigger] g[i])
        == queries::is_terminal(h[i]) by {}
    if queries::all_terminal(h) {
        assert forall|i: int| 0 <= i < g.len() implies queries::is_terminal(#[trigger] g[i]) by {
            assert(queries::is_terminal(h[i]));
        }
    }
}

/// Renaming keeps whether a run has a slot to fill.
pub proof fn lemma_renamed_resumption(g: Seq<NodeView>, config: ConfigView, rename: spec_fn(Text) -> Text)
    ensures
        state::resumed(soundness::renamed(g, rename), config) == renamed_state(
            state::resumed(g, config),
            rename,
        ),
{
    lemma_same_statuses(g, rename);
}

/// No effects are no effects under any names.
pub proof fn lemma_no_effects(rename: spec_fn(Text) -> Text)
    ensures
        renamed_effects(Seq::empty(), rename) == Seq::<EffectView>::empty(),
{
    assert(renamed_effects(Seq::empty(), rename) =~= Seq::<EffectView>::empty());
}

// ── the ids of new nodes ───────────────────────────────────────────────────

proof fn lemma_renamed_assignment(
    children: Seq<RequestView>,
    ids: Seq<Text>,
    others: Seq<Text>,
    rename: spec_fn(Text) -> Text,
    local: Text,
)
    requires
        children.len() <= ids.len() == others.len(),
        forall|i: int| 0 <= i < ids.len() ==> rename(#[trigger] ids[i]) == others[i],
    ensures
        mutations::assigned(children, others, local) == match mutations::assigned(
            children,
            ids,
            local,
        ) {
            Some(id) => Some(rename(id)),
            None => None,
        },
    decreases children.len(),
{
    if children.len() > 0 {
        if children.last().id == local {
            assert(rename(ids[children.len() - 1]) == others[children.len() - 1]);
        } else {
            lemma_renamed_assignment(children.drop_last(), ids, others, rename, local);
        }
    }
}

proof fn lemma_named_is_assigned(children: Seq<RequestView>, ids: Seq<Text>, i: int)
    requires
        0 <= i < children.len(),
    ensures
        mutations::assigned(children, ids, children[i].id) is Some,
    decreases children.len(),
{
    if i < children.len() - 1 {
        lemma_named_is_assigned(children.drop_last(), ids, i);
        assert(children.drop_last()[i] == children[i]);
    }
}

proof fn lemma_renamed_children(
    parent: NodeView,
    children: Seq<RequestView>,
    ids: Seq<Text>,
    others: Seq<Text>,
    rename: spec_fn(Text) -> Text,
)
    requires
        children.len() <= ids.len() == others.len(),
        forall|i: int| 0 <= i < ids.len() ==> rename(#[trigger] ids[i]) == others[i],
        forall|i: int|
            0 <= i < children.len() ==> keeps_ids((#[trigger] children[i]).dependencies, rename),
    ensures
        soundness::renamed(mutations::child_nodes(parent, children, ids), rename)
            == mutations::child_nodes(parent, children, others),
{
    let a = mutations::child_nodes(parent, children, ids);
    let b = mutations::child_nodes(parent, children, others);
    assert forall|i: int| 0 <= i < children.len() implies soundness::renamed_node(a[i], rename) == b[i] by {
        lemma_renamed_assignment(children, ids, others, rename, children[i].id);
        lemma_named_is_assigned(children, ids, i);
        let references = children[i].dependencies;
        assert(keeps_ids(references, rename));
        assert forall|k: int| 0 <= k < references.len() implies rename(a[i].dependencies[k])
            == b[i].dependencies[k] by {
            lemma_renamed_assignment(children, ids, others, rename, references[k]);
        }
        assert(a[i].dependencies.map_values(rename) =~= b[i].dependencies);
    }
    assert(soundness::renamed(a, rename) =~= b);
}

proof fn lemma_renamed_spawns(
    depth: usize,
    requests: Seq<RequestView>,
    ids: Seq<Text>,
    others: Seq<Text>,
    rename: spec_fn(Text) -> Text,
)
    requires
        requests.len() <= ids.len() == others.len(),
        forall|i: int| 0 <= i < ids.len() ==> rename(#[trigger] ids[i]) == others[i],
        forall|i: int| 0 <= i < requests.len() ==> (#[trigger] requests[i]).dependencies.len() == 0,
    ensures
        soundness::renamed(mutations::spawned_nodes(depth, requests, ids), rename)
            == mutations::spawned_nodes(depth, requests, others),
{
    let a = mutations::spawned_nodes(depth, requests, ids);
    let b = mutations::spawned_nodes(depth, requests, others);
    assert forall|i: int| 0 <= i < requests.len() implies soundness::renamed_node(a[i], rename) == b[i] by {
        assert(requests[i].dependencies.len() == 0);
        assert(rename(ids[i]) == others[i]);
        assert(a[i].dependencies.map_values(rename) =~= b[i].dependencies);
    }
    assert(soundness::renamed(a, rename) =~= b);
}

// ── one step ───────────────────────────────────────────────────────────────

proof fn lemma_renamed_replacement(
    g: Seq<NodeView>,
    n: NodeView,
    a: NodeView,
    b: NodeView,
    rename: spec_fn(Text) -> Text,
)
    requires
        soundness::renamed(g, rename) == g,
        soundness::renamed_node(n, rename) == n,
        soundness::renamed_node(a, rename) == b,
        a.dependencies == n.dependencies,
        a.status is Pending,
    ensures
        soundness::renamed(recovery::replaced(g, n, a), rename) == recovery::replaced(g, n, b),
{
    let x = recovery::replaced(g, n, a);
    let y = recovery::replaced(g, n, b);
    let deps = n.dependencies;
    assert(deps.map_values(rename) == deps);
    assert forall|i: int| 0 <= i < x.len() implies soundness::renamed_node(#[trigger] x[i], rename) == y[i] by {
        let (d, base) = if i < g.len() {
            lemma_kept_node(g, rename, i);
            (g[i].dependencies, mutations::marked_node(g[i], n.id, NodeStatus::Failed))
        } else {
            (deps, a)
        };
        assert(d.map_values(rename) == d);
        assert(mutations::remapped_ids(d, n.id, a.id).map_values(rename)
            =~= mutations::remapped_ids(d, n.id, b.id)) by {
            assert forall|k: int| 0 <= k < d.len() implies rename(#[trigger] d[k]) == d[k] by {
                assert(d.map_values(rename)[k] == rename(d[k]));
            }
        }
    }
    assert(soundness::renamed(x, rename) =~= y);
}

proof fn lemma_renamed_recovery(
    config: ConfigView,
    g: Seq<NodeView>,
    n: NodeView,
    failure: FailureView,
    fresh: Text,
    rename: spec_fn(Text) -> Text,
)
    requires
        soundness::renamed(g, rename) == g,
        soundness::renamed_node(n, rename) == n,
    ensures
        recovery::recovery_step(config, g, n, failure, rename(fresh)) == renamed_step(
            recovery::recovery_step(config, g, n, failure, fresh),
            rename,
        ),
{
    lemma_no_effects(rename);
    let failed = mutations::mark(g, n.id, NodeStatus::Failed);
    lemma_kept_alike(g, failed, rename);
    lemma_kept_alike(g, closure::cancel_dependents(failed, n.id), rename);
    let other = rename(fresh);
    assert forall|feedback: Option<Text>|
        soundness::renamed(
            recovery::replaced(g, n, #[trigger] recovery::retry_node(n, fresh, feedback)),
            rename,
        ) == recovery::replaced(g, n, recovery::retry_node(n, other, feedback)) by {
        lemma_renamed_replacement(
            g,
            n,
            recovery::retry_node(n, fresh, feedback),
            recovery::retry_node(n, other, feedback),
            rename,
        );
    }
    lemma_renamed_replacement(
        g,
        n,
        recovery::elevated_node(n, fresh),
        recovery::elevated_node(n, other),
        rename,
    );
    assert forall|message: Text|
        soundness::renamed(
            recovery::replaced(g, n, #[trigger] recovery::split_node(n, fresh, message)),
            rename,
        ) == recovery::replaced(g, n, recovery::split_node(n, other, message)) by {
        lemma_renamed_replacement(
            g,
            n,
            recovery::split_node(n, fresh, message),
            recovery::split_node(n, other, message),
            rename,
        );
    }
}

proof fn lemma_renamed_triggering(
    config: ConfigView,
    g: Seq<NodeView>,
    depth: usize,
    m: Seq<TaskRecordView>,
    ids: Seq<Text>,
    others: Seq<Text>,
    rename: spec_fn(Text) -> Text,
)
    requires
        soundness::renamed(g, rename) == g,
        machine::trigger_ids(g, config, m) <= ids.len() == others.len(),
        forall|i: int| 0 <= i < ids.len() ==> rename(#[trigger] ids[i]) == others[i],
    ensures
        machine::triggered_step(config, g, depth, m, others) == renamed_step(
            machine::triggered_step(config, g, depth, m, ids),
            rename,
        ),
{
    lemma_no_effects(rename);
    if let Ok(requests) = triggers::triggered(g, config, m) {
        triggering::lemma_requests_depend_on_nothing(g, config, m, config.teams.len() as int);
        let a = mutations::spawned_nodes(depth, requests, ids);
        let b = mutations::spawned_nodes(depth, requests, others);
        lemma_renamed_spawns(depth, requests, ids, others, rename);
        lemma_renamed_sum(g, a, b, rename);
        lemma_same_statuses(g + a, rename);
        lemma_renamed_resumption(g + a, config, rename);
    }
}

proof fn lemma_renamed_start(g: Seq<NodeView>, config: ConfigView, rename: spec_fn(Text) -> Text)
    requires
        soundness::renamed(g, rename) == g,
    ensures
        machine::start_step(g, config) == renamed_step(machine::start_step(g, config), rename),
{
    lemma_no_effects(rename);
    let ids = machine::chosen(g, config);
    let effects = machine::run_effects(g, ids);
    lemma_kept_alike(g, machine::dispatched(g, ids), rename);
    machine::lemma_order_has_ids(g);
    if queries::active(g).len() < teams::slots(config) {
        assert forall|k: int| 0 <= k < effects.len() implies renamed_effect(
            #[trigger] effects[k],
            rename,
        ) == effects[k] by {
            let id = ids[k];
            assert(id == queries::dispatch_order(g)[k]);
            let i = choose|i: int| 0 <= i < g.len() && (#[trigger] g[i]).id == id;
            lemma_kept_node(g, rename, i);
        }
        assert(renamed_effects(effects, rename) =~= effects);
    }
}

proof fn lemma_renamed_plan(
    config: ConfigView,
    g: Seq<NodeView>,
    n: NodeView,
    event: EventView,
    ids: Seq<Text>,
    others: Seq<Text>,
    rename: spec_fn(Text) -> Text,
)
    requires
        soundness::renamed(g, rename) == g,
        soundness::renamed_node(n, rename) == n,
        keeps_event(event, rename),
        event is PlanAccepted,
        event->children.len() <= ids.len() == others.len(),
        forall|i: int| 0 <= i < ids.len() ==> rename(#[trigger] ids[i]) == others[i],
    ensures
        machine::plan_step(config, g, n, event->children, event->tasks, others) == renamed_step(
            machine::plan_step(config, g, n, event->children, event->tasks, ids),
            rename,
        ),
{
    let children = event->children;
    lemma_no_effects(rename);
    lemma_kept_alike(g, mutations::mark(g, n.id, NodeStatus::Failed), rename);
    lemma_kept_alike(g, mutations::mark(g, n.id, NodeStatus::Integrating), rename);
    let done = mutations::mark(g, n.id, NodeStatus::Completed);
    lemma_kept_alike(g, done, rename);
    lemma_renamed_children(n, children, ids, others, rename);
    let a = mutations::child_nodes(n, children, ids);
    lemma_renamed_sum(done, a, mutations::child_nodes(n, children, others), rename);
    lemma_renamed_resumption(done + a, config, rename);
    let effects = seq![
        EffectView::IntegratePlannerTasks { node_id: n.id, tasks: event->tasks, team: n.team },
    ];
    assert(renamed_effects(effects, rename) =~= effects);
}

proof fn lemma_renamed_work(
    config: ConfigView,
    g: Seq<NodeView>,
    n: NodeView,
    summary: Text,
    rename: spec_fn(Text) -> Text,
)
    requires
        soundness::renamed(g, rename) == g,
        soundness::renamed_node(n, rename) == n,
    ensures
        machine::work_step(config, g, n, summary) == renamed_step(
            machine::work_step(config, g, n, summary),
            rename,
        ),
{
    let step = machine::work_step(config, g, n, summary);
    lemma_kept_alike(g, mutations::mark(g, n.id, NodeStatus::Integrating), rename);
    assert(renamed_effects(step.effects, rename) =~= step.effects);
}

/// The ids of new nodes are only names. A step with other ids for the nodes it
/// creates is the same step with those ids in place of the first ones: nothing
/// else differs, not even a message.
pub proof fn law_new_ids_are_only_names(
    s: StateView,
    event: EventView,
    ids: Seq<Text>,
    others: Seq<Text>,
    rename: spec_fn(Text) -> Text,
)
    requires
        machine::ids_needed(s, event) <= ids.len() == others.len(),
        forall|i: int| 0 <= i < ids.len() ==> rename(#[trigger] ids[i]) == others[i],
        soundness::renamed(state::graph_of(s), rename) == state::graph_of(s),
        keeps_event(event, rename),
    ensures
        machine::next_step(s, event, others) == renamed_step(
            machine::next_step(s, event, ids),
            rename,
        ),
{
    lemma_no_effects(rename);
    match s {
        StateView::Active { graph: g, run_config: config } => {
            lemma_renamed_start(g, config, rename);
        },
        StateView::Waiting { graph: g, run_config: config } => {
            let id = machine::node_of(event);
            if queries::lookup(g, id) is Some {
                let n = queries::lookup(g, id)->0;
                lemma_kept_lookup(g, rename, id);
                match event {
                    EventView::Start => {},
                    EventView::PlanAccepted { .. } => {
                        lemma_renamed_plan(config, g, n, event, ids, others, rename);
                    },
                    EventView::WorkAccepted { summary, .. } => {
                        lemma_renamed_work(config, g, n, summary, rename);
                    },
                    EventView::NodeFailed { failure, .. } => {
                        lemma_renamed_recovery(config, g, n, failure, ids[0], rename);
                    },
                    EventView::IntegrationSucceeded { summary, manifest, .. } => {
                        let done = mutations::complete_with_summary(g, id, summary);
                        lemma_kept_alike(g, done, rename);
                        lemma_renamed_triggering(
                            config,
                            done,
                            n.plan_depth,
                            manifest,
                            ids,
                            others,
                            rename,
                        );
                    },
                    EventView::IntegrationFailed { failure, .. } => {
                        lemma_renamed_recovery(config, g, n, failure, ids[0], rename);
                    },
                    EventView::PlannerTasksIntegrated { manifest, .. } => {
                        let done = mutations::mark(g, id, NodeStatus::Completed);
                        lemma_kept_alike(g, done, rename);
                        lemma_renamed_triggering(
                            config,
                            done,
                            n.plan_depth,
                            manifest,
                            ids,
                            others,
                            rename,
                        );
                    },
                    EventView::PlannerTasksIntegrationFailed { failure, .. } => {
                        lemma_renamed_recovery(config, g, n, failure, ids[0], rename);
                    },
                }
            }
        },
        _ => {},
    }
}

// ── any two steps ──────────────────────────────────────────────────────────

/// Whether a node mentions an id.
pub open spec fn node_mentions(n: NodeView, id: Text) -> bool {
    ||| n.id == id
    ||| n.dependencies.contains(id)
    ||| match n.origin {
        OriginView::Root => false,
        OriginView::PlanExpansion => false,
        OriginView::Retry { source } => source == id,
        OriginView::ElevateModel { source } => source == id,
        OriginView::Split { source } => source == id,
    }
}

/// Whether a state or an event mentions an id.
pub open spec fn mentions(s: StateView, event: EventView, id: Text) -> bool {
    ||| exists|i: int|
        0 <= i < state::graph_of(s).len() && node_mentions(#[trigger] state::graph_of(s)[i], id)
    ||| !(event is Start) && machine::node_of(event) == id
    ||| event matches EventView::PlanAccepted { children, .. } && exists|i: int|
        0 <= i < children.len() && (#[trigger] children[i]).dependencies.contains(id)
}

/// Whether ids can be given to new nodes: they differ, and none is in use.
pub open spec fn are_fresh(s: StateView, event: EventView, ids: Seq<Text>) -> bool {
    &&& ids.no_duplicates()
    &&& forall|i: int| 0 <= i < ids.len() ==> !mentions(s, event, #[trigger] ids[i])
}

/// The renaming that takes the first `n` of some ids to others: one exchange
/// of two names after another.
pub open spec fn exchange(ids: Seq<Text>, others: Seq<Text>, n: int) -> spec_fn(Text) -> Text
    decreases n,
{
    if n <= 0 {
        |x: Text| x
    } else {
        let before = exchange(ids, others, n - 1);
        |x: Text|
            if before(x) == before(ids[n - 1]) {
                others[n - 1]
            } else if before(x) == others[n - 1] {
                before(ids[n - 1])
            } else {
                before(x)
            }
    }
}

proof fn lemma_exchange(ids: Seq<Text>, others: Seq<Text>, n: int)
    requires
        0 <= n <= ids.len() == others.len(),
        ids.no_duplicates(),
        others.no_duplicates(),
    ensures
        soundness::injective(exchange(ids, others, n)),
        forall|i: int| 0 <= i < n ==> exchange(ids, others, n)(#[trigger] ids[i]) == others[i],
        forall|x: Text|
            !ids.contains(x) && !others.contains(x) ==> #[trigger] exchange(ids, others, n)(x) == x,
    decreases n,
{
    if n > 0 {
        lemma_exchange(ids, others, n - 1);
        let before = exchange(ids, others, n - 1);
        let after = exchange(ids, others, n);
        assert forall|a: Text, b: Text| #[trigger] after(a) == #[trigger] after(b) implies a == b by {
            assert(before(a) == before(b));
        }
        assert forall|i: int| 0 <= i < n implies after(#[trigger] ids[i]) == others[i] by {
            if i < n - 1 {
                assert(before(ids[i]) == others[i]);
                assert(ids[i] != ids[n - 1]);
                assert(others[i] != others[n - 1]);
            }
        }
        assert forall|x: Text| !ids.contains(x) && !others.contains(x) implies #[trigger] after(x)
            == x by {
            assert(before(x) == x);
            assert(others.contains(others[n - 1]));
            assert(ids.contains(ids[n - 1]));
        }
    }
}

/// Two steps on the same state and the same event are equal up to a one-to-one
/// renaming of the ids of new nodes, which keeps every other id.
pub proof fn law_steps_agree_up_to_new_ids(
    s: StateView,
    event: EventView,
    ids: Seq<Text>,
    others: Seq<Text>,
)
    requires
        machine::ids_needed(s, event) <= ids.len() == others.len(),
        are_fresh(s, event, ids),
        are_fresh(s, event, others),
    ensures
        exists|rename: spec_fn(Text) -> Text|
            soundness::injective(rename) && (forall|x: Text|
                !ids.contains(x) && !others.contains(x) ==> rename(x) == x)
                && machine::next_step(s, event, others) == #[trigger] renamed_step(
                machine::next_step(s, event, ids),
                rename,
            ),
{
    let rename = exchange(ids, others, ids.len() as int);
    lemma_exchange(ids, others, ids.len() as int);
    let g = state::graph_of(s);
    assert forall|x: Text| mentions(s, event, x) implies #[trigger] rename(x) == x by {
        if ids.contains(x) {
            let i = choose|i: int| 0 <= i < ids.len() && ids[i] == x;
            assert(!mentions(s, event, ids[i]));
        }
        if others.contains(x) {
            let i = choose|i: int| 0 <= i < others.len() && others[i] == x;
            assert(!mentions(s, event, others[i]));
        }
    }
    assert forall|i: int| 0 <= i < g.len() implies soundness::renamed_node(#[trigger] g[i], rename)
        == g[i] by {
        let n = g[i];
        assert(node_mentions(n, n.id));
        assert(mentions(s, event, n.id));
        assert forall|k: int| 0 <= k < n.dependencies.len() implies rename(
            #[trigger] n.dependencies[k],
        ) == n.dependencies[k] by {
            assert(node_mentions(n, n.dependencies[k]));
            assert(mentions(s, event, n.dependencies[k]));
        }
        assert(n.dependencies.map_values(rename) =~= n.dependencies);
        match n.origin {
            OriginView::Root => {},
            OriginView::PlanExpansion => {},
            OriginView::Retry { source } => {
                assert(node_mentions(n, source));
                assert(mentions(s, event, source));
            },
            OriginView::ElevateModel { source } => {
                assert(node_mentions(n, source));
                assert(mentions(s, event, source));
            },
            OriginView::Split { source } => {
                assert(node_mentions(n, source));
                assert(mentions(s, event, source));
            },
        }
    }
    assert(soundness::renamed(g, rename) =~= g);
    assert(keeps_event(event, rename)) by {
        if !(event is Start) {
            assert(mentions(s, event, machine::node_of(event)));
        }
        if let EventView::PlanAccepted { children, .. } = event {
            assert forall|i: int, k: int|
                0 <= i < children.len() && 0 <= k < children[i].dependencies.len() implies rename(
                #[trigger] children[i].dependencies[k],
            ) == children[i].dependencies[k] by {
                assert(children[i].dependencies.contains(children[i].dependencies[k]));
                assert(mentions(s, event, children[i].dependencies[k]));
            }
        }
    }
    law_new_ids_are_only_names(s, event, ids, others, rename);
}

} // verus!
