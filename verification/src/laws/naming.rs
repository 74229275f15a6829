//! Ids are only names, whatever carries them: a run in which every id has
//! another name is the same run. Only the wording of messages that quote ids
//! differs.

use vstd::prelude::*;

use crate::closure;
use crate::driver;
use crate::driver::DriverView;
use crate::effect::EffectView;
use crate::event::EventView;
use crate::failure::ReasonView;
use crate::graph::{NodeStatus, NodeView};
use crate::invariants;
use crate::laws::renaming;
use crate::laws::triggering;
use crate::machine;
use crate::machine::SchedulerTerminalOutput;
use crate::manifest::TaskRecordView;
use crate::mutations;
use crate::queries;
use crate::recovery;
use crate::search;
use crate::soundness;
use crate::state;
use crate::state::{StateView, StepView};
use crate::teams;
use crate::teams::{ConfigView, TeamView};
use crate::text::Text;
use crate::triggers;
use crate::triggers::DecisionView;
use crate::types::{FailureView, RequestView};

verus! {

// ── renaming ───────────────────────────────────────────────────────────────

/// A request with the ids renamed: its own name and those it depends on.
pub open spec fn renamed_request(r: RequestView, f: spec_fn(Text) -> Text) -> RequestView {
    RequestView { id: f(r.id), dependencies: r.dependencies.map_values(f), ..r }
}

/// Some requests with the ids renamed.
pub open spec fn renamed_requests(
    requests: Seq<RequestView>,
    f: spec_fn(Text) -> Text,
) -> Seq<RequestView> {
    requests.map_values(|r: RequestView| renamed_request(r, f))
}

/// An event with the ids renamed.
pub open spec fn renamed_event(event: EventView, f: spec_fn(Text) -> Text) -> EventView {
    match event {
        EventView::Start => EventView::Start,
        EventView::PlanAccepted { node_id, children, tasks } => EventView::PlanAccepted {
            node_id: f(node_id),
            children: renamed_requests(children, f),
            tasks,
        },
        EventView::WorkAccepted { node_id, summary } => EventView::WorkAccepted {
            node_id: f(node_id),
            summary,
        },
        EventView::NodeFailed { node_id, failure } => EventView::NodeFailed {
            node_id: f(node_id),
            failure,
        },
        EventView::IntegrationSucceeded { node_id, summary, manifest } =>
            EventView::IntegrationSucceeded { node_id: f(node_id), summary, manifest },
        EventView::IntegrationFailed { node_id, failure } => EventView::IntegrationFailed {
            node_id: f(node_id),
            failure,
        },
        EventView::PlannerTasksIntegrated { node_id, manifest } =>
            EventView::PlannerTasksIntegrated { node_id: f(node_id), manifest },
        EventView::PlannerTasksIntegrationFailed { node_id, failure } =>
            EventView::PlannerTasksIntegrationFailed { node_id: f(node_id), failure },
    }
}

/// Whether two reasons are the same up to the names of ids. A message that
/// quotes ids may differ in its wording.
pub open spec fn alike_reasons(a: ReasonView, b: ReasonView, f: spec_fn(Text) -> Text) -> bool {
    match (a, b) {
        (ReasonView::GraphInvariantViolation(_), ReasonView::GraphInvariantViolation(_)) => true,
        (ReasonView::ProtocolViolation(_), ReasonView::ProtocolViolation(_)) => true,
        (ReasonView::Deadlock(_), ReasonView::Deadlock(_)) => true,
        (ReasonView::RequiredTestTargetsMissing(_), ReasonView::RequiredTestTargetsMissing(_)) =>
            true,
        _ => b == renaming::renamed_reason(a, f),
    }
}

/// Whether two states are the same up to the names of ids.
pub open spec fn alike_states(a: StateView, b: StateView, f: spec_fn(Text) -> Text) -> bool {
    match (a, b) {
        (
            StateView::Failed { graph: g, reason: r },
            StateView::Failed { graph: h, reason: s },
        ) => h == soundness::renamed(g, f) && alike_reasons(r, s, f),
        _ => b == renaming::renamed_state(a, f),
    }
}

/// Whether two steps are the same up to the names of ids.
pub open spec fn alike_steps(a: StepView, b: StepView, f: spec_fn(Text) -> Text) -> bool {
    &&& alike_states(a.state, b.state, f)
    &&& b.effects == renaming::renamed_effects(a.effects, f)
}

// ── queries ────────────────────────────────────────────────────────────────

proof fn lemma_lookup(g: Seq<NodeView>, f: spec_fn(Text) -> Text, id: Text)
    requires
        soundness::injective(f),
    ensures
        queries::lookup(soundness::renamed(g, f), f(id)) == match queries::lookup(g, id) {
            Some(n) => Some(soundness::renamed_node(n, f)),
            None => None,
        },
        queries::lookup(g, id) matches Some(n) ==> n.id == id,
{
    let h = soundness::renamed(g, f);
    let name = f(id);
    assert forall|i: int| #[trigger] queries::first_at(h, name, i) == queries::first_at(g, id, i) by {
        if 0 <= i < g.len() {
            assert forall|j: int| 0 <= j < i implies ((#[trigger] g[j]).id == id) == (h[j].id
                == name) by {
                assert(h[j].id == f(g[j].id));
            }
            assert(h[i].id == f(g[i].id));
            if queries::first_at(h, name, i) {
                assert forall|j: int| 0 <= j < i implies (#[trigger] g[j]).id != id by {
                    assert(h[j].id != name);
                }
            }
        }
    }
    if exists|i: int| queries::first_at(g, id, i) {
        let i = choose|i: int| queries::first_at(g, id, i);
        queries::lemma_lookup_at(g, id, i);
        assert(queries::first_at(h, name, i));
        queries::lemma_lookup_at(h, name, i);
    } else {
        assert forall|i: int| !(#[trigger] queries::first_at(h, name, i)) by {
            assert(!queries::first_at(g, id, i));
        }
    }
}

proof fn lemma_completed(g: Seq<NodeView>, f: spec_fn(Text) -> Text, id: Text)
    requires
        soundness::injective(f),
    ensures
        queries::completed_id(soundness::renamed(g, f), f(id)) == queries::completed_id(g, id),
{
    let h = soundness::renamed(g, f);
    if queries::completed_id(g, id) {
        let i = choose|i: int|
            0 <= i < g.len() && (#[trigger] g[i]).status is Completed && g[i].id == id;
        assert(h[i].status is Completed && h[i].id == f(id));
    }
    if queries::completed_id(h, f(id)) {
        let i = choose|i: int|
            0 <= i < h.len() && (#[trigger] h[i]).status is Completed && h[i].id == f(id);
        assert(g[i].status is Completed && f(g[i].id) == f(id));
    }
}

proof fn lemma_ready(g: Seq<NodeView>, f: spec_fn(Text) -> Text, n: NodeView)
    requires
        soundness::injective(f),
    ensures
        queries::is_ready(soundness::renamed(g, f), soundness::renamed_node(n, f))
            == queries::is_ready(g, n),
{
    let h = soundness::renamed(g, f);
    let m = soundness::renamed_node(n, f);
    assert forall|k: int| 0 <= k < n.dependencies.len() implies queries::completed_id(
        h,
        #[trigger] m.dependencies[k],
    ) == queries::completed_id(g, n.dependencies[k]) by {
        lemma_completed(g, f, n.dependencies[k]);
    }
    if queries::is_ready(h, m) {
        assert forall|k: int| 0 <= k < n.dependencies.len() implies queries::completed_id(
            g,
            #[trigger] n.dependencies[k],
        ) by {
            assert(queries::completed_id(h, m.dependencies[k]));
        }
    }
}

proof fn lemma_filtered(
    part: Seq<NodeView>,
    p: spec_fn(NodeView) -> bool,
    q: spec_fn(NodeView) -> bool,
    f: spec_fn(Text) -> Text,
)
    requires
        forall|i: int|
            0 <= i < part.len() ==> q(soundness::renamed_node(#[trigger] part[i], f)) == p(part[i]),
    ensures
        soundness::renamed(part, f).filter(q) == soundness::renamed(part.filter(p), f),
    decreases part.len(),
{
    reveal(Seq::filter);
    let h = soundness::renamed(part, f);
    if part.len() > 0 {
        let front = part.drop_last();
        assert forall|i: int| 0 <= i < front.len() implies q(
            soundness::renamed_node(#[trigger] front[i], f),
        ) == p(front[i]) by {
            assert(front[i] == part[i]);
        }
        lemma_filtered(front, p, q, f);
        assert(h.drop_last() =~= soundness::renamed(front, f));
        assert(h.last() == soundness::renamed_node(part.last(), f));
        assert(part.last() == part[part.len() - 1]);
        if p(part.last()) {
            assert(soundness::renamed(front.filter(p).push(part.last()), f) =~= soundness::renamed(
                front.filter(p),
                f,
            ).push(h.last()));
        }
    } else {
        assert(h.filter(q) =~= soundness::renamed(part.filter(p), f));
    }
}

proof fn lemma_active(g: Seq<NodeView>, f: spec_fn(Text) -> Text)
    ensures
        queries::active(soundness::renamed(g, f)) == soundness::renamed(queries::active(g), f),
{
    lemma_filtered(
        g,
        |n: NodeView| queries::is_active(n),
        |n: NodeView| queries::is_active(n),
        f,
    );
}

proof fn lemma_ids(part: Seq<NodeView>, f: spec_fn(Text) -> Text)
    ensures
        queries::ids_of(soundness::renamed(part, f)) == queries::ids_of(part).map_values(f),
{
    assert(queries::ids_of(soundness::renamed(part, f)) =~= queries::ids_of(part).map_values(f));
}

proof fn lemma_order(g: Seq<NodeView>, f: spec_fn(Text) -> Text)
    requires
        soundness::injective(f),
    ensures
        queries::dispatch_order(soundness::renamed(g, f)) == queries::dispatch_order(g).map_values(
            f,
        ),
{
    let h = soundness::renamed(g, f);
    assert forall|from_start: bool| #[trigger]
        queries::ready_of(h, h, from_start) == soundness::renamed(
            queries::ready_of(g, g, from_start),
            f,
        ) by {
        let p = |n: NodeView| queries::is_ready(g, n) && (n.origin is Root <==> from_start);
        let q = |n: NodeView| queries::is_ready(h, n) && (n.origin is Root <==> from_start);
        assert forall|i: int| 0 <= i < g.len() implies q(
            soundness::renamed_node(#[trigger] g[i], f),
        ) == p(g[i]) by {
            lemma_ready(g, f, g[i]);
        }
        lemma_filtered(g, p, q, f);
    }
    let added = queries::ready_of(g, g, false);
    let initial = queries::ready_of(g, g, true);
    assert(queries::ready_of(h, h, false) == soundness::renamed(added, f));
    assert(queries::ready_of(h, h, true) == soundness::renamed(initial, f));
    lemma_ids(added, f);
    lemma_ids(initial, f);
    let a = queries::ids_of(added);
    let b = queries::ids_of(initial);
    assert(a.map_values(f).reverse() + b.map_values(f) =~= (a.reverse() + b).map_values(f));
}

proof fn lemma_contained(ids: Seq<Text>, f: spec_fn(Text) -> Text, id: Text)
    requires
        soundness::injective(f),
    ensures
        ids.map_values(f).contains(f(id)) == ids.contains(id),
{
    if ids.contains(id) {
        let i = choose|i: int| 0 <= i < ids.len() && ids[i] == id;
        assert(ids.map_values(f)[i] == f(id));
    }
    if ids.map_values(f).contains(f(id)) {
        let i = choose|i: int| 0 <= i < ids.len() && ids.map_values(f)[i] == f(id);
        assert(f(ids[i]) == f(id));
    }
}

// ── closures ───────────────────────────────────────────────────────────────

proof fn lemma_affected(
    g: Seq<NodeView>,
    f: spec_fn(Text) -> Text,
    pending_only: bool,
    source: Text,
    id: Text,
)
    requires
        soundness::injective(f),
    ensures
        closure::affected(soundness::renamed(g, f), pending_only, f(source), f(id))
            == closure::affected(g, pending_only, source, id),
{
    let h = soundness::renamed(g, f);
    if closure::affected(h, pending_only, f(source), f(id)) {
        assert forall|set: Set<Text>|
            set.contains(source) && #[trigger] closure::closed_under_dependents(
                g,
                pending_only,
                set,
            ) implies set.contains(id) by {
            let image = Set::new(|y: Text| forall|x: Text| #[trigger] f(x) == y ==> set.contains(x));
            assert forall|x: Text| #[trigger] image.contains(f(x)) == set.contains(x) by {}
            assert forall|i: int|
                0 <= i < h.len() && (pending_only ==> h[i].status is Pending)
                    && closure::depends_on_any(h[i], image) implies image.contains(
                (#[trigger] h[i]).id,
            ) by {
                let k = choose|k: int|
                    0 <= k < h[i].dependencies.len() && image.contains(
                        #[trigger] h[i].dependencies[k],
                    );
                assert(h[i].dependencies[k] == f(g[i].dependencies[k]));
                assert(set.contains(g[i].dependencies[k]));
                assert(closure::depends_on_any(g[i], set));
                assert(set.contains(g[i].id));
            }
            assert(closure::closed_under_dependents(h, pending_only, image));
            assert(image.contains(f(id)));
        }
    }
    if closure::affected(g, pending_only, source, id) {
        assert forall|set: Set<Text>|
            set.contains(f(source)) && #[trigger] closure::closed_under_dependents(
                h,
                pending_only,
                set,
            ) implies set.contains(f(id)) by {
            let origin = Set::new(|x: Text| set.contains(f(x)));
            assert forall|i: int|
                0 <= i < g.len() && (pending_only ==> g[i].status is Pending)
                    && closure::depends_on_any(g[i], origin) implies origin.contains(
                (#[trigger] g[i]).id,
            ) by {
                let k = choose|k: int|
                    0 <= k < g[i].dependencies.len() && origin.contains(
                        #[trigger] g[i].dependencies[k],
                    );
                assert(h[i].dependencies[k] == f(g[i].dependencies[k]));
                assert(closure::depends_on_any(h[i], set));
                assert(set.contains(h[i].id));
            }
            assert(closure::closed_under_dependents(g, pending_only, origin));
            assert(origin.contains(id));
        }
    }
}

proof fn lemma_targets(g: Seq<NodeView>, f: spec_fn(Text) -> Text, source: Text, k: int)
    requires
        soundness::injective(f),
        k <= g.len(),
    ensures
        closure::dependent_targets(soundness::renamed(g, f), f(source), k)
            == closure::dependent_targets(g, source, k),
    decreases k,
{
    if k > 0 {
        lemma_targets(g, f, source, k - 1);
        lemma_affected(g, f, false, source, g[k - 1].id);
    }
}

proof fn lemma_cancelled(g: Seq<NodeView>, f: spec_fn(Text) -> Text, failed: Text)
    requires
        soundness::injective(f),
    ensures
        closure::cancel_dependents(soundness::renamed(g, f), f(failed)) == soundness::renamed(
            closure::cancel_dependents(g, failed),
            f,
        ),
{
    let h = soundness::renamed(g, f);
    let a = closure::cancel_dependents(h, f(failed));
    let b = soundness::renamed(closure::cancel_dependents(g, failed), f);
    assert forall|i: int| 0 <= i < g.len() implies a[i] == b[i] by {
        lemma_affected(g, f, true, failed, g[i].id);
    }
    assert(a =~= b);
}

// ── mutations ──────────────────────────────────────────────────────────────

proof fn lemma_marked(g: Seq<NodeView>, f: spec_fn(Text) -> Text, id: Text, status: NodeStatus)
    requires
        soundness::injective(f),
    ensures
        mutations::mark(soundness::renamed(g, f), f(id), status) == soundness::renamed(
            mutations::mark(g, id, status),
            f,
        ),
{
    assert(mutations::mark(soundness::renamed(g, f), f(id), status) =~= soundness::renamed(
        mutations::mark(g, id, status),
        f,
    ));
}

proof fn lemma_summarized(g: Seq<NodeView>, f: spec_fn(Text) -> Text, id: Text, summary: Text)
    requires
        soundness::injective(f),
    ensures
        mutations::complete_with_summary(soundness::renamed(g, f), f(id), summary)
            == soundness::renamed(mutations::complete_with_summary(g, id, summary), f),
{
    assert(mutations::complete_with_summary(soundness::renamed(g, f), f(id), summary)
        =~= soundness::renamed(mutations::complete_with_summary(g, id, summary), f));
}

proof fn lemma_replaced(
    g: Seq<NodeView>,
    f: spec_fn(Text) -> Text,
    n: NodeView,
    replacement: NodeView,
)
    requires
        soundness::injective(f),
    ensures
        recovery::replaced(
            soundness::renamed(g, f),
            soundness::renamed_node(n, f),
            soundness::renamed_node(replacement, f),
        ) == soundness::renamed(recovery::replaced(g, n, replacement), f),
{
    let a = recovery::replaced(
        soundness::renamed(g, f),
        soundness::renamed_node(n, f),
        soundness::renamed_node(replacement, f),
    );
    let b = soundness::renamed(recovery::replaced(g, n, replacement), f);
    assert forall|i: int| 0 <= i < b.len() implies a[i] == b[i] by {
        let d = if i < g.len() {
            g[i].dependencies
        } else {
            replacement.dependencies
        };
        assert(mutations::remapped_ids(d.map_values(f), f(n.id), f(replacement.id))
            =~= mutations::remapped_ids(d, n.id, replacement.id).map_values(f));
    }
    assert(a =~= b);
}

proof fn lemma_assigned(
    children: Seq<RequestView>,
    ids: Seq<Text>,
    f: spec_fn(Text) -> Text,
    local: Text,
)
    requires
        soundness::injective(f),
        children.len() <= ids.len(),
    ensures
        mutations::assigned(renamed_requests(children, f), ids.map_values(f), f(local))
            == match mutations::assigned(children, ids, local) {
            Some(id) => Some(f(id)),
            None => None,
        },
    decreases children.len(),
{
    let renamed = renamed_requests(children, f);
    if children.len() > 0 {
        assert(renamed.drop_last() =~= renamed_requests(children.drop_last(), f));
        assert(renamed.last().id == f(children.last().id));
        if children.last().id != local {
            lemma_assigned(children.drop_last(), ids, f, local);
        }
    }
}

proof fn lemma_children(
    parent: NodeView,
    children: Seq<RequestView>,
    ids: Seq<Text>,
    f: spec_fn(Text) -> Text,
)
    requires
        soundness::injective(f),
        children.len() <= ids.len(),
    ensures
        mutations::child_nodes(
            soundness::renamed_node(parent, f),
            renamed_requests(children, f),
            ids.map_values(f),
        ) == soundness::renamed(mutations::child_nodes(parent, children, ids), f),
{
    let renamed = renamed_requests(children, f);
    let names = ids.map_values(f);
    let a = mutations::child_nodes(soundness::renamed_node(parent, f), renamed, names);
    let b = soundness::renamed(mutations::child_nodes(parent, children, ids), f);
    assert forall|i: int| 0 <= i < children.len() implies a[i] == b[i] by {
        let r = children[i];
        lemma_assigned(children, ids, f, r.id);
        assert(renamed[i] == renamed_request(r, f));
        assert forall|k: int| 0 <= k < r.dependencies.len() implies mutations::resolved(
            renamed,
            names,
            f(#[trigger] r.dependencies[k]),
        ) == f(mutations::resolved(children, ids, r.dependencies[k])) by {
            lemma_assigned(children, ids, f, r.dependencies[k]);
        }
        assert(a[i].dependencies =~= b[i].dependencies);
    }
    assert(a =~= b);
}

proof fn lemma_spawned(
    depth: usize,
    requests: Seq<RequestView>,
    ids: Seq<Text>,
    f: spec_fn(Text) -> Text,
)
    requires
        requests.len() <= ids.len(),
        forall|i: int| 0 <= i < requests.len() ==> (#[trigger] requests[i]).dependencies.len() == 0,
    ensures
        mutations::spawned_nodes(depth, requests, ids.map_values(f)) == soundness::renamed(
            mutations::spawned_nodes(depth, requests, ids),
            f,
        ),
{
    let a = mutations::spawned_nodes(depth, requests, ids.map_values(f));
    let b = soundness::renamed(mutations::spawned_nodes(depth, requests, ids), f);
    assert forall|i: int| 0 <= i < requests.len() implies a[i] == b[i] by {
        assert(requests[i].dependencies.len() == 0);
        assert(a[i].dependencies =~= b[i].dependencies);
    }
    assert(a =~= b);
}

proof fn lemma_sum(g: Seq<NodeView>, more: Seq<NodeView>, f: spec_fn(Text) -> Text)
    ensures
        soundness::renamed(g, f) + soundness::renamed(more, f) == soundness::renamed(g + more, f),
{
    assert(soundness::renamed(g, f) + soundness::renamed(more, f) =~= soundness::renamed(
        g + more,
        f,
    ));
}

// ── what is found wrong ────────────────────────────────────────────────────

proof fn lemma_found_alike<A, B>(
    n: nat,
    a: spec_fn(int) -> Option<A>,
    b: spec_fn(int) -> Option<B>,
)
    requires
        forall|i: int| 0 <= i < n ==> ((#[trigger] a(i)) is Some) == (b(i) is Some),
    ensures
        (search::first_some(n, a) is Some) == (search::first_some(n, b) is Some),
    decreases n,
{
    if n > 0 {
        lemma_found_alike((n - 1) as nat, a, b);
        assert((a(n - 1) is Some) == (b(n - 1) is Some));
    }
}

proof fn lemma_missing_tests(g: Seq<NodeView>, f: spec_fn(Text) -> Text)
    ensures
        (invariants::missing_tests(soundness::renamed(g, f)) is Some)
            == (invariants::missing_tests(g) is Some),
{
    let h = soundness::renamed(g, f);
    assert forall|target: Text| #[trigger]
        invariants::target_done(h, target) == invariants::target_done(g, target) by {
        if invariants::target_done(g, target) {
            let i = choose|i: int|
                0 <= i < g.len() && invariants::is_done_work(#[trigger] g[i])
                    && g[i].target_files.contains(target);
            assert(invariants::is_done_work(h[i]) && h[i].target_files.contains(target));
        }
        if invariants::target_done(h, target) {
            let i = choose|i: int|
                0 <= i < h.len() && invariants::is_done_work(#[trigger] h[i])
                    && h[i].target_files.contains(target);
            assert(invariants::is_done_work(g[i]) && g[i].target_files.contains(target));
        }
    }
    let a = invariants::tests_check(h);
    let b = invariants::tests_check(g);
    assert forall|i: int| 0 <= i < g.len() implies ((#[trigger] a(i)) is Some) == (b(i)
        is Some) by {
        let m = h[i];
        let n = g[i];
        let inner_a = invariants::required_check(h, m);
        let inner_b = invariants::required_check(g, n);
        assert forall|k: int| 0 <= k < n.required_validation_targets.len() implies ((
        #[trigger] inner_a(k)) is Some) == (inner_b(k) is Some) by {
            assert(invariants::target_done(h, n.required_validation_targets[k])
                == invariants::target_done(g, n.required_validation_targets[k]));
        }
        lemma_found_alike(n.required_validation_targets.len(), inner_a, inner_b);
    }
    lemma_found_alike(g.len(), a, b);
}

proof fn lemma_delivery(
    g: Seq<NodeView>,
    f: spec_fn(Text) -> Text,
    slots: nat,
    id: Text,
    label: Text,
)
    requires
        soundness::injective(f),
    ensures
        (invariants::delivery_violation(soundness::renamed(g, f), slots, f(id), label) is Some)
            == (invariants::delivery_violation(g, slots, id, label) is Some),
{
    lemma_active(g, f);
    lemma_ids(queries::active(g), f);
    lemma_contained(queries::ids_of(queries::active(g)), f, id);
}

proof fn lemma_plan_violation(
    g: Seq<NodeView>,
    children: Seq<RequestView>,
    f: spec_fn(Text) -> Text,
)
    requires
        soundness::injective(f),
    ensures
        (invariants::plan_violation(soundness::renamed(g, f), renamed_requests(children, f))
            is Some) == (invariants::plan_violation(g, children) is Some),
{
    let h = soundness::renamed(g, f);
    let renamed = renamed_requests(children, f);
    assert forall|id: Text| #[trigger]
        invariants::names_sibling(renamed, f(id)) == invariants::names_sibling(children, id) by {
        if invariants::names_sibling(children, id) {
            let i = choose|i: int| 0 <= i < children.len() && (#[trigger] children[i]).id == id;
            assert(renamed[i].id == f(id));
        }
        if invariants::names_sibling(renamed, f(id)) {
            let i = choose|i: int| 0 <= i < renamed.len() && (#[trigger] renamed[i]).id == f(id);
            assert(f(children[i].id) == f(id));
        }
    }
    let a = invariants::child_check(h, renamed);
    let b = invariants::child_check(g, children);
    assert forall|i: int| 0 <= i < children.len() implies ((#[trigger] a(i)) is Some) == (b(i)
        is Some) by {
        let d = children[i].dependencies;
        let e = renamed[i].dependencies;
        let inner_a = invariants::reference_check(h, renamed, e);
        let inner_b = invariants::reference_check(g, children, d);
        assert forall|k: int| 0 <= k < d.len() implies ((#[trigger] inner_a(k)) is Some) == (
        inner_b(k) is Some) by {
            assert(e[k] == f(d[k]));
            soundness::lemma_renamed_id(g, f, d[k]);
            assert(invariants::names_sibling(renamed, f(d[k])) == invariants::names_sibling(
                children,
                d[k],
            ));
        }
        lemma_found_alike(d.len(), inner_a, inner_b);
    }
    lemma_found_alike(children.len(), a, b);
}

proof fn lemma_depths(parent_depth: usize, children: Seq<RequestView>, f: spec_fn(Text) -> Text)
    ensures
        (mutations::depth_violation(parent_depth, renamed_requests(children, f)) is Some) == (
        mutations::depth_violation(parent_depth, children) is Some),
{
    let a = mutations::depth_check(parent_depth, renamed_requests(children, f));
    let b = mutations::depth_check(parent_depth, children);
    assert forall|i: int| 0 <= i < children.len() implies ((#[trigger] a(i)) is Some) == (b(i)
        is Some) by {
        assert(renamed_requests(children, f)[i].kind == children[i].kind);
    }
    lemma_found_alike(children.len(), a, b);
}

// ── triggers ───────────────────────────────────────────────────────────────

proof fn lemma_same_objective(g: Seq<NodeView>, f: spec_fn(Text) -> Text, n: nat)
    requires
        n <= g.len(),
    ensures
        search::first_some(n, triggers::root_check(soundness::renamed(g, f)))
            == search::first_some(n, triggers::root_check(g)),
    decreases n,
{
    if n > 0 {
        lemma_same_objective(g, f, (n - 1) as nat);
    }
}

proof fn lemma_same_teams(g: Seq<NodeView>, f: spec_fn(Text) -> Text)
    ensures
        forall|team: Text, task: Option<Text>| #[trigger]
            queries::has_team_node(soundness::renamed(g, f), team, task) == queries::has_team_node(
                g,
                team,
                task,
            ),
{
    let h = soundness::renamed(g, f);
    assert forall|team: Text, task: Option<Text>| #[trigger]
        queries::has_team_node(h, team, task) == queries::has_team_node(g, team, task) by {
        if queries::has_team_node(g, team, task) {
            let i = choose|i: int|
                0 <= i < g.len() && (#[trigger] g[i]).team == team && g[i].task_id == task
                    && g[i].status !is Failed;
            assert(h[i].team == team && h[i].task_id == task && h[i].status !is Failed);
        }
        if queries::has_team_node(h, team, task) {
            let i = choose|i: int|
                0 <= i < h.len() && (#[trigger] h[i]).team == team && h[i].task_id == task
                    && h[i].status !is Failed;
            assert(g[i].team == team && g[i].task_id == task && g[i].status !is Failed);
        }
    }
}

proof fn lemma_same_task_requests(
    g: Seq<NodeView>,
    f: spec_fn(Text) -> Text,
    requests: Seq<RequestView>,
    team: TeamView,
    terminal_teams: Seq<Text>,
    m: Seq<TaskRecordView>,
    ids: Seq<Text>,
)
    ensures
        triggers::task_requests(soundness::renamed(g, f), requests, team, terminal_teams, m, ids)
            == triggers::task_requests(g, requests, team, terminal_teams, m, ids),
    decreases ids.len(),
{
    if ids.len() > 0 {
        lemma_same_task_requests(g, f, requests, team, terminal_teams, m, ids.drop_last());
        lemma_same_teams(g, f);
    }
}

proof fn lemma_same_requests(
    g: Seq<NodeView>,
    f: spec_fn(Text) -> Text,
    config: ConfigView,
    m: Seq<TaskRecordView>,
    k: int,
)
    ensures
        triggers::requests_upto(soundness::renamed(g, f), config, m, k) == triggers::requests_upto(
            g,
            config,
            m,
            k,
        ),
    decreases k,
{
    if k > 0 {
        lemma_same_requests(g, f, config, m, k - 1);
        lemma_same_teams(g, f);
        lemma_same_objective(g, f, g.len());
        if let Ok(earlier) = triggers::requests_upto(g, config, m, k - 1) {
            let team = config.teams[k - 1];
            if let DecisionView::ForTasks(ids) = triggers::decision(
                team.trigger,
                team.name,
                m,
            ) {
                lemma_same_task_requests(g, f, earlier, team, config.terminal_teams, m, ids);
            }
        }
    }
}

// ── one step ───────────────────────────────────────────────────────────────

proof fn lemma_recovery_step(
    config: ConfigView,
    g: Seq<NodeView>,
    n: NodeView,
    failure: FailureView,
    fresh: Text,
    f: spec_fn(Text) -> Text,
)
    requires
        soundness::injective(f),
    ensures
        recovery::recovery_step(
            config,
            soundness::renamed(g, f),
            soundness::renamed_node(n, f),
            failure,
            f(fresh),
        ) == renaming::renamed_step(recovery::recovery_step(config, g, n, failure, fresh), f),
{
    renaming::lemma_no_effects(f);
    lemma_marked(g, f, n.id, NodeStatus::Failed);
    lemma_cancelled(mutations::mark(g, n.id, NodeStatus::Failed), f, n.id);
    let m = soundness::renamed_node(n, f);
    let name = f(fresh);
    assert forall|feedback: Option<Text>|
        recovery::replaced(
            soundness::renamed(g, f),
            m,
            #[trigger] recovery::retry_node(m, name, feedback),
        ) == soundness::renamed(
            recovery::replaced(g, n, recovery::retry_node(n, fresh, feedback)),
            f,
        ) by {
        let x = recovery::retry_node(n, fresh, feedback);
        assert(recovery::retry_node(m, name, feedback) == soundness::renamed_node(x, f));
        lemma_replaced(g, f, n, x);
    }
    let elevated = recovery::elevated_node(n, fresh);
    assert(recovery::elevated_node(m, name) == soundness::renamed_node(elevated, f));
    lemma_replaced(g, f, n, elevated);
    assert forall|message: Text|
        recovery::replaced(
            soundness::renamed(g, f),
            m,
            #[trigger] recovery::split_node(m, name, message),
        ) == soundness::renamed(
            recovery::replaced(g, n, recovery::split_node(n, fresh, message)),
            f,
        ) by {
        let x = recovery::split_node(n, fresh, message);
        assert(recovery::split_node(m, name, message) == soundness::renamed_node(x, f));
        lemma_replaced(g, f, n, x);
    }
}

proof fn lemma_chosen(g: Seq<NodeView>, config: ConfigView, f: spec_fn(Text) -> Text)
    requires
        soundness::injective(f),
        queries::active(g).len() < teams::slots(config),
    ensures
        machine::chosen(soundness::renamed(g, f), config) == machine::chosen(g, config).map_values(
            f,
        ),
{
    lemma_order(g, f);
    lemma_active(g, f);
    let order = queries::dispatch_order(g);
    let free = teams::slots(config) - queries::active(g).len();
    if order.len() > free {
        assert(order.map_values(f).take(free) =~= order.take(free).map_values(f));
    }
}

proof fn lemma_dispatched(g: Seq<NodeView>, ids: Seq<Text>, f: spec_fn(Text) -> Text)
    requires
        soundness::injective(f),
    ensures
        machine::dispatched(soundness::renamed(g, f), ids.map_values(f)) == soundness::renamed(
            machine::dispatched(g, ids),
            f,
        ),
{
    let a = machine::dispatched(soundness::renamed(g, f), ids.map_values(f));
    let b = soundness::renamed(machine::dispatched(g, ids), f);
    assert forall|i: int| 0 <= i < g.len() implies a[i] == b[i] by {
        lemma_contained(ids, f, g[i].id);
    }
    assert(a =~= b);
}

proof fn lemma_run_effects(g: Seq<NodeView>, ids: Seq<Text>, f: spec_fn(Text) -> Text)
    requires
        soundness::injective(f),
        forall|k: int| 0 <= k < ids.len() ==> queries::has_id(g, #[trigger] ids[k]),
    ensures
        machine::run_effects(soundness::renamed(g, f), ids.map_values(f))
            == renaming::renamed_effects(machine::run_effects(g, ids), f),
{
    let h = soundness::renamed(g, f);
    let a = machine::run_effects(h, ids.map_values(f));
    let b = renaming::renamed_effects(machine::run_effects(g, ids), f);
    assert forall|k: int| 0 <= k < ids.len() implies a[k] == b[k] by {
        let id = ids[k];
        assert(queries::has_id(g, id));
        queries::lemma_lookup_some(g, id);
        lemma_lookup(g, f, id);
        lemma_targets(g, f, id, g.len() as int);
    }
    assert(a =~= b);
}

proof fn lemma_start_step(g: Seq<NodeView>, config: ConfigView, f: spec_fn(Text) -> Text)
    requires
        soundness::injective(f),
    ensures
        alike_steps(
            machine::start_step(g, config),
            machine::start_step(soundness::renamed(g, f), config),
            f,
        ),
{
    let h = soundness::renamed(g, f);
    renaming::lemma_no_effects(f);
    soundness::law_validation_does_not_read_ids(g, f);
    renaming::lemma_same_statuses(g, f);
    lemma_missing_tests(g, f);
    lemma_order(g, f);
    if queries::active(g).len() < teams::slots(config) {
        lemma_chosen(g, config, f);
        let ids = machine::chosen(g, config);
        lemma_dispatched(g, ids, f);
        machine::lemma_order_has_ids(g);
        assert forall|k: int| 0 <= k < ids.len() implies queries::has_id(g, #[trigger] ids[k]) by {
            assert(ids[k] == queries::dispatch_order(g)[k]);
        }
        lemma_run_effects(g, ids, f);
    }
}

proof fn lemma_plan_step(
    config: ConfigView,
    g: Seq<NodeView>,
    n: NodeView,
    event: EventView,
    ids: Seq<Text>,
    f: spec_fn(Text) -> Text,
)
    requires
        soundness::injective(f),
        event is PlanAccepted,
        event->children.len() <= ids.len(),
    ensures
        alike_steps(
            machine::plan_step(config, g, n, event->children, event->tasks, ids),
            machine::plan_step(
                config,
                soundness::renamed(g, f),
                soundness::renamed_node(n, f),
                renamed_requests(event->children, f),
                event->tasks,
                ids.map_values(f),
            ),
            f,
        ),
{
    let children = event->children;
    renaming::lemma_no_effects(f);
    lemma_plan_violation(g, children, f);
    lemma_depths(n.plan_depth, children, f);
    lemma_marked(g, f, n.id, NodeStatus::Failed);
    lemma_marked(g, f, n.id, NodeStatus::Completed);
    lemma_marked(g, f, n.id, NodeStatus::Integrating);
    lemma_children(n, children, ids, f);
    let done = mutations::mark(g, n.id, NodeStatus::Completed);
    let more = mutations::child_nodes(n, children, ids);
    lemma_sum(done, more, f);
    renaming::lemma_renamed_resumption(done + more, config, f);
    let effects = seq![
        EffectView::IntegratePlannerTasks { node_id: n.id, tasks: event->tasks, team: n.team },
    ];
    assert(renaming::renamed_effects(effects, f) =~= seq![
        EffectView::IntegratePlannerTasks { node_id: f(n.id), tasks: event->tasks, team: n.team },
    ]);
}

proof fn lemma_work_step(
    config: ConfigView,
    g: Seq<NodeView>,
    n: NodeView,
    summary: Text,
    f: spec_fn(Text) -> Text,
)
    requires
        soundness::injective(f),
    ensures
        machine::work_step(
            config,
            soundness::renamed(g, f),
            soundness::renamed_node(n, f),
            summary,
        ) == renaming::renamed_step(machine::work_step(config, g, n, summary), f),
{
    lemma_marked(g, f, n.id, NodeStatus::Integrating);
    assert(renaming::renamed_effects(machine::work_step(config, g, n, summary).effects, f)
        =~= machine::work_step(
        config,
        soundness::renamed(g, f),
        soundness::renamed_node(n, f),
        summary,
    ).effects);
}

proof fn lemma_triggered_step(
    config: ConfigView,
    g: Seq<NodeView>,
    depth: usize,
    m: Seq<TaskRecordView>,
    ids: Seq<Text>,
    f: spec_fn(Text) -> Text,
)
    requires
        soundness::injective(f),
        machine::trigger_ids(g, config, m) <= ids.len(),
    ensures
        machine::triggered_step(config, soundness::renamed(g, f), depth, m, ids.map_values(f))
            == renaming::renamed_step(machine::triggered_step(config, g, depth, m, ids), f),
{
    renaming::lemma_no_effects(f);
    lemma_same_requests(g, f, config, m, config.teams.len() as int);
    if let Ok(requests) = triggers::triggered(g, config, m) {
        triggering::lemma_requests_depend_on_nothing(g, config, m, config.teams.len() as int);
        lemma_spawned(depth, requests, ids, f);
        let more = mutations::spawned_nodes(depth, requests, ids);
        lemma_sum(g, more, f);
        renaming::lemma_same_statuses(g + more, f);
        renaming::lemma_renamed_resumption(g + more, config, f);
    }
}

proof fn lemma_waiting_step(
    config: ConfigView,
    g: Seq<NodeView>,
    event: EventView,
    ids: Seq<Text>,
    f: spec_fn(Text) -> Text,
)
    requires
        soundness::injective(f),
        machine::ids_needed(StateView::Waiting { graph: g, run_config: config }, event)
            <= ids.len(),
    ensures
        alike_steps(
            machine::waiting_step(config, g, event, ids),
            machine::waiting_step(
                config,
                soundness::renamed(g, f),
                renamed_event(event, f),
                ids.map_values(f),
            ),
            f,
        ),
{
    renaming::lemma_no_effects(f);
    let id = machine::node_of(event);
    let slots = teams::slots(config);
    lemma_lookup(g, f, id);
    lemma_delivery(g, f, slots, id, "result"@);
    lemma_delivery(g, f, slots, id, "integration result"@);
    lemma_delivery(g, f, slots, id, "planner-task integration result"@);
    if let Some(n) = queries::lookup(g, id) {
        match event {
            EventView::Start => {},
            EventView::PlanAccepted { .. } => {
                lemma_plan_step(config, g, n, event, ids, f);
            },
            EventView::WorkAccepted { summary, .. } => {
                lemma_work_step(config, g, n, summary, f);
            },
            EventView::NodeFailed { failure, .. } => {
                lemma_recovery_step(config, g, n, failure, ids[0], f);
            },
            EventView::IntegrationSucceeded { summary, manifest, .. } => {
                lemma_summarized(g, f, id, summary);
                lemma_triggered_step(
                    config,
                    mutations::complete_with_summary(g, id, summary),
                    n.plan_depth,
                    manifest,
                    ids,
                    f,
                );
            },
            EventView::IntegrationFailed { failure, .. } => {
                lemma_recovery_step(config, g, n, failure, ids[0], f);
            },
            EventView::PlannerTasksIntegrated { manifest, .. } => {
                lemma_marked(g, f, id, NodeStatus::Completed);
                lemma_triggered_step(
                    config,
                    mutations::mark(g, id, NodeStatus::Completed),
                    n.plan_depth,
                    manifest,
                    ids,
                    f,
                );
            },
            EventView::PlannerTasksIntegrationFailed { failure, .. } => {
                lemma_recovery_step(config, g, n, failure, ids[0], f);
            },
        }
    }
}

/// Ids are only names: where every id in a state, in an event and among the
/// ids for new nodes has another name, the step is the same under those names.
pub proof fn law_ids_are_only_names(
    s: StateView,
    event: EventView,
    ids: Seq<Text>,
    f: spec_fn(Text) -> Text,
)
    requires
        soundness::injective(f),
        machine::ids_needed(s, event) <= ids.len(),
    ensures
        alike_steps(
            machine::next_step(s, event, ids),
            machine::next_step(
                renaming::renamed_state(s, f),
                renamed_event(event, f),
                ids.map_values(f),
            ),
            f,
        ),
{
    renaming::lemma_no_effects(f);
    match s {
        StateView::Active { graph, run_config } => {
            lemma_start_step(graph, run_config, f);
        },
        StateView::Waiting { graph, run_config } => {
            lemma_waiting_step(run_config, graph, event, ids, f);
        },
        _ => {},
    }
}

// ── whole runs ─────────────────────────────────────────────────────────────

/// What happens to the scheduler's side of a run.
pub enum Turn {
    /// An event is delivered, with ids for new nodes.
    Delivered { event: EventView, ids: Seq<Text> },
    /// The first pending effect is taken up.
    TakenUp,
}

/// A turn with the ids renamed.
pub open spec fn renamed_turn(turn: Turn, f: spec_fn(Text) -> Text) -> Turn {
    match turn {
        Turn::Delivered { event, ids } => Turn::Delivered {
            event: renamed_event(event, f),
            ids: ids.map_values(f),
        },
        Turn::TakenUp => Turn::TakenUp,
    }
}

/// A run after a turn.
pub open spec fn after_turn(d: DriverView, turn: Turn) -> DriverView {
    match turn {
        Turn::Delivered { event, ids } => driver::delivered(d, event, ids),
        Turn::TakenUp => DriverView { pending: d.pending.drop_first(), ..d },
    }
}

/// Whether a run can take a turn: there are enough ids, and an effect to take
/// up is pending.
pub open spec fn can_take(d: DriverView, turn: Turn) -> bool {
    match turn {
        Turn::Delivered { event, ids } => machine::ids_needed(d.state, event) <= ids.len(),
        Turn::TakenUp => d.pending.len() > 0,
    }
}

/// A run after some turns.
pub open spec fn after_turns(d: DriverView, turns: Seq<Turn>) -> DriverView
    decreases turns.len(),
{
    if turns.len() == 0 {
        d
    } else {
        after_turn(after_turns(d, turns.drop_last()), turns.last())
    }
}

/// Whether a run can take some turns, one after another.
pub open spec fn can_take_all(d: DriverView, turns: Seq<Turn>) -> bool
    decreases turns.len(),
{
    turns.len() == 0 || (can_take_all(d, turns.drop_last()) && can_take(
        after_turns(d, turns.drop_last()),
        turns.last(),
    ))
}

/// Whether two runs are the same up to the names of ids.
pub open spec fn alike_runs(a: DriverView, b: DriverView, f: spec_fn(Text) -> Text) -> bool {
    &&& alike_states(a.state, b.state, f)
    &&& b.pending == renaming::renamed_effects(a.pending, f)
}

/// A run starts in the same way whatever the name of its first node.
pub proof fn law_runs_start_alike(
    objective: Text,
    config: ConfigView,
    id: Text,
    f: spec_fn(Text) -> Text,
)
    ensures
        alike_runs(
            (DriverView { state: machine::initial(objective, config, id), pending: Seq::empty() }),
            (DriverView {
                state: machine::initial(objective, config, f(id)),
                pending: Seq::empty(),
            }),
            f,
        ),
{
    renaming::lemma_no_effects(f);
    let n = machine::root_node(objective, config, id);
    assert(n.dependencies.map_values(f) =~= n.dependencies);
    assert(soundness::renamed(seq![n], f) =~= seq![
        machine::root_node(objective, config, f(id)),
    ]);
}

/// Runs that are alike stay alike when each takes the same turn under its own
/// names.
pub proof fn law_turns_keep_runs_alike(
    a: DriverView,
    b: DriverView,
    turn: Turn,
    f: spec_fn(Text) -> Text,
)
    requires
        soundness::injective(f),
        alike_runs(a, b, f),
        can_take(a, turn),
    ensures
        alike_runs(after_turn(a, turn), after_turn(b, renamed_turn(turn, f)), f),
{
    match turn {
        Turn::Delivered { event, ids } => {
            renaming::lemma_no_effects(f);
            if a.state !is Failed {
                law_ids_are_only_names(a.state, event, ids, f);
            }
            let x = machine::next_step(a.state, event, ids);
            let y = machine::next_step(b.state, renamed_event(event, f), ids.map_values(f));
            assert(alike_steps(x, y, f));
            assert(renaming::renamed_effects(a.pending + x.effects, f) =~= b.pending + y.effects);
        },
        Turn::TakenUp => {
            assert(renaming::renamed_effects(a.pending.drop_first(), f) =~= b.pending.drop_first());
        },
    }
}

/// Two runs in which the same things happen, up to the names of ids, are the
/// same up to those names at every time: they wait for the same nodes, ask for
/// the same effects, and end in the same way.
pub proof fn law_runs_agree_up_to_names(
    a: DriverView,
    b: DriverView,
    turns: Seq<Turn>,
    f: spec_fn(Text) -> Text,
)
    requires
        soundness::injective(f),
        alike_runs(a, b, f),
        can_take_all(a, turns),
    ensures
        alike_runs(
            after_turns(a, turns),
            after_turns(b, turns.map_values(|t: Turn| renamed_turn(t, f))),
            f,
        ),
    decreases turns.len(),
{
    let renamed = turns.map_values(|t: Turn| renamed_turn(t, f));
    if turns.len() > 0 {
        let front = turns.drop_last();
        assert(renamed.drop_last() =~= front.map_values(|t: Turn| renamed_turn(t, f)));
        law_runs_agree_up_to_names(a, b, front, f);
        law_turns_keep_runs_alike(
            after_turns(a, front),
            after_turns(b, renamed.drop_last()),
            turns.last(),
            f,
        );
    }
}

/// Runs that end alike have outputs that are the same up to the names of ids:
/// the graph, the counts of recoveries, and the reason of a failure.
pub proof fn law_outputs_agree_up_to_names(
    a: StateView,
    b: StateView,
    x: SchedulerTerminalOutput,
    y: SchedulerTerminalOutput,
    f: spec_fn(Text) -> Text,
)
    requires
        alike_states(a, b, f),
        machine::is_output_of(x, a),
        machine::is_output_of(y, b),
    ensures
        match (x, y) {
            (
                SchedulerTerminalOutput::Complete { graph: g, recovery_summary: r },
                SchedulerTerminalOutput::Complete { graph: h, recovery_summary: s },
            ) => h@ == soundness::renamed(g@, f) && r == s,
            (
                SchedulerTerminalOutput::Failed { graph: g, reason: r },
                SchedulerTerminalOutput::Failed { graph: h, reason: s },
            ) => h@ == soundness::renamed(g@, f) && alike_reasons(r@, s@, f),
            _ => false,
        },
{
    let g = state::graph_of(a);
    let retry = |n: NodeView| n.origin is Retry;
    let elevate = |n: NodeView| n.origin is ElevateModel;
    let split = |n: NodeView| n.origin is Split;
    lemma_filtered(g, retry, retry, f);
    lemma_filtered(g, elevate, elevate, f);
    lemma_filtered(g, split, split, f);
}

} // verus!
