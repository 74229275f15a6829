//! References: given ids that are not in use, every step leaves a sound
//! graph.

use vstd::prelude::*;

use crate::closure;
use crate::event::EventView;
use crate::graph::{NodeStatus, NodeView};
use crate::invariants;
use crate::laws::triggering;
use crate::machine;
use crate::manifest::TaskRecordView;
use crate::mutations;
use crate::queries;
use crate::recovery;
use crate::search;
use crate::soundness;
use crate::state;
use crate::state::StateView;
use crate::teams::ConfigView;
use crate::text::Text;
use crate::triggers;
use crate::types::{FailureView, RequestView};

verus! {

/// No two requests carry the same local name.
pub open spec fn distinct_names(children: Seq<RequestView>) -> bool {
    forall|i: int, j: int|
        0 <= i < children.len() && 0 <= j < children.len() && i != j ==> (
        #[trigger] children[i]).id != (#[trigger] children[j]).id
}

/// `h` has the ids, dependencies and origins of `g`.
pub open spec fn same_references(g: Seq<NodeView>, h: Seq<NodeView>) -> bool {
    &&& h.len() == g.len()
    &&& forall|i: int|
        0 <= i < g.len() ==> (#[trigger] h[i]).id == g[i].id && h[i].dependencies
            == g[i].dependencies && h[i].origin == g[i].origin
}

proof fn lemma_has_id_extends(g: Seq<NodeView>, h: Seq<NodeView>, id: Text)
    requires
        g.len() <= h.len(),
        forall|i: int| 0 <= i < g.len() ==> (#[trigger] h[i]).id == g[i].id,
        queries::has_id(g, id),
    ensures
        queries::has_id(h, id),
{
    let i = choose|i: int| 0 <= i < g.len() && (#[trigger] g[i]).id == id;
    assert(h[i].id == id);
}

proof fn lemma_same_references_sound(g: Seq<NodeView>, h: Seq<NodeView>)
    requires
        soundness::sound(g),
        same_references(g, h),
    ensures
        soundness::sound(h),
{
    assert forall|i: int, k: int|
        0 <= i < h.len() && 0 <= k < h[i].dependencies.len() implies queries::has_id(
        h,
        #[trigger] h[i].dependencies[k],
    ) by {
        assert(h[i].dependencies[k] == g[i].dependencies[k]);
        lemma_has_id_extends(g, h, g[i].dependencies[k]);
    }
    assert forall|i: int| 0 <= i < h.len() implies match invariants::origin_source(
        (#[trigger] h[i]).origin,
    ) {
        Some((source, _)) => queries::has_id(h, source),
        None => true,
    } by {
        assert(h[i].origin == g[i].origin);
        if let Some((source, _)) = invariants::origin_source(g[i].origin) {
            lemma_has_id_extends(g, h, source);
        }
    }
    assert forall|i: int, j: int| 0 <= i < h.len() && 0 <= j < h.len() && i != j implies (
    #[trigger] h[i]).id != (#[trigger] h[j]).id by {
        assert(h[i].id == g[i].id && h[j].id == g[j].id);
    }
}

/// Nodes may be added under fresh ids if what they refer to is there.
proof fn lemma_grown_sound(g: Seq<NodeView>, more: Seq<NodeView>, ids: Seq<Text>)
    requires
        soundness::sound(g),
        soundness::fresh(ids, g),
        more.len() <= ids.len(),
        forall|i: int| 0 <= i < more.len() ==> (#[trigger] more[i]).id == ids[i],
        forall|i: int|
            0 <= i < more.len() ==> invariants::origin_source((#[trigger] more[i]).origin) is None,
        forall|i: int, k: int|
            0 <= i < more.len() && 0 <= k < more[i].dependencies.len() ==> queries::has_id(
                g + more,
                #[trigger] more[i].dependencies[k],
            ),
    ensures
        soundness::sound(g + more),
{
    let h = g + more;
    assert forall|i: int| 0 <= i < g.len() implies #[trigger] h[i] == g[i] by {}
    assert forall|i: int| g.len() <= i < h.len() implies #[trigger] h[i] == more[i
        - g.len()] by {}
    assert forall|i: int, j: int| 0 <= i < h.len() && 0 <= j < h.len() && i != j implies (
    #[trigger] h[i]).id != (#[trigger] h[j]).id by {
        if i < g.len() && j >= g.len() {
            assert(!queries::has_id(g, ids[j - g.len()]));
            assert(g[i].id != ids[j - g.len()]);
        } else if j < g.len() && i >= g.len() {
            assert(!queries::has_id(g, ids[i - g.len()]));
            assert(g[j].id != ids[i - g.len()]);
        } else if i >= g.len() {
            assert(ids[i - g.len()] != ids[j - g.len()]);
        }
    }
    assert forall|i: int, k: int|
        0 <= i < h.len() && 0 <= k < h[i].dependencies.len() implies queries::has_id(
        h,
        #[trigger] h[i].dependencies[k],
    ) by {
        if i < g.len() {
            assert(h[i].dependencies[k] == g[i].dependencies[k]);
            lemma_has_id_extends(g, h, g[i].dependencies[k]);
        } else {
            assert(h[i].dependencies[k] == more[i - g.len()].dependencies[k]);
        }
    }
    assert forall|i: int| 0 <= i < h.len() implies match invariants::origin_source(
        (#[trigger] h[i]).origin,
    ) {
        Some((source, _)) => queries::has_id(h, source),
        None => true,
    } by {
        if i < g.len() {
            assert(h[i].origin == g[i].origin);
            if let Some((source, _)) = invariants::origin_source(g[i].origin) {
                lemma_has_id_extends(g, h, source);
            }
        } else {
            assert(invariants::origin_source(more[i - g.len()].origin) is None);
        }
    }
}

/// A sibling's name resolves to the id that the sibling gets.
proof fn lemma_assigned(children: Seq<RequestView>, ids: Seq<Text>, local: Text)
    ensures
        match mutations::assigned(children, ids, local) {
            Some(id) => exists|j: int|
                0 <= j < children.len() && (#[trigger] children[j]).id == local && id == ids[j],
            None => !invariants::names_sibling(children, local),
        },
    decreases children.len(),
{
    if children.len() > 0 {
        if children.last().id == local {
            assert(children[children.len() - 1].id == local);
        } else {
            let part = children.drop_last();
            lemma_assigned(part, ids, local);
            match mutations::assigned(part, ids, local) {
                Some(id) => {
                    let j = choose|j: int|
                        0 <= j < part.len() && (#[trigger] part[j]).id == local && id == ids[j];
                    assert(children[j].id == local);
                },
                None => {
                    assert forall|i: int| 0 <= i < children.len() implies (
                    #[trigger] children[i]).id != local by {
                        if i < part.len() {
                            assert(part[i].id != local);
                        }
                    }
                },
            }
        }
    }
}

proof fn lemma_child_ids(n: NodeView, children: Seq<RequestView>, ids: Seq<Text>)
    requires
        distinct_names(children),
    ensures
        forall|i: int|
            0 <= i < children.len() ==> (#[trigger] mutations::child_nodes(n, children, ids)[i]).id
                == ids[i],
{
    assert forall|i: int| 0 <= i < children.len() implies (
    #[trigger] mutations::child_nodes(n, children, ids)[i]).id == ids[i] by {
        lemma_assigned(children, ids, children[i].id);
        assert(invariants::names_sibling(children, children[i].id)) by {
            assert(children[i].id == children[i].id);
        }
        let id = mutations::assigned(children, ids, children[i].id)->0;
        let j = choose|j: int|
            0 <= j < children.len() && (#[trigger] children[j]).id == children[i].id && id
                == ids[j];
        assert(i == j);
    }
}

proof fn lemma_plan_sound(
    g: Seq<NodeView>,
    marked: Seq<NodeView>,
    n: NodeView,
    children: Seq<RequestView>,
    ids: Seq<Text>,
)
    requires
        soundness::sound(g),
        same_references(g, marked),
        soundness::fresh(ids, g),
        children.len() <= ids.len(),
        distinct_names(children),
        invariants::plan_violation(g, children) is None,
    ensures
        soundness::sound(marked + mutations::child_nodes(n, children, ids)),
{
    let more = mutations::child_nodes(n, children, ids);
    let h = marked + more;
    lemma_same_references_sound(g, marked);
    lemma_child_ids(n, children, ids);
    assert(soundness::fresh(ids, marked)) by {
        assert forall|i: int| 0 <= i < ids.len() implies !queries::has_id(
            marked,
            #[trigger] ids[i],
        ) by {
            if queries::has_id(marked, ids[i]) {
                assert forall|j: int| 0 <= j < marked.len() implies (#[trigger] g[j]).id
                    == marked[j].id by {
                    assert(marked[j].id == g[j].id);
                }
                lemma_has_id_extends(marked, g, ids[i]);
            }
        }
    }
    let check = invariants::child_check(g, children);
    search::lemma_first_some_none(children.len(), check);
    assert forall|i: int, k: int|
        0 <= i < more.len() && 0 <= k < more[i].dependencies.len() implies queries::has_id(
        h,
        #[trigger] more[i].dependencies[k],
    ) by {
        let deps = children[i].dependencies;
        assert(check(i) is None);
        let inner = invariants::reference_check(g, children, deps);
        search::lemma_first_some_none(deps.len(), inner);
        assert(more[i].dependencies[k] == mutations::resolved(children, ids, deps[k]));
        assert(inner(k) is None);
        lemma_assigned(children, ids, deps[k]);
        match mutations::assigned(children, ids, deps[k]) {
            Some(id) => {
                let j = choose|j: int|
                    0 <= j < children.len() && (#[trigger] children[j]).id == deps[k] && id
                        == ids[j];
                assert(more[j].id == ids[j]);
                assert(h[g.len() + j] == more[j]);
            },
            None => {
                assert forall|j: int| 0 <= j < g.len() implies (#[trigger] h[j]).id == g[j].id by {
                    assert(h[j] == marked[j]);
                }
                lemma_has_id_extends(g, h, deps[k]);
            },
        }
    }
    lemma_grown_sound(marked, more, ids);
}

proof fn lemma_replaced_sound(g: Seq<NodeView>, n: NodeView, r: NodeView)
    requires
        soundness::sound(g),
        queries::lookup(g, n.id) == Some(n),
        !queries::has_id(g, r.id),
        r.dependencies == n.dependencies,
        r.status is Pending,
        invariants::origin_source(r.origin) matches Some((source, _)) && source == n.id,
    ensures
        soundness::sound(recovery::replaced(g, n, r)),
{
    let marked = mutations::mark(g, n.id, NodeStatus::Failed);
    let pushed = marked.push(r);
    let h = recovery::replaced(g, n, r);
    queries::lemma_lookup_some(g, n.id);
    let at = choose|at: int| 0 <= at < g.len() && g[at] == n;
    assert forall|i: int| 0 <= i < g.len() implies (#[trigger] h[i]).id == g[i].id && h[i].origin
        == g[i].origin && (h[i].dependencies == g[i].dependencies || h[i].dependencies
        == mutations::remapped_ids(g[i].dependencies, n.id, r.id)) by {
        assert(pushed[i] == mutations::marked_node(g[i], n.id, NodeStatus::Failed));
        assert(h[i] == mutations::remapped_node(pushed[i], n.id, r.id));
    }
    assert(h[g.len() as int] == mutations::remapped_node(r, n.id, r.id));
    assert(queries::has_id(h, r.id));
    assert forall|i: int, j: int| 0 <= i < h.len() && 0 <= j < h.len() && i != j implies (
    #[trigger] h[i]).id != (#[trigger] h[j]).id by {
        if i < g.len() && j < g.len() {
            assert(g[i].id != g[j].id);
        } else if i < g.len() {
            assert(g[i].id != r.id);
        } else {
            assert(g[j].id != r.id);
        }
    }
    assert forall|i: int, k: int|
        0 <= i < h.len() && 0 <= k < h[i].dependencies.len() implies queries::has_id(
        h,
        #[trigger] h[i].dependencies[k],
    ) by {
        let from = if i < g.len() {
            i
        } else {
            at
        };
        let d = g[from].dependencies[k];
        assert(queries::has_id(g, d));
        lemma_has_id_extends(g, h, d);
    }
    assert forall|i: int| 0 <= i < h.len() implies match invariants::origin_source(
        (#[trigger] h[i]).origin,
    ) {
        Some((source, _)) => queries::has_id(h, source),
        None => true,
    } by {
        if i < g.len() {
            assert(h[i].origin == g[i].origin);
            if let Some((source, _)) = invariants::origin_source(g[i].origin) {
                lemma_has_id_extends(g, h, source);
            }
        } else {
            lemma_has_id_extends(g, h, n.id);
        }
    }
}

proof fn lemma_mark_references(g: Seq<NodeView>, id: Text, status: NodeStatus)
    ensures
        same_references(g, mutations::mark(g, id, status)),
{
    let h = mutations::mark(g, id, status);
    assert forall|i: int| 0 <= i < g.len() implies (#[trigger] h[i]).id == g[i].id
        && h[i].dependencies == g[i].dependencies && h[i].origin == g[i].origin by {
        assert(h[i] == mutations::marked_node(g[i], id, status));
    }
}

proof fn lemma_recovery_sound(
    config: ConfigView,
    g: Seq<NodeView>,
    n: NodeView,
    failure: FailureView,
    fresh: Text,
)
    requires
        soundness::sound(g),
        queries::lookup(g, n.id) == Some(n),
        !queries::has_id(g, fresh),
    ensures
        soundness::sound(
            state::graph_of(recovery::recovery_step(config, g, n, failure, fresh).state),
        ),
{
    let marked = mutations::mark(g, n.id, NodeStatus::Failed);
    let cancelled = closure::cancel_dependents(marked, n.id);
    lemma_mark_references(g, n.id, NodeStatus::Failed);
    lemma_same_references_sound(g, marked);
    assert(same_references(marked, cancelled)) by {
        assert forall|i: int| 0 <= i < marked.len() implies (#[trigger] cancelled[i]).id
            == marked[i].id && cancelled[i].dependencies == marked[i].dependencies
            && cancelled[i].origin == marked[i].origin by {
            assert(cancelled[i] == closure::cancelled_node(marked, n.id, marked[i]));
        }
    }
    lemma_same_references_sound(marked, cancelled);
    assert forall|r: NodeView|
        r.id == fresh && r.dependencies == n.dependencies && r.status is Pending && (
        invariants::origin_source(r.origin) matches Some((source, _)) && source
            == n.id) implies soundness::sound(#[trigger] recovery::replaced(g, n, r)) by {
        lemma_replaced_sound(g, n, r);
    }
}

proof fn lemma_triggered_sound(
    config: ConfigView,
    g: Seq<NodeView>,
    depth: usize,
    m: Seq<TaskRecordView>,
    ids: Seq<Text>,
)
    requires
        soundness::sound(g),
        soundness::fresh(ids, g),
        ids.len() >= machine::trigger_ids(g, config, m),
    ensures
        soundness::sound(state::graph_of(machine::triggered_step(config, g, depth, m, ids).state)),
{
    if let Ok(requests) = triggers::triggered(g, config, m) {
        triggering::lemma_requests_depend_on_nothing(g, config, m, config.teams.len() as int);
        lemma_grown_sound(g, mutations::spawned_nodes(depth, requests, ids), ids);
    }
}

proof fn lemma_fresh_kept(g: Seq<NodeView>, h: Seq<NodeView>, ids: Seq<Text>)
    requires
        soundness::fresh(ids, g),
        same_references(g, h),
    ensures
        soundness::fresh(ids, h),
{
    assert forall|i: int| 0 <= i < ids.len() implies !queries::has_id(h, #[trigger] ids[i]) by {
        if queries::has_id(h, ids[i]) {
            assert forall|j: int| 0 <= j < h.len() implies (#[trigger] g[j]).id == h[j].id by {
                assert(h[j].id == g[j].id);
            }
            lemma_has_id_extends(h, g, ids[i]);
        }
    }
}

/// Soundness is kept: given ids that are not in use, and plans whose children
/// have different names, a sound graph stays sound whatever happens. So
/// nothing that a run does itself makes graph validation fail.
#[verifier::rlimit(40)]
pub proof fn law_soundness_is_kept(state: StateView, event: EventView, ids: Seq<Text>)
    requires
        soundness::sound(state::graph_of(state)),
        soundness::fresh(ids, state::graph_of(state)),
        ids.len() >= machine::ids_needed(state, event),
        event matches EventView::PlanAccepted { children, .. } ==> distinct_names(children),
    ensures
        soundness::sound(state::graph_of(machine::next_step(state, event, ids).state)),
{
    let g = state::graph_of(state);
    let h = state::graph_of(machine::next_step(state, event, ids).state);
    match state {
        StateView::Active { run_config, .. } => {
            if h != g {
                let chosen = machine::chosen(g, run_config);
                assert forall|i: int| 0 <= i < g.len() implies (#[trigger] h[i]).id == g[i].id
                    && h[i].dependencies == g[i].dependencies && h[i].origin == g[i].origin by {
                    assert(h[i] == machine::dispatched_node(g[i], chosen));
                }
                lemma_same_references_sound(g, h);
            }
        },
        StateView::Waiting { run_config, .. } => {
            let id = machine::node_of(event);
            queries::lemma_lookup_some(g, id);
            if queries::lookup(g, id) is Some {
                let n = queries::lookup(g, id)->0;
                let completed = mutations::mark(g, id, NodeStatus::Completed);
                lemma_mark_references(g, id, NodeStatus::Failed);
                lemma_mark_references(g, id, NodeStatus::Completed);
                lemma_mark_references(g, id, NodeStatus::Integrating);
                lemma_same_references_sound(g, mutations::mark(g, id, NodeStatus::Failed));
                lemma_same_references_sound(g, completed);
                lemma_same_references_sound(g, mutations::mark(g, id, NodeStatus::Integrating));
                match event {
                    EventView::Start => {},
                    EventView::PlanAccepted { children, .. } => {
                        if invariants::plan_violation(g, children) is None {
                            lemma_plan_sound(g, completed, n, children, ids);
                        }
                    },
                    EventView::WorkAccepted { .. } => {},
                    EventView::NodeFailed { failure, .. } => {
                        lemma_recovery_sound(run_config, g, n, failure, ids[0]);
                    },
                    EventView::IntegrationSucceeded { summary, manifest, .. } => {
                        let done = mutations::complete_with_summary(g, id, summary);
                        assert forall|i: int| 0 <= i < g.len() implies (#[trigger] done[i]).id
                            == g[i].id && done[i].dependencies == g[i].dependencies
                            && done[i].origin == g[i].origin by {
                            assert(done[i] == mutations::summarized_node(g[i], id, summary));
                        }
                        lemma_same_references_sound(g, done);
                        lemma_fresh_kept(g, done, ids);
                        lemma_triggered_sound(run_config, done, n.plan_depth, manifest, ids);
                    },
                    EventView::IntegrationFailed { failure, .. } => {
                        lemma_recovery_sound(run_config, g, n, failure, ids[0]);
                    },
                    EventView::PlannerTasksIntegrated { manifest, .. } => {
                        lemma_fresh_kept(g, completed, ids);
                        lemma_triggered_sound(run_config, completed, n.plan_depth, manifest, ids);
                    },
                    EventView::PlannerTasksIntegrationFailed { failure, .. } => {
                        lemma_recovery_sound(run_config, g, n, failure, ids[0]);
                    },
                }
            }
        },
        _ => {},
    }
}

} // verus!
