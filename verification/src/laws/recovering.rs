//! Recovery: what becomes of a node that failed.

use vstd::prelude::*;

use crate::closure;
use crate::failure::ReasonView;
use crate::graph::{NodeStatus, NodeView};
use crate::invariants;
use crate::mutations;
use crate::queries::{MAX_ATTEMPTS, MAX_GRAPH_NODES, MAX_PLAN_DEPTH};
use crate::recovery;
use crate::soundness;
use crate::state;
use crate::state::StateView;
use crate::teams::ConfigView;
use crate::text::Text;
use crate::types::{FailureView, RecoveryView};

verus! {

/// What every replacement keeps of the node it stands for, and that it counts
/// one attempt more.
pub open spec fn stands_for(r: NodeView, n: NodeView) -> bool {
    &&& r.status is Pending
    &&& r.attempt == n.attempt + 1
    &&& r.objective == n.objective
    &&& r.team == n.team
    &&& r.task_id == n.task_id
    &&& r.adapter == n.adapter
    &&& r.northstar == n.northstar
    &&& r.target_files == n.target_files
    &&& r.required_validation_targets == n.required_validation_targets
    &&& invariants::origin_source(r.origin) matches Some((source, _)) && source == n.id
}

/// The graph that the recovery of `n` leaves.
pub open spec fn after_recovery(
    config: ConfigView,
    g: Seq<NodeView>,
    n: NodeView,
    failure: FailureView,
    fresh: Text,
) -> Seq<NodeView> {
    state::graph_of(recovery::recovery_step(config, g, n, failure, fresh).state)
}

/// The node that replaces `n`.
pub open spec fn replacement(
    config: ConfigView,
    g: Seq<NodeView>,
    n: NodeView,
    failure: FailureView,
    fresh: Text,
) -> NodeView {
    after_recovery(config, g, n, failure, fresh).last()
}

proof fn lemma_replaced(g: Seq<NodeView>, n: NodeView, r: NodeView)
    requires
        r.id != n.id,
        r.status is Pending,
    ensures
        ({
            let h = recovery::replaced(g, n, r);
            &&& h.len() == g.len() + 1
            &&& h.last() == (NodeView {
                dependencies: mutations::remapped_ids(r.dependencies, n.id, r.id),
                ..r
            })
            &&& forall|i: int|
                0 <= i < g.len() && (#[trigger] g[i]).id == n.id ==> h[i].status is Failed
            &&& forall|i: int|
                0 <= i < h.len() && (#[trigger] h[i]).status is Pending
                    ==> !h[i].dependencies.contains(n.id)
            &&& forall|i: int|
                0 <= i < g.len() && g[i].id != n.id && (#[trigger] g[i]).status is Pending
                    && g[i].dependencies.contains(n.id) ==> h[i].dependencies.contains(r.id)
        }),
{
    let marked = mutations::mark(g, n.id, NodeStatus::Failed);
    let pushed = marked.push(r);
    let h = recovery::replaced(g, n, r);
    assert forall|i: int| 0 <= i < h.len() && (
    #[trigger] h[i]).status is Pending implies !h[i].dependencies.contains(n.id) by {
        assert(h[i] == mutations::remapped_node(pushed[i], n.id, r.id));
        assert forall|k: int| 0 <= k < h[i].dependencies.len() implies h[i].dependencies[k]
            != n.id by {
            let d = pushed[i].dependencies[k];
            assert(h[i].dependencies[k] == if d == n.id {
                r.id
            } else {
                d
            });
        }
    }
    assert forall|i: int|
        0 <= i < g.len() && (#[trigger] g[i]).id == n.id implies h[i].status is Failed by {
        assert(pushed[i] == mutations::marked_node(g[i], n.id, NodeStatus::Failed));
        assert(h[i] == mutations::remapped_node(pushed[i], n.id, r.id));
    }
    assert forall|i: int|
        0 <= i < g.len() && g[i].id != n.id && (#[trigger] g[i]).status is Pending
            && g[i].dependencies.contains(n.id) implies h[i].dependencies.contains(r.id) by {
        assert(pushed[i] == mutations::marked_node(g[i], n.id, NodeStatus::Failed));
        assert(h[i] == mutations::remapped_node(pushed[i], n.id, r.id));
        let k = choose|k: int| 0 <= k < g[i].dependencies.len() && g[i].dependencies[k] == n.id;
        assert(h[i].dependencies[k] == r.id);
    }
}

/// Recovery leaves the failed node in place as failed and adds one pending
/// node that stands for it under a new id. Pending nodes that waited for the
/// failed node wait for its replacement; none waits for the failed node.
pub proof fn law_recovery_replaces_the_failed_node(
    config: ConfigView,
    g: Seq<NodeView>,
    n: NodeView,
    failure: FailureView,
    fresh: Text,
)
    requires
        fresh != n.id,
        recovery::recovery_step(config, g, n, failure, fresh).state is Active,
    ensures
        ({
            let h = after_recovery(config, g, n, failure, fresh);
            &&& h.len() == g.len() + 1
            &&& h.last().id == fresh
            &&& stands_for(h.last(), n)
            &&& forall|i: int|
                0 <= i < g.len() && (#[trigger] g[i]).id == n.id ==> h[i].status is Failed
            &&& forall|i: int|
                0 <= i < h.len() && (#[trigger] h[i]).status is Pending
                    ==> !h[i].dependencies.contains(n.id)
            &&& forall|i: int|
                0 <= i < g.len() && g[i].id != n.id && (#[trigger] g[i]).status is Pending
                    && g[i].dependencies.contains(n.id) ==> h[i].dependencies.contains(fresh)
        }),
{
    match failure.recovery {
        RecoveryView::Retry { message } => {
            let feedback = recovery::retry_feedback(n.kind, failure.kind, message);
            lemma_replaced(g, n, recovery::retry_node(n, fresh, feedback));
        },
        RecoveryView::Split { message } => {
            lemma_replaced(g, n, recovery::split_node(n, fresh, message));
        },
        RecoveryView::ElevateModel { .. } => {
            let feedback = recovery::retry_feedback(n.kind, failure.kind, Seq::empty());
            lemma_replaced(g, n, recovery::elevated_node(n, fresh));
            lemma_replaced(g, n, recovery::retry_node(n, fresh, feedback));
        },
        RecoveryView::Terminal { .. } => {},
    }
}

/// A retry is the same work at the same tier and depth. It is granted exactly
/// while attempts and room are left.
pub proof fn law_retry_keeps_work_and_tier(
    config: ConfigView,
    g: Seq<NodeView>,
    n: NodeView,
    failure: FailureView,
    fresh: Text,
)
    requires
        fresh != n.id,
        failure.recovery is Retry,
    ensures
        recovery::recovery_step(config, g, n, failure, fresh).state is Active <==> n.attempt
            < MAX_ATTEMPTS && g.len() < MAX_GRAPH_NODES,
        recovery::recovery_step(config, g, n, failure, fresh).state is Active ==> {
            let r = replacement(config, g, n, failure, fresh);
            r.kind == n.kind && r.model_tier == n.model_tier && r.plan_depth == n.plan_depth
                && r.validation_plan == n.validation_plan && r.origin is Retry
        },
{
    if let RecoveryView::Retry { message } = failure.recovery {
        let feedback = recovery::retry_feedback(n.kind, failure.kind, message);
        lemma_replaced(g, n, recovery::retry_node(n, fresh, feedback));
    }
}

/// An elevation is the same work at the strong tier. Where there is no tier
/// above the node's, it is a retry at the tier that is there.
pub proof fn law_elevation_keeps_work(
    config: ConfigView,
    g: Seq<NodeView>,
    n: NodeView,
    failure: FailureView,
    fresh: Text,
)
    requires
        fresh != n.id,
        failure.recovery is ElevateModel,
    ensures
        recovery::recovery_step(config, g, n, failure, fresh).state is Active <==> n.attempt
            < MAX_ATTEMPTS && g.len() < MAX_GRAPH_NODES,
        recovery::recovery_step(config, g, n, failure, fresh).state is Active ==> {
            let r = replacement(config, g, n, failure, fresh);
            &&& r.kind == n.kind
            &&& r.plan_depth == n.plan_depth
            &&& if config.has_strong_tier && n.model_tier is Cheap {
                r.model_tier is Strong && r.origin is ElevateModel
            } else {
                r.model_tier == n.model_tier && r.origin is Retry
            }
        },
{
    let feedback = recovery::retry_feedback(n.kind, failure.kind, Seq::empty());
    lemma_replaced(g, n, recovery::elevated_node(n, fresh));
    lemma_replaced(g, n, recovery::retry_node(n, fresh, feedback));
}

/// A split plans the same objective at the strong tier, one level deeper. It
/// is granted exactly while attempts, room and depth are left.
pub proof fn law_split_plans_the_objective(
    config: ConfigView,
    g: Seq<NodeView>,
    n: NodeView,
    failure: FailureView,
    fresh: Text,
)
    requires
        fresh != n.id,
        failure.recovery is Split,
    ensures
        recovery::recovery_step(config, g, n, failure, fresh).state is Active <==> n.attempt
            < MAX_ATTEMPTS && g.len() < MAX_GRAPH_NODES && n.plan_depth < MAX_PLAN_DEPTH,
        recovery::recovery_step(config, g, n, failure, fresh).state is Active ==> {
            let r = replacement(config, g, n, failure, fresh);
            r.kind is Plan && r.model_tier is Strong && r.plan_depth == n.plan_depth + 1
                && r.origin is Split
        },
{
    if let RecoveryView::Split { message } = failure.recovery {
        lemma_replaced(g, n, recovery::split_node(n, fresh, message));
    }
}

/// A terminal failure halts the run: the node is failed, every pending node
/// that waits for it, directly or through other pending nodes, is cancelled,
/// and nothing else is touched.
pub proof fn law_terminal_failure_halts_the_run(
    config: ConfigView,
    g: Seq<NodeView>,
    n: NodeView,
    failure: FailureView,
    fresh: Text,
    i: int,
)
    requires
        soundness::unique_ids(g),
        0 <= i < g.len(),
        failure.recovery is Terminal,
    ensures
        recovery::recovery_step(config, g, n, failure, fresh).state matches StateView::Failed {
            reason,
            ..
        } && reason == (ReasonView::TerminalRecovery {
            terminal_message: failure.recovery->Terminal_message,
            failure_message: failure.message,
        }),
        after_recovery(config, g, n, failure, fresh)[i] == if g[i].id == n.id {
            NodeView { status: NodeStatus::Failed, ..g[i] }
        } else if closure::is_dependent(
            mutations::mark(g, n.id, NodeStatus::Failed),
            true,
            n.id,
            g[i].id,
        ) {
            NodeView { status: NodeStatus::Cancelled, ..g[i] }
        } else {
            g[i]
        },
{
    let marked = mutations::mark(g, n.id, NodeStatus::Failed);
    let h = closure::cancel_dependents(marked, n.id);
    assert(marked[i] == mutations::marked_node(g[i], n.id, NodeStatus::Failed));
    assert(h[i] == closure::cancelled_node(marked, n.id, marked[i]));
}

/// A node whose attempts are used up is not replaced: whatever recovery is
/// asked for, the run fails with the nodes it has.
pub proof fn law_attempts_are_limited(
    config: ConfigView,
    g: Seq<NodeView>,
    n: NodeView,
    failure: FailureView,
    fresh: Text,
)
    requires
        n.attempt >= MAX_ATTEMPTS,
    ensures
        recovery::recovery_step(config, g, n, failure, fresh).state is Failed,
        after_recovery(config, g, n, failure, fresh).len() == g.len(),
{
}

} // verus!
