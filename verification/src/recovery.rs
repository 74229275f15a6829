//! Recovery: what becomes of the graph when a node fails.
//!
//! The failed node is kept as a record. `Retry`, `ElevateModel` and `Split`
//! append a replacement that pending dependents then wait for; `Terminal`
//! halts the run and cancels what depended on the node.

use vstd::prelude::*;

use crate::closure;
use crate::effect::SchedulerEffect;
use crate::failure::{ExhaustedAction, FailureKind, FailureReason, ReasonView};
use crate::graph;
use crate::graph::{
    ModelTier, Node, NodeId, NodeKind, NodeOrigin, NodeStatus, NodeView, OriginView, RetryFeedback,
    RunGraph,
};
use crate::mutations;
use crate::mutations::validate_split_depth;
use crate::queries;
use crate::queries::{MAX_ATTEMPTS, MAX_GRAPH_NODES, MAX_PLAN_DEPTH};
use crate::state;
use crate::state::{
    failed_transition, quiet_transition, SchedulerState, StateView, StepView, Transition,
};
use crate::teams::{ConfigView, RunConfig};
use crate::text;
use crate::text::{chars_of, join_texts, lines_of, trim_text, Text};
use crate::types::{FailureView, RecoveryAction, RecoveryView};

verus! {

/// Lines of diagnostics that a retry is told.
pub const DIAGNOSTIC_LINES: usize = 12;

/// Characters of diagnostics that a retry is told.
pub const DIAGNOSTIC_CHARS: usize = 1200;

// ── what recovery means ────────────────────────────────────────────────────

/// The attempt budget is used up.
pub open spec fn is_exhausted(n: NodeView) -> bool {
    n.attempt >= MAX_ATTEMPTS
}

/// The first `k` items, or all.
pub open spec fn first_items(list: Seq<Text>, k: nat) -> Seq<Text> {
    if list.len() <= k {
        list
    } else {
        list.take(k as int)
    }
}

/// The diagnostics in short: trimmed, the first lines of it, the first
/// characters of those, and a note if anything was left out.
pub open spec fn concise(message: Text) -> Text {
    let all = text::lines(text::trim(message));
    let shown = text::join(first_items(all, DIAGNOSTIC_LINES as nat), "\n"@);
    if shown.len() > DIAGNOSTIC_CHARS {
        shown.take(DIAGNOSTIC_CHARS as int) + "\n[diagnostics truncated]"@
    } else if all.len() > DIAGNOSTIC_LINES {
        shown + "\n[diagnostics truncated]"@
    } else {
        shown
    }
}

/// What a retry is told: the diagnostics, for work that failed validation.
pub open spec fn retry_feedback(kind: NodeKind, failure: FailureKind, message: Text) -> Option<
    Text,
> {
    if kind is Work && (failure is ValidationFailure || failure is WorkSemanticValidationFailure) {
        Some(concise(message))
    } else {
        None
    }
}

/// One more try of `n`: the same work at the same tier.
pub open spec fn retry_node(n: NodeView, fresh: Text, feedback: Option<Text>) -> NodeView {
    NodeView {
        id: fresh,
        status: NodeStatus::Pending,
        attempt: (n.attempt + 1) as u32,
        summary: None,
        origin: OriginView::Retry { source: n.id },
        retry_feedback: feedback,
        ..n
    }
}

/// One more try of `n`: the same work at the strong tier.
pub open spec fn elevated_node(n: NodeView, fresh: Text) -> NodeView {
    NodeView {
        id: fresh,
        status: NodeStatus::Pending,
        attempt: (n.attempt + 1) as u32,
        model_tier: ModelTier::Strong,
        summary: None,
        origin: OriginView::ElevateModel { source: n.id },
        retry_feedback: None,
        ..n
    }
}

/// A planning of `n`'s objective at the strong tier, told why.
pub open spec fn split_node(n: NodeView, fresh: Text, message: Text) -> NodeView {
    NodeView {
        id: fresh,
        kind: NodeKind::Plan,
        worker_role: None,
        status: NodeStatus::Pending,
        attempt: (n.attempt + 1) as u32,
        plan_depth: mutations::child_depth(n.plan_depth, NodeKind::Plan),
        model_tier: ModelTier::Strong,
        summary: None,
        origin: OriginView::Split { source: n.id },
        validation_plan: None,
        retry_feedback: Some(message),
        ..n
    }
}

/// The graph with `n` failed and replaced: pending nodes that waited for it
/// wait for the replacement.
pub open spec fn replaced(g: Seq<NodeView>, n: NodeView, replacement: NodeView) -> Seq<NodeView> {
    mutations::remap(
        mutations::mark(g, n.id, NodeStatus::Failed).push(replacement),
        n.id,
        replacement.id,
    )
}

/// The run goes on with `n` replaced.
pub open spec fn recovered(
    config: ConfigView,
    g: Seq<NodeView>,
    n: NodeView,
    replacement: NodeView,
) -> StepView {
    state::quiet(
        StateView::Active { graph: replaced(g, n, replacement), run_config: config },
    )
}

/// The run ends with `n` failed.
pub open spec fn given_up(g: Seq<NodeView>, n: NodeView, reason: ReasonView) -> StepView {
    state::failed(mutations::mark(g, n.id, NodeStatus::Failed), reason)
}

/// Why `n` may not be replaced, other than a used-up budget: the graph is
/// full.
pub open spec fn is_full(g: Seq<NodeView>) -> bool {
    g.len() + 1 > MAX_GRAPH_NODES
}

/// The step that follows the failure of `n`. A replacement gets the id
/// `fresh`.
pub open spec fn recovery_step(
    config: ConfigView,
    g: Seq<NodeView>,
    n: NodeView,
    failure: FailureView,
    fresh: Text,
) -> StepView {
    let exhausted = |action: ExhaustedAction|
        given_up(
            g,
            n,
            ReasonView::AttemptsExhausted {
                node_id: n.id,
                max_attempts: MAX_ATTEMPTS,
                recovery_action: action,
            },
        );
    let full = given_up(g, n, ReasonView::GraphCapacityExceeded { limit: MAX_GRAPH_NODES });
    match failure.recovery {
        RecoveryView::Retry { message } => if is_exhausted(n) {
            exhausted(ExhaustedAction::Retry)
        } else if is_full(g) {
            full
        } else {
            recovered(
                config,
                g,
                n,
                retry_node(n, fresh, retry_feedback(n.kind, failure.kind, message)),
            )
        },
        RecoveryView::Split { message } => if is_exhausted(n) {
            exhausted(ExhaustedAction::Split)
        } else if is_full(g) {
            full
        } else if n.plan_depth >= MAX_PLAN_DEPTH {
            given_up(g, n, ReasonView::PlanDepthExceeded { limit: MAX_PLAN_DEPTH })
        } else {
            recovered(config, g, n, split_node(n, fresh, message))
        },
        RecoveryView::ElevateModel { .. } => if config.has_strong_tier && n.model_tier is Cheap {
            if is_exhausted(n) {
                exhausted(ExhaustedAction::ElevateModel)
            } else if is_full(g) {
                full
            } else {
                recovered(config, g, n, elevated_node(n, fresh))
            }
        } else {
            if is_exhausted(n) {
                given_up(
                    g,
                    n,
                    ReasonView::NoHigherModelTierAvailable {
                        node_id: n.id,
                        max_attempts: MAX_ATTEMPTS,
                    },
                )
            } else if is_full(g) {
                full
            } else {
                recovered(
                    config,
                    g,
                    n,
                    retry_node(n, fresh, retry_feedback(n.kind, failure.kind, Seq::empty())),
                )
            }
        },
        RecoveryView::Terminal { message } => state::failed(
            closure::cancel_dependents(mutations::mark(g, n.id, NodeStatus::Failed), n.id),
            ReasonView::TerminalRecovery {
                terminal_message: message,
                failure_message: failure.message,
            },
        ),
    }
}

// ── carrying it out ────────────────────────────────────────────────────────

/// Whether the node's attempt budget is used up.
pub fn attempts_exhausted(node: &Node) -> (exhausted: bool)
    ensures
        exhausted == is_exhausted(node@),
{
    node.attempt >= MAX_ATTEMPTS
}

/// The diagnostics in short.
pub fn concise_retry_diagnostics(message: &str) -> (out: String)
    ensures
        out@ == concise(message@),
{
    let trimmed = trim_text(message);
    let mut all = lines_of(trimmed);
    let ghost every = text::texts(all@);
    let more = all.len() > DIAGNOSTIC_LINES;
    if more {
        all.truncate(DIAGNOSTIC_LINES);
    }
    assert(text::texts(all@) =~= first_items(every, DIAGNOSTIC_LINES as nat));
    let mut out = join_texts(&all, "\n");
    let shown = chars_of(out.as_str()).len();
    if shown > DIAGNOSTIC_CHARS {
        let ghost full = out@;
        let mut cut = out.as_str().substring_char(0, DIAGNOSTIC_CHARS).to_string();
        assert(cut@ =~= full.take(DIAGNOSTIC_CHARS as int));
        cut.append("\n[diagnostics truncated]");
        return cut;
    }
    if more {
        out.append("\n[diagnostics truncated]");
    }
    out
}

/// What a retry is told.
pub fn build_retry_feedback(kind: NodeKind, failure: FailureKind, message: &str) -> (feedback:
    Option<RetryFeedback>)
    ensures
        graph::opt_feedback(feedback) == retry_feedback(kind, failure, message@),
{
    match (kind, failure) {
        (NodeKind::Work, FailureKind::ValidationFailure) => Some(
            RetryFeedback { diagnostics: concise_retry_diagnostics(message) },
        ),
        (NodeKind::Work, FailureKind::WorkSemanticValidationFailure) => Some(
            RetryFeedback { diagnostics: concise_retry_diagnostics(message) },
        ),
        _ => None,
    }
}

/// Applies a recovery action to a failed node.
pub struct RecoveryApplicator {
    run_config: RunConfig,
    graph: RunGraph,
    node_id: NodeId,
    failure_kind: FailureKind,
    failure_reason: String,
}

impl RecoveryApplicator {
    /// The policy in force.
    pub closed spec fn config(&self) -> ConfigView {
        self.run_config@
    }

    /// The graph with the failed node.
    pub closed spec fn nodes(&self) -> Seq<NodeView> {
        self.graph@
    }

    /// The failed node's id.
    pub closed spec fn id(&self) -> Text {
        self.node_id@
    }

    /// The failed node.
    pub open spec fn node(&self) -> NodeView {
        queries::lookup(self.nodes(), self.id())->0
    }

    /// The failure's kind.
    pub closed spec fn kind(&self) -> FailureKind {
        self.failure_kind
    }

    /// The failure's message.
    pub closed spec fn reason(&self) -> Text {
        self.failure_reason@
    }

    /// Prepares recovery of a node of the graph.
    pub fn new(
        run_config: RunConfig,
        graph: RunGraph,
        node_id: NodeId,
        failure_kind: FailureKind,
        failure_reason: String,
    ) -> (applicator: Self)
        ensures
            applicator.config() == run_config@,
            applicator.nodes() == graph@,
            applicator.id() == node_id@,
            applicator.kind() == failure_kind,
            applicator.reason() == failure_reason@,
    {
        RecoveryApplicator { run_config, graph, node_id, failure_kind, failure_reason }
    }

    /// Carries out the recovery action; a replacement gets the id `fresh`.
    pub fn route(self, recovery: RecoveryAction, fresh: NodeId) -> (t: Transition<
        SchedulerState,
        SchedulerEffect,
    >)
        requires
            queries::has_id(self.nodes(), self.id()),
        ensures
            state::step_view(t) == recovery_step(
                self.config(),
                self.nodes(),
                self.node(),
                (FailureView { kind: self.kind(), message: self.reason(), recovery: recovery@ }),
                fresh@,
            ),
    {
        proof {
            queries::lemma_lookup_some(self.graph@, self.node_id@);
        }
        let node = self.graph.get_node(&self.node_id);
        let exhausted = attempts_exhausted(node);
        let full = !self.graph.graph_has_capacity(1);
        match recovery {
            RecoveryAction::Retry { message } => {
                if exhausted {
                    self.exhausted(ExhaustedAction::Retry)
                } else if full {
                    self.full()
                } else {
                    self.apply_retry(message.as_str(), fresh)
                }
            },
            RecoveryAction::Split { message } => {
                let split_depth_ok = validate_split_depth(node.plan_depth).is_ok();
                if exhausted {
                    self.exhausted(ExhaustedAction::Split)
                } else if full {
                    self.full()
                } else if !split_depth_ok {
                    failed_transition(
                        self.mark_failed(),
                        FailureReason::PlanDepthExceeded { limit: MAX_PLAN_DEPTH },
                    )
                } else {
                    self.apply_split(message, fresh)
                }
            },
            RecoveryAction::ElevateModel { .. } => {
                let can_elevate = self.run_config.has_strong_tier && node.model_tier
                    == ModelTier::Cheap;
                if !can_elevate {
                    if exhausted {
                        let node_id = self.node_id.0.clone();
                        failed_transition(
                            self.mark_failed(),
                            FailureReason::NoHigherModelTierAvailable {
                                node_id,
                                max_attempts: MAX_ATTEMPTS,
                            },
                        )
                    } else if full {
                        self.full()
                    } else {
                        proof {
                            reveal_strlit("");
                            assert(""@ =~= Seq::<char>::empty());
                        }
                        self.apply_retry("", fresh)
                    }
                } else if exhausted {
                    self.exhausted(ExhaustedAction::ElevateModel)
                } else if full {
                    self.full()
                } else {
                    self.apply_elevate(fresh)
                }
            },
            RecoveryAction::Terminal { message } => {
                let graph = self.graph.mark_node(&self.node_id, NodeStatus::Failed);
                let graph = graph.cancel_pending_dependents(&self.node_id);
                failed_transition(
                    graph,
                    FailureReason::TerminalRecovery {
                        terminal_message: message,
                        failure_message: self.failure_reason,
                    },
                )
            },
        }
    }

    fn mark_failed(self) -> (graph: RunGraph)
        ensures
            graph@ == mutations::mark(self.nodes(), self.id(), NodeStatus::Failed),
    {
        self.graph.mark_node(&self.node_id, NodeStatus::Failed)
    }

    fn exhausted(self, recovery_action: ExhaustedAction) -> (t: Transition<
        SchedulerState,
        SchedulerEffect,
    >)
        ensures
            state::step_view(t) == state::failed(
                mutations::mark(self.nodes(), self.id(), NodeStatus::Failed),
                ReasonView::AttemptsExhausted {
                    node_id: self.id(),
                    max_attempts: MAX_ATTEMPTS,
                    recovery_action,
                },
            ),
    {
        let node_id = self.node_id.0.clone();
        failed_transition(
            self.mark_failed(),
            FailureReason::AttemptsExhausted {
                node_id,
                max_attempts: MAX_ATTEMPTS,
                recovery_action,
            },
        )
    }

    fn full(self) -> (t: Transition<SchedulerState, SchedulerEffect>)
        ensures
            state::step_view(t) == state::failed(
                mutations::mark(self.nodes(), self.id(), NodeStatus::Failed),
                ReasonView::GraphCapacityExceeded { limit: MAX_GRAPH_NODES },
            ),
    {
        failed_transition(
            self.mark_failed(),
            FailureReason::GraphCapacityExceeded { limit: MAX_GRAPH_NODES },
        )
    }

    fn apply_retry(self, message: &str, fresh: NodeId) -> (t: Transition<
        SchedulerState,
        SchedulerEffect,
    >)
        requires
            queries::has_id(self.nodes(), self.id()),
            !is_exhausted(self.node()),
        ensures
            state::step_view(t) == recovered(
                self.config(),
                self.nodes(),
                self.node(),
                retry_node(
                    self.node(),
                    fresh@,
                    retry_feedback(self.node().kind, self.kind(), message@),
                ),
            ),
    {
        proof {
            queries::lemma_lookup_some(self.graph@, self.node_id@);
        }
        let n = self.graph.get_node(&self.node_id);
        let mut replacement = n.clone();
        replacement.id = fresh.clone();
        replacement.status = NodeStatus::Pending;
        replacement.attempt = n.attempt + 1;
        replacement.summary = None;
        replacement.origin = NodeOrigin::Retry { source: self.node_id.clone() };
        replacement.retry_feedback = build_retry_feedback(n.kind, self.failure_kind, message);
        self.push_replacement(replacement, fresh)
    }

    fn apply_split(self, message: String, fresh: NodeId) -> (t: Transition<
        SchedulerState,
        SchedulerEffect,
    >)
        requires
            queries::has_id(self.nodes(), self.id()),
            !is_exhausted(self.node()),
        ensures
            state::step_view(t) == recovered(
                self.config(),
                self.nodes(),
                self.node(),
                split_node(self.node(), fresh@, message@),
            ),
    {
        proof {
            queries::lemma_lookup_some(self.graph@, self.node_id@);
        }
        let n = self.graph.get_node(&self.node_id);
        let mut replacement = n.clone();
        replacement.id = fresh.clone();
        replacement.kind = NodeKind::Plan;
        replacement.worker_role = None;
        replacement.status = NodeStatus::Pending;
        replacement.attempt = n.attempt + 1;
        replacement.plan_depth = mutations::plan_child_depth(n.plan_depth, NodeKind::Plan);
        replacement.model_tier = ModelTier::Strong;
        replacement.summary = None;
        replacement.origin = NodeOrigin::Split { source: self.node_id.clone() };
        replacement.validation_plan = None;
        replacement.retry_feedback = Some(RetryFeedback { diagnostics: message });
        self.push_replacement(replacement, fresh)
    }

    fn apply_elevate(self, fresh: NodeId) -> (t: Transition<SchedulerState, SchedulerEffect>)
        requires
            queries::has_id(self.nodes(), self.id()),
            !is_exhausted(self.node()),
        ensures
            state::step_view(t) == recovered(
                self.config(),
                self.nodes(),
                self.node(),
                elevated_node(self.node(), fresh@),
            ),
    {
        proof {
            queries::lemma_lookup_some(self.graph@, self.node_id@);
        }
        let n = self.graph.get_node(&self.node_id);
        let mut replacement = n.clone();
        replacement.id = fresh.clone();
        replacement.status = NodeStatus::Pending;
        replacement.attempt = n.attempt + 1;
        replacement.model_tier = ModelTier::Strong;
        replacement.summary = None;
        replacement.origin = NodeOrigin::ElevateModel { source: self.node_id.clone() };
        replacement.retry_feedback = None;
        self.push_replacement(replacement, fresh)
    }

    fn push_replacement(self, replacement: Node, replacement_id: NodeId) -> (t: Transition<
        SchedulerState,
        SchedulerEffect,
    >)
        requires
            queries::has_id(self.nodes(), self.id()),
            replacement@.id == replacement_id@,
        ensures
            state::step_view(t) == recovered(
                self.config(),
                self.nodes(),
                self.node(),
                replacement@,
            ),
    {
        proof {
            queries::lemma_lookup_some(self.graph@, self.node_id@);
        }
        let graph = self.graph.mark_node(&self.node_id, NodeStatus::Failed);
        let graph = graph.push_node(replacement);
        let graph = graph.remap_pending_dependencies(&self.node_id, &replacement_id);
        quiet_transition(SchedulerState::Active { graph, run_config: self.run_config })
    }
}

/// Carries out the recovery of a node of the graph; a replacement gets the id
/// `fresh`.
pub fn route_recovery(
    run_config: RunConfig,
    graph: RunGraph,
    node_id: &NodeId,
    failure_kind: FailureKind,
    failure_reason: String,
    recovery: RecoveryAction,
    fresh: NodeId,
) -> (t: Transition<SchedulerState, SchedulerEffect>)
    requires
        queries::has_id(graph@, node_id@),
    ensures
        state::step_view(t) == recovery_step(
            run_config@,
            graph@,
            queries::lookup(graph@, node_id@)->0,
            (FailureView { kind: failure_kind, message: failure_reason@, recovery: recovery@ }),
            fresh@,
        ),
{
    RecoveryApplicator::new(
        run_config,
        graph,
        node_id.clone(),
        failure_kind,
        failure_reason,
    ).route(recovery, fresh)
}

} // verus!
