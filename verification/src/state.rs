//! Scheduler machine states.

use vstd::prelude::*;

use crate::effect;
use crate::effect::{EffectView, SchedulerEffect};
use crate::failure::{FailureReason, ReasonView};
use crate::graph::{NodeView, RunGraph};
use crate::queries;
use crate::teams;
use crate::teams::{ConfigView, RunConfig};

verus! {

/// The durable checkpoints of the scheduler state machine.
#[derive(Clone, Debug, PartialEq)]
pub enum SchedulerState {
    /// Ready to scan the graph and dispatch.
    Active {
        /// The run graph.
        graph: RunGraph,
        /// Run-scoped policy.
        run_config: RunConfig,
    },
    /// Waiting for a dispatched node or an integration.
    Waiting {
        /// The run graph, with the dispatched nodes `Running` or `Integrating`.
        graph: RunGraph,
        /// Run-scoped policy.
        run_config: RunConfig,
    },
    /// Every node has reached a terminal status and nothing halted the run.
    Complete {
        /// The final graph.
        graph: RunGraph,
    },
    /// The run was halted and cannot continue.
    Failed {
        /// The graph at the point of failure.
        graph: RunGraph,
        /// The cause.
        reason: FailureReason,
    },
}

/// The mathematical value of a [`SchedulerState`].
pub enum StateView {
    Active { graph: Seq<NodeView>, run_config: ConfigView },
    Waiting { graph: Seq<NodeView>, run_config: ConfigView },
    Complete { graph: Seq<NodeView> },
    Failed { graph: Seq<NodeView>, reason: ReasonView },
}

impl View for SchedulerState {
    type V = StateView;

    open spec fn view(&self) -> StateView {
        match self {
            SchedulerState::Active { graph, run_config } => StateView::Active {
                graph: graph@,
                run_config: run_config@,
            },
            SchedulerState::Waiting { graph, run_config } => StateView::Waiting {
                graph: graph@,
                run_config: run_config@,
            },
            SchedulerState::Complete { graph } => StateView::Complete { graph: graph@ },
            SchedulerState::Failed { graph, reason } => StateView::Failed {
                graph: graph@,
                reason: reason@,
            },
        }
    }
}

/// The graph that a state carries.
pub open spec fn graph_of(state: StateView) -> Seq<NodeView> {
    match state {
        StateView::Active { graph, .. } => graph,
        StateView::Waiting { graph, .. } => graph,
        StateView::Complete { graph } => graph,
        StateView::Failed { graph, .. } => graph,
    }
}

/// `Complete` or `Failed`.
pub open spec fn is_final(state: StateView) -> bool {
    state is Complete || state is Failed
}

/// The state to resume with once an outcome has been resolved: ready to scan
/// again while a dispatch slot is free, waiting otherwise.
pub open spec fn resumed(g: Seq<NodeView>, config: ConfigView) -> StateView {
    if queries::active(g).len() < teams::slots(config) {
        StateView::Active { graph: g, run_config: config }
    } else {
        StateView::Waiting { graph: g, run_config: config }
    }
}

impl SchedulerState {
    /// The state to resume with once an outcome has been resolved.
    pub fn resuming(graph: RunGraph, run_config: RunConfig) -> (state: SchedulerState)
        ensures
            state@ == resumed(graph@, run_config@),
    {
        if graph.active_nodes().len() < run_config.slots() {
            SchedulerState::Active { graph, run_config }
        } else {
            SchedulerState::Waiting { graph, run_config }
        }
    }
}

/// The outcome of one step: the next state and what to do.
#[derive(Clone, Debug, PartialEq)]
pub struct Transition<S, E> {
    /// The next state.
    pub state: S,
    /// The effects to dispatch.
    pub effects: Vec<E>,
}

/// The mathematical value of a scheduler step.
pub struct StepView {
    pub state: StateView,
    pub effects: Seq<EffectView>,
}

/// The value of a scheduler transition.
pub open spec fn step_view(t: Transition<SchedulerState, SchedulerEffect>) -> StepView {
    StepView { state: t.state@, effects: effect::effect_views(t.effects@) }
}

/// A step into a failed state, with nothing to do.
pub open spec fn failed(g: Seq<NodeView>, reason: ReasonView) -> StepView {
    StepView { state: StateView::Failed { graph: g, reason }, effects: Seq::empty() }
}

/// A step into a state, with nothing to do.
pub open spec fn quiet(state: StateView) -> StepView {
    StepView { state, effects: Seq::empty() }
}

/// A transition into a failed state, with nothing to do.
pub fn failed_transition(graph: RunGraph, reason: FailureReason) -> (t: Transition<
    SchedulerState,
    SchedulerEffect,
>)
    ensures
        step_view(t) == failed(graph@, reason@),
{
    quiet_transition(SchedulerState::Failed { graph, reason })
}

/// A transition into a state, with nothing to do.
pub fn quiet_transition(state: SchedulerState) -> (t: Transition<SchedulerState, SchedulerEffect>)
    ensures
        step_view(t) == quiet(state@),
{
    let t = Transition { state, effects: vec![] };
    assert(step_view(t).effects =~= Seq::<EffectView>::empty());
    t
}

} // verus!
