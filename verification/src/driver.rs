//! Driving a run: which effect to perform next, when to tick and when to wait
//! for a result.
//!
//! Run-node effects may be performed side by side; integrations are performed
//! one at a time, before anything else happens.

use vstd::prelude::*;

use crate::checkpoint;
use crate::checkpoint::CheckpointDue;
use crate::effect;
use crate::effect::{EffectView, SchedulerEffect};
use crate::event::{EventView, SchedulerEvent};
use crate::failure::FailureKind;
use crate::graph;
use crate::graph::NodeId;
use crate::handler::SchedulerHandler;
use crate::machine;
use crate::machine::{SchedulerMachine, SchedulerTerminalOutput};
use crate::node_ids;
use crate::node_runner::NodeRunner;
use crate::progress;
use crate::state;
use crate::state::{SchedulerState, StateView, Transition};
use crate::text;
use crate::text::Text;
use crate::types::{FailureView, NodeFailure, RecoveryAction, RecoveryView};

verus! {

/// A run in progress: its state and the effects that are still to be
/// performed.
pub struct Driver {
    /// The state of the scheduler.
    pub state: SchedulerState,
    /// The effects, in order.
    pub pending_effects: Vec<SchedulerEffect>,
}

/// The mathematical value of a [`Driver`].
pub struct DriverView {
    pub state: StateView,
    pub pending: Seq<EffectView>,
}

impl View for Driver {
    type V = DriverView;

    open spec fn view(&self) -> DriverView {
        DriverView {
            state: self.state@,
            pending: effect::effect_views(self.pending_effects@),
        }
    }
}

/// A run after an event. The effects of a step that ends it are not taken up.
pub open spec fn delivered(driver: DriverView, event: EventView, ids: Seq<Text>) -> DriverView {
    let step = machine::next_step(driver.state, event, ids);
    DriverView {
        state: step.state,
        pending: if state::is_final(step.state) {
            driver.pending
        } else {
            driver.pending + step.effects
        },
    }
}

/// What to do next.
pub enum DriverAction {
    /// The run is over.
    Finish(SchedulerTerminalOutput),
    /// Perform an effect; that of running a node need not be waited for.
    Perform(SchedulerEffect),
    /// A slot is free: deliver `Start`.
    Tick,
    /// Wait for the result of a node.
    Await,
}

/// What to do next, and the run with that taken out of it: the run is over;
/// or the first pending effect; or, with none pending, a tick while active
/// and a result while waiting.
pub open spec fn is_next(before: DriverView, action: DriverAction, after: DriverView) -> bool {
    if state::is_final(before.state) {
        &&& after == before
        &&& action matches DriverAction::Finish(output) && machine::is_output_of(
            output,
            before.state,
        )
    } else if before.pending.len() > 0 {
        &&& after == (DriverView { pending: before.pending.drop_first(), ..before })
        &&& action matches DriverAction::Perform(effect) && effect@ == before.pending[0]
    } else {
        &&& after == before
        &&& if before.state is Active {
            action is Tick
        } else {
            action is Await
        }
    }
}

/// What a delivery comes to, besides the run itself.
pub struct Delivery {
    /// The run after the event.
    pub driver: Driver,
    /// The lines that announce the event.
    pub progress: Vec<String>,
    /// The checkpoint that is due after it.
    pub checkpoint: Option<CheckpointDue>,
}

impl Driver {
    /// A run that starts in a state.
    pub fn new(state: SchedulerState) -> (driver: Driver)
        ensures
            driver@ == (DriverView { state: state@, pending: Seq::empty() }),
    {
        let driver = Driver { state, pending_effects: vec![] };
        assert(driver@.pending =~= Seq::<EffectView>::empty());
        driver
    }

    fn after(
        pending: Vec<SchedulerEffect>,
        transition: Transition<SchedulerState, SchedulerEffect>,
    ) -> (driver: Driver)
        ensures
            driver@ == (DriverView {
                state: transition.state@,
                pending: if state::is_final(transition.state@) {
                    effect::effect_views(pending@)
                } else {
                    effect::effect_views(pending@) + state::step_view(transition).effects
                },
            }),
    {
        let mut pending_effects = pending;
        let ghost before = effect::effect_views(pending_effects@);
        let mut effects = transition.effects;
        let ghost more = effect::effect_views(effects@);
        match &transition.state {
            SchedulerState::Complete { .. } => {},
            SchedulerState::Failed { .. } => {},
            _ => {
                pending_effects.append(&mut effects);
                assert(effect::effect_views(pending_effects@) =~= before + more);
            },
        }
        Driver { state: transition.state, pending_effects }
    }

    /// Delivers an event, with `ids` for the nodes it creates.
    pub fn deliver_with_ids(self, event: SchedulerEvent, ids: Vec<NodeId>) -> (driver: Driver)
        requires
            ids@.len() >= machine::ids_needed(self@.state, event@),
        ensures
            driver@ == delivered(self@, event@, graph::id_texts(ids@)),
    {
        let transition = SchedulerMachine.transition_with_ids(self.state, event, ids);
        Driver::after(self.pending_effects, transition)
    }

    /// Delivers an event through a handler. The ids of new nodes are minted.
    pub fn deliver<R: NodeRunner>(self, handler: &SchedulerHandler<R>, event: SchedulerEvent) -> (
    delivery: Delivery)
        ensures
            text::texts(delivery.progress@) == progress::lines_for(event@),
            exists|ids: Seq<Text>|
                ids.len() == machine::ids_needed(self@.state, event@) && (forall|i: int|
                    0 <= i < ids.len() ==> node_ids::is_v4_text(#[trigger] ids[i]))
                    && delivery.driver@ == #[trigger] delivered(self@, event@, ids),
            checkpoint::opt_due(delivery.checkpoint) == if event@ is Start {
                None
            } else {
                checkpoint::due(text::opt_text(handler.checkpoint.dir), delivery.driver@.state)
            },
    {
        let ghost before = self@;
        let step = handler.transition(self.state, event);
        let ghost ids = choose|ids: Seq<Text>|
            ids.len() == machine::ids_needed(before.state, event@) && (forall|i: int|
                0 <= i < ids.len() ==> node_ids::is_v4_text(#[trigger] ids[i])) && state::step_view(
                step.transition,
            ) == #[trigger] machine::next_step(before.state, event@, ids);
        let driver = Driver::after(self.pending_effects, step.transition);
        assert(driver@ == delivered(before, event@, ids));
        Delivery { driver, progress: step.progress, checkpoint: step.checkpoint }
    }

    /// Decides what to do next.
    pub fn next(self) -> (next: (DriverAction, Driver))
        ensures
            is_next(self@, next.0, next.1@),
    {
        if let Some(output) = SchedulerMachine.output(&self.state) {
            return (DriverAction::Finish(output), self);
        }
        let Driver { state, pending_effects } = self;
        let mut pending_effects = pending_effects;
        let ghost before = effect::effect_views(pending_effects@);
        assert(before.len() == pending_effects@.len());
        if pending_effects.len() > 0 {
            let effect = pending_effects.remove(0);
            assert(effect@ == before[0]);
            assert(effect::effect_views(pending_effects@) =~= before.drop_first());
            return (DriverAction::Perform(effect), Driver { state, pending_effects });
        }
        let action = match &state {
            SchedulerState::Active { .. } => DriverAction::Tick,
            _ => DriverAction::Await,
        };
        (action, Driver { state, pending_effects })
    }
}

// ── dispatches that panic ──────────────────────────────────────────────────

/// The event of a dispatch that panicked: a failure of the node that ends the
/// run in an orderly way.
pub open spec fn panic_event(node_id: Text, message: Text) -> EventView {
    let told = "node dispatch thread panicked: "@ + message;
    EventView::NodeFailed {
        node_id,
        failure: FailureView {
            kind: FailureKind::DispatchPanic,
            message: told,
            recovery: RecoveryView::Terminal { message: told },
        },
    }
}

/// Makes the event of a dispatch that panicked, given what it panicked with
/// where that is text.
pub fn dispatch_panicked(node_id: NodeId, message: Option<String>) -> (event: SchedulerEvent)
    ensures
        event@ == panic_event(
            node_id@,
            match message {
                Some(m) => m@,
                None => "non-string panic payload"@,
            },
        ),
{
    let mut told = "node dispatch thread panicked: ".to_string();
    match message {
        Some(message) => told.append(message.as_str()),
        None => told.append("non-string panic payload"),
    }
    SchedulerEvent::NodeFailed {
        node_id,
        failure: NodeFailure {
            kind: FailureKind::DispatchPanic,
            message: told.clone(),
            recovery: RecoveryAction::Terminal { message: told },
        },
    }
}

} // verus!
