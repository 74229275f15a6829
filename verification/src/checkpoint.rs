//! When to write the state of a run to disk.

use vstd::prelude::*;

use crate::queries;
use crate::state;
use crate::state::{SchedulerState, StateView};
use crate::telemetry;
use crate::telemetry::{TelemetryEvent, TelemetryEventView, TelemetryRecord};
use crate::text::Text;

verus! {

/// Where checkpoints go, if anywhere.
pub struct CheckpointService {
    /// The directory.
    pub dir: Option<String>,
}

/// A checkpoint that is to be written.
pub struct CheckpointDue {
    /// The directory to write to.
    pub dir: String,
    /// How many nodes there are.
    pub node_count: usize,
    /// How many of them are completed.
    pub completed_count: usize,
}

/// The mathematical value of a [`CheckpointDue`].
pub struct DueView {
    pub dir: Text,
    pub node_count: nat,
    pub completed_count: nat,
}

impl View for CheckpointDue {
    type V = DueView;

    open spec fn view(&self) -> DueView {
        DueView {
            dir: self.dir@,
            node_count: self.node_count as nat,
            completed_count: self.completed_count as nat,
        }
    }
}

/// The value of an optional checkpoint.
pub open spec fn opt_due(due: Option<CheckpointDue>) -> Option<DueView> {
    match due {
        Some(d) => Some(d@),
        None => None,
    }
}

/// The checkpoint that is due in a state: one, if checkpoints go somewhere
/// and the run goes on.
pub open spec fn due(dir: Option<Text>, state: StateView) -> Option<DueView> {
    match dir {
        Some(d) => if state::is_final(state) {
            None
        } else {
            Some(
                DueView {
                    dir: d,
                    node_count: state::graph_of(state).len(),
                    completed_count: queries::completed_count(state::graph_of(state)),
                },
            )
        },
        None => None,
    }
}

impl CheckpointService {
    /// No checkpoints.
    pub fn disabled() -> (service: CheckpointService)
        ensures
            service.dir is None,
    {
        CheckpointService { dir: None }
    }

    /// Checkpoints in a directory.
    pub fn with_dir(self, dir: String) -> (service: CheckpointService)
        ensures
            service.dir == Some(dir),
    {
        CheckpointService { dir: Some(dir) }
    }

    /// The checkpoint that is due in a state.
    pub fn checkpoint_due(&self, state: &SchedulerState) -> (out: Option<CheckpointDue>)
        ensures
            opt_due(out) == due(crate::text::opt_text(self.dir), state@),
    {
        match &self.dir {
            None => None,
            Some(dir) => match state {
                SchedulerState::Active { graph, .. } | SchedulerState::Waiting { graph, .. } => {
                    let (node_count, completed_count) = graph.node_counts();
                    Some(CheckpointDue { dir: dir.clone(), node_count, completed_count })
                },
                _ => None,
            },
        }
    }
}

/// The record of a checkpoint that was written.
pub fn saved_record(due: &CheckpointDue) -> (record: TelemetryRecord)
    ensures
        record@ == telemetry::unstamped(
            "Checkpoint"@,
            TelemetryEventView::CheckpointSaved {
                node_count: due.node_count,
                completed_count: due.completed_count,
            },
        ),
{
    TelemetryRecord::new(
        "Checkpoint",
        TelemetryEvent::CheckpointSaved {
            node_count: due.node_count,
            completed_count: due.completed_count,
        },
    )
}

} // verus!
