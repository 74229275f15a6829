//! What a run records about itself.

use vstd::prelude::*;

use crate::effect;
use crate::effect::{effect_node_context, SchedulerEffect};
use crate::text;
use crate::text::Text;

verus! {

/// The name under which the scheduler records.
pub open spec fn machine_name() -> Text {
    "SchedulerMachine"@
}

/// Something that happened during a run.
#[derive(Debug, PartialEq)]
pub enum TelemetryEvent {
    /// A machine was set going.
    MachineStarted {
        /// Its name.
        machine: String,
    },
    /// A machine is in a state.
    StateEntered {
        /// Its name.
        machine: String,
        /// The state, rendered.
        state: String,
    },
    /// A machine is given an event.
    EventReceived {
        /// Its name.
        machine: String,
        /// The event, rendered.
        event: String,
    },
    /// A machine asks for an effect.
    EffectEmitted {
        /// Its name.
        machine: String,
        /// The effect, rendered.
        effect: String,
    },
    /// The validation of an attempt starts.
    ValidationStarted,
    /// The validation of an attempt passed.
    ValidationPassed {
        /// A short account of it.
        summary: String,
    },
    /// The validation of an attempt failed.
    ValidationFailed {
        /// A short account of it.
        summary: String,
        /// The command that failed.
        command: Option<String>,
        /// Its exit code.
        exit_code: Option<i32>,
        /// What it printed.
        stdout: Option<String>,
        /// What it printed as errors.
        stderr: Option<String>,
    },
    /// The changes of an attempt are dropped.
    WorkAttemptDiscarded {
        /// The node and attempt, as one id.
        attempt_id: String,
        /// The node.
        node_id: String,
        /// The attempt number.
        attempt: u32,
        /// The commit that the attempt was based on.
        base_commit: String,
        /// The files it had changed.
        changed_files: Vec<String>,
        /// The changes.
        git_diff: String,
        /// Why they are dropped.
        reason: String,
    },
    /// The state was written to disk.
    CheckpointSaved {
        /// How many nodes there are.
        node_count: usize,
        /// How many of them are completed.
        completed_count: usize,
    },
}

/// The mathematical value of a [`TelemetryEvent`].
pub enum TelemetryEventView {
    MachineStarted { machine: Text },
    StateEntered { machine: Text, state: Text },
    EventReceived { machine: Text, event: Text },
    EffectEmitted { machine: Text, effect: Text },
    ValidationStarted,
    ValidationPassed { summary: Text },
    ValidationFailed {
        summary: Text,
        command: Option<Text>,
        exit_code: Option<i32>,
        stdout: Option<Text>,
        stderr: Option<Text>,
    },
    WorkAttemptDiscarded {
        attempt_id: Text,
        node_id: Text,
        attempt: u32,
        base_commit: Text,
        changed_files: Seq<Text>,
        git_diff: Text,
        reason: Text,
    },
    CheckpointSaved { node_count: usize, completed_count: usize },
}

impl View for TelemetryEvent {
    type V = TelemetryEventView;

    open spec fn view(&self) -> TelemetryEventView {
        match self {
            TelemetryEvent::MachineStarted { machine } => TelemetryEventView::MachineStarted {
                machine: machine@,
            },
            TelemetryEvent::StateEntered { machine, state } => TelemetryEventView::StateEntered {
                machine: machine@,
                state: state@,
            },
            TelemetryEvent::EventReceived { machine, event } => TelemetryEventView::EventReceived {
                machine: machine@,
                event: event@,
            },
            TelemetryEvent::EffectEmitted { machine, effect } => TelemetryEventView::EffectEmitted {
                machine: machine@,
                effect: effect@,
            },
            TelemetryEvent::ValidationStarted => TelemetryEventView::ValidationStarted,
            TelemetryEvent::ValidationPassed { summary } => TelemetryEventView::ValidationPassed {
                summary: summary@,
            },
            TelemetryEvent::ValidationFailed { summary, command, exit_code, stdout, stderr } =>
                TelemetryEventView::ValidationFailed {
                summary: summary@,
                command: text::opt_text(*command),
                exit_code: *exit_code,
                stdout: text::opt_text(*stdout),
                stderr: text::opt_text(*stderr),
            },
            TelemetryEvent::WorkAttemptDiscarded {
                attempt_id,
                node_id,
                attempt,
                base_commit,
                changed_files,
                git_diff,
                reason,
            } => TelemetryEventView::WorkAttemptDiscarded {
                attempt_id: attempt_id@,
                node_id: node_id@,
                attempt: *attempt,
                base_commit: base_commit@,
                changed_files: text::texts(changed_files@),
                git_diff: git_diff@,
                reason: reason@,
            },
            TelemetryEvent::CheckpointSaved { node_count, completed_count } =>
                TelemetryEventView::CheckpointSaved {
                node_count: *node_count,
                completed_count: *completed_count,
            },
        }
    }
}

/// An event with where it comes from.
#[derive(Debug, PartialEq)]
pub struct TelemetryRecord {
    /// Who records.
    pub source: String,
    /// The node it is about, where it is about one.
    pub node_id: Option<String>,
    /// The attempt it is about, where it is about one.
    pub attempt: Option<u32>,
    /// What happened.
    pub event: TelemetryEvent,
}

/// The mathematical value of a [`TelemetryRecord`].
pub struct RecordView {
    pub source: Text,
    pub node_id: Option<Text>,
    pub attempt: Option<u32>,
    pub event: TelemetryEventView,
}

impl View for TelemetryRecord {
    type V = RecordView;

    open spec fn view(&self) -> RecordView {
        RecordView {
            source: self.source@,
            node_id: text::opt_text(self.node_id),
            attempt: self.attempt,
            event: self.event@,
        }
    }
}

/// A record that is about no single node.
pub open spec fn unstamped(source: Text, event: TelemetryEventView) -> RecordView {
    RecordView { source, node_id: None, attempt: None, event }
}

impl TelemetryRecord {
    /// A record that is about no single node.
    pub fn new(source: &str, event: TelemetryEvent) -> (record: TelemetryRecord)
        ensures
            record@ == unstamped(source@, event@),
    {
        TelemetryRecord { source: source.to_string(), node_id: None, attempt: None, event }
    }
}

/// Takes records.
pub trait TelemetrySink {
    /// Takes one record.
    fn record(&self, record: TelemetryRecord);
}

/// Drops every record.
pub struct NoopTelemetry;

impl TelemetrySink for NoopTelemetry {
    fn record(&self, record: TelemetryRecord) {
        let _ = record;
    }
}

// ── the records of a run ───────────────────────────────────────────────────

/// The record that starts a run.
pub fn started_record() -> (record: TelemetryRecord)
    ensures
        record@ == unstamped(
            machine_name(),
            TelemetryEventView::MachineStarted { machine: machine_name() },
        ),
{
    TelemetryRecord::new(
        "SchedulerMachine",
        TelemetryEvent::MachineStarted { machine: "SchedulerMachine".to_string() },
    )
}

/// The record of a state, given the state rendered. The state is that of the
/// whole run, so the record names no node.
pub fn state_record(rendered: String) -> (record: TelemetryRecord)
    ensures
        record@ == unstamped(
            machine_name(),
            TelemetryEventView::StateEntered { machine: machine_name(), state: rendered@ },
        ),
{
    TelemetryRecord::new(
        "SchedulerMachine",
        TelemetryEvent::StateEntered { machine: "SchedulerMachine".to_string(), state: rendered },
    )
}

/// The record of an event, given the event rendered. It names no node.
pub fn event_record(rendered: String) -> (record: TelemetryRecord)
    ensures
        record@ == unstamped(
            machine_name(),
            TelemetryEventView::EventReceived { machine: machine_name(), event: rendered@ },
        ),
{
    TelemetryRecord::new(
        "SchedulerMachine",
        TelemetryEvent::EventReceived { machine: "SchedulerMachine".to_string(), event: rendered },
    )
}

/// The record of an effect: stamped with the node and attempt, where the
/// effect carries both.
pub open spec fn emitted(effect: effect::EffectView, rendered: Text) -> RecordView {
    let event = TelemetryEventView::EffectEmitted { machine: machine_name(), effect: rendered };
    match effect::node_context(effect) {
        Some((node_id, attempt)) => RecordView {
            source: machine_name(),
            node_id: Some(node_id),
            attempt: Some(attempt),
            event,
        },
        None => unstamped(machine_name(), event),
    }
}

/// The record of an effect, given the effect rendered.
pub fn effect_record(effect: &SchedulerEffect, rendered: String) -> (record: TelemetryRecord)
    ensures
        record@ == emitted(effect@, rendered@),
{
    let mut record = TelemetryRecord::new(
        "SchedulerMachine",
        TelemetryEvent::EffectEmitted {
            machine: "SchedulerMachine".to_string(),
            effect: rendered,
        },
    );
    if let Some((node_id, attempt)) = effect_node_context(effect) {
        record.node_id = Some(node_id);
        record.attempt = Some(attempt);
    }
    record
}

} // verus!
