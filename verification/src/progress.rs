//! Progress lines.

use vstd::prelude::*;

use crate::event::{EventView, SchedulerEvent};
use crate::graph::NodeId;
use crate::node_ids;
use crate::text;
use crate::text::Text;
use crate::types::{RecoveryAction, RecoveryView};

verus! {

/// The name of a recovery.
pub open spec fn recovery_name(recovery: RecoveryView) -> Text {
    match recovery {
        RecoveryView::Retry { .. } => "Retry"@,
        RecoveryView::Split { .. } => "Split"@,
        RecoveryView::ElevateModel { .. } => "ElevateModel"@,
        RecoveryView::Terminal { .. } => "Terminal"@,
    }
}

impl RecoveryAction {
    /// The name of the recovery.
    pub fn name(&self) -> (name: &'static str)
        ensures
            name@ == recovery_name(self@),
    {
        match self {
            RecoveryAction::Retry { .. } => "Retry",
            RecoveryAction::Split { .. } => "Split",
            RecoveryAction::ElevateModel { .. } => "ElevateModel",
            RecoveryAction::Terminal { .. } => "Terminal",
        }
    }
}

/// The lines that announce an event.
pub open spec fn lines_for(event: EventView) -> Seq<Text> {
    match event {
        EventView::Start => Seq::empty(),
        EventView::PlanAccepted { node_id, .. } => seq![
            "[scheduler] returned "@ + node_ids::short_text(node_id),
        ],
        EventView::WorkAccepted { node_id, .. } => seq![
            "[scheduler] returned "@ + node_ids::short_text(node_id),
        ],
        EventView::NodeFailed { node_id, failure } => seq![
            "[scheduler] failed "@ + node_ids::short_text(node_id),
            "[scheduler] recovery "@ + recovery_name(failure.recovery) + " "@
                + node_ids::short_text(node_id),
        ],
        EventView::IntegrationSucceeded { node_id, .. } => seq![
            "[integration] complete "@ + node_ids::short_text(node_id),
        ],
        EventView::IntegrationFailed { node_id, .. } => seq![
            "[integration] failed "@ + node_ids::short_text(node_id),
        ],
        EventView::PlannerTasksIntegrated { node_id, .. } => seq![
            "[integration] complete "@ + node_ids::short_text(node_id),
        ],
        EventView::PlannerTasksIntegrationFailed { node_id, .. } => seq![
            "[integration] failed "@ + node_ids::short_text(node_id),
        ],
    }
}

fn single_line(start: &str, node_id: &NodeId) -> (lines: Vec<String>)
    ensures
        text::texts(lines@) == seq![start@ + node_ids::short_text(node_id@)],
{
    let mut line = start.to_string();
    line.append(node_id.short());
    let lines = vec![line];
    assert(text::texts(lines@) =~= seq![line@]);
    lines
}

/// The lines that announce an event.
pub fn progress_lines(event: &SchedulerEvent) -> (lines: Vec<String>)
    ensures
        text::texts(lines@) == lines_for(event@),
{
    match event {
        SchedulerEvent::NodeFailed { node_id, failure } => {
            let mut lines = single_line("[scheduler] failed ", node_id);
            let mut line = "[scheduler] recovery ".to_string();
            line.append(failure.recovery.name());
            line.append(" ");
            line.append(node_id.short());
            let ghost before = text::texts(lines@);
            lines.push(line);
            assert(text::texts(lines@) =~= before.push(line@));
            assert(text::texts(lines@) =~= lines_for(event@));
            lines
        },
        SchedulerEvent::PlanAccepted { node_id, .. } => single_line(
            "[scheduler] returned ",
            node_id,
        ),
        SchedulerEvent::WorkAccepted { node_id, .. } => single_line(
            "[scheduler] returned ",
            node_id,
        ),
        SchedulerEvent::IntegrationFailed { node_id, .. } => single_line(
            "[integration] failed ",
            node_id,
        ),
        SchedulerEvent::IntegrationSucceeded { node_id, .. } => single_line(
            "[integration] complete ",
            node_id,
        ),
        SchedulerEvent::PlannerTasksIntegrationFailed { node_id, .. } => single_line(
            "[integration] failed ",
            node_id,
        ),
        SchedulerEvent::PlannerTasksIntegrated { node_id, .. } => single_line(
            "[integration] complete ",
            node_id,
        ),
        SchedulerEvent::Start => {
            let lines: Vec<String> = vec![];
            assert(text::texts(lines@) =~= Seq::<Text>::empty());
            lines
        },
    }
}

/// Whether an event carries the result of a node or an integration.
pub fn is_progress_event(event: &SchedulerEvent) -> (progress: bool)
    ensures
        progress == (event@ !is Start),
{
    match event {
        SchedulerEvent::Start => false,
        _ => true,
    }
}

} // verus!
