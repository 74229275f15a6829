//! Handing a node to a runner.

use vstd::prelude::*;

use crate::artifacts;
use crate::artifacts::{artifact_view, Artifact, ArtifactValue, WorkAttempt, WorkAttemptValue};
use crate::event::{EventView, SchedulerEvent};
use crate::graph;
use crate::graph::{ModelTier, NodeId, NodeKind, RetryFeedback, TestPlanContext, TestPlanContextView};
use crate::invariants;
use crate::node_ids;
use crate::node_runner::{NodeRunRequest, NodeRunResult, NodeRunner, RunRequestView, RunResultView};
use crate::telemetry::TelemetrySink;
use crate::text;
use crate::text::{join_texts, Text};

verus! {

/// What a run-node effect asks for.
pub struct RunNodeDispatch {
    /// The node.
    pub node_id: NodeId,
    /// The role of the worker.
    pub worker_role: Option<String>,
    /// Plan or work.
    pub kind: NodeKind,
    /// What to do.
    pub objective: String,
    /// The files the node is about.
    pub target_files: Vec<String>,
    /// Which tests the run expects, and which are planned.
    pub test_plan_context: TestPlanContext,
    /// The tier of the model to use.
    pub model_tier: ModelTier,
    /// The attempt number.
    pub attempt: u32,
    /// What earlier attempts ran into.
    pub retry_feedback: Option<RetryFeedback>,
    /// The team the node belongs to.
    pub team: String,
    /// The adapter of the team.
    pub adapter: String,
    /// The northstar of the team.
    pub northstar: String,
}

/// The mathematical value of a [`RunNodeDispatch`].
pub struct DispatchView {
    pub node_id: Text,
    pub worker_role: Option<Text>,
    pub kind: NodeKind,
    pub objective: Text,
    pub target_files: Seq<Text>,
    pub test_plan_context: TestPlanContextView,
    pub model_tier: ModelTier,
    pub attempt: u32,
    pub retry_feedback: Option<Text>,
    pub team: Text,
    pub adapter: Text,
    pub northstar: Text,
}

impl View for RunNodeDispatch {
    type V = DispatchView;

    open spec fn view(&self) -> DispatchView {
        DispatchView {
            node_id: self.node_id@,
            worker_role: text::opt_text(self.worker_role),
            kind: self.kind,
            objective: self.objective@,
            target_files: text::texts(self.target_files@),
            test_plan_context: self.test_plan_context@,
            model_tier: self.model_tier,
            attempt: self.attempt,
            retry_feedback: graph::opt_feedback(self.retry_feedback),
            team: self.team@,
            adapter: self.adapter@,
            northstar: self.northstar@,
        }
    }
}

// ── labels ─────────────────────────────────────────────────────────────────

/// The label of a node in progress lines.
pub open spec fn label(kind: NodeKind, id: Text, worker_role: Option<Text>) -> Text {
    match kind {
        NodeKind::Plan => "[planner "@ + node_ids::short_text(id) + "]"@,
        NodeKind::Work => match worker_role {
            Some(role) => "[worker "@ + node_ids::short_text(id) + "/"@ + role + "]"@,
            None => "[worker "@ + node_ids::short_text(id) + "]"@,
        },
    }
}

/// The label of a node in progress lines: what it is, its short id and, for
/// work nodes that have one, the worker role.
pub fn progress_label(kind: &NodeKind, node_id: &NodeId, worker_role: &Option<String>) -> (out:
    String)
    ensures
        out@ == label(*kind, node_id@, text::opt_text(*worker_role)),
{
    match kind {
        NodeKind::Plan => {
            let mut out = "[planner ".to_string();
            out.append(node_id.short());
            out.append("]");
            out
        },
        NodeKind::Work => {
            let mut out = "[worker ".to_string();
            out.append(node_id.short());
            if let Some(role) = worker_role {
                out.append("/");
                out.append(role.as_str());
            }
            out.append("]");
            out
        },
    }
}

/// The line that announces a dispatch.
pub fn dispatch_line(node_id: &NodeId, kind: NodeKind) -> (line: String)
    ensures
        line@ == "[scheduler] dispatch "@ + node_ids::short_text(node_id@) + " "@
            + invariants::kind_name(kind),
{
    let mut line = "[scheduler] dispatch ".to_string();
    line.append(node_id.short());
    line.append(" ");
    line.append(kind.name());
    line
}

// ── objectives ─────────────────────────────────────────────────────────────

/// The objective as a runner is told it: with the feedback on the last
/// attempt, if there is any.
pub open spec fn rendered(objective: Text, target_files: Seq<Text>, feedback: Option<Text>) -> Text {
    match feedback {
        None => objective,
        Some(diagnostics) => objective + "\n\nValidation feedback for retry:\nTarget files: "@ + (
        if target_files.len() == 0 {
            "(none specified)"@
        } else {
            text::join(target_files, ", "@)
        }) + "\n"@ + diagnostics,
    }
}

/// Renders the objective, with the feedback on the last attempt if there is
/// any. Nodes keep the two apart, so that the objective stays what it was.
pub fn render_objective(
    objective: &String,
    target_files: &Vec<String>,
    retry_feedback: &Option<RetryFeedback>,
) -> (out: String)
    ensures
        out@ == rendered(
            objective@,
            text::texts(target_files@),
            graph::opt_feedback(*retry_feedback),
        ),
{
    match retry_feedback {
        None => objective.clone(),
        Some(feedback) => {
            let mut out = objective.clone();
            out.append("\n\nValidation feedback for retry:\nTarget files: ");
            if target_files.len() == 0 {
                out.append("(none specified)");
            } else {
                out.append(join_texts(target_files, ", ").as_str());
            }
            out.append("\n");
            out.append(feedback.diagnostics.as_str());
            out
        },
    }
}

// ── running ────────────────────────────────────────────────────────────────

/// The request that a runner gets for a dispatch.
pub open spec fn run_request(
    command: DispatchView,
    artifact: Option<ArtifactValue>,
    work_attempt: Option<WorkAttemptValue>,
) -> RunRequestView {
    RunRequestView {
        kind: command.kind,
        node_id: command.node_id,
        objective: rendered(command.objective, command.target_files, command.retry_feedback),
        target_files: command.target_files,
        test_plan_context: command.test_plan_context,
        model_tier: command.model_tier,
        attempt: command.attempt,
        artifact_view: artifacts::seen(artifact),
        work_attempt,
        team: command.team,
        adapter: command.adapter,
        northstar: command.northstar,
        worker_role: command.worker_role,
    }
}

/// Makes the request that a runner gets.
pub fn make_run_request(
    command: RunNodeDispatch,
    artifact: &Option<Artifact>,
    work_attempt: Option<WorkAttempt>,
) -> (request: NodeRunRequest)
    ensures
        request@ == run_request(
            command@,
            artifacts::opt_artifact(*artifact),
            artifacts::opt_attempt(work_attempt),
        ),
{
    let objective = render_objective(
        &command.objective,
        &command.target_files,
        &command.retry_feedback,
    );
    NodeRunRequest {
        kind: command.kind,
        node_id: command.node_id,
        objective,
        target_files: command.target_files,
        test_plan_context: command.test_plan_context,
        model_tier: command.model_tier,
        attempt: command.attempt,
        artifact_view: artifact_view(artifact),
        work_attempt,
        team: command.team,
        adapter: command.adapter,
        northstar: command.northstar,
        worker_role: command.worker_role,
    }
}

/// The event that tells of a result.
pub open spec fn result_event(node_id: Text, result: RunResultView) -> EventView {
    match result {
        RunResultView::PlanAccepted { children, tasks } => EventView::PlanAccepted {
            node_id,
            children,
            tasks,
        },
        RunResultView::WorkAccepted { summary } => EventView::WorkAccepted { node_id, summary },
        RunResultView::Failed(failure) => EventView::NodeFailed { node_id, failure },
    }
}

/// Makes the event that tells of a result.
pub fn node_result_event(node_id: NodeId, result: NodeRunResult) -> (event: SchedulerEvent)
    ensures
        event@ == result_event(node_id@, result@),
{
    match result {
        NodeRunResult::PlanAccepted(plan) => SchedulerEvent::PlanAccepted { node_id, plan },
        NodeRunResult::WorkAccepted(result) => SchedulerEvent::WorkAccepted {
            node_id,
            work: result.work,
        },
        NodeRunResult::Failed(failure) => SchedulerEvent::NodeFailed { node_id, failure },
    }
}

/// Runs a node: the runner gets the request for the dispatch, and the event
/// tells what the runner returned.
pub fn dispatch_run_node<R: NodeRunner>(
    runner: &R,
    telemetry: &dyn TelemetrySink,
    command: RunNodeDispatch,
    artifact: &Option<Artifact>,
    work_attempt: Option<WorkAttempt>,
) -> (event: SchedulerEvent)
    ensures
        exists|request: NodeRunRequest, result: NodeRunResult|
            request@ == run_request(
                command@,
                artifacts::opt_artifact(*artifact),
                artifacts::opt_attempt(work_attempt),
            ) && #[trigger] call_ensures(R::run_node, (runner, request, telemetry), result)
                && event@ == result_event(command.node_id@, result@),
{
    let node_id = command.node_id.clone();
    let request = make_run_request(command, artifact, work_attempt);
    let result = runner.run_node(request, telemetry);
    node_result_event(node_id, result)
}

} // verus!
