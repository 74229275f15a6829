//! Running one node: what a runner is given and what it returns.

use vstd::prelude::*;

use crate::artifacts;
use crate::artifacts::{ArtifactView, ArtifactViewValue, WorkAttempt, WorkAttemptValue};
use crate::failure::FailureKind;
use crate::graph::{ModelTier, NodeId, NodeKind, TestPlanContext, TestPlanContextView};
use crate::telemetry::TelemetrySink;
use crate::text;
use crate::text::{contains_part, Text};
use crate::types;
use crate::types::{
    FailureView, NodeFailure, PlanOutput, PlannerTaskView, RecoveryAction, RecoveryView,
    RequestView, WorkOutput,
};

verus! {

/// Everything a runner needs to run a node.
pub struct NodeRunRequest {
    /// Plan or work.
    pub kind: NodeKind,
    /// The node.
    pub node_id: NodeId,
    /// What to do, with the feedback on earlier attempts.
    pub objective: String,
    /// The files the node is about.
    pub target_files: Vec<String>,
    /// Which tests the run expects, and which are planned.
    pub test_plan_context: TestPlanContext,
    /// The tier of the model to use.
    pub model_tier: ModelTier,
    /// The attempt number.
    pub attempt: u32,
    /// The artifact as it stands.
    pub artifact_view: Option<ArtifactView>,
    /// Where a work node may make its changes.
    pub work_attempt: Option<WorkAttempt>,
    /// The team the node belongs to.
    pub team: String,
    /// The adapter of the team.
    pub adapter: String,
    /// The northstar of the team.
    pub northstar: String,
    /// The role of the worker.
    pub worker_role: Option<String>,
}

/// The mathematical value of a [`NodeRunRequest`].
pub struct RunRequestView {
    pub kind: NodeKind,
    pub node_id: Text,
    pub objective: Text,
    pub target_files: Seq<Text>,
    pub test_plan_context: TestPlanContextView,
    pub model_tier: ModelTier,
    pub attempt: u32,
    pub artifact_view: Option<ArtifactViewValue>,
    pub work_attempt: Option<WorkAttemptValue>,
    pub team: Text,
    pub adapter: Text,
    pub northstar: Text,
    pub worker_role: Option<Text>,
}

impl View for NodeRunRequest {
    type V = RunRequestView;

    open spec fn view(&self) -> RunRequestView {
        RunRequestView {
            kind: self.kind,
            node_id: self.node_id@,
            objective: self.objective@,
            target_files: text::texts(self.target_files@),
            test_plan_context: self.test_plan_context@,
            model_tier: self.model_tier,
            attempt: self.attempt,
            artifact_view: artifacts::opt_artifact_view(self.artifact_view),
            work_attempt: artifacts::opt_attempt(self.work_attempt),
            team: self.team@,
            adapter: self.adapter@,
            northstar: self.northstar@,
            worker_role: text::opt_text(self.worker_role),
        }
    }
}

/// What a work node returns.
pub struct NodeRunWorkResult {
    /// The work.
    pub work: WorkOutput,
}

/// What running a node comes to.
pub enum NodeRunResult {
    /// A plan.
    PlanAccepted(PlanOutput),
    /// Work.
    WorkAccepted(NodeRunWorkResult),
    /// A failure.
    Failed(NodeFailure),
}

/// The mathematical value of a [`NodeRunResult`].
pub enum RunResultView {
    PlanAccepted { children: Seq<RequestView>, tasks: Seq<PlannerTaskView> },
    WorkAccepted { summary: Text },
    Failed(FailureView),
}

impl View for NodeRunResult {
    type V = RunResultView;

    open spec fn view(&self) -> RunResultView {
        match self {
            NodeRunResult::PlanAccepted(plan) => RunResultView::PlanAccepted {
                children: types::request_views(plan.children@),
                tasks: types::task_views(plan.tasks@),
            },
            NodeRunResult::WorkAccepted(result) => RunResultView::WorkAccepted {
                summary: result.work.summary@,
            },
            NodeRunResult::Failed(failure) => RunResultView::Failed(failure@),
        }
    }
}

/// Runs nodes. What comes of a node is up to the runner.
pub trait NodeRunner {
    /// Runs one node.
    fn run_node(&self, request: NodeRunRequest, telemetry: &dyn TelemetrySink) -> NodeRunResult;
}

// ── a runner for dry runs ──────────────────────────────────────────────────

/// A runner without a model: it fails every node whose objective contains
/// `fail`, answers other plan nodes with an empty plan and other work nodes
/// with work.
pub struct StaticNodeRunner;

/// What the static runner answers.
pub open spec fn static_result(kind: NodeKind, objective: Text) -> RunResultView {
    if text::occurs_in("fail"@, objective) {
        RunResultView::Failed(
            FailureView {
                kind: FailureKind::DeliberationFailure,
                message: "static runner: the objective asks for a failure"@,
                recovery: RecoveryView::Terminal {
                    message: "static runner: the objective asks for a failure"@,
                },
            },
        )
    } else if kind is Plan {
        RunResultView::PlanAccepted { children: Seq::empty(), tasks: Seq::empty() }
    } else {
        RunResultView::WorkAccepted { summary: "static runner: done"@ }
    }
}

impl NodeRunner for StaticNodeRunner {
    fn run_node(&self, request: NodeRunRequest, telemetry: &dyn TelemetrySink) -> (result:
        NodeRunResult)
        ensures
            result@ == static_result(request.kind, request.objective@),
    {
        if contains_part(request.objective.as_str(), "fail") {
            let message = "static runner: the objective asks for a failure".to_string();
            NodeRunResult::Failed(
                NodeFailure {
                    kind: FailureKind::DeliberationFailure,
                    message: message.clone(),
                    recovery: RecoveryAction::Terminal { message },
                },
            )
        } else {
            match request.kind {
                NodeKind::Plan => {
                    let plan = PlanOutput { children: vec![], tasks: vec![] };
                    assert(types::request_views(plan.children@) =~= Seq::<RequestView>::empty());
                    assert(types::task_views(plan.tasks@) =~= Seq::<PlannerTaskView>::empty());
                    NodeRunResult::PlanAccepted(plan)
                },
                NodeKind::Work => NodeRunResult::WorkAccepted(
                    NodeRunWorkResult {
                        work: WorkOutput { summary: "static runner: done".to_string() },
                    },
                ),
            }
        }
    }
}

} // verus!
