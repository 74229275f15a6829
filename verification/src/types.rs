//! Payloads of scheduler events, and the recovery vocabulary.

use vstd::prelude::*;

use crate::failure::FailureKind;
use crate::graph;
use crate::graph::{NodeId, NodeKind};
use crate::manifest;
use crate::manifest::{TaskField, TaskFieldView};
use crate::text;
use crate::text::Text;
use crate::validation_plan;
use crate::validation_plan::{ValidationPlan, ValidationPlanView};

verus! {

/// A description of a node that the scheduler should create.
#[derive(Clone, Debug, PartialEq)]
pub struct NodeRequest {
    /// Planner-assigned local name; siblings refer to it.
    pub id: NodeId,
    /// Whether the new node should plan or execute.
    pub kind: NodeKind,
    /// The team the new node belongs to.
    pub team: String,
    /// The manifest task the new node acts on; the parent's where absent.
    pub task_id: Option<String>,
    /// The adapter the new node runs under.
    pub adapter: String,
    /// The guiding document the new node runs under.
    pub northstar: String,
    /// The worker role of the new node.
    pub worker_role: Option<String>,
    /// What the new node should accomplish.
    pub objective: String,
    /// Files the new node is expected and allowed to touch.
    pub target_files: Vec<String>,
    /// Test targets required for those files.
    pub required_validation_targets: Vec<String>,
    /// Nodes or siblings that must complete first.
    pub dependencies: Vec<NodeId>,
    /// The validation contract of the new node.
    pub validation_plan: Option<ValidationPlan>,
}

/// The mathematical value of a [`NodeRequest`].
pub struct RequestView {
    pub id: Text,
    pub kind: NodeKind,
    pub team: Text,
    pub task_id: Option<Text>,
    pub adapter: Text,
    pub northstar: Text,
    pub worker_role: Option<Text>,
    pub objective: Text,
    pub target_files: Seq<Text>,
    pub required_validation_targets: Seq<Text>,
    pub dependencies: Seq<Text>,
    pub validation_plan: Option<ValidationPlanView>,
}

impl View for NodeRequest {
    type V = RequestView;

    open spec fn view(&self) -> RequestView {
        RequestView {
            id: self.id@,
            kind: self.kind,
            team: self.team@,
            task_id: text::opt_text(self.task_id),
            adapter: self.adapter@,
            northstar: self.northstar@,
            worker_role: text::opt_text(self.worker_role),
            objective: self.objective@,
            target_files: text::texts(self.target_files@),
            required_validation_targets: text::texts(self.required_validation_targets@),
            dependencies: graph::id_texts(self.dependencies@),
            validation_plan: validation_plan::opt_plan(self.validation_plan),
        }
    }
}

/// The values of a list of requests.
pub open spec fn request_views(requests: Seq<NodeRequest>) -> Seq<RequestView> {
    requests.map_values(|r: NodeRequest| r@)
}

/// A planner-produced task record with no node of its own.
#[derive(Clone, Debug, PartialEq)]
pub struct PlannerTaskOutput {
    /// Planner-assigned identifier.
    pub id: String,
    /// The planner's intent.
    pub objective: String,
    /// Values the planner attached.
    pub task_kv: Vec<TaskField>,
    /// Tasks that have to be completed first.
    pub depends_on: Vec<String>,
}

/// The mathematical value of a [`PlannerTaskOutput`].
pub struct PlannerTaskView {
    pub id: Text,
    pub objective: Text,
    pub task_kv: Seq<TaskFieldView>,
    pub depends_on: Seq<Text>,
}

impl View for PlannerTaskOutput {
    type V = PlannerTaskView;

    open spec fn view(&self) -> PlannerTaskView {
        PlannerTaskView {
            id: self.id@,
            objective: self.objective@,
            task_kv: manifest::field_views(self.task_kv@),
            depends_on: text::texts(self.depends_on@),
        }
    }
}

/// The values of a list of planner tasks.
pub open spec fn task_views(tasks: Seq<PlannerTaskOutput>) -> Seq<PlannerTaskView> {
    tasks.map_values(|t: PlannerTaskOutput| t@)
}

/// The output of a plan node that succeeded.
#[derive(Clone, Debug, PartialEq)]
pub struct PlanOutput {
    /// The nodes the planner wants inserted.
    pub children: Vec<NodeRequest>,
    /// Task records to put into the manifest instead.
    pub tasks: Vec<PlannerTaskOutput>,
}

/// The output of a work node that succeeded.
#[derive(Clone, Debug, PartialEq)]
pub struct WorkOutput {
    /// What was accomplished.
    pub summary: String,
}

/// The output of a successful integration.
#[derive(Clone, Debug, PartialEq)]
pub struct IntegrationOutput {
    /// What the integration produced.
    pub summary: String,
}

/// The scheduler's course of action after a node reports failure.
///
/// The failed node is always marked `Failed` and kept. All but `Terminal`
/// create a replacement.
#[derive(Debug, PartialEq)]
pub enum RecoveryAction {
    /// Same objective and tier, one more attempt.
    Retry {
        /// Why the retry was requested.
        message: String,
    },
    /// A `Plan` node at the strong tier that re-plans the same objective.
    Split {
        /// Diagnostic context; not the new node's objective.
        message: String,
    },
    /// Same objective at the strong tier.
    ElevateModel {
        /// Why escalation was requested.
        message: String,
    },
    /// Halt the entire run.
    Terminal {
        /// Why the run was halted.
        message: String,
    },
}

/// The mathematical value of a [`RecoveryAction`].
pub enum RecoveryView {
    Retry { message: Text },
    Split { message: Text },
    ElevateModel { message: Text },
    Terminal { message: Text },
}

impl View for RecoveryAction {
    type V = RecoveryView;

    open spec fn view(&self) -> RecoveryView {
        match self {
            RecoveryAction::Retry { message } => RecoveryView::Retry { message: message@ },
            RecoveryAction::Split { message } => RecoveryView::Split { message: message@ },
            RecoveryAction::ElevateModel { message } => RecoveryView::ElevateModel {
                message: message@,
            },
            RecoveryAction::Terminal { message } => RecoveryView::Terminal { message: message@ },
        }
    }
}

impl Clone for RecoveryAction {
    fn clone(&self) -> (copy: Self)
        ensures
            copy@ == self@,
    {
        match self {
            RecoveryAction::Retry { message } => RecoveryAction::Retry { message: message.clone() },
            RecoveryAction::Split { message } => RecoveryAction::Split { message: message.clone() },
            RecoveryAction::ElevateModel { message } => RecoveryAction::ElevateModel {
                message: message.clone(),
            },
            RecoveryAction::Terminal { message } => RecoveryAction::Terminal {
                message: message.clone(),
            },
        }
    }
}

/// The mathematical value of a failure report.
pub struct FailureView {
    pub kind: FailureKind,
    pub message: Text,
    pub recovery: RecoveryView,
}

/// The failure report of a node.
#[derive(Clone, Debug, PartialEq)]
pub struct NodeFailure {
    /// Machine-readable failure cause.
    pub kind: FailureKind,
    /// Why the node failed. Not parsed by the scheduler.
    pub message: String,
    /// The scheduler's next action.
    pub recovery: RecoveryAction,
}

impl View for NodeFailure {
    type V = FailureView;

    open spec fn view(&self) -> FailureView {
        FailureView { kind: self.kind, message: self.message@, recovery: self.recovery@ }
    }
}

/// The failure report of an integration.
#[derive(Clone, Debug, PartialEq)]
pub struct IntegrationFailure {
    /// Machine-readable failure cause.
    pub kind: FailureKind,
    /// Why integration failed.
    pub message: String,
    /// The scheduler's next action.
    pub recovery: RecoveryAction,
}

impl View for IntegrationFailure {
    type V = FailureView;

    open spec fn view(&self) -> FailureView {
        FailureView { kind: self.kind, message: self.message@, recovery: self.recovery@ }
    }
}

} // verus!
