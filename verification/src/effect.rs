//! Effects emitted by the scheduler machine.

use vstd::prelude::*;

use crate::graph;
use crate::graph::{
    ModelTier, NodeId, NodeKind, RetryFeedback, TestPlanContext, TestPlanContextView,
};
use crate::text;
use crate::text::Text;
use crate::types;
use crate::types::{PlannerTaskOutput, PlannerTaskView, WorkOutput};
use crate::validation_plan;
use crate::validation_plan::{ValidationPlan, ValidationPlanView};

verus! {

/// Commands that the scheduler emits to the outside world.
#[derive(Clone, Debug, PartialEq)]
pub enum SchedulerEffect {
    /// Dispatch a single node to a runner.
    RunNode {
        /// The node to run.
        node_id: NodeId,
        /// Its worker role.
        worker_role: Option<String>,
        /// Whether it plans or executes.
        kind: NodeKind,
        /// What it should accomplish.
        objective: String,
        /// Files it may touch.
        target_files: Vec<String>,
        /// Its test-target context.
        test_plan_context: TestPlanContext,
        /// The model capability level to use.
        model_tier: ModelTier,
        /// Zero-based retry count.
        attempt: u32,
        /// Feedback to render beside the objective.
        retry_feedback: Option<RetryFeedback>,
        /// The owning team.
        team: String,
        /// The owning team's adapter.
        adapter: String,
        /// The owning team's guiding document.
        northstar: String,
    },
    /// Integrate the work that a node produced.
    IntegrateWork {
        /// The node whose work is integrated.
        node_id: NodeId,
        /// What the node was to accomplish.
        objective: String,
        /// The work output.
        work: WorkOutput,
        /// The attempt whose workspace is integrated.
        attempt: u32,
        /// The node's declared target files.
        target_files: Vec<String>,
        /// The node's validation contract.
        validation_plan: Option<ValidationPlan>,
        /// The owning team.
        team: String,
        /// The manifest task the node acted on.
        task_id: Option<String>,
    },
    /// Record a plan node's tasks into the manifest.
    IntegratePlannerTasks {
        /// The plan node.
        node_id: NodeId,
        /// The tasks to record.
        tasks: Vec<PlannerTaskOutput>,
        /// The owning team.
        team: String,
    },
}

/// The mathematical value of a [`SchedulerEffect`].
pub enum EffectView {
    RunNode {
        node_id: Text,
        worker_role: Option<Text>,
        kind: NodeKind,
        objective: Text,
        target_files: Seq<Text>,
        test_plan_context: TestPlanContextView,
        model_tier: ModelTier,
        attempt: u32,
        retry_feedback: Option<Text>,
        team: Text,
        adapter: Text,
        northstar: Text,
    },
    IntegrateWork {
        node_id: Text,
        objective: Text,
        summary: Text,
        attempt: u32,
        target_files: Seq<Text>,
        validation_plan: Option<ValidationPlanView>,
        team: Text,
        task_id: Option<Text>,
    },
    IntegratePlannerTasks { node_id: Text, tasks: Seq<PlannerTaskView>, team: Text },
}

impl View for SchedulerEffect {
    type V = EffectView;

    open spec fn view(&self) -> EffectView {
        match self {
            SchedulerEffect::RunNode {
                node_id,
                worker_role,
                kind,
                objective,
                target_files,
                test_plan_context,
                model_tier,
                attempt,
                retry_feedback,
                team,
                adapter,
                northstar,
            } => EffectView::RunNode {
                node_id: node_id@,
                worker_role: text::opt_text(*worker_role),
                kind: *kind,
                objective: objective@,
                target_files: text::texts(target_files@),
                test_plan_context: test_plan_context@,
                model_tier: *model_tier,
                attempt: *attempt,
                retry_feedback: graph::opt_feedback(*retry_feedback),
                team: team@,
                adapter: adapter@,
                northstar: northstar@,
            },
            SchedulerEffect::IntegrateWork {
                node_id,
                objective,
                work,
                attempt,
                target_files,
                validation_plan,
                team,
                task_id,
            } => EffectView::IntegrateWork {
                node_id: node_id@,
                objective: objective@,
                summary: work.summary@,
                attempt: *attempt,
                target_files: text::texts(target_files@),
                validation_plan: validation_plan::opt_plan(*validation_plan),
                team: team@,
                task_id: text::opt_text(*task_id),
            },
            SchedulerEffect::IntegratePlannerTasks { node_id, tasks, team } =>
                EffectView::IntegratePlannerTasks {
                node_id: node_id@,
                tasks: types::task_views(tasks@),
                team: team@,
            },
        }
    }
}

/// The values of a list of effects.
pub open spec fn effect_views(effects: Seq<SchedulerEffect>) -> Seq<EffectView> {
    effects.map_values(|e: SchedulerEffect| e@)
}

/// The node and attempt that an effect's record is stamped with.
pub open spec fn node_context(effect: EffectView) -> Option<(Text, u32)> {
    match effect {
        EffectView::RunNode { node_id, attempt, .. } => Some((node_id, attempt)),
        EffectView::IntegrateWork { node_id, attempt, .. } => Some((node_id, attempt)),
        EffectView::IntegratePlannerTasks { .. } => None,
    }
}

/// The node and attempt that an effect's record is stamped with, for the
/// effects that carry both.
pub fn effect_node_context(effect: &SchedulerEffect) -> (context: Option<(String, u32)>)
    ensures
        match context {
            Some(c) => node_context(effect@) == Some((c.0@, c.1)),
            None => node_context(effect@) is None,
        },
{
    match effect {
        SchedulerEffect::RunNode { node_id, attempt, .. } => Some((node_id.0.clone(), *attempt)),
        SchedulerEffect::IntegrateWork { node_id, attempt, .. } => Some(
            (node_id.0.clone(), *attempt),
        ),
        SchedulerEffect::IntegratePlannerTasks { .. } => None,
    }
}

} // verus!
