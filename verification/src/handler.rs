//! Executing effects: what the runner and the artifact are asked, and what
//! the scheduler is told.

use std::sync::Arc;

use vstd::prelude::*;

use crate::artifacts;
use crate::artifacts::{Artifact, WorkAttempt};
use crate::attempts;
use crate::checkpoint;
use crate::checkpoint::{CheckpointDue, CheckpointService};
use crate::dispatch::{DispatchView, RunNodeDispatch};
use crate::effect::{EffectView, SchedulerEffect};
use crate::event::{EventView, SchedulerEvent};
use crate::graph::{NodeId, NodeKind};
use crate::integration;
use crate::integration::{
    Dropped, IntegrationService, ServiceView, WorkIntegration, WorkView,
};
use crate::machine;
use crate::machine::{event_node_id, SchedulerMachine};
use crate::node_ids;
use crate::node_runner::NodeRunner;
use crate::progress;
use crate::progress::{is_progress_event, progress_lines};
use crate::state;
use crate::state::{SchedulerState, Transition};
use crate::telemetry::TelemetrySink;
use crate::text;
use crate::text::Text;
use crate::types;
use crate::types::{PlannerTaskOutput, PlannerTaskView};
use crate::validation::Validator;

verus! {

/// Executes the effects of a scheduler with a [`NodeRunner`].
pub struct SchedulerHandler<R> {
    /// Runs nodes.
    pub runner: R,
    /// Integrates their work.
    pub integration: IntegrationService,
    /// Says when to write checkpoints.
    pub checkpoint: CheckpointService,
    /// Takes records; without one, they are dropped.
    pub telemetry: Option<Arc<dyn TelemetrySink>>,
}

/// What an effect asks for.
pub enum EffectWork {
    /// Run a node.
    Run(RunNodeDispatch),
    /// Integrate accepted work.
    IntegrateWork(WorkIntegration),
    /// Record the tasks of a plan.
    IntegratePlannerTasks {
        /// The plan node.
        node_id: NodeId,
        /// Its tasks.
        tasks: Vec<PlannerTaskOutput>,
        /// Its team.
        team: String,
    },
}

/// The mathematical value of an [`EffectWork`].
pub enum EffectWorkView {
    Run(DispatchView),
    IntegrateWork(WorkView),
    IntegratePlannerTasks { node_id: Text, tasks: Seq<PlannerTaskView>, team: Text },
}

impl View for EffectWork {
    type V = EffectWorkView;

    open spec fn view(&self) -> EffectWorkView {
        match self {
            EffectWork::Run(command) => EffectWorkView::Run(command@),
            EffectWork::IntegrateWork(request) => EffectWorkView::IntegrateWork(request@),
            EffectWork::IntegratePlannerTasks { node_id, tasks, team } =>
                EffectWorkView::IntegratePlannerTasks {
                node_id: node_id@,
                tasks: types::task_views(tasks@),
                team: team@,
            },
        }
    }
}

/// What an effect asks for.
pub open spec fn work_of(effect: EffectView) -> EffectWorkView {
    match effect {
        EffectView::RunNode {
            node_id,
            worker_role,
            kind,
            objective,
            target_files,
            test_plan_context,
            model_tier,
            attempt,
            retry_feedback,
            team,
            adapter,
            northstar,
        } => EffectWorkView::Run(
            DispatchView {
                node_id,
                worker_role,
                kind,
                objective,
                target_files,
                test_plan_context,
                model_tier,
                attempt,
                retry_feedback,
                team,
                adapter,
                northstar,
            },
        ),
        EffectView::IntegrateWork {
            node_id,
            objective,
            summary,
            attempt,
            target_files,
            validation_plan,
            team,
            task_id,
        } => EffectWorkView::IntegrateWork(
            WorkView {
                node_id,
                objective,
                summary,
                attempt,
                target_files,
                validation_plan,
                team,
                task_id,
            },
        ),
        EffectView::IntegratePlannerTasks { node_id, tasks, team } =>
            EffectWorkView::IntegratePlannerTasks { node_id, tasks, team },
    }
}

/// Takes an effect apart into what it asks for.
pub fn effect_work(effect: SchedulerEffect) -> (work: EffectWork)
    ensures
        work@ == work_of(effect@),
{
    match effect {
        SchedulerEffect::RunNode {
            node_id,
            worker_role,
            kind,
            objective,
            target_files,
            test_plan_context,
            model_tier,
            attempt,
            retry_feedback,
            team,
            adapter,
            northstar,
        } => EffectWork::Run(
            RunNodeDispatch {
                node_id,
                worker_role,
                kind,
                objective,
                target_files,
                test_plan_context,
                model_tier,
                attempt,
                retry_feedback,
                team,
                adapter,
                northstar,
            },
        ),
        SchedulerEffect::IntegrateWork {
            node_id,
            objective,
            work,
            attempt,
            target_files,
            validation_plan,
            team,
            task_id,
        } => EffectWork::IntegrateWork(
            WorkIntegration {
                node_id,
                objective,
                work,
                attempt,
                target_files,
                validation_plan,
                team,
                task_id,
            },
        ),
        SchedulerEffect::IntegratePlannerTasks { node_id, tasks, team } =>
            EffectWork::IntegratePlannerTasks { node_id, tasks, team },
    }
}

/// Why the changes of a work attempt are dropped after its result: a failure
/// gives its message, a plan in place of work is quoted. Accepted work is
/// kept.
pub open spec fn rejection(event: EventView, quoted: Text) -> Option<Text> {
    match event {
        EventView::NodeFailed { failure, .. } => Some(failure.message),
        EventView::PlanAccepted { .. } => Some("work attempt rejected with event: "@ + quoted),
        _ => None,
    }
}

/// Why the changes of a work attempt are dropped after its result, given the
/// result as text.
pub fn node_rejection_reason(event: &SchedulerEvent, quoted: &String) -> (reason: Option<String>)
    ensures
        text::opt_text(reason) == rejection(event@, quoted@),
{
    match event {
        SchedulerEvent::NodeFailed { failure, .. } => Some(failure.message.clone()),
        SchedulerEvent::PlanAccepted { .. } => {
            let mut reason = "work attempt rejected with event: ".to_string();
            reason.append(quoted.as_str());
            Some(reason)
        },
        _ => None,
    }
}

/// What a step of a handler comes to.
pub struct HandlerStep {
    /// The lines that announce the event.
    pub progress: Vec<String>,
    /// The step itself.
    pub transition: Transition<SchedulerState, SchedulerEffect>,
    /// The checkpoint that is due after it.
    pub checkpoint: Option<CheckpointDue>,
}

impl<R: NodeRunner> SchedulerHandler<R> {
    /// A handler without an artifact.
    pub fn new(runner: R) -> (handler: SchedulerHandler<R>)
        ensures
            handler.runner == runner,
            handler.integration@ == integration::idle(None),
            handler.checkpoint.dir is None,
            handler.telemetry is None,
    {
        SchedulerHandler {
            runner,
            integration: IntegrationService::without_artifact(),
            checkpoint: CheckpointService::disabled(),
            telemetry: None,
        }
    }

    /// A handler that owns an artifact and keeps it current.
    pub fn with_artifact(runner: R, artifact: Artifact) -> (handler: SchedulerHandler<R>)
        ensures
            handler.runner == runner,
            handler.integration@ == integration::idle(Some(artifact@)),
            handler.checkpoint.dir is None,
            handler.telemetry is None,
    {
        SchedulerHandler {
            runner,
            integration: IntegrationService::with_artifact(artifact),
            checkpoint: CheckpointService::disabled(),
            telemetry: None,
        }
    }

    /// The same handler with a sink for its records.
    pub fn with_telemetry(self, telemetry: Arc<dyn TelemetrySink>) -> (handler: SchedulerHandler<
        R,
    >)
        ensures
            handler.runner == self.runner,
            handler.integration == self.integration,
            handler.checkpoint == self.checkpoint,
            handler.telemetry == Some(telemetry),
    {
        let telemetry = Some(telemetry);
        SchedulerHandler {
            runner: self.runner,
            integration: self.integration,
            checkpoint: self.checkpoint,
            telemetry,
        }
    }

    /// The same handler with another validator.
    pub fn with_validator(self, validator: Arc<dyn Validator>) -> (handler: SchedulerHandler<R>)
        ensures
            handler.runner == self.runner,
            handler.integration@ == (ServiceView {
                validator: handler.integration@.validator,
                ..self.integration@
            }),
            handler.integration@.validator == Some(validator),
            handler.checkpoint == self.checkpoint,
            handler.telemetry == self.telemetry,
    {
        let validator = Some(validator);
        let integration = self.integration.with_validator(validator);
        SchedulerHandler {
            runner: self.runner,
            integration,
            checkpoint: self.checkpoint,
            telemetry: self.telemetry,
        }
    }

    /// The same handler with checkpoints in a directory.
    pub fn with_checkpoint_dir(self, dir: String) -> (handler: SchedulerHandler<R>)
        ensures
            handler.runner == self.runner,
            handler.integration == self.integration,
            handler.checkpoint.dir == Some(dir),
            handler.telemetry == self.telemetry,
    {
        let checkpoint = self.checkpoint.with_dir(dir);
        SchedulerHandler {
            runner: self.runner,
            integration: self.integration,
            checkpoint,
            telemetry: self.telemetry,
        }
    }

    /// A copy of the artifact as it stands; `None` if there is none.
    pub fn artifact(&self) -> (artifact: Option<Artifact>)
        ensures
            artifacts::opt_artifact(artifact) == self.integration@.artifact,
    {
        self.integration.artifact()
    }

    /// What the last validation came to: `None` if none was reached.
    pub fn validation_passed(&self) -> (passed: Option<bool>)
        ensures
            passed == self.integration@.last_validation_passed,
    {
        self.integration.validation_passed()
    }

    /// Takes the scheduler's step for an event. With it come the lines that
    /// announce the event and the checkpoint that is due after it: one after
    /// every result, none after a tick.
    pub fn transition(&self, state: SchedulerState, event: SchedulerEvent) -> (step: HandlerStep)
        ensures
            text::texts(step.progress@) == progress::lines_for(event@),
            exists|ids: Seq<Text>|
                ids.len() == machine::ids_needed(state@, event@) && (forall|i: int|
                    0 <= i < ids.len() ==> node_ids::is_v4_text(#[trigger] ids[i]))
                    && state::step_view(step.transition) == #[trigger] machine::next_step(
                    state@,
                    event@,
                    ids,
                ),
            checkpoint::opt_due(step.checkpoint) == if event@ is Start {
                None
            } else {
                checkpoint::due(text::opt_text(self.checkpoint.dir), step.transition.state@)
            },
    {
        let progress = progress_lines(&event);
        let should_checkpoint = is_progress_event(&event);
        let transition = SchedulerMachine.transition(state, event);
        let checkpoint = if should_checkpoint {
            self.checkpoint.checkpoint_due(&transition.state)
        } else {
            None
        };
        HandlerStep { progress, transition, checkpoint }
    }

    /// Whether a workspace is to be made before a dispatch: for work, where
    /// there is an artifact.
    pub fn needs_workspace(&self, command: &RunNodeDispatch) -> (needed: bool)
        ensures
            needed == (command.kind is Work && self.integration@.artifact is Some),
    {
        match command.kind {
            NodeKind::Work => self.integration.artifact.is_some(),
            NodeKind::Plan => false,
        }
    }

    /// Forgets a work attempt whose result is not accepted work. What it
    /// changed is dropped.
    pub fn settle_attempt(
        &mut self,
        event: &SchedulerEvent,
        work_attempt: &Option<WorkAttempt>,
        quoted: &String,
    ) -> (dropped: Option<Dropped>)
        ensures
            final(self).runner == old(self).runner,
            final(self).checkpoint == old(self).checkpoint,
            final(self).telemetry == old(self).telemetry,
            match (rejection(event@, quoted@), *work_attempt) {
                (Some(reason), Some(work_attempt)) => {
                    let key = (machine::node_of(event@), work_attempt.attempt);
                    let before = old(self).integration@;
                    &&& integration::drops(
                        dropped,
                        key,
                        attempts::at(before.pending_attempts, key),
                        reason,
                    )
                    &&& final(self).integration@ == (ServiceView {
                        pending_attempts: before.pending_attempts.remove(key),
                        failed_attempts: before.failed_attempts.remove(key),
                        ..before
                    })
                },
                _ => dropped is None && final(self).integration@ == old(self).integration@,
            },
    {
        match (node_rejection_reason(event, quoted), work_attempt) {
            (Some(reason), Some(work_attempt)) => {
                let node_id = event_node_id(event);
                self.integration.discard_work_attempt_with_reason(
                    &node_id,
                    work_attempt.attempt,
                    reason,
                )
            },
            _ => None,
        }
    }
}

} // verus!
