//! The course of an integration, step by step.
//!
//! Version control and the validators work between the steps: a step takes
//! what came of the last thing that was asked for, and says what to ask for
//! next, until there is something to tell the scheduler.

use vstd::prelude::*;

use crate::artifacts::{Artifact, Workspace};
use crate::attempts;
use crate::event::{EventView, SchedulerEvent};
use crate::failure::FailureKind;
use crate::integration;
use crate::integration::{
    check_changes, conclude_integration, validation_record, validation_started, AfterChanges,
    AfterIntegration, AfterValidation, Dropped, IntegrationError, IntegrationService, ServiceView,
    WorkIntegration, WorkStart, WorkView,
};
use crate::manifest;
use crate::manifest::TaskRecord;
use crate::telemetry;
use crate::telemetry::{TelemetryEventView, TelemetryRecord};
use crate::types::FailureView;
use crate::validation;
use crate::validation_plan::{ValidationPlan, ValidationResult};

verus! {

/// How far an integration has come: what was last asked for, and what came of
/// it.
pub enum WorkStage {
    /// The scheduler asks for the integration.
    Requested,
    /// The changed files of the workspace are listed.
    Listed {
        /// The workspace.
        workspace: Workspace,
        /// The artifact as it stands.
        artifact: Artifact,
        /// The changed files.
        changed_files: Vec<String>,
    },
    /// The changes are validated.
    Validated {
        /// The workspace.
        workspace: Workspace,
        /// The artifact as it stands.
        artifact: Artifact,
        /// What the validation came to.
        result: ValidationResult,
    },
    /// The changes are committed, or refused.
    Committed {
        /// The workspace.
        workspace: Workspace,
        /// What version control said.
        outcome: Result<Artifact, IntegrationError>,
        /// When it did.
        completed_at: String,
    },
    /// The task is written into the manifest, or could not be.
    Recorded {
        /// The artifact with the changes in it.
        integrated: Artifact,
        /// The artifact with the manifest in it, and the manifest.
        recorded: Result<(Artifact, Vec<TaskRecord>), String>,
    },
}

/// What to do next.
pub enum WorkAction {
    /// Tell the scheduler. What is dropped is recorded before.
    Report {
        /// What it is told.
        event: SchedulerEvent,
        /// What is dropped.
        dropped: Option<Dropped>,
    },
    /// List the changed files of the workspace.
    ListChanges {
        /// The workspace.
        workspace: Workspace,
        /// The artifact as it stands.
        artifact: Artifact,
    },
    /// Run the node's own validation plan on the changes.
    RunPlan {
        /// The workspace.
        workspace: Workspace,
        /// The artifact as it stands.
        artifact: Artifact,
        /// The plan.
        plan: ValidationPlan,
        /// The changed files.
        changed_files: Vec<String>,
    },
    /// Have the run's validator judge the changes.
    AskValidator {
        /// The workspace.
        workspace: Workspace,
        /// The artifact as it stands.
        artifact: Artifact,
    },
    /// Commit the changes to the artifact.
    Commit {
        /// The workspace.
        workspace: Workspace,
        /// The artifact as it stands.
        artifact: Artifact,
    },
    /// Write the task into the manifest.
    Record {
        /// The workspace.
        workspace: Workspace,
        /// The artifact with the changes in it.
        integrated: Artifact,
        /// The row of the task.
        record: TaskRecord,
    },
}

/// One step of an integration.
pub struct WorkStep {
    /// What is recorded before anything else.
    pub record: Option<TelemetryRecord>,
    /// What to do next.
    pub action: WorkAction,
}

// ── what a step is ─────────────────────────────────────────────────────────

/// Whether a step ends an integration with a failure.
pub open spec fn fails(
    action: WorkAction,
    work: WorkView,
    failure: FailureView,
    workspace: Option<Workspace>,
) -> bool {
    action matches WorkAction::Report { event, dropped } && event@
        == (EventView::IntegrationFailed { node_id: work.node_id, failure }) && integration::drops(
        dropped,
        (work.node_id, work.attempt),
        workspace,
        failure.message,
    )
}

/// Whether what is recorded is that event.
pub open spec fn records(step: WorkStep, event: TelemetryEventView) -> bool {
    step.record matches Some(r) && r@ == telemetry::unstamped("Integration"@, event)
}

/// The first step. An attempt that could not be started ends the run; one
/// without a workspace, or a run without an artifact, has nothing to
/// integrate. Either way the attempt is forgotten.
pub open spec fn starts(
    before: ServiceView,
    work: WorkView,
    step: WorkStep,
    after: ServiceView,
) -> bool {
    let key = (work.node_id, work.attempt);
    let pending = attempts::at(before.pending_attempts, key);
    &&& step.record is None
    &&& match attempts::at(before.failed_attempts, key) {
        Some(error) => {
            &&& fails(step.action, work, integration::fatal(error), pending)
            &&& after == (ServiceView {
                pending_attempts: before.pending_attempts.remove(key),
                failed_attempts: before.failed_attempts.remove(key),
                ..before
            })
        },
        None => {
            &&& after == (ServiceView {
                pending_attempts: before.pending_attempts.remove(key),
                ..before
            })
            &&& if pending is Some && before.artifact is Some {
                step.action matches WorkAction::ListChanges { workspace, artifact } && Some(
                    workspace,
                ) == pending && Some(artifact@) == before.artifact
            } else {
                step.action matches WorkAction::Report { event, dropped } && dropped is None
                    && event@ == integration::succeeded(work, Seq::empty())
            }
        },
    }
}

/// Whether a step is the one that follows a stage.
pub open spec fn is_step(
    before: ServiceView,
    work: WorkView,
    stage: WorkStage,
    step: WorkStep,
    after: ServiceView,
) -> bool {
    match stage {
        WorkStage::Requested => starts(before, work, step, after),
        // Work that changed nothing is one more try; changes are validated,
        // by the node's own plan if it has one.
        WorkStage::Listed { workspace, artifact, changed_files } => {
            &&& after == before
            &&& if changed_files@.len() == 0 {
                &&& step.record is None
                &&& fails(
                    step.action,
                    work,
                    integration::retryable(
                        FailureKind::WorkSemanticValidationFailure,
                        integration::no_diff_message(),
                    ),
                    None,
                )
            } else {
                &&& records(step, TelemetryEventView::ValidationStarted)
                &&& match work.validation_plan {
                    Some(own) => step.action matches WorkAction::RunPlan {
                        workspace: w,
                        artifact: a,
                        plan,
                        changed_files: c,
                    } && w == workspace && a == artifact && plan@ == own && c == changed_files,
                    None => step.action matches WorkAction::AskValidator {
                        workspace: w,
                        artifact: a,
                    } && w == workspace && a == artifact,
                }
            }
        },
        // Only what passed is committed; the rest is one more try, told what
        // went wrong.
        WorkStage::Validated { workspace, artifact, result } => {
            &&& after == (ServiceView { last_validation_passed: Some(result.passed), ..before })
            &&& records(step, integration::validation_event(result))
            &&& if result.passed {
                step.action matches WorkAction::Commit { workspace: w, artifact: a } && w
                    == workspace && a == artifact
            } else {
                fails(
                    step.action,
                    work,
                    integration::retryable(
                        FailureKind::ValidationFailure,
                        validation::retry_message(
                            result.summary@,
                            validation::failure_parts(result.failure),
                        ),
                    ),
                    Some(workspace),
                )
            }
        },
        // A conflict is one more try; any other refusal ends the run.
        WorkStage::Committed { workspace, outcome, completed_at } => {
            &&& after == before
            &&& step.record is None
            &&& match outcome {
                Ok(integrated) => step.action matches WorkAction::Record {
                    workspace: w,
                    integrated: i,
                    record,
                } && w == workspace && i == integrated && record@ == integration::work_record(
                    work,
                    integrated.commit_sha@,
                    completed_at@,
                ),
                Err(IntegrationError::Conflict { message }) => fails(
                    step.action,
                    work,
                    integration::retryable(FailureKind::IntegrationConflict, message@),
                    Some(workspace),
                ),
                Err(IntegrationError::Other { message }) => fails(
                    step.action,
                    work,
                    integration::fatal(message@),
                    Some(workspace),
                ),
            }
        },
        // A manifest that could not be written leaves the commit in place and
        // no rows.
        WorkStage::Recorded { integrated, recorded } => {
            let (artifact, m) = match recorded {
                Ok(r) => (r.0@, manifest::record_views(r.1@)),
                Err(_) => (integrated@, Seq::empty()),
            };
            &&& after == (ServiceView { artifact: Some(artifact), ..before })
            &&& step.record is None
            &&& step.action matches WorkAction::Report { event, dropped } && dropped is None
                && event@ == integration::succeeded(work, m)
        },
    }
}

// ── laws ───────────────────────────────────────────────────────────────────

/// The artifact moves on only in the step that reports success with the
/// changes committed: a failure of any kind, in any step, leaves it as it was.
pub proof fn law_failed_work_leaves_the_artifact(
    before: ServiceView,
    work: WorkView,
    stage: WorkStage,
    step: WorkStep,
    after: ServiceView,
)
    requires
        is_step(before, work, stage, step, after),
    ensures
        stage is Recorded || after.artifact == before.artifact,
        stage is Recorded ==> (step.action matches WorkAction::Report { event, .. } && event@
            is IntegrationSucceeded),
{
}

/// Changes are committed only once a validation has passed, and the service
/// then remembers that it did.
pub proof fn law_only_validated_work_is_committed(
    before: ServiceView,
    work: WorkView,
    stage: WorkStage,
    step: WorkStep,
    after: ServiceView,
)
    requires
        is_step(before, work, stage, step, after),
        step.action is Commit,
    ensures
        stage matches WorkStage::Validated { result, .. } && result.passed,
        after.last_validation_passed == Some(true),
{
}

/// What a validation came to is not forgotten when the commit is refused
/// afterwards.
pub proof fn law_refused_commits_keep_the_verdict(
    before: ServiceView,
    work: WorkView,
    stage: WorkStage,
    step: WorkStep,
    after: ServiceView,
)
    requires
        is_step(before, work, stage, step, after),
        stage !is Validated,
    ensures
        after.last_validation_passed == before.last_validation_passed,
{
}

/// The number of a stage in the course of an integration.
pub open spec fn stage_rank(stage: WorkStage) -> int {
    match stage {
        WorkStage::Requested => 0,
        WorkStage::Listed { .. } => 1,
        WorkStage::Validated { .. } => 2,
        WorkStage::Committed { .. } => 3,
        WorkStage::Recorded { .. } => 4,
    }
}

/// The number of the stage that an action leads to; `5` where it leads to
/// none.
pub open spec fn action_rank(action: WorkAction) -> int {
    match action {
        WorkAction::ListChanges { .. } => 1,
        WorkAction::RunPlan { .. } => 2,
        WorkAction::AskValidator { .. } => 2,
        WorkAction::Commit { .. } => 3,
        WorkAction::Record { .. } => 4,
        WorkAction::Report { .. } => 5,
    }
}

/// Every integration ends: each step leads to a later stage or to a report,
/// and the last stage always to a report.
pub proof fn law_integrations_end(
    before: ServiceView,
    work: WorkView,
    stage: WorkStage,
    step: WorkStep,
    after: ServiceView,
)
    requires
        is_step(before, work, stage, step, after),
    ensures
        stage_rank(stage) < action_rank(step.action),
{
}

// ── taking a step ──────────────────────────────────────────────────────────

fn dropped_changes(request: &WorkIntegration, workspace: Workspace, reason: String) -> (dropped:
    Dropped)
    ensures
        integration::drops(
            Some(dropped),
            (request.node_id@, request.attempt),
            Some(workspace),
            reason@,
        ),
{
    Dropped { node_id: request.node_id.clone(), attempt: request.attempt, workspace, reason }
}

impl IntegrationService {
    /// Takes the next step of an integration.
    pub fn integrate_work(&mut self, request: &WorkIntegration, stage: WorkStage) -> (step: WorkStep)
        ensures
            is_step(old(self)@, request@, stage, step, final(self)@),
    {
        match stage {
            WorkStage::Requested => {
                let action = match self.begin_work(request) {
                    WorkStart::Refused { event, dropped } => WorkAction::Report { event, dropped },
                    WorkStart::Finished(event) => WorkAction::Report { event, dropped: None },
                    WorkStart::Staged { workspace, artifact } => WorkAction::ListChanges {
                        workspace,
                        artifact,
                    },
                };
                WorkStep { record: None, action }
            },
            WorkStage::Listed { workspace, artifact, changed_files } => {
                match check_changes(request, &changed_files) {
                    AfterChanges::Finished(event) => WorkStep {
                        record: None,
                        action: WorkAction::Report { event, dropped: None },
                    },
                    AfterChanges::RunPlan(plan) => WorkStep {
                        record: Some(validation_started()),
                        action: WorkAction::RunPlan { workspace, artifact, plan, changed_files },
                    },
                    AfterChanges::AskValidator => WorkStep {
                        record: Some(validation_started()),
                        action: WorkAction::AskValidator { workspace, artifact },
                    },
                }
            },
            WorkStage::Validated { workspace, artifact, result } => {
                let record = Some(validation_record(&result));
                let action = match self.conclude_validation(request, &result) {
                    AfterValidation::Integrate => WorkAction::Commit { workspace, artifact },
                    AfterValidation::Drop { event, reason } => WorkAction::Report {
                        event,
                        dropped: Some(dropped_changes(request, workspace, reason)),
                    },
                };
                WorkStep { record, action }
            },
            WorkStage::Committed { workspace, outcome, completed_at } => {
                let action = match conclude_integration(request, outcome, completed_at) {
                    AfterIntegration::Record { integrated, record } => WorkAction::Record {
                        workspace,
                        integrated,
                        record,
                    },
                    AfterIntegration::Drop { event, reason } => WorkAction::Report {
                        event,
                        dropped: Some(dropped_changes(request, workspace, reason)),
                    },
                };
                WorkStep { record: None, action }
            },
            WorkStage::Recorded { integrated, recorded } => {
                let event = self.conclude_record(request, integrated, recorded);
                WorkStep { record: None, action: WorkAction::Report { event, dropped: None } }
            },
        }
    }
}

} // verus!
