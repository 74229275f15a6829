//! Integration of accepted work into the artifact.
//!
//! Integrating takes several steps, with version control or a validator at
//! work between them. Each function here takes the outcome of one and decides
//! what follows.

use std::sync::Arc;

use vstd::prelude::*;

use crate::artifacts;
use crate::artifacts::{copy_opt_artifact, Artifact, ArtifactValue, WorkAttempt, Workspace};
use crate::attempts;
use crate::attempts::AttemptTable;
use crate::event::{EventView, SchedulerEvent};
use crate::failure::FailureKind;
use crate::graph::NodeId;
use crate::manifest;
use crate::manifest::{TaskFieldView, TaskRecord, TaskRecordView};
use crate::telemetry;
use crate::telemetry::{TelemetryEvent, TelemetryEventView, TelemetryRecord};
use crate::text;
use crate::text::{copy_texts, decimal_text, Text};
use crate::types;
use crate::types::{
    FailureView, IntegrationFailure, IntegrationOutput, PlannerTaskOutput, PlannerTaskView,
    RecoveryAction, RecoveryView, WorkOutput,
};
use crate::validation;
use crate::validation::{validation_retry_message, AlwaysPassValidator, Validator};
use crate::validation_plan;
use crate::validation_plan::{copy_opt_plan, ValidationPlan, ValidationPlanView, ValidationResult};

verus! {

/// Accepted work that is to be integrated.
pub struct WorkIntegration {
    /// The node.
    pub node_id: NodeId,
    /// What it was to do.
    pub objective: String,
    /// What it did.
    pub work: WorkOutput,
    /// The attempt number.
    pub attempt: u32,
    /// The files it was about.
    pub target_files: Vec<String>,
    /// How to validate it.
    pub validation_plan: Option<ValidationPlan>,
    /// The team it belongs to.
    pub team: String,
    /// The task it belongs to.
    pub task_id: Option<String>,
}

/// The mathematical value of a [`WorkIntegration`].
pub struct WorkView {
    pub node_id: Text,
    pub objective: Text,
    pub summary: Text,
    pub attempt: u32,
    pub target_files: Seq<Text>,
    pub validation_plan: Option<ValidationPlanView>,
    pub team: Text,
    pub task_id: Option<Text>,
}

impl View for WorkIntegration {
    type V = WorkView;

    open spec fn view(&self) -> WorkView {
        WorkView {
            node_id: self.node_id@,
            objective: self.objective@,
            summary: self.work.summary@,
            attempt: self.attempt,
            target_files: text::texts(self.target_files@),
            validation_plan: validation_plan::opt_plan(self.validation_plan),
            team: self.team@,
            task_id: text::opt_text(self.task_id),
        }
    }
}

/// Why version control refused an integration.
pub enum IntegrationError {
    /// The branch has moved on since the work was based on it.
    Conflict {
        /// The error, in words.
        message: String,
    },
    /// Anything else.
    Other {
        /// The error, in words.
        message: String,
    },
}

/// The changes of an attempt that are dropped. What they were is recorded
/// first.
pub struct Dropped {
    /// The node.
    pub node_id: NodeId,
    /// The attempt number.
    pub attempt: u32,
    /// The workspace that holds them.
    pub workspace: Workspace,
    /// Why they are dropped.
    pub reason: String,
}

/// Whether what is dropped is that workspace of that attempt, if there is
/// one, for that reason.
pub open spec fn drops(
    dropped: Option<Dropped>,
    key: (Text, u32),
    workspace: Option<Workspace>,
    reason: Text,
) -> bool {
    match workspace {
        Some(w) => dropped matches Some(d) && (d.node_id@, d.attempt) == key && d.workspace == w
            && d.reason@ == reason,
        None => dropped is None,
    }
}

/// The artifact of a run and the attempts at work on it.
pub struct IntegrationService {
    /// The artifact as it stands, if the run has one.
    pub artifact: Option<Artifact>,
    /// The workspaces of attempts that were started and not yet integrated.
    pub pending_attempts: AttemptTable<Workspace>,
    /// The attempts that could not be started, and why.
    pub failed_attempts: AttemptTable<String>,
    /// Judges work that brings no validation plan of its own; without one,
    /// all work passes.
    pub validator: Option<Arc<dyn Validator>>,
    /// What the last validation came to.
    pub last_validation_passed: Option<bool>,
}

/// The mathematical value of an [`IntegrationService`].
pub struct ServiceView {
    pub artifact: Option<ArtifactValue>,
    pub pending_attempts: Map<(Text, u32), Workspace>,
    pub failed_attempts: Map<(Text, u32), Text>,
    pub validator: Option<Arc<dyn Validator>>,
    pub last_validation_passed: Option<bool>,
}

impl View for IntegrationService {
    type V = ServiceView;

    open spec fn view(&self) -> ServiceView {
        ServiceView {
            artifact: artifacts::opt_artifact(self.artifact),
            pending_attempts: self.pending_attempts@,
            failed_attempts: attempts::messages(self.failed_attempts@),
            validator: self.validator,
            last_validation_passed: self.last_validation_passed,
        }
    }
}

/// A service with nothing in progress and no validator.
pub open spec fn idle(artifact: Option<ArtifactValue>) -> ServiceView {
    ServiceView {
        artifact,
        pending_attempts: Map::empty(),
        failed_attempts: Map::empty(),
        validator: None,
        last_validation_passed: None,
    }
}

// ── events ─────────────────────────────────────────────────────────────────

/// A failure that ends the run.
pub open spec fn fatal(message: Text) -> FailureView {
    FailureView {
        kind: FailureKind::IntegrationFailure,
        message,
        recovery: RecoveryView::Terminal { message },
    }
}

/// A failure that another attempt may mend.
pub open spec fn retryable(kind: FailureKind, message: Text) -> FailureView {
    FailureView { kind, message, recovery: RecoveryView::Retry { message } }
}

/// What a node is told that accepted work without changing anything.
pub open spec fn no_diff_message() -> Text {
    "accepted artifact Work produced no file changes in its WorkAttempt workspace"@
}

/// The event of an integration that succeeded.
pub open spec fn succeeded(work: WorkView, m: Seq<TaskRecordView>) -> EventView {
    EventView::IntegrationSucceeded { node_id: work.node_id, summary: work.summary, manifest: m }
}

/// A failure that ends the run.
pub fn integration_failure(message: String) -> (failure: IntegrationFailure)
    ensures
        failure@ == fatal(message@),
{
    IntegrationFailure {
        kind: FailureKind::IntegrationFailure,
        message: message.clone(),
        recovery: RecoveryAction::Terminal { message },
    }
}

fn retryable_failure(kind: FailureKind, message: String) -> (failure: IntegrationFailure)
    ensures
        failure@ == retryable(kind, message@),
{
    IntegrationFailure { kind, message: message.clone(), recovery: RecoveryAction::Retry { message } }
}

fn success_event(request: &WorkIntegration, manifest_tasks: Vec<TaskRecord>) -> (event:
    SchedulerEvent)
    ensures
        event@ == succeeded(request@, manifest::record_views(manifest_tasks@)),
{
    SchedulerEvent::IntegrationSucceeded {
        node_id: request.node_id.clone(),
        output: IntegrationOutput { summary: request.work.summary.clone() },
        manifest_tasks,
    }
}

// ── records ────────────────────────────────────────────────────────────────

/// The id of an attempt at a node.
pub open spec fn attempt_text(node_id: Text, attempt: u32) -> Text {
    node_id + ":"@ + text::decimal(attempt as nat)
}

/// The id of an attempt at a node.
pub fn attempt_id(node_id: &NodeId, attempt: u32) -> (id: String)
    ensures
        id@ == attempt_text(node_id@, attempt),
{
    let mut id = node_id.0.clone();
    id.append(":");
    id.append(decimal_text(attempt as u64).as_str());
    id
}

/// The record of changes that are dropped.
pub fn attempt_evidence(dropped: Dropped, changed_files: Vec<String>, git_diff: String) -> (record:
    TelemetryRecord)
    ensures
        record@ == telemetry::unstamped(
            "Integration"@,
            TelemetryEventView::WorkAttemptDiscarded {
                attempt_id: attempt_text(dropped.node_id@, dropped.attempt),
                node_id: dropped.node_id@,
                attempt: dropped.attempt,
                base_commit: dropped.workspace.base_commit@,
                changed_files: text::texts(changed_files@),
                git_diff: git_diff@,
                reason: dropped.reason@,
            },
        ),
{
    TelemetryRecord::new(
        "Integration",
        TelemetryEvent::WorkAttemptDiscarded {
            attempt_id: attempt_id(&dropped.node_id, dropped.attempt),
            node_id: dropped.node_id.0,
            attempt: dropped.attempt,
            base_commit: dropped.workspace.base_commit,
            changed_files,
            git_diff,
            reason: dropped.reason,
        },
    )
}

/// The record that a validation starts.
pub fn validation_started() -> (record: TelemetryRecord)
    ensures
        record@ == telemetry::unstamped("Integration"@, TelemetryEventView::ValidationStarted),
{
    TelemetryRecord::new("Integration", TelemetryEvent::ValidationStarted)
}

/// What is recorded of a validation: for a failed one, everything that is
/// known of the command that failed.
pub open spec fn validation_event(result: ValidationResult) -> TelemetryEventView {
    if result.passed {
        TelemetryEventView::ValidationPassed { summary: result.summary@ }
    } else {
        match result.failure {
            Some(f) => TelemetryEventView::ValidationFailed {
                summary: result.summary@,
                command: Some(f.command@),
                exit_code: f.exit_code,
                stdout: Some(f.stdout@),
                stderr: Some(f.stderr@),
            },
            None => TelemetryEventView::ValidationFailed {
                summary: result.summary@,
                command: None,
                exit_code: None,
                stdout: None,
                stderr: None,
            },
        }
    }
}

/// The record of a validation.
pub fn validation_record(result: &ValidationResult) -> (record: TelemetryRecord)
    ensures
        record@ == telemetry::unstamped("Integration"@, validation_event(*result)),
{
    let summary = result.summary.clone();
    if result.passed {
        return TelemetryRecord::new("Integration", TelemetryEvent::ValidationPassed { summary });
    }
    match &result.failure {
        Some(failure) => TelemetryRecord::new(
            "Integration",
            TelemetryEvent::ValidationFailed {
                summary,
                command: Some(failure.command.clone()),
                exit_code: failure.exit_code,
                stdout: Some(failure.stdout.clone()),
                stderr: Some(failure.stderr.clone()),
            },
        ),
        None => TelemetryRecord::new(
            "Integration",
            TelemetryEvent::ValidationFailed {
                summary,
                command: None,
                exit_code: None,
                stdout: None,
                stderr: None,
            },
        ),
    }
}

// ── the steps of an integration ────────────────────────────────────────────

/// What the start of an integration comes to.
pub enum WorkStart {
    /// The attempt could not be started. The event says so; a workspace it
    /// left behind is dropped for the same reason.
    Refused {
        /// What the scheduler is told.
        event: SchedulerEvent,
        /// What is dropped.
        dropped: Option<Dropped>,
    },
    /// There is nothing to integrate.
    Finished(SchedulerEvent),
    /// The changes in the workspace are to be integrated into the artifact.
    Staged {
        /// The workspace.
        workspace: Workspace,
        /// The artifact as it stands.
        artifact: Artifact,
    },
}

/// What the changed files of a workspace lead to.
pub enum AfterChanges {
    /// There are none: what the scheduler is told.
    Finished(SchedulerEvent),
    /// The node's own plan validates them.
    RunPlan(ValidationPlan),
    /// The run's validator judges them.
    AskValidator,
}

/// What the outcome of a validation leads to.
pub enum AfterValidation {
    /// The changes may be integrated.
    Integrate,
    /// They are dropped.
    Drop {
        /// What the scheduler is told.
        event: SchedulerEvent,
        /// Why they are dropped.
        reason: String,
    },
}

/// What the outcome of an integration leads to.
pub enum AfterIntegration {
    /// The task is to be recorded in the manifest.
    Record {
        /// The artifact with the changes in it.
        integrated: Artifact,
        /// The row of the task.
        record: TaskRecord,
    },
    /// The changes are dropped.
    Drop {
        /// What the scheduler is told.
        event: SchedulerEvent,
        /// Why they are dropped.
        reason: String,
    },
}

/// The manifest row of integrated work: for the task it belongs to, or for
/// the node where it belongs to none.
pub open spec fn work_record(work: WorkView, commit: Text, completed_at: Text) -> TaskRecordView {
    TaskRecordView {
        id: match work.task_id {
            Some(id) => id,
            None => work.node_id,
        },
        objective: work.objective,
        commit,
        completed_at,
        team: Some(work.team),
        task_kv: Seq::empty(),
        depends_on: Seq::empty(),
    }
}

/// What accepted work without changes leads to: one more try.
pub fn check_changes(request: &WorkIntegration, changed_files: &Vec<String>) -> (next: AfterChanges)
    ensures
        match next {
            AfterChanges::Finished(event) => changed_files@.len() == 0 && event@
                == (EventView::IntegrationFailed {
                node_id: request.node_id@,
                failure: retryable(FailureKind::WorkSemanticValidationFailure, no_diff_message()),
            }),
            AfterChanges::RunPlan(plan) => changed_files@.len() > 0
                && request@.validation_plan == Some(plan@),
            AfterChanges::AskValidator => changed_files@.len() > 0
                && request@.validation_plan is None,
        },
{
    if changed_files.len() == 0 {
        let message =
            "accepted artifact Work produced no file changes in its WorkAttempt workspace".to_string();
        return AfterChanges::Finished(
            SchedulerEvent::IntegrationFailed {
                node_id: request.node_id.clone(),
                failure: retryable_failure(FailureKind::WorkSemanticValidationFailure, message),
            },
        );
    }
    match copy_opt_plan(&request.validation_plan) {
        Some(plan) => AfterChanges::RunPlan(plan),
        None => AfterChanges::AskValidator,
    }
}

/// What the outcome of an integration leads to: a row for the manifest, one
/// more try after a conflict, or the end of the run.
pub fn conclude_integration(
    request: &WorkIntegration,
    outcome: Result<Artifact, IntegrationError>,
    completed_at: String,
) -> (next: AfterIntegration)
    ensures
        match outcome {
            Ok(artifact) => next matches AfterIntegration::Record { integrated, record }
                && integrated == artifact && record@ == work_record(
                request@,
                artifact.commit_sha@,
                completed_at@,
            ),
            Err(IntegrationError::Conflict { message }) => next matches AfterIntegration::Drop {
                event,
                reason,
            } && reason@ == message@ && event@ == (EventView::IntegrationFailed {
                node_id: request.node_id@,
                failure: retryable(FailureKind::IntegrationConflict, message@),
            }),
            Err(IntegrationError::Other { message }) => next matches AfterIntegration::Drop {
                event,
                reason,
            } && reason@ == message@ && event@ == (EventView::IntegrationFailed {
                node_id: request.node_id@,
                failure: fatal(message@),
            }),
        },
{
    match outcome {
        Ok(artifact) => {
            let id = match &request.task_id {
                Some(id) => id.clone(),
                None => request.node_id.0.clone(),
            };
            let record = TaskRecord {
                id,
                objective: request.objective.clone(),
                commit: artifact.commit_sha.clone(),
                completed_at,
                team: Some(request.team.clone()),
                task_kv: vec![],
                depends_on: vec![],
            };
            proof {
                assert(record@.task_kv =~= Seq::<TaskFieldView>::empty());
                assert(record@.depends_on =~= Seq::<Text>::empty());
            }
            AfterIntegration::Record { integrated: artifact, record }
        },
        Err(IntegrationError::Conflict { message }) => AfterIntegration::Drop {
            event: SchedulerEvent::IntegrationFailed {
                node_id: request.node_id.clone(),
                failure: retryable_failure(FailureKind::IntegrationConflict, message.clone()),
            },
            reason: message.clone(),
        },
        Err(IntegrationError::Other { message }) => AfterIntegration::Drop {
            event: SchedulerEvent::IntegrationFailed {
                node_id: request.node_id.clone(),
                failure: integration_failure(message.clone()),
            },
            reason: message.clone(),
        },
    }
}

// ── planner tasks ──────────────────────────────────────────────────────────

/// The manifest row of a planner's task. It has no commit of its own.
pub open spec fn planner_record(task: PlannerTaskView, team: Text, completed_at: Text) ->
    TaskRecordView {
    TaskRecordView {
        id: task.id,
        objective: task.objective,
        commit: Seq::empty(),
        completed_at,
        team: Some(team),
        task_kv: task.task_kv,
        depends_on: task.depends_on,
    }
}

/// The manifest rows of a planner's tasks, in order.
pub fn planner_records(tasks: &Vec<PlannerTaskOutput>, team: &String, completed_at: &String) -> (
records: Vec<TaskRecord>)
    ensures
        manifest::record_views(records@) == types::task_views(tasks@).map_values(
            |t: PlannerTaskView| planner_record(t, team@, completed_at@),
        ),
{
    let mut records: Vec<TaskRecord> = Vec::new();
    let mut i: usize = 0;
    while i < tasks.len()
        invariant
            i <= tasks.len(),
            records@.len() == i,
            forall|j: int|
                0 <= j < i ==> (#[trigger] records@[j])@ == planner_record(
                    tasks@[j]@,
                    team@,
                    completed_at@,
                ),
        decreases tasks.len() - i,
    {
        let task = &tasks[i];
        let record = TaskRecord {
            id: task.id.clone(),
            objective: task.objective.clone(),
            commit: String::new(),
            completed_at: completed_at.clone(),
            team: Some(team.clone()),
            task_kv: task.task_kv.clone(),
            depends_on: copy_texts(&task.depends_on),
        };
        assert(record@.task_kv =~= task@.task_kv);
        records.push(record);
        i += 1;
    }
    assert(manifest::record_views(records@) =~= types::task_views(tasks@).map_values(
        |t: PlannerTaskView| planner_record(t, team@, completed_at@),
    ));
    records
}

/// Why planner tasks cannot be recorded without an artifact.
pub open spec fn no_artifact_message() -> Text {
    "cannot integrate planner tasks: scheduler has no artifact wired (constructed via SchedulerHandler::new instead of ::with_artifact)"@
}

/// The event that tells what recording planner tasks came to.
pub open spec fn planner_event(
    node_id: Text,
    outcome: Result<Seq<TaskRecordView>, Text>,
) -> EventView {
    match outcome {
        Ok(m) => EventView::PlannerTasksIntegrated { node_id, manifest: m },
        Err(message) => EventView::PlannerTasksIntegrationFailed { node_id, failure: fatal(message) },
    }
}

/// The value of a manifest or of an error message.
pub open spec fn manifest_result(r: Result<Vec<TaskRecord>, String>) -> Result<
    Seq<TaskRecordView>,
    Text,
> {
    match r {
        Ok(tasks) => Ok(manifest::record_views(tasks@)),
        Err(message) => Err(message@),
    }
}

/// The value of what version control recorded.
pub open spec fn recorded_manifest(r: Result<(Artifact, Vec<TaskRecord>), String>) -> Result<
    (ArtifactValue, Seq<TaskRecordView>),
    Text,
> {
    match r {
        Ok(x) => Ok((x.0@, manifest::record_views(x.1@))),
        Err(message) => Err(message@),
    }
}

/// What recording planner tasks comes to: it needs an artifact, and the
/// artifact moves on to the commit that holds the rows.
pub open spec fn after_planner_tasks(
    service: ServiceView,
    recorded: Result<(ArtifactValue, Seq<TaskRecordView>), Text>,
) -> (ServiceView, Result<Seq<TaskRecordView>, Text>) {
    if service.artifact is None {
        (service, Err(no_artifact_message()))
    } else {
        match recorded {
            Ok((artifact, m)) => (ServiceView { artifact: Some(artifact), ..service }, Ok(m)),
            Err(message) => (service, Err(message)),
        }
    }
}

/// What to say of a workspace that could not be made.
pub open spec fn worktree_failure(error: Text) -> Text {
    "worktree creation failed: "@ + error
}

/// What to say of a workspace that could not be made.
pub fn worktree_failure_message(error: &String) -> (message: String)
    ensures
        message@ == worktree_failure(error@),
{
    let mut message = "worktree creation failed: ".to_string();
    message.append(error.as_str());
    message
}

impl IntegrationService {
    /// A service for a run without an artifact.
    pub fn without_artifact() -> (service: IntegrationService)
        ensures
            service@ == idle(None),
    {
        assert(attempts::messages(Map::<(Text, u32), String>::empty()) =~= Map::<
            (Text, u32),
            Text,
        >::empty());
        IntegrationService {
            artifact: None,
            pending_attempts: AttemptTable::new(),
            failed_attempts: AttemptTable::new(),
            validator: None,
            last_validation_passed: None,
        }
    }

    /// A service for a run on an artifact.
    pub fn with_artifact(artifact: Artifact) -> (service: IntegrationService)
        ensures
            service@ == idle(Some(artifact@)),
    {
        assert(attempts::messages(Map::<(Text, u32), String>::empty()) =~= Map::<
            (Text, u32),
            Text,
        >::empty());
        IntegrationService {
            artifact: Some(artifact),
            pending_attempts: AttemptTable::new(),
            failed_attempts: AttemptTable::new(),
            validator: None,
            last_validation_passed: None,
        }
    }

    /// The same service with another validator.
    pub fn with_validator(self, validator: Option<Arc<dyn Validator>>) -> (service:
        IntegrationService)
        ensures
            service@ == (ServiceView { validator, ..self@ }),
    {
        IntegrationService {
            artifact: self.artifact,
            pending_attempts: self.pending_attempts,
            failed_attempts: self.failed_attempts,
            validator,
            last_validation_passed: self.last_validation_passed,
        }
    }

    /// Has the run's validator judge the changes in a workspace: the verdict
    /// is the validator's own on that workspace. Without one, all work passes.
    pub fn ask_validator(&self, workspace: &Workspace) -> (result: ValidationResult)
        ensures
            validation::may_judge(self@.validator, *workspace, result),
    {
        match &self.validator {
            Some(validator) => validator.validate(workspace),
            None => AlwaysPassValidator.validate(workspace),
        }
    }

    /// A copy of the artifact as it stands.
    pub fn artifact(&self) -> (artifact: Option<Artifact>)
        ensures
            artifacts::opt_artifact(artifact) == self@.artifact,
    {
        copy_opt_artifact(&self.artifact)
    }

    /// What the last validation came to; `None` if none was reached.
    pub fn validation_passed(&self) -> (passed: Option<bool>)
        ensures
            passed == self@.last_validation_passed,
    {
        self.last_validation_passed
    }

    /// Notes that an attempt could not be started, and why.
    pub fn record_work_attempt_failure(&mut self, node_id: &NodeId, attempt: u32, error: String)
        ensures
            final(self)@ == (ServiceView {
                failed_attempts: old(self)@.failed_attempts.insert((node_id@, attempt), error@),
                ..old(self)@
            }),
    {
        proof {
            attempts::lemma_messages(self.failed_attempts@, (node_id@, attempt), error);
        }
        self.failed_attempts.insert(node_id.clone(), attempt, error);
    }

    /// Notes the workspace that was made for an attempt, or why none could
    /// be. Without an artifact there is nothing to note.
    pub fn prepare_work_attempt(
        &mut self,
        node_id: NodeId,
        attempt: u32,
        created: Result<Workspace, String>,
    ) -> (prepared: Option<WorkAttempt>)
        ensures
            if old(self)@.artifact is None {
                prepared is None && final(self)@ == old(self)@
            } else {
                match created {
                    Ok(workspace) => {
                        &&& prepared matches Some(p) && p.attempt == attempt && p.workspace@
                            == workspace@
                        &&& final(self)@ == (ServiceView {
                            pending_attempts: old(self)@.pending_attempts.insert(
                                (node_id@, attempt),
                                workspace,
                            ),
                            ..old(self)@
                        })
                    },
                    Err(error) => {
                        &&& prepared is None
                        &&& final(self)@ == (ServiceView {
                            failed_attempts: old(self)@.failed_attempts.insert(
                                (node_id@, attempt),
                                worktree_failure(error@),
                            ),
                            ..old(self)@
                        })
                    },
                }
            },
    {
        if self.artifact.is_none() {
            return None;
        }
        match created {
            Ok(workspace) => {
                let shared = workspace.clone();
                self.pending_attempts.insert(node_id, attempt, workspace);
                Some(WorkAttempt { attempt, workspace: shared })
            },
            Err(error) => {
                let message = worktree_failure_message(&error);
                self.record_work_attempt_failure(&node_id, attempt, message);
                None
            },
        }
    }

    /// Forgets an attempt. Its workspace, if it had one, is dropped.
    pub fn discard_work_attempt_with_reason(
        &mut self,
        node_id: &NodeId,
        attempt: u32,
        reason: String,
    ) -> (dropped: Option<Dropped>)
        ensures
            drops(
                dropped,
                (node_id@, attempt),
                attempts::at(old(self)@.pending_attempts, (node_id@, attempt)),
                reason@,
            ),
            final(self)@ == (ServiceView {
                pending_attempts: old(self)@.pending_attempts.remove((node_id@, attempt)),
                failed_attempts: old(self)@.failed_attempts.remove((node_id@, attempt)),
                ..old(self)@
            }),
    {
        proof {
            attempts::lemma_messages(self.failed_attempts@, (node_id@, attempt), reason);
        }
        let workspace = self.pending_attempts.remove(node_id, attempt);
        self.failed_attempts.remove(node_id, attempt);
        match workspace {
            Some(workspace) => Some(
                Dropped { node_id: node_id.clone(), attempt, workspace, reason },
            ),
            None => None,
        }
    }

    /// Starts the integration of accepted work.
    pub fn begin_work(&mut self, request: &WorkIntegration) -> (start: WorkStart)
        ensures
            ({
                let before = old(self)@;
                let key = (request.node_id@, request.attempt);
                let pending = attempts::at(before.pending_attempts, key);
                let after = ServiceView {
                    pending_attempts: before.pending_attempts.remove(key),
                    failed_attempts: before.failed_attempts.remove(key),
                    ..before
                };
                match attempts::at(before.failed_attempts, key) {
                    Some(error) => {
                        &&& final(self)@ == after
                        &&& start matches WorkStart::Refused { event, dropped } && event@
                            == (EventView::IntegrationFailed {
                            node_id: request.node_id@,
                            failure: fatal(error),
                        }) && drops(dropped, key, pending, error)
                    },
                    None => {
                        &&& final(self)@ == (ServiceView {
                            failed_attempts: before.failed_attempts,
                            ..after
                        })
                        &&& if pending is Some && before.artifact is Some {
                            start matches WorkStart::Staged { workspace, artifact } && Some(
                                workspace,
                            ) == pending && Some(artifact@) == before.artifact
                        } else {
                            start matches WorkStart::Finished(event) && event@ == succeeded(
                                request@,
                                Seq::empty(),
                            )
                        }
                    },
                }
            }),
    {
        let ghost key = (request.node_id@, request.attempt);
        proof {
            attempts::lemma_messages(self.failed_attempts@, key, request.objective);
        }
        match self.failed_attempts.remove(&request.node_id, request.attempt) {
            Some(error) => {
                let event = SchedulerEvent::IntegrationFailed {
                    node_id: request.node_id.clone(),
                    failure: integration_failure(error.clone()),
                };
                let dropped = self.discard_work_attempt_with_reason(
                    &request.node_id,
                    request.attempt,
                    error,
                );
                assert(old(self)@.failed_attempts.remove(key).remove(key)
                    =~= old(self)@.failed_attempts.remove(key));
                WorkStart::Refused { event, dropped }
            },
            None => {
                assert(old(self)@.failed_attempts.remove(key) =~= old(self)@.failed_attempts);
                let pending = self.pending_attempts.remove(&request.node_id, request.attempt);
                match (pending, self.artifact()) {
                    (Some(workspace), Some(artifact)) => WorkStart::Staged { workspace, artifact },
                    _ => {
                        let none: Vec<TaskRecord> = vec![];
                        assert(manifest::record_views(none@) =~= Seq::<TaskRecordView>::empty());
                        WorkStart::Finished(success_event(request, none))
                    },
                }
            },
        }
    }

    /// Notes the outcome of a validation and decides what follows: a failure
    /// is one more try, told what went wrong.
    pub fn conclude_validation(
        &mut self,
        request: &WorkIntegration,
        result: &ValidationResult,
    ) -> (next: AfterValidation)
        ensures
            final(self)@ == (ServiceView {
                last_validation_passed: Some(result.passed),
                ..old(self)@
            }),
            match next {
                AfterValidation::Integrate => result.passed,
                AfterValidation::Drop { event, reason } => {
                    let message = validation::retry_message(
                        result.summary@,
                        validation::failure_parts(result.failure),
                    );
                    &&& !result.passed
                    &&& reason@ == message
                    &&& event@ == (EventView::IntegrationFailed {
                        node_id: request.node_id@,
                        failure: retryable(FailureKind::ValidationFailure, message),
                    })
                },
            },
    {
        self.last_validation_passed = Some(result.passed);
        if result.passed {
            return AfterValidation::Integrate;
        }
        let message = validation_retry_message(result.summary.as_str(), &result.failure);
        AfterValidation::Drop {
            event: SchedulerEvent::IntegrationFailed {
                node_id: request.node_id.clone(),
                failure: retryable_failure(FailureKind::ValidationFailure, message.clone()),
            },
            reason: message,
        }
    }

    /// Moves the artifact on once work is integrated. A manifest that could
    /// not be written leaves the integrated commit in place and no rows.
    pub fn conclude_record(
        &mut self,
        request: &WorkIntegration,
        integrated: Artifact,
        recorded: Result<(Artifact, Vec<TaskRecord>), String>,
    ) -> (event: SchedulerEvent)
        ensures
            match recorded {
                Ok(r) => {
                    &&& final(self)@ == (ServiceView { artifact: Some(r.0@), ..old(self)@ })
                    &&& event@ == succeeded(request@, manifest::record_views(r.1@))
                },
                Err(_) => {
                    &&& final(self)@ == (ServiceView { artifact: Some(integrated@), ..old(self)@ })
                    &&& event@ == succeeded(request@, Seq::empty())
                },
            },
    {
        match recorded {
            Ok((artifact, tasks)) => {
                self.artifact = Some(artifact);
                success_event(request, tasks)
            },
            Err(_) => {
                self.artifact = Some(integrated);
                let none: Vec<TaskRecord> = vec![];
                assert(manifest::record_views(none@) =~= Seq::<TaskRecordView>::empty());
                success_event(request, none)
            },
        }
    }

    /// Moves the artifact on once planner tasks are recorded. Without an
    /// artifact there is no manifest to record them in, which is an error:
    /// no team would ever act on them.
    pub fn integrate_planner_tasks(
        &mut self,
        recorded: Result<(Artifact, Vec<TaskRecord>), String>,
    ) -> (tasks: Result<Vec<TaskRecord>, String>)
        ensures
            (final(self)@, manifest_result(tasks)) == after_planner_tasks(
                old(self)@,
                recorded_manifest(recorded),
            ),
    {
        if self.artifact.is_none() {
            return Err(
                "cannot integrate planner tasks: scheduler has no artifact wired (constructed via SchedulerHandler::new instead of ::with_artifact)".to_string(),
            );
        }
        match recorded {
            Ok((artifact, tasks)) => {
                self.artifact = Some(artifact);
                Ok(tasks)
            },
            Err(message) => Err(message),
        }
    }

    /// Tells the scheduler what recording a plan's tasks came to.
    pub fn integrate_plan_tasks(
        &mut self,
        node_id: NodeId,
        recorded: Result<(Artifact, Vec<TaskRecord>), String>,
    ) -> (event: SchedulerEvent)
        ensures
            ({
                let after = after_planner_tasks(old(self)@, recorded_manifest(recorded));
                &&& final(self)@ == after.0
                &&& event@ == planner_event(node_id@, after.1)
            }),
    {
        match self.integrate_planner_tasks(recorded) {
            Ok(manifest_tasks) => SchedulerEvent::PlannerTasksIntegrated { node_id, manifest_tasks },
            Err(message) => SchedulerEvent::PlannerTasksIntegrationFailed {
                node_id,
                failure: integration_failure(message),
            },
        }
    }
}

} // verus!
