//! What becomes of effects: what runners are told, how work is integrated, and
//! what the scheduler hears of it.

use vstd::prelude::*;

use crate::artifacts;
use crate::artifacts::{Artifact, ArtifactValue, WorkAttemptValue, Workspace};
use crate::dispatch;
use crate::dispatch::DispatchView;
use crate::effect::EffectView;
use crate::effect_steps;
use crate::effect_steps::{EffectAction, EffectStage, EffectStep};
use crate::event::{EventView, SchedulerEvent};
use crate::failure::FailureKind;
use crate::graph::NodeView;
use crate::integration;
use crate::integration::{Dropped, IntegrationError, ServiceView, WorkIntegration, WorkView};
use crate::laws::handling;
use crate::laws::handling::Taken;
use crate::laws::results;
use crate::machine;
use crate::manifest;
use crate::manifest::TaskRecordView;
use crate::node_runner::RunResultView;
use crate::teams::ConfigView;
use crate::telemetry::TelemetryEventView;
use crate::text;
use crate::text::Text;
use crate::types;
use crate::types::{FailureView, PlannerTaskView, RecoveryView};
use crate::validation;
use crate::validation_plan::{ValidationPlanView, ValidationResult};
use crate::work_steps;
use crate::work_steps::{WorkAction, WorkStage, WorkStep};

verus! {

// ── what is told ───────────────────────────────────────────────────────────

/// The event tells that the integration of a node failed, and that another
/// attempt is to be made.
pub open spec fn tells_to_retry(
    event: SchedulerEvent,
    node_id: Text,
    kind: FailureKind,
    message: Text,
) -> bool {
    event@ == (EventView::IntegrationFailed {
        node_id,
        failure: FailureView { kind, message, recovery: RecoveryView::Retry { message } },
    })
}

/// The event tells that the integration of a node failed for good.
pub open spec fn tells_to_halt(event: SchedulerEvent, node_id: Text, message: Text) -> bool {
    event@ == (EventView::IntegrationFailed {
        node_id,
        failure: FailureView {
            kind: FailureKind::IntegrationFailure,
            message,
            recovery: RecoveryView::Terminal { message },
        },
    })
}

/// The event tells that a node was integrated, with its summary and the rows
/// of the manifest.
pub open spec fn tells_success(
    event: SchedulerEvent,
    work: WorkView,
    rows: Seq<TaskRecordView>,
) -> bool {
    event@ == (EventView::IntegrationSucceeded {
        node_id: work.node_id,
        summary: work.summary,
        manifest: rows,
    })
}

/// A workspace of an attempt is let go for a reason.
pub open spec fn lets_go(
    dropped: Option<Dropped>,
    work: WorkView,
    workspace: Workspace,
    reason: Text,
) -> bool {
    dropped matches Some(d) && d.node_id@ == work.node_id && d.attempt == work.attempt
        && d.workspace == workspace && d.reason@ == reason
}

/// The row of integrated work: for its task, or for its node where it has
/// none, with the commit that holds it.
pub open spec fn is_row_of(row: TaskRecordView, work: WorkView, commit: Text, at: Text) -> bool {
    &&& row.id == match work.task_id {
        Some(task) => task,
        None => work.node_id,
    }
    &&& row.objective == work.objective
    &&& row.commit == commit
    &&& row.completed_at == at
    &&& row.team == Some(work.team)
    &&& row.task_kv.len() == 0
    &&& row.depends_on.len() == 0
}

// ── an integration ─────────────────────────────────────────────────────────

/// How an integration begins. An attempt that could not be started halts the
/// run, and its workspace is let go; without a workspace or an artifact there
/// is nothing to integrate. Otherwise the changes are asked for. The attempt is
/// forgotten, and nothing else.
pub proof fn law_integrations_begin_so(
    before: ServiceView,
    work: WorkView,
    step: WorkStep,
    after: ServiceView,
)
    requires
        work_steps::is_step(before, work, WorkStage::Requested, step, after),
    ensures
        step.record is None,
        ({
            let key = (work.node_id, work.attempt);
            if before.failed_attempts.dom().contains(key) {
                let error = before.failed_attempts[key];
                &&& step.action matches WorkAction::Report { event, dropped } && tells_to_halt(
                    event,
                    work.node_id,
                    error,
                ) && if before.pending_attempts.dom().contains(key) {
                    lets_go(dropped, work, before.pending_attempts[key], error)
                } else {
                    dropped is None
                }
                &&& after == (ServiceView {
                    pending_attempts: before.pending_attempts.remove(key),
                    failed_attempts: before.failed_attempts.remove(key),
                    ..before
                })
            } else {
                &&& after == (ServiceView {
                    pending_attempts: before.pending_attempts.remove(key),
                    ..before
                })
                &&& if before.pending_attempts.dom().contains(key) && before.artifact is Some {
                    step.action matches WorkAction::ListChanges { workspace, artifact }
                        && workspace == before.pending_attempts[key] && Some(artifact@)
                        == before.artifact
                } else {
                    step.action matches WorkAction::Report { event, dropped } && dropped is None
                        && tells_success(event, work, Seq::empty())
                }
            }
        }),
{
}

/// Changes are validated by the node's own plan where it has one, and by the
/// run's validator otherwise. Work without changes is tried again.
pub proof fn law_changes_are_validated_so(
    before: ServiceView,
    work: WorkView,
    workspace: Workspace,
    artifact: Artifact,
    changed_files: Vec<String>,
    step: WorkStep,
    after: ServiceView,
)
    requires
        work_steps::is_step(
            before,
            work,
            (WorkStage::Listed { workspace, artifact, changed_files }),
            step,
            after,
        ),
    ensures
        after == before,
        if changed_files@.len() == 0 {
            &&& step.record is None
            &&& step.action matches WorkAction::Report { event, dropped } && dropped is None
                && tells_to_retry(
                event,
                work.node_id,
                FailureKind::WorkSemanticValidationFailure,
                "accepted artifact Work produced no file changes in its WorkAttempt workspace"@,
            )
        } else {
            &&& step.record matches Some(r) && r@.event is ValidationStarted && r@.source
                == "Integration"@
            &&& match work.validation_plan {
                Some(own) => step.action matches WorkAction::RunPlan {
                    workspace: w,
                    artifact: a,
                    plan,
                    changed_files: c,
                } && w == workspace && a == artifact && plan@ == own && c == changed_files,
                None => step.action matches WorkAction::AskValidator { workspace: w, artifact: a }
                    && w == workspace && a == artifact,
            }
        },
{
}

/// What a validation leads to: what passed is committed, what did not is let
/// go and tried again, and the worker is told what was found. The verdict is
/// remembered and recorded with everything that is known of it.
pub proof fn law_verdicts_are_heeded_so(
    before: ServiceView,
    work: WorkView,
    workspace: Workspace,
    artifact: Artifact,
    result: ValidationResult,
    step: WorkStep,
    after: ServiceView,
)
    requires
        work_steps::is_step(
            before,
            work,
            (WorkStage::Validated { workspace, artifact, result }),
            step,
            after,
        ),
    ensures
        after == (ServiceView { last_validation_passed: Some(result.passed), ..before }),
        step.record matches Some(r) && r@.source == "Integration"@ && r@.event == if result.passed {
            TelemetryEventView::ValidationPassed { summary: result.summary@ }
        } else {
            TelemetryEventView::ValidationFailed {
                summary: result.summary@,
                command: match result.failure {
                    Some(f) => Some(f.command@),
                    None => None,
                },
                exit_code: match result.failure {
                    Some(f) => f.exit_code,
                    None => None,
                },
                stdout: match result.failure {
                    Some(f) => Some(f.stdout@),
                    None => None,
                },
                stderr: match result.failure {
                    Some(f) => Some(f.stderr@),
                    None => None,
                },
            }
        },
        if result.passed {
            step.action matches WorkAction::Commit { workspace: w, artifact: a } && w == workspace
                && a == artifact
        } else {
            let message = validation::retry_message(
                result.summary@,
                match result.failure {
                    Some(f) => Some((f.command@, f.exit_code, f.stdout@, f.stderr@)),
                    None => None,
                },
            );
            step.action matches WorkAction::Report { event, dropped } && tells_to_retry(
                event,
                work.node_id,
                FailureKind::ValidationFailure,
                message,
            ) && lets_go(dropped, work, workspace, message)
        },
{
}

/// What a commit leads to: a row for the manifest, one more try after a
/// conflict, the end of the run after anything else. What was refused is let
/// go.
pub proof fn law_commits_are_followed_so(
    before: ServiceView,
    work: WorkView,
    workspace: Workspace,
    outcome: Result<Artifact, IntegrationError>,
    completed_at: String,
    step: WorkStep,
    after: ServiceView,
)
    requires
        work_steps::is_step(
            before,
            work,
            (WorkStage::Committed { workspace, outcome, completed_at }),
            step,
            after,
        ),
    ensures
        after == before,
        step.record is None,
        match outcome {
            Ok(commit) => step.action matches WorkAction::Record {
                workspace: w,
                integrated,
                record,
            } && w == workspace && integrated == commit && is_row_of(
                record@,
                work,
                commit.commit_sha@,
                completed_at@,
            ),
            Err(IntegrationError::Conflict { message }) => step.action matches WorkAction::Report {
                event,
                dropped,
            } && tells_to_retry(event, work.node_id, FailureKind::IntegrationConflict, message@)
                && lets_go(dropped, work, workspace, message@),
            Err(IntegrationError::Other { message }) => step.action matches WorkAction::Report {
                event,
                dropped,
            } && tells_to_halt(event, work.node_id, message@) && lets_go(
                dropped,
                work,
                workspace,
                message@,
            ),
        },
{
}

/// How an integration ends: it is told as a success with the rows of the
/// manifest, and the artifact is the one with the manifest in it. Where the
/// manifest could not be written there are no rows, and the artifact is the one
/// with the changes.
pub proof fn law_integrations_end_so(
    before: ServiceView,
    work: WorkView,
    integrated: Artifact,
    recorded: Result<(Artifact, Vec<manifest::TaskRecord>), String>,
    step: WorkStep,
    after: ServiceView,
)
    requires
        work_steps::is_step(
            before,
            work,
            (WorkStage::Recorded { integrated, recorded }),
            step,
            after,
        ),
    ensures
        step.record is None,
        step.action matches WorkAction::Report { event, dropped } && dropped is None
            && match recorded {
            Ok((artifact, rows)) => tells_success(event, work, rows@.map_values(
                |r: manifest::TaskRecord| r@,
            )) && after == (ServiceView { artifact: Some(artifact@), ..before }),
            Err(_) => tells_success(event, work, Seq::empty()) && after == (ServiceView {
                artifact: Some(integrated@),
                ..before
            }),
        },
{
    if let Ok((artifact, rows)) = recorded {
        assert(rows@.map_values(|r: manifest::TaskRecord| r@) =~= manifest::record_views(rows@));
    }
}

// ── plans and commits ──────────────────────────────────────────────────────

/// The step runs the plan on the workspace, for the work.
pub open spec fn runs_plan(
    t: Taken,
    work: WorkView,
    workspace: Workspace,
    own: ValidationPlanView,
) -> bool {
    match t.step.action {
        EffectAction::Integrate {
            request,
            action: WorkAction::RunPlan { workspace: w, plan, .. },
        } => request@ == work && w == workspace && plan@ == own,
        _ => false,
    }
}

/// Work that has a validation plan is committed only after that very plan was
/// run on the very workspace that is committed, and passed.
pub proof fn law_plans_gate_commits(
    start: ServiceView,
    taken: Seq<Taken>,
    i: int,
    request: WorkIntegration,
    workspace: Workspace,
    artifact: Artifact,
    own: ValidationPlanView,
)
    requires
        handling::is_course(start, taken),
        0 <= i < taken.len(),
        taken[i].step.action == (EffectAction::Integrate {
            request,
            action: WorkAction::Commit { workspace, artifact },
        }),
        request@.validation_plan == Some(own),
    ensures
        taken[i].stage matches EffectStage::Integrating {
            stage: WorkStage::Validated { workspace: w, result, .. },
            ..
        } && w == workspace && result.passed,
        exists|j: int|
            0 <= j < i && runs_plan(#[trigger] taken[j], request@, workspace, own)
                && handling::answers(start.validator, taken[j].step.action, taken[i].stage),
{
    assert(handling::is_in_order(start, taken, i));
    let stage = taken[i].stage;
    assert(stage !is Emitted);
    let j = choose|j: int|
        0 <= j < i && handling::answers(start.validator, #[trigger] taken[j].step.action, stage);
    assert(handling::is_in_order(start, taken, j));
    assert(taken[j].step.action is Integrate);
}

/// The effect asks to integrate exactly this work.
pub open spec fn asks_to_integrate(effect: EffectView, work: WorkView) -> bool {
    effect matches EffectView::IntegrateWork {
        node_id,
        objective,
        summary,
        attempt,
        target_files,
        validation_plan,
        team,
        task_id,
    } && node_id == work.node_id && objective == work.objective && summary == work.summary
        && attempt == work.attempt && target_files == work.target_files && validation_plan
        == work.validation_plan && team == work.team && task_id == work.task_id
}

/// The step begins an effect that asks to integrate the work.
pub open spec fn emits(t: Taken, work: WorkView) -> bool {
    match t.stage {
        EffectStage::Emitted(effect) => asks_to_integrate(effect@, work),
        _ => false,
    }
}

/// Every integration comes of an effect that asked for exactly that work.
pub proof fn law_integrations_come_of_effects(
    start: ServiceView,
    taken: Seq<Taken>,
    i: int,
    request: WorkIntegration,
)
    requires
        handling::is_course(start, taken),
        0 <= i < taken.len(),
        taken[i].step.action matches EffectAction::Integrate { request: r, .. } && r == request,
    ensures
        exists|k: int|
            0 <= k <= i && emits(#[trigger] taken[k], request@),
    decreases i,
{
    assert(handling::is_in_order(start, taken, i));
    let stage = taken[i].stage;
    match stage {
        EffectStage::Emitted(effect) => {
            assert(emits(taken[i], request@));
        },
        _ => {
            let j = choose|j: int|
                0 <= j < i && handling::answers(
                    start.validator,
                    #[trigger] taken[j].step.action,
                    stage,
                );
            assert(taken[j].step.action is Integrate);
            if let EffectAction::Integrate { request: earlier, .. } = taken[j].step.action {
                law_integrations_come_of_effects(start, taken, j, earlier);
                assert(earlier@ == request@);
                let k = choose|k: int|
                    0 <= k <= j && emits(#[trigger] taken[k], earlier@);
                assert(emits(taken[k], request@));
            }
        },
    }
}

/// From the node to the commit: where the effects to integrate a node are
/// those that followed its accepted work, and the node has a validation plan,
/// its work is committed only after that plan was run on it and passed.
pub proof fn law_nodes_are_committed_by_their_own_plan(
    g: Seq<NodeView>,
    config: ConfigView,
    event: EventView,
    ids: Seq<Text>,
    n: int,
    own: ValidationPlanView,
    start: ServiceView,
    taken: Seq<Taken>,
    i: int,
    request: WorkIntegration,
    workspace: Workspace,
    artifact: Artifact,
)
    requires
        event is WorkAccepted,
        results::in_turn(g, config, event, n),
        g[n].validation_plan == Some(own),
        handling::is_course(start, taken),
        forall|k: int|
            0 <= k < taken.len() ==> match (#[trigger] taken[k]).stage {
                EffectStage::Emitted(effect) => effect@ is IntegrateWork ==> effect@
                    == results::result(g, config, event, ids).effects[0],
                _ => true,
            },
        0 <= i < taken.len(),
        taken[i].step.action == (EffectAction::Integrate {
            request,
            action: WorkAction::Commit { workspace, artifact },
        }),
    ensures
        request@.node_id == g[n].id,
        taken[i].stage matches EffectStage::Integrating {
            stage: WorkStage::Validated { workspace: w, result, .. },
            ..
        } && w == workspace && result.passed,
        exists|j: int|
            0 <= j < i && runs_plan(#[trigger] taken[j], request@, workspace, own)
                && handling::answers(start.validator, taken[j].step.action, taken[i].stage),
{
    results::law_accepted_work_is_handed_on(g, config, event, ids, n);
    law_integrations_come_of_effects(start, taken, i, request);
    let k = choose|k: int| 0 <= k <= i && emits(#[trigger] taken[k], request@);
    assert(taken[k].stage is Emitted);
    assert(request@.validation_plan == Some(own));
    law_plans_gate_commits(start, taken, i, request, workspace, artifact, own);
}

// ── running nodes ──────────────────────────────────────────────────────────

/// The dispatch says what the effect says.
pub open spec fn dispatches(effect: EffectView, command: DispatchView) -> bool {
    effect matches EffectView::RunNode {
        node_id,
        worker_role,
        kind,
        objective,
        target_files,
        test_plan_context,
        model_tier,
        attempt,
        retry_feedback,
        team,
        adapter,
        northstar,
    } && command.node_id == node_id && command.worker_role == worker_role && command.kind == kind
        && command.objective == objective && command.target_files == target_files
        && command.test_plan_context == test_plan_context && command.model_tier == model_tier
        && command.attempt == attempt && command.retry_feedback == retry_feedback && command.team
        == team && command.adapter == adapter && command.northstar == northstar
}

/// How an effect begins. Work on an artifact gets a workspace first; other
/// nodes run at once, without one. Either way the dispatch says what the effect
/// says. Planner tasks need an artifact to be recorded in.
pub proof fn law_effects_begin_so(
    before: ServiceView,
    effect: crate::effect::SchedulerEffect,
    step: EffectStep,
    after: ServiceView,
)
    requires
        effect_steps::is_step(before, EffectStage::Emitted(effect), step, after),
    ensures
        match effect@ {
            EffectView::RunNode { kind, .. } => {
                &&& after == before
                &&& step.record is None
                &&& if kind is Work && before.artifact is Some {
                    step.action matches EffectAction::PrepareAttempt { command, artifact }
                        && dispatches(effect@, command@) && Some(artifact@) == before.artifact
                } else {
                    step.action matches EffectAction::RunNode { command, artifact, work_attempt }
                        && dispatches(effect@, command@) && work_attempt is None && match artifact {
                        Some(a) => before.artifact == Some(a@),
                        None => before.artifact is None,
                    }
                }
            },
            EffectView::IntegrateWork { .. } => exists|work: WorkView|
                asks_to_integrate(effect@, work) && #[trigger] effect_steps::is_integration_step(
                    before,
                    work,
                    WorkStage::Requested,
                    step,
                    after,
                ),
            EffectView::IntegratePlannerTasks { node_id, tasks, team } => {
                &&& after == before
                &&& step.record is None
                &&& if before.artifact is Some {
                    step.action matches EffectAction::PrepareManifest {
                        node_id: n,
                        tasks: t,
                        team: o,
                        artifact,
                    } && n@ == node_id && types::task_views(t@) == tasks && o@ == team && Some(
                        artifact@,
                    ) == before.artifact
                } else {
                    step.action matches EffectAction::Report { event, dropped } && dropped is None
                        && (event@ matches EventView::PlannerTasksIntegrationFailed {
                        node_id: n,
                        failure,
                    } && n == node_id && failure.kind is IntegrationFailure
                        && failure.recovery == (RecoveryView::Terminal { message: failure.message }))
                }
            },
        },
{
    match effect@ {
        EffectView::IntegrateWork {
            node_id,
            objective,
            summary,
            attempt,
            target_files,
            validation_plan,
            team,
            task_id,
        } => {
            let work = WorkView {
                node_id,
                objective,
                summary,
                attempt,
                target_files,
                validation_plan,
                team,
                task_id,
            };
            assert(asks_to_integrate(effect@, work));
            assert(effect_steps::is_integration_step(
                before,
                work,
                WorkStage::Requested,
                step,
                after,
            ));
        },
        _ => {},
    }
}

/// What an effect asks for on behalf of an integration is what the integration
/// asks for, for the same work; and what the integration tells is told.
pub proof fn law_integrations_are_passed_on(
    before: ServiceView,
    work: WorkView,
    stage: WorkStage,
    step: EffectStep,
    after: ServiceView,
)
    requires
        effect_steps::is_integration_step(before, work, stage, step, after),
    ensures
        match step.action {
            EffectAction::Report { event, dropped } => work_steps::is_step(
                before,
                work,
                stage,
                (WorkStep { record: step.record, action: WorkAction::Report { event, dropped } }),
                after,
            ),
            EffectAction::Integrate { request, action } => request@ == work
                && work_steps::is_step(
                before,
                work,
                stage,
                (WorkStep { record: step.record, action }),
                after,
            ),
            _ => false,
        },
{
}

/// A node whose workspace was made runs in it, and the workspace is kept for
/// its integration. Where none could be made, the node runs without one, and
/// why is kept.
pub proof fn law_attempts_are_prepared_so(
    before: ServiceView,
    command: dispatch::RunNodeDispatch,
    created: Result<Workspace, String>,
    step: EffectStep,
    after: ServiceView,
)
    requires
        effect_steps::is_step(
            before,
            (EffectStage::AttemptReady { command, created }),
            step,
            after,
        ),
        before.artifact is Some,
    ensures
        ({
            let key = (command.node_id@, command.attempt);
            &&& step.record is None
            &&& step.action matches EffectAction::RunNode { command: c, artifact, work_attempt }
                && c == command && (artifact matches Some(a) && before.artifact == Some(a@))
                && match created {
                Ok(workspace) => {
                    &&& work_attempt matches Some(a) && a.attempt == command.attempt
                        && a.workspace@ == workspace@
                    &&& after == (ServiceView {
                        pending_attempts: before.pending_attempts.insert(key, workspace),
                        ..before
                    })
                },
                Err(error) => {
                    &&& work_attempt is None
                    &&& after == (ServiceView {
                        failed_attempts: before.failed_attempts.insert(
                            key,
                            "worktree creation failed: "@ + error@,
                        ),
                        ..before
                    })
                },
            }
        }),
{
}

/// What a node returns is told as it is. Accepted work keeps its workspace for
/// integration; any other result of an attempt lets it go, for the message of
/// the failure or with the plan quoted.
pub proof fn law_results_are_told_as_they_are(
    before: ServiceView,
    event: SchedulerEvent,
    work_attempt: Option<artifacts::WorkAttempt>,
    quoted: String,
    step: EffectStep,
    after: ServiceView,
)
    requires
        effect_steps::is_step(
            before,
            (EffectStage::NodeReturned { event, work_attempt, quoted }),
            step,
            after,
        ),
    ensures
        step.record is None,
        step.action matches EffectAction::Report { event: e, dropped } && e == event && {
            let key = (results::subject(event@), work_attempt->0.attempt);
            let reason = match event@ {
                EventView::NodeFailed { failure, .. } => Some(failure.message),
                EventView::PlanAccepted { .. } => Some(
                    "work attempt rejected with event: "@ + quoted@,
                ),
                _ => None,
            };
            if work_attempt is Some && reason is Some {
                &&& after == (ServiceView {
                    pending_attempts: before.pending_attempts.remove(key),
                    failed_attempts: before.failed_attempts.remove(key),
                    ..before
                })
                &&& if before.pending_attempts.dom().contains(key) {
                    dropped matches Some(d) && d.node_id@ == results::subject(event@) && d.attempt
                        == work_attempt->0.attempt && d.workspace == before.pending_attempts[key]
                        && Some(d.reason@) == reason
                } else {
                    dropped is None
                }
            } else {
                after == before && dropped is None
            }
        },
{
    assert(machine::node_of(event@) == results::subject(event@));
}

// ── planner tasks ──────────────────────────────────────────────────────────

/// The row of a planner's task: the task as it was planned, without a commit.
pub open spec fn is_row_of_task(
    row: TaskRecordView,
    task: PlannerTaskView,
    team: Text,
    at: Text,
) -> bool {
    &&& row.id == task.id
    &&& row.objective == task.objective
    &&& row.commit.len() == 0
    &&& row.completed_at == at
    &&& row.team == Some(team)
    &&& row.task_kv == task.task_kv
    &&& row.depends_on == task.depends_on
}

/// A planner's tasks are recorded one for one and in order, as they were
/// planned, for the planner's team.
pub proof fn law_tasks_are_recorded_as_planned(
    before: ServiceView,
    node_id: crate::graph::NodeId,
    tasks: Vec<types::PlannerTaskOutput>,
    team: String,
    artifact: Artifact,
    workspace: Workspace,
    completed_at: String,
    step: EffectStep,
    after: ServiceView,
)
    requires
        effect_steps::is_step(
            before,
            (EffectStage::ManifestReady {
                node_id,
                tasks,
                team,
                artifact,
                created: Ok(workspace),
                completed_at,
            }),
            step,
            after,
        ),
    ensures
        after == before,
        step.record is None,
        step.action matches EffectAction::RecordTasks {
            node_id: n,
            artifact: a,
            workspace: w,
            records,
        } && n == node_id && a == artifact && w == workspace && records@.len() == tasks@.len() && (
        forall|x: int|
            0 <= x < tasks@.len() ==> is_row_of_task(
                (#[trigger] records@[x])@,
                tasks@[x]@,
                team@,
                completed_at@,
            )),
{
    if let EffectAction::RecordTasks { records, .. } = step.action {
        let views = manifest::record_views(records@);
        let planned = types::task_views(tasks@);
        assert(views.len() == records@.len());
        assert(planned.len() == tasks@.len());
        assert forall|x: int| 0 <= x < tasks@.len() implies is_row_of_task(
            (#[trigger] records@[x])@,
            tasks@[x]@,
            team@,
            completed_at@,
        ) by {
            assert(views[x] == records@[x]@);
            assert(planned[x] == tasks@[x]@);
            assert(views[x] == integration::planner_record(planned[x], team@, completed_at@));
        }
    }
}

/// Where no workspace could be made for the manifest, the run halts and is
/// told why; nothing is recorded.
pub proof fn law_manifests_without_workspaces_halt(
    before: ServiceView,
    node_id: crate::graph::NodeId,
    tasks: Vec<types::PlannerTaskOutput>,
    team: String,
    artifact: Artifact,
    error: String,
    completed_at: String,
    step: EffectStep,
    after: ServiceView,
)
    requires
        before.artifact is Some,
        effect_steps::is_step(
            before,
            (EffectStage::ManifestReady {
                node_id,
                tasks,
                team,
                artifact,
                created: Err(error),
                completed_at,
            }),
            step,
            after,
        ),
    ensures
        after == before,
        step.record is None,
        step.action matches EffectAction::Report { event, dropped } && dropped is None && (
        event@ matches EventView::PlannerTasksIntegrationFailed { node_id: n, failure } && n
            == node_id@ && failure.kind is IntegrationFailure && failure.message
            == "worktree creation failed: "@ + error@ && failure.recovery == (
        RecoveryView::Terminal { message: failure.message })),
{
}

/// Without an artifact a node runs without a workspace, and nothing is kept.
pub proof fn law_attempts_without_artifacts_keep_nothing(
    before: ServiceView,
    command: dispatch::RunNodeDispatch,
    created: Result<Workspace, String>,
    step: EffectStep,
    after: ServiceView,
)
    requires
        effect_steps::is_step(
            before,
            (EffectStage::AttemptReady { command, created }),
            step,
            after,
        ),
        before.artifact is None,
    ensures
        after == before,
        step.record is None,
        step.action matches EffectAction::RunNode { command: c, artifact, work_attempt } && c
            == command && artifact is None && work_attempt is None,
{
}

/// A handler starts with its artifact and nothing else: no attempt is known,
/// none has failed, nothing was validated, and there is no validator.
pub proof fn law_handlers_start_with_nothing(
    artifact: Option<ArtifactValue>,
    key: (Text, u32),
)
    ensures
        ({
            let service = integration::idle(artifact);
            &&& service.artifact == artifact
            &&& !service.pending_attempts.dom().contains(key)
            &&& !service.failed_attempts.dom().contains(key)
            &&& service.validator is None
            &&& service.last_validation_passed is None
        }),
{
}

/// Without a validator everything passes.
pub proof fn law_everything_passes_without_a_validator(
    workspace: Workspace,
    result: ValidationResult,
)
    requires
        validation::may_judge(None, workspace, result),
    ensures
        result.passed,
        result.failure is None,
{
}

/// What recording a planner's tasks leads to: the artifact moves on and the
/// rows of the manifest are told; what went wrong halts the run. Without an
/// artifact nothing is recorded.
pub proof fn law_recorded_tasks_are_told(
    before: ServiceView,
    node_id: crate::graph::NodeId,
    recorded: Result<(Artifact, Vec<manifest::TaskRecord>), String>,
    step: EffectStep,
    after: ServiceView,
)
    requires
        effect_steps::is_step(
            before,
            (EffectStage::TasksRecorded { node_id, recorded }),
            step,
            after,
        ),
    ensures
        step.record is None,
        step.action matches EffectAction::Report { event, dropped } && dropped is None && (match (
            before.artifact,
            recorded,
        ) {
            (Some(_), Ok((artifact, rows))) => after == (ServiceView {
                artifact: Some(artifact@),
                ..before
            }) && event@ == (EventView::PlannerTasksIntegrated {
                node_id: node_id@,
                manifest: rows@.map_values(|r: manifest::TaskRecord| r@),
            }),
            (Some(_), Err(message)) => after == before && event@ == (
            EventView::PlannerTasksIntegrationFailed {
                node_id: node_id@,
                failure: FailureView {
                    kind: FailureKind::IntegrationFailure,
                    message: message@,
                    recovery: RecoveryView::Terminal { message: message@ },
                },
            }),
            (None, _) => after == before && event@ is PlannerTasksIntegrationFailed,
        }),
{
    if let Ok((artifact, rows)) = recorded {
        assert(rows@.map_values(|r: manifest::TaskRecord| r@) =~= manifest::record_views(rows@));
    }
}

// ── what runners are told and tell ─────────────────────────────────────────

/// A runner is told what the dispatch says, which commit the artifact is at,
/// and where to work. Its objective is that of the node; where there is
/// feedback, the objective comes first and the feedback last.
pub proof fn law_runners_are_told_the_dispatch(
    command: DispatchView,
    artifact: Option<ArtifactValue>,
    work_attempt: Option<WorkAttemptValue>,
)
    ensures
        ({
            let request = dispatch::run_request(command, artifact, work_attempt);
            &&& request.node_id == command.node_id
            &&& request.kind == command.kind
            &&& request.target_files == command.target_files
            &&& request.test_plan_context == command.test_plan_context
            &&& request.model_tier == command.model_tier
            &&& request.attempt == command.attempt
            &&& request.team == command.team
            &&& request.adapter == command.adapter
            &&& request.northstar == command.northstar
            &&& request.worker_role == command.worker_role
            &&& request.work_attempt == work_attempt
            &&& match (artifact, request.artifact_view) {
                (Some(a), Some(v)) => v.repo_path == a.repo_path && v.commit_sha == a.commit_sha,
                (None, None) => true,
                _ => false,
            }
            &&& match command.retry_feedback {
                None => request.objective == command.objective,
                Some(feedback) => exists|between: Text|
                    request.objective == #[trigger] (command.objective + between) + feedback
                        && between.len() > 0 && forall|f: int|
                        0 <= f < command.target_files.len() ==> text::occurs_in(
                            #[trigger] command.target_files[f],
                            between,
                        ),
            }
        }),
{
    if let Some(feedback) = command.retry_feedback {
        reveal_strlit("\n");
        let files = if command.target_files.len() == 0 {
            "(none specified)"@
        } else {
            text::join(command.target_files, ", "@)
        };
        let lead = "\n\nValidation feedback for retry:\nTarget files: "@;
        let between = lead + files + "\n"@;
        let request = dispatch::run_request(command, artifact, work_attempt);
        assert(request.objective =~= (command.objective + between) + feedback);
        assert forall|f: int| 0 <= f < command.target_files.len() implies text::occurs_in(
            #[trigger] command.target_files[f],
            between,
        ) by {
            let p = lemma_joined(command.target_files, ", "@, f);
            let file = command.target_files[f];
            assert(between.subrange(lead.len() + p, lead.len() + p + file.len()) =~= file);
            assert(text::occurs_at(file, between, lead.len() + p));
        }
    }
}

/// Each part of a joined text stands in it.
proof fn lemma_joined(parts: Seq<Text>, separator: Text, f: int) -> (p: int)
    requires
        0 <= f < parts.len(),
    ensures
        0 <= p,
        p + parts[f].len() <= text::join(parts, separator).len(),
        text::join(parts, separator).subrange(p, p + parts[f].len()) == parts[f],
    decreases parts.len(),
{
    let whole = text::join(parts, separator);
    if parts.len() == 1 {
        assert(whole.subrange(0, parts[f].len() as int) =~= parts[f]);
        0
    } else if f == parts.len() - 1 {
        let p = whole.len() - parts[f].len();
        assert(whole.subrange(p, p + parts[f].len()) =~= parts[f]);
        p
    } else {
        let p = lemma_joined(parts.drop_last(), separator, f);
        let front = text::join(parts.drop_last(), separator);
        assert(parts.drop_last()[f] == parts[f]);
        assert(whole.subrange(p, p + parts[f].len()) =~= front.subrange(p, p + parts[f].len()));
        p
    }
}

/// What a runner returns is told of its node as it is.
pub proof fn law_runners_are_quoted(node_id: Text, result: RunResultView)
    ensures
        match (result, dispatch::result_event(node_id, result)) {
            (
                RunResultView::PlanAccepted { children, tasks },
                EventView::PlanAccepted { node_id: n, children: c, tasks: t },
            ) => n == node_id && c == children && t == tasks,
            (
                RunResultView::WorkAccepted { summary },
                EventView::WorkAccepted { node_id: n, summary: s },
            ) => n == node_id && s == summary,
            (
                RunResultView::Failed(failure),
                EventView::NodeFailed { node_id: n, failure: f },
            ) => n == node_id && f == failure,
            _ => false,
        },
{
}

} // verus!
