//! The course of an effect, step by step.
//!
//! Runners, validators and version control work between the steps: a step
//! takes what came of the last thing that was asked for, and says what to ask
//! for next, until there is something to tell the scheduler.

use vstd::prelude::*;

use crate::artifacts;
use crate::artifacts::{Artifact, WorkAttempt, Workspace};
use crate::attempts;
use crate::dispatch::RunNodeDispatch;
use crate::effect::SchedulerEffect;
use crate::event::SchedulerEvent;
use crate::graph::NodeId;
use crate::handler;
use crate::handler::{effect_work, EffectWork, EffectWorkView, SchedulerHandler};
use crate::integration;
use crate::integration::{
    planner_records, worktree_failure_message, Dropped, ServiceView, WorkIntegration, WorkView,
};
use crate::machine;
use crate::manifest;
use crate::manifest::TaskRecord;
use crate::node_runner::NodeRunner;
use crate::telemetry::TelemetryRecord;
use crate::text::Text;
use crate::types;
use crate::types::{PlannerTaskOutput, PlannerTaskView};
use crate::work_steps;
use crate::work_steps::{WorkAction, WorkStage, WorkStep};

verus! {

/// How far an effect has come: what was last asked for, and what came of it.
pub enum EffectStage {
    /// The scheduler emits the effect.
    Emitted(SchedulerEffect),
    /// The workspace of an attempt is made, or could not be.
    AttemptReady {
        /// The dispatch.
        command: RunNodeDispatch,
        /// The workspace.
        created: Result<Workspace, String>,
    },
    /// The node has run.
    NodeReturned {
        /// What it returned.
        event: SchedulerEvent,
        /// The attempt it ran in.
        work_attempt: Option<WorkAttempt>,
        /// What it returned, as text.
        quoted: String,
    },
    /// An integration goes on.
    Integrating {
        /// The work.
        request: WorkIntegration,
        /// How far it has come.
        stage: WorkStage,
    },
    /// The workspace for a plan's tasks is made, or could not be.
    ManifestReady {
        /// The plan node.
        node_id: NodeId,
        /// Its tasks.
        tasks: Vec<PlannerTaskOutput>,
        /// Its team.
        team: String,
        /// The artifact as it stands.
        artifact: Artifact,
        /// The workspace.
        created: Result<Workspace, String>,
        /// When it was made.
        completed_at: String,
    },
    /// The tasks are written into the manifest, or could not be.
    TasksRecorded {
        /// The plan node.
        node_id: NodeId,
        /// The artifact with the manifest in it, and the manifest.
        recorded: Result<(Artifact, Vec<TaskRecord>), String>,
    },
}

/// What to do next.
pub enum EffectAction {
    /// Tell the scheduler. What is dropped is recorded before.
    Report {
        /// What it is told.
        event: SchedulerEvent,
        /// What is dropped.
        dropped: Option<Dropped>,
    },
    /// Make the workspace of an attempt.
    PrepareAttempt {
        /// The dispatch.
        command: RunNodeDispatch,
        /// The artifact as it stands.
        artifact: Artifact,
    },
    /// Run the node.
    RunNode {
        /// The dispatch.
        command: RunNodeDispatch,
        /// The artifact as it stands.
        artifact: Option<Artifact>,
        /// The attempt to run it in.
        work_attempt: Option<WorkAttempt>,
    },
    /// Go on with an integration.
    Integrate {
        /// The work.
        request: WorkIntegration,
        /// What to do; never a report.
        action: WorkAction,
    },
    /// Make the workspace for a plan's tasks.
    PrepareManifest {
        /// The plan node.
        node_id: NodeId,
        /// Its tasks.
        tasks: Vec<PlannerTaskOutput>,
        /// Its team.
        team: String,
        /// The artifact as it stands.
        artifact: Artifact,
    },
    /// Write the tasks into the manifest.
    RecordTasks {
        /// The plan node.
        node_id: NodeId,
        /// The artifact as it stands.
        artifact: Artifact,
        /// The workspace.
        workspace: Workspace,
        /// The rows.
        records: Vec<TaskRecord>,
    },
}

/// One step of an effect.
pub struct EffectStep {
    /// What is recorded before anything else.
    pub record: Option<TelemetryRecord>,
    /// What to do next.
    pub action: EffectAction,
}

// ── what a step is ─────────────────────────────────────────────────────────

/// Whether a step reports an event and drops nothing.
pub open spec fn reports(action: EffectAction, event: crate::event::EventView) -> bool {
    action matches EffectAction::Report { event: e, dropped } && e@ == event && dropped is None
}

/// Whether a step is that of an integration: what the integration reports is
/// reported, anything else is asked for on its behalf.
pub open spec fn is_integration_step(
    before: ServiceView,
    work: WorkView,
    stage: WorkStage,
    step: EffectStep,
    after: ServiceView,
) -> bool {
    match step.action {
        EffectAction::Report { event, dropped } => work_steps::is_step(
            before,
            work,
            stage,
            (WorkStep { record: step.record, action: WorkAction::Report { event, dropped } }),
            after,
        ),
        EffectAction::Integrate { request, action } => request@ == work && !(action is Report)
            && work_steps::is_step(
            before,
            work,
            stage,
            (WorkStep { record: step.record, action }),
            after,
        ),
        _ => false,
    }
}

/// The first step. Work on an artifact needs a workspace, other nodes run at
/// once. Recording tasks needs an artifact.
pub open spec fn begins(
    before: ServiceView,
    work: EffectWorkView,
    step: EffectStep,
    after: ServiceView,
) -> bool {
    match work {
        EffectWorkView::Run(dispatch) => {
            &&& after == before
            &&& step.record is None
            &&& if dispatch.kind is Work && before.artifact is Some {
                step.action matches EffectAction::PrepareAttempt { command, artifact } && command@
                    == dispatch && Some(artifact@) == before.artifact
            } else {
                step.action matches EffectAction::RunNode { command, artifact, work_attempt }
                    && command@ == dispatch && artifacts::opt_artifact(artifact) == before.artifact
                    && work_attempt is None
            }
        },
        EffectWorkView::IntegrateWork(integration) => is_integration_step(
            before,
            integration,
            WorkStage::Requested,
            step,
            after,
        ),
        EffectWorkView::IntegratePlannerTasks { node_id, tasks, team } => {
            &&& after == before
            &&& step.record is None
            &&& if before.artifact is Some {
                step.action matches EffectAction::PrepareManifest {
                    node_id: n,
                    tasks: t,
                    team: o,
                    artifact,
                } && n@ == node_id && types::task_views(t@) == tasks && o@ == team && Some(
                    artifact@,
                ) == before.artifact
            } else {
                reports(
                    step.action,
                    integration::planner_event(node_id, Err(integration::no_artifact_message())),
                )
            }
        },
    }
}

/// What a service is once the workspace of an attempt is made or could not
/// be, and the attempt to run in.
pub open spec fn is_prepared(
    before: ServiceView,
    key: (Text, u32),
    created: Result<Workspace, String>,
    work_attempt: Option<WorkAttempt>,
    after: ServiceView,
) -> bool {
    if before.artifact is None {
        work_attempt is None && after == before
    } else {
        match created {
            Ok(workspace) => {
                &&& work_attempt matches Some(a) && a.attempt == key.1 && a.workspace@
                    == workspace@
                &&& after == (ServiceView {
                    pending_attempts: before.pending_attempts.insert(key, workspace),
                    ..before
                })
            },
            Err(error) => {
                &&& work_attempt is None
                &&& after == (ServiceView {
                    failed_attempts: before.failed_attempts.insert(
                        key,
                        integration::worktree_failure(error@),
                    ),
                    ..before
                })
            },
        }
    }
}

/// Whether a step is the one that follows a stage.
pub open spec fn is_step(
    before: ServiceView,
    stage: EffectStage,
    step: EffectStep,
    after: ServiceView,
) -> bool {
    match stage {
        EffectStage::Emitted(effect) => begins(before, handler::work_of(effect@), step, after),
        EffectStage::AttemptReady { command, created } => {
            &&& step.record is None
            &&& step.action matches EffectAction::RunNode { command: c, artifact, work_attempt }
                && c == command && artifacts::opt_artifact(artifact) == before.artifact
                && is_prepared(
                before,
                (command.node_id@, command.attempt),
                created,
                work_attempt,
                after,
            )
        },
        // What a rejected attempt changed is dropped.
        EffectStage::NodeReturned { event, work_attempt, quoted } => {
            &&& step.record is None
            &&& step.action matches EffectAction::Report { event: e, dropped } && e == event
                && match (handler::rejection(event@, quoted@), work_attempt) {
                (Some(reason), Some(a)) => {
                    let key = (machine::node_of(event@), a.attempt);
                    &&& integration::drops(
                        dropped,
                        key,
                        attempts::at(before.pending_attempts, key),
                        reason,
                    )
                    &&& after == (ServiceView {
                        pending_attempts: before.pending_attempts.remove(key),
                        failed_attempts: before.failed_attempts.remove(key),
                        ..before
                    })
                },
                _ => dropped is None && after == before,
            }
        },
        EffectStage::Integrating { request, stage } => is_integration_step(
            before,
            request@,
            stage,
            step,
            after,
        ),
        EffectStage::ManifestReady { node_id, tasks, team, artifact, created, completed_at } => {
            &&& step.record is None
            &&& after == before
            &&& match created {
                Ok(workspace) => step.action matches EffectAction::RecordTasks {
                    node_id: n,
                    artifact: a,
                    workspace: w,
                    records,
                } && n == node_id && a == artifact && w == workspace && manifest::record_views(
                    records@,
                ) == types::task_views(tasks@).map_values(
                    |t: PlannerTaskView| integration::planner_record(t, team@, completed_at@),
                ),
                Err(error) => reports(
                    step.action,
                    integration::planner_event(
                        node_id@,
                        integration::after_planner_tasks(
                            before,
                            Err(integration::worktree_failure(error@)),
                        ).1,
                    ),
                ),
            }
        },
        EffectStage::TasksRecorded { node_id, recorded } => {
            let outcome = integration::after_planner_tasks(
                before,
                integration::recorded_manifest(recorded),
            );
            &&& step.record is None
            &&& after == outcome.0
            &&& reports(step.action, integration::planner_event(node_id@, outcome.1))
        },
    }
}

// ── laws ───────────────────────────────────────────────────────────────────

/// Running a node never moves the artifact: only an integration that succeeds
/// does, or planner tasks that are recorded.
pub proof fn law_running_leaves_the_artifact(
    before: ServiceView,
    stage: EffectStage,
    step: EffectStep,
    after: ServiceView,
)
    requires
        is_step(before, stage, step, after),
        after.artifact != before.artifact,
    ensures
        step.action matches EffectAction::Report { event, .. } && (event@
            is IntegrationSucceeded || event@ is PlannerTasksIntegrated),
{
    match stage {
        EffectStage::Emitted(effect) => {},
        EffectStage::Integrating { request, stage } => {},
        _ => {},
    }
}

/// A node that is dispatched sees the artifact as it then stands.
pub proof fn law_nodes_see_the_current_artifact(
    before: ServiceView,
    stage: EffectStage,
    step: EffectStep,
    after: ServiceView,
)
    requires
        is_step(before, stage, step, after),
        step.action is RunNode,
    ensures
        step.action matches EffectAction::RunNode { artifact, .. } && artifacts::opt_artifact(
            artifact,
        ) == before.artifact && before.artifact == after.artifact,
{
}

/// What a workspace holds that an attempt leaves behind is never lost in
/// silence: an attempt that had one and is forgotten without being integrated
/// hands it out to be recorded.
pub proof fn law_rejected_attempts_are_handed_out(
    before: ServiceView,
    stage: EffectStage,
    step: EffectStep,
    after: ServiceView,
    key: (Text, u32),
)
    requires
        is_step(before, stage, step, after),
        before.pending_attempts.contains_key(key),
        !after.pending_attempts.contains_key(key),
    ensures
        match step.action {
            EffectAction::Report { event, dropped } => event@ is IntegrationSucceeded || (
            dropped matches Some(d) && d.workspace == before.pending_attempts[key]),
            EffectAction::Integrate { action, .. } => action matches WorkAction::ListChanges {
                workspace,
                ..
            } && workspace == before.pending_attempts[key],
            _ => false,
        },
{
    match stage {
        EffectStage::Emitted(effect) => {},
        EffectStage::Integrating { request, stage } => {},
        _ => {},
    }
}

// ── taking a step ──────────────────────────────────────────────────────────

fn integration_step(request: WorkIntegration, step: WorkStep) -> (out: EffectStep)
    ensures
        out.record == step.record,
        match step.action {
            WorkAction::Report { event, dropped } => out.action == (EffectAction::Report {
                event,
                dropped,
            }),
            _ => out.action == (EffectAction::Integrate { request, action: step.action }),
        },
{
    match step.action {
        WorkAction::Report { event, dropped } => EffectStep {
            record: step.record,
            action: EffectAction::Report { event, dropped },
        },
        action => EffectStep {
            record: step.record,
            action: EffectAction::Integrate { request, action },
        },
    }
}

impl<R: NodeRunner> SchedulerHandler<R> {
    /// Takes the next step of an effect.
    pub fn handle_effect(&mut self, stage: EffectStage) -> (step: EffectStep)
        ensures
            is_step(old(self).integration@, stage, step, final(self).integration@),
            final(self).runner == old(self).runner,
            final(self).checkpoint == old(self).checkpoint,
            final(self).telemetry == old(self).telemetry,
    {
        match stage {
            EffectStage::Emitted(effect) => match effect_work(effect) {
                EffectWork::Run(command) => {
                    let needed = self.needs_workspace(&command);
                    let action = match self.artifact() {
                        Some(artifact) if needed => EffectAction::PrepareAttempt {
                            command,
                            artifact,
                        },
                        artifact => EffectAction::RunNode { command, artifact, work_attempt: None },
                    };
                    EffectStep { record: None, action }
                },
                EffectWork::IntegrateWork(request) => {
                    let step = self.integration.integrate_work(&request, WorkStage::Requested);
                    integration_step(request, step)
                },
                EffectWork::IntegratePlannerTasks { node_id, tasks, team } => {
                    let action = match self.artifact() {
                        Some(artifact) => EffectAction::PrepareManifest {
                            node_id,
                            tasks,
                            team,
                            artifact,
                        },
                        None => EffectAction::Report {
                            event: self.integration.integrate_plan_tasks(
                                node_id,
                                Err(String::new()),
                            ),
                            dropped: None,
                        },
                    };
                    EffectStep { record: None, action }
                },
            },
            EffectStage::AttemptReady { command, created } => {
                let artifact = self.artifact();
                let work_attempt = self.integration.prepare_work_attempt(
                    command.node_id.clone(),
                    command.attempt,
                    created,
                );
                EffectStep {
                    record: None,
                    action: EffectAction::RunNode { command, artifact, work_attempt },
                }
            },
            EffectStage::NodeReturned { event, work_attempt, quoted } => {
                let dropped = self.settle_attempt(&event, &work_attempt, &quoted);
                EffectStep { record: None, action: EffectAction::Report { event, dropped } }
            },
            EffectStage::Integrating { request, stage } => {
                let step = self.integration.integrate_work(&request, stage);
                integration_step(request, step)
            },
            EffectStage::ManifestReady {
                node_id,
                tasks,
                team,
                artifact,
                created,
                completed_at,
            } => {
                let action = match created {
                    Ok(workspace) => EffectAction::RecordTasks {
                        node_id,
                        artifact,
                        workspace,
                        records: planner_records(&tasks, &team, &completed_at),
                    },
                    Err(error) => EffectAction::Report {
                        event: self.integration.integrate_plan_tasks(
                            node_id,
                            Err(worktree_failure_message(&error)),
                        ),
                        dropped: None,
                    },
                };
                EffectStep { record: None, action }
            },
            EffectStage::TasksRecorded { node_id, recorded } => {
                let event = self.integration.integrate_plan_tasks(node_id, recorded);
                EffectStep { record: None, action: EffectAction::Report { event, dropped: None } }
            },
        }
    }
}

} // verus!
