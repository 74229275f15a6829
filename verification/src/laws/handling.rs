//! Effects over time: what a handler's service holds after any number of
//! steps, of any number of effects, in any order.

use std::sync::Arc;

use vstd::prelude::*;

use crate::artifacts::{Artifact, ArtifactValue, Workspace};
use crate::effect_steps;
use crate::effect_steps::{EffectAction, EffectStage, EffectStep};
use crate::integration::{ServiceView, WorkIntegration};
use crate::machine;
use crate::validation;
use crate::validation::Validator;
use crate::validation_plan::ValidationResult;
use crate::work_steps::{WorkAction, WorkStage};

verus! {

/// A step that was taken: the stage it follows, the step, and the service
/// after it.
pub struct Taken {
    pub stage: EffectStage,
    pub step: EffectStep,
    pub after: ServiceView,
}

/// The service after the first `n` steps.
pub open spec fn service_after(start: ServiceView, taken: Seq<Taken>, n: int) -> ServiceView {
    if n <= 0 {
        start
    } else {
        taken[n - 1].after
    }
}

/// Whether a stage of an integration is something that may come of what was
/// asked for. A verdict that the validator was asked for is its own.
pub open spec fn answers_work(
    validator: Option<Arc<dyn Validator>>,
    action: WorkAction,
    stage: WorkStage,
) -> bool {
    match action {
        WorkAction::Report { .. } => false,
        WorkAction::ListChanges { workspace, artifact } => stage matches WorkStage::Listed {
            workspace: w,
            artifact: a,
            ..
        } && w == workspace && a == artifact,
        WorkAction::RunPlan { workspace, artifact, .. } => stage matches WorkStage::Validated {
            workspace: w,
            artifact: a,
            ..
        } && w == workspace && a == artifact,
        WorkAction::AskValidator { workspace, artifact } => stage matches WorkStage::Validated {
            workspace: w,
            artifact: a,
            result,
        } && w == workspace && a == artifact && validation::may_judge(validator, workspace, result),
        WorkAction::Commit { workspace, .. } => stage matches WorkStage::Committed {
            workspace: w,
            ..
        } && w == workspace,
        WorkAction::Record { integrated, .. } => stage matches WorkStage::Recorded {
            integrated: i,
            ..
        } && i == integrated,
    }
}

/// Whether a stage is something that may come of what was asked for. A node
/// comes back with a plan, with work or with a failure; one that panicked,
/// without its attempt.
pub open spec fn answers(
    validator: Option<Arc<dyn Validator>>,
    action: EffectAction,
    stage: EffectStage,
) -> bool {
    match action {
        EffectAction::Report { .. } => false,
        EffectAction::PrepareAttempt { command, .. } => stage matches EffectStage::AttemptReady {
            command: c,
            ..
        } && c == command,
        EffectAction::RunNode { command, work_attempt, .. } =>
            stage matches EffectStage::NodeReturned { event, work_attempt: a, .. }
            && machine::node_of(event@) == command.node_id@ && (event@ is PlanAccepted || event@
            is WorkAccepted || event@ is NodeFailed) && (a is None || a == work_attempt),
        EffectAction::Integrate { request, action } => stage matches EffectStage::Integrating {
            request: r,
            stage: s,
        } && r == request && answers_work(validator, action, s),
        EffectAction::PrepareManifest { node_id, tasks, team, artifact } =>
            stage matches EffectStage::ManifestReady {
            node_id: n,
            tasks: t,
            team: o,
            artifact: a,
            ..
        } && n == node_id && t == tasks && o == team && a == artifact,
        EffectAction::RecordTasks { node_id, .. } => stage matches EffectStage::TasksRecorded {
            node_id: n,
            ..
        } && n == node_id,
    }
}

/// Whether the step at a position is in order: it is the step that follows
/// its stage, and the stage is an effect or came of an earlier step.
pub open spec fn is_in_order(start: ServiceView, taken: Seq<Taken>, i: int) -> bool {
    &&& effect_steps::is_step(
        service_after(start, taken, i),
        taken[i].stage,
        taken[i].step,
        taken[i].after,
    )
    &&& taken[i].stage is Emitted || exists|j: int|
        0 <= j < i && answers(start.validator, #[trigger] taken[j].step.action, taken[i].stage)
}

/// The handling of effects: a sequence of steps, each in order.
pub open spec fn is_course(start: ServiceView, taken: Seq<Taken>) -> bool {
    forall|i: int| 0 <= i < taken.len() ==> #[trigger] is_in_order(start, taken, i)
}

// ── the validator ──────────────────────────────────────────────────────────

/// A handler keeps its validator, whatever it does.
pub proof fn law_validators_stay(start: ServiceView, taken: Seq<Taken>, n: int)
    requires
        is_course(start, taken),
        0 <= n <= taken.len(),
    ensures
        service_after(start, taken, n).validator == start.validator,
    decreases n,
{
    if n > 0 {
        law_validators_stay(start, taken, n - 1);
        assert(is_in_order(start, taken, n - 1));
    }
}

/// Work without a plan of its own is committed only after the handler's
/// validator passed the very workspace that is committed.
pub proof fn law_validators_gate_commits(
    start: ServiceView,
    taken: Seq<Taken>,
    i: int,
    request: WorkIntegration,
    workspace: Workspace,
    artifact: Artifact,
)
    requires
        is_course(start, taken),
        0 <= i < taken.len(),
        taken[i].step.action == (EffectAction::Integrate {
            request,
            action: WorkAction::Commit { workspace, artifact },
        }),
        request.validation_plan is None,
    ensures
        exists|result: ValidationResult|
            result.passed && #[trigger] validation::may_judge(start.validator, workspace, result),
{
    assert(is_in_order(start, taken, i));
    let stage = taken[i].stage;
    let j = choose|j: int|
        0 <= j < i && answers(start.validator, #[trigger] taken[j].step.action, stage);
    assert(is_in_order(start, taken, j));
}

// ── the verdict ────────────────────────────────────────────────────────────

/// What a validation came to, where a stage tells of one.
pub open spec fn verdict(stage: EffectStage) -> Option<bool> {
    match stage {
        EffectStage::Integrating {
            stage: WorkStage::Validated { result, .. },
            ..
        } => Some(result.passed),
        _ => None,
    }
}

/// What the last validation among the first `n` steps came to; `initial` if
/// there was none.
pub open spec fn last_verdict(initial: Option<bool>, taken: Seq<Taken>, n: int) -> Option<bool>
    decreases n,
{
    if n <= 0 {
        initial
    } else {
        match verdict(taken[n - 1].stage) {
            Some(passed) => Some(passed),
            None => last_verdict(initial, taken, n - 1),
        }
    }
}

/// What a handler remembers is what the last validation came to that ran at
/// all, whatever happened after it; nothing, if none ran.
pub proof fn law_the_last_verdict_is_kept(start: ServiceView, taken: Seq<Taken>, n: int)
    requires
        is_course(start, taken),
        0 <= n <= taken.len(),
    ensures
        service_after(start, taken, n).last_validation_passed == last_verdict(
            start.last_validation_passed,
            taken,
            n,
        ),
    decreases n,
{
    if n > 0 {
        law_the_last_verdict_is_kept(start, taken, n - 1);
        assert(is_in_order(start, taken, n - 1));
    }
}

// ── the artifact ───────────────────────────────────────────────────────────

/// The artifact that a step brings: that of work that was committed, with the
/// manifest in it where that could be written, or that of planner tasks that
/// were recorded.
pub open spec fn produced(t: Taken) -> Option<ArtifactValue> {
    match t.stage {
        EffectStage::Integrating {
            stage: WorkStage::Recorded { integrated, recorded },
            ..
        } => Some(
            match recorded {
                Ok(r) => r.0@,
                Err(_) => integrated@,
            },
        ),
        EffectStage::TasksRecorded { recorded: Ok(r), .. } => Some(r.0@),
        _ => None,
    }
}

/// The artifact that the last of the first `n` steps brings that brings one;
/// `initial` if none does.
pub open spec fn last_produced(initial: ArtifactValue, taken: Seq<Taken>, n: int) -> ArtifactValue
    decreases n,
{
    if n <= 0 {
        initial
    } else {
        match produced(taken[n - 1]) {
            Some(artifact) => artifact,
            None => last_produced(initial, taken, n - 1),
        }
    }
}

/// Whether a step reports that something was integrated.
pub open spec fn reports_integration(t: Taken) -> bool {
    t.step.action matches EffectAction::Report { event, .. } && (event@ is IntegrationSucceeded
        || event@ is PlannerTasksIntegrated)
}

/// A handler without an artifact never integrates anything.
proof fn lemma_nothing_is_integrated(start: ServiceView, taken: Seq<Taken>, n: int)
    requires
        is_course(start, taken),
        start.artifact is None,
        0 <= n <= taken.len(),
    ensures
        service_after(start, taken, n).artifact is None,
        forall|j: int| 0 <= j < n ==> (#[trigger] taken[j]).step.action !is Integrate,
    decreases n,
{
    if n > 0 {
        lemma_nothing_is_integrated(start, taken, n - 1);
        assert(is_in_order(start, taken, n - 1));
        let stage = taken[n - 1].stage;
        if stage !is Emitted {
            let j = choose|j: int|
                0 <= j < n - 1 && answers(start.validator, #[trigger] taken[j].step.action, stage);
            assert(taken[j].step.action !is Integrate);
        }
    }
}

/// A handler that starts without an artifact never has one. One that starts
/// with an artifact has the one that was last brought by committed work or by
/// recorded planner tasks; until then, the one it started with. Failures and
/// runs of nodes change nothing.
pub proof fn law_the_last_artifact_is_kept(start: ServiceView, taken: Seq<Taken>, n: int)
    requires
        is_course(start, taken),
        0 <= n <= taken.len(),
    ensures
        service_after(start, taken, n).artifact == match start.artifact {
            None => None,
            Some(artifact) => Some(last_produced(artifact, taken, n)),
        },
    decreases n,
{
    if start.artifact is None {
        lemma_nothing_is_integrated(start, taken, n);
    } else if n > 0 {
        law_the_last_artifact_is_kept(start, taken, n - 1);
        assert(is_in_order(start, taken, n - 1));
    }
}

/// The steps that bring an artifact are those that report it. Committed work
/// and recorded planner tasks are reported as integrated; and what is reported
/// as integrated brought an artifact, unless there was nothing to integrate,
/// which is told at once.
pub proof fn law_artifacts_are_reported(start: ServiceView, taken: Seq<Taken>, i: int)
    requires
        is_course(start, taken),
        start.artifact is Some,
        0 <= i < taken.len(),
    ensures
        produced(taken[i]) is Some ==> reports_integration(taken[i]),
        reports_integration(taken[i]) && taken[i].stage !is Emitted ==> produced(taken[i]) is Some,
{
    law_the_last_artifact_is_kept(start, taken, i);
    assert(is_in_order(start, taken, i));
    let stage = taken[i].stage;
    if stage !is Emitted {
        let j = choose|j: int|
            0 <= j < i && answers(start.validator, #[trigger] taken[j].step.action, stage);
        assert(is_in_order(start, taken, j));
    }
}

} // verus!
