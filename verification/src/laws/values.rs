//! Values are seen whole: nothing that a value holds is missing from what the
//! contracts see of it, and nothing is in another place.

use vstd::prelude::*;

use crate::artifacts::{Artifact, WorkAttempt, Workspace};
use crate::dispatch::RunNodeDispatch;
use crate::driver::Driver;
use crate::effect::{EffectView, SchedulerEffect};
use crate::event::{EventView, SchedulerEvent};
use crate::failure::{FailureReason, ReasonView};
use crate::graph::{Node, NodeOrigin, OriginView, RunGraph};
use crate::integration::WorkIntegration;
use crate::manifest::TaskRecord;
use crate::node_runner::{NodeRunRequest, NodeRunResult, RunResultView};
use crate::state::{SchedulerState, StateView};
use crate::teams::{LanguageSpec, RunConfig, TeamConfig, Trigger, TriggerView};
use crate::telemetry::{TelemetryEvent, TelemetryEventView, TelemetryRecord};
use crate::text::Text;
use crate::types::{
    IntegrationFailure, NodeFailure, NodeRequest, PlannerTaskOutput, RecoveryAction, RecoveryView,
};
use crate::validation_plan::{ValidationPlan, ValidationPlanView};

verus! {

/// The two lists hold the same texts, one for one.
pub open spec fn same_texts(list: Seq<String>, seen: Seq<Text>) -> bool {
    &&& list.len() == seen.len()
    &&& forall|i: int| 0 <= i < list.len() ==> (#[trigger] list[i])@ == seen[i]
}

/// Both hold the same text, or neither holds one.
pub open spec fn same_option(value: Option<String>, seen: Option<Text>) -> bool {
    match (value, seen) {
        (Some(a), Some(b)) => a@ == b,
        (None, None) => true,
        _ => false,
    }
}

/// Both hold the same plan, or neither holds one.
pub open spec fn same_plan(plan: Option<ValidationPlan>, seen: Option<ValidationPlanView>) -> bool {
    match (plan, seen) {
        (Some(a), Some(b)) => a@ == b,
        (None, None) => true,
        _ => false,
    }
}

/// What an origin names is what it is seen to name.
pub open spec fn same_origin(origin: NodeOrigin, seen: OriginView) -> bool {
    match (origin, seen) {
        (NodeOrigin::Root, OriginView::Root) => true,
        (NodeOrigin::PlanExpansion, OriginView::PlanExpansion) => true,
        (NodeOrigin::Retry { source: a }, OriginView::Retry { source: b }) => a.0@ == b,
        (NodeOrigin::ElevateModel { source: a }, OriginView::ElevateModel { source: b }) => a.0@
            == b,
        (NodeOrigin::Split { source: a }, OriginView::Split { source: b }) => a.0@ == b,
        _ => false,
    }
}

/// A node is seen whole.
pub proof fn law_nodes_are_seen_whole(n: Node)
    ensures
        n@.id == n.id.0@,
        n@.kind == n.kind,
        n@.team == n.team@,
        same_option(n.task_id, n@.task_id),
        n@.adapter == n.adapter@,
        n@.northstar == n.northstar@,
        same_option(n.worker_role, n@.worker_role),
        n@.objective == n.objective@,
        same_texts(n.target_files@, n@.target_files),
        same_texts(n.required_validation_targets@, n@.required_validation_targets),
        n@.dependencies.len() == n.dependencies@.len(),
        forall|k: int|
            0 <= k < n.dependencies@.len() ==> (#[trigger] n.dependencies@[k]).0@
                == n@.dependencies[k],
        n@.status == n.status,
        n@.attempt == n.attempt,
        n@.plan_depth == n.plan_depth,
        n@.model_tier == n.model_tier,
        same_option(n.summary, n@.summary),
        same_origin(n.origin, n@.origin),
        same_plan(n.validation_plan, n@.validation_plan),
        match (n.retry_feedback, n@.retry_feedback) {
            (Some(a), Some(b)) => a.diagnostics@ == b,
            (None, None) => true,
            _ => false,
        },
{
}

/// A graph is seen node by node.
pub proof fn law_graphs_are_seen_whole(g: RunGraph)
    ensures
        g@.len() == g.nodes@.len(),
        forall|i: int| 0 <= i < g.nodes@.len() ==> (#[trigger] g.nodes@[i])@ == g@[i],
{
}

/// A request for a node is seen whole.
pub proof fn law_requests_are_seen_whole(r: NodeRequest)
    ensures
        r@.id == r.id.0@,
        r@.kind == r.kind,
        r@.team == r.team@,
        same_option(r.task_id, r@.task_id),
        r@.adapter == r.adapter@,
        r@.northstar == r.northstar@,
        same_option(r.worker_role, r@.worker_role),
        r@.objective == r.objective@,
        same_texts(r.target_files@, r@.target_files),
        same_texts(r.required_validation_targets@, r@.required_validation_targets),
        r@.dependencies.len() == r.dependencies@.len(),
        forall|k: int|
            0 <= k < r.dependencies@.len() ==> (#[trigger] r.dependencies@[k]).0@
                == r@.dependencies[k],
        same_plan(r.validation_plan, r@.validation_plan),
{
}

/// A validation plan is seen whole, step by step.
pub proof fn law_plans_are_seen_whole(plan: ValidationPlan)
    ensures
        plan@.timeout_seconds == plan.timeout_seconds,
        plan@.steps.len() == plan.steps@.len(),
        forall|i: int|
            0 <= i < plan.steps@.len() ==> {
                let s = #[trigger] plan.steps@[i];
                let seen = plan@.steps[i];
                &&& same_texts(s.command@, seen.command)
                &&& same_texts(s.when_artifacts_present@, seen.when_artifacts_present)
                &&& seen.scope == s.scope
                &&& seen.stage == s.stage
                &&& seen.must_pass == s.must_pass
            },
{
}

/// A planner's task and a row of the manifest are seen whole.
pub proof fn law_tasks_are_seen_whole(t: PlannerTaskOutput, r: TaskRecord)
    ensures
        t@.id == t.id@,
        t@.objective == t.objective@,
        t@.task_kv.len() == t.task_kv@.len(),
        forall|k: int|
            0 <= k < t.task_kv@.len() ==> (#[trigger] t.task_kv@[k]).key@ == t@.task_kv[k].key
                && t.task_kv@[k].value@ == t@.task_kv[k].value,
        same_texts(t.depends_on@, t@.depends_on),
        r@.id == r.id@,
        r@.objective == r.objective@,
        r@.commit == r.commit@,
        r@.completed_at == r.completed_at@,
        same_option(r.team, r@.team),
        r@.task_kv.len() == r.task_kv@.len(),
        forall|k: int|
            0 <= k < r.task_kv@.len() ==> (#[trigger] r.task_kv@[k]).key@ == r@.task_kv[k].key
                && r.task_kv@[k].value@ == r@.task_kv[k].value,
        same_texts(r.depends_on@, r@.depends_on),
{
}

/// The policy of a run is seen whole, with its teams and their languages.
pub proof fn law_policies_are_seen_whole(c: RunConfig, t: TeamConfig, l: LanguageSpec)
    ensures
        c@.has_strong_tier == c.has_strong_tier,
        c@.dispatch_cap == c.dispatch_cap,
        same_texts(c.terminal_teams@, c@.terminal_teams),
        c@.teams.len() == c.teams@.len(),
        forall|i: int| 0 <= i < c.teams@.len() ==> (#[trigger] c.teams@[i])@ == c@.teams[i],
        t@.name == t.name@,
        t@.northstar == t.northstar@,
        t@.adapter == t.adapter@,
        t@.kind == t.kind,
        t@.language == t.language@,
        t@.derives_target == t.derives_target,
        same_option(t.worker_role, t@.worker_role),
        match (t.trigger, t@.trigger) {
            (Trigger::Start, TriggerView::Start) => true,
            (Trigger::AfterTeams(a), TriggerView::AfterTeams(b)) => same_texts(a@, b),
            _ => false,
        },
        t@.language_plugins.len() == t.language_plugins@.len(),
        forall|i: int|
            0 <= i < t.language_plugins@.len() ==> (#[trigger] t.language_plugins@[i])@
                == t@.language_plugins[i],
        same_texts(l.extensions@, l@.extensions),
        l@.validation_targets.len() == l.validation_targets@.len(),
        forall|i: int|
            0 <= i < l.validation_targets@.len() ==> (#[trigger] l.validation_targets@[i]).pattern@
                == l@.validation_targets[i].pattern && l.validation_targets@[i].target@
                == l@.validation_targets[i].target,
{
}

/// What a recovery says is what it is seen to say.
pub open spec fn same_recovery(recovery: RecoveryAction, seen: RecoveryView) -> bool {
    match (recovery, seen) {
        (RecoveryAction::Retry { message: a }, RecoveryView::Retry { message: b }) => a@ == b,
        (RecoveryAction::Split { message: a }, RecoveryView::Split { message: b }) => a@ == b,
        (
            RecoveryAction::ElevateModel { message: a },
            RecoveryView::ElevateModel { message: b },
        ) => a@ == b,
        (RecoveryAction::Terminal { message: a }, RecoveryView::Terminal { message: b }) => a@ == b,
        _ => false,
    }
}

/// Failures are seen whole.
pub proof fn law_failures_are_seen_whole(n: NodeFailure, i: IntegrationFailure)
    ensures
        n@.kind == n.kind,
        n@.message == n.message@,
        same_recovery(n.recovery, n@.recovery),
        i@.kind == i.kind,
        i@.message == i.message@,
        same_recovery(i.recovery, i@.recovery),
{
}

/// The reason of a failed run is seen whole.
pub proof fn law_reasons_are_seen_whole(reason: FailureReason)
    ensures
        match (reason, reason@) {
            (
                FailureReason::GraphInvariantViolation(a),
                ReasonView::GraphInvariantViolation(b),
            ) => a@ == b,
            (FailureReason::ProtocolViolation(a), ReasonView::ProtocolViolation(b)) => a@ == b,
            (FailureReason::Deadlock(a), ReasonView::Deadlock(b)) => a@ == b,
            (
                FailureReason::AttemptsExhausted { node_id: a, max_attempts: m, recovery_action: r },
                ReasonView::AttemptsExhausted { node_id: b, max_attempts: n, recovery_action: s },
            ) => a@ == b && m == n && r == s,
            (
                FailureReason::NoHigherModelTierAvailable { node_id: a, max_attempts: m },
                ReasonView::NoHigherModelTierAvailable { node_id: b, max_attempts: n },
            ) => a@ == b && m == n,
            (
                FailureReason::GraphCapacityExceeded { limit: a },
                ReasonView::GraphCapacityExceeded { limit: b },
            ) => a == b,
            (
                FailureReason::PlanDepthExceeded { limit: a },
                ReasonView::PlanDepthExceeded { limit: b },
            ) => a == b,
            (
                FailureReason::TerminalRecovery { terminal_message: a, failure_message: c },
                ReasonView::TerminalRecovery { terminal_message: b, failure_message: d },
            ) => a@ == b && c@ == d,
            (
                FailureReason::RequiredTestTargetsMissing(a),
                ReasonView::RequiredTestTargetsMissing(b),
            ) => a@ == b,
            (
                FailureReason::TargetDerivationFailed(a),
                ReasonView::TargetDerivationFailed(b),
            ) => a@ == b,
            (
                FailureReason::TerminalTeamIncomplete { team: a, task_ids: c },
                ReasonView::TerminalTeamIncomplete { team: b, task_ids: d },
            ) => a@ == b && same_texts(c@, d),
            _ => false,
        },
{
}

/// An event is seen whole.
pub proof fn law_events_are_seen_whole(event: SchedulerEvent)
    ensures
        match (event, event@) {
            (SchedulerEvent::Start, EventView::Start) => true,
            (
                SchedulerEvent::PlanAccepted { node_id: a, plan },
                EventView::PlanAccepted { node_id: b, children, tasks },
            ) => {
                &&& a.0@ == b
                &&& children.len() == plan.children@.len()
                &&& forall|i: int|
                    0 <= i < children.len() ==> #[trigger] children[i] == plan.children@[i]@
                &&& tasks.len() == plan.tasks@.len()
                &&& forall|i: int| 0 <= i < tasks.len() ==> #[trigger] tasks[i] == plan.tasks@[i]@
            },
            (
                SchedulerEvent::WorkAccepted { node_id: a, work },
                EventView::WorkAccepted { node_id: b, summary },
            ) => a.0@ == b && work.summary@ == summary,
            (
                SchedulerEvent::NodeFailed { node_id: a, failure: f },
                EventView::NodeFailed { node_id: b, failure: g },
            ) => a.0@ == b && f@ == g,
            (
                SchedulerEvent::IntegrationSucceeded { node_id: a, output, manifest_tasks },
                EventView::IntegrationSucceeded { node_id: b, summary, manifest },
            ) => {
                &&& a.0@ == b
                &&& output.summary@ == summary
                &&& manifest.len() == manifest_tasks@.len()
                &&& forall|i: int|
                    0 <= i < manifest.len() ==> #[trigger] manifest[i] == manifest_tasks@[i]@
            },
            (
                SchedulerEvent::IntegrationFailed { node_id: a, failure: f },
                EventView::IntegrationFailed { node_id: b, failure: g },
            ) => a.0@ == b && f@ == g,
            (
                SchedulerEvent::PlannerTasksIntegrated { node_id: a, manifest_tasks },
                EventView::PlannerTasksIntegrated { node_id: b, manifest },
            ) => {
                &&& a.0@ == b
                &&& manifest.len() == manifest_tasks@.len()
                &&& forall|i: int|
                    0 <= i < manifest.len() ==> #[trigger] manifest[i] == manifest_tasks@[i]@
            },
            (
                SchedulerEvent::PlannerTasksIntegrationFailed { node_id: a, failure: f },
                EventView::PlannerTasksIntegrationFailed { node_id: b, failure: g },
            ) => a.0@ == b && f@ == g,
            _ => false,
        },
{
}

/// An effect is seen whole.
pub proof fn law_effects_are_seen_whole(effect: SchedulerEffect)
    ensures
        match effect {
            SchedulerEffect::RunNode {
                node_id,
                worker_role,
                kind,
                objective,
                target_files,
                test_plan_context,
                model_tier,
                attempt,
                retry_feedback,
                team,
                adapter,
                northstar,
            } => effect@ matches EffectView::RunNode {
                node_id: n,
                worker_role: w,
                kind: k,
                objective: o,
                target_files: f,
                test_plan_context: c,
                model_tier: m,
                attempt: a,
                retry_feedback: r,
                team: t,
                adapter: d,
                northstar: s,
            } && n == node_id.0@ && same_option(worker_role, w) && k == kind && o == objective@
                && same_texts(target_files@, f) && same_texts(
                test_plan_context.required_validation_targets@,
                c.required_validation_targets,
            ) && same_texts(test_plan_context.planned_test_targets@, c.planned_test_targets) && m
                == model_tier && a == attempt && t == team@ && d == adapter@ && s == northstar@
                && match (retry_feedback, r) {
                (Some(x), Some(y)) => x.diagnostics@ == y,
                (None, None) => true,
                _ => false,
            },
            SchedulerEffect::IntegrateWork {
                node_id,
                objective,
                work,
                attempt,
                target_files,
                validation_plan,
                team,
                task_id,
            } => effect@ matches EffectView::IntegrateWork {
                node_id: n,
                objective: o,
                summary: s,
                attempt: a,
                target_files: f,
                validation_plan: p,
                team: t,
                task_id: i,
            } && n == node_id.0@ && o == objective@ && s == work.summary@ && a == attempt
                && same_texts(target_files@, f) && same_plan(validation_plan, p) && t == team@
                && same_option(task_id, i),
            SchedulerEffect::IntegratePlannerTasks {
                node_id,
                tasks,
                team,
            } => effect@ matches EffectView::IntegratePlannerTasks { node_id: n, tasks: t, team: o }
                && n == node_id.0@ && o == team@ && t.len() == tasks@.len() && forall|i: int|
                0 <= i < t.len() ==> #[trigger] t[i] == tasks@[i]@,
        },
{
}

/// A state of the scheduler and a run in progress are seen whole.
pub proof fn law_runs_are_seen_whole(s: SchedulerState, d: Driver)
    ensures
        match (s, s@) {
            (
                SchedulerState::Active { graph: a, run_config: c },
                StateView::Active { graph: b, run_config: e },
            ) => a@ == b && c@ == e,
            (
                SchedulerState::Waiting { graph: a, run_config: c },
                StateView::Waiting { graph: b, run_config: e },
            ) => a@ == b && c@ == e,
            (SchedulerState::Complete { graph: a }, StateView::Complete { graph: b }) => a@ == b,
            (
                SchedulerState::Failed { graph: a, reason: r },
                StateView::Failed { graph: b, reason: q },
            ) => a@ == b && r@ == q,
            _ => false,
        },
        d@.state == d.state@,
        d@.pending.len() == d.pending_effects@.len(),
        forall|i: int|
            0 <= i < d@.pending.len() ==> #[trigger] d@.pending[i] == d.pending_effects@[i]@,
{
}

/// A dispatch and what a runner is given are seen whole.
pub proof fn law_dispatches_are_seen_whole(c: RunNodeDispatch, r: NodeRunRequest)
    ensures
        c@.node_id == c.node_id.0@,
        same_option(c.worker_role, c@.worker_role),
        c@.kind == c.kind,
        c@.objective == c.objective@,
        same_texts(c.target_files@, c@.target_files),
        c@.test_plan_context == c.test_plan_context@,
        c@.model_tier == c.model_tier,
        c@.attempt == c.attempt,
        c@.team == c.team@,
        c@.adapter == c.adapter@,
        c@.northstar == c.northstar@,
        match (c.retry_feedback, c@.retry_feedback) {
            (Some(a), Some(b)) => a.diagnostics@ == b,
            (None, None) => true,
            _ => false,
        },
        r@.node_id == r.node_id.0@,
        r@.kind == r.kind,
        r@.objective == r.objective@,
        same_texts(r.target_files@, r@.target_files),
        r@.test_plan_context == r.test_plan_context@,
        r@.model_tier == r.model_tier,
        r@.attempt == r.attempt,
        r@.team == r.team@,
        r@.adapter == r.adapter@,
        r@.northstar == r.northstar@,
        same_option(r.worker_role, r@.worker_role),
        match (r.artifact_view, r@.artifact_view) {
            (Some(a), Some(b)) => a.repo_path@ == b.repo_path && a.commit_sha@ == b.commit_sha,
            (None, None) => true,
            _ => false,
        },
        match (r.work_attempt, r@.work_attempt) {
            (Some(a), Some(b)) => a@ == b,
            (None, None) => true,
            _ => false,
        },
{
}

/// What a runner returns is seen whole.
pub proof fn law_returns_are_seen_whole(result: NodeRunResult)
    ensures
        match (result, result@) {
            (
                NodeRunResult::PlanAccepted(plan),
                RunResultView::PlanAccepted { children, tasks },
            ) => {
                &&& children.len() == plan.children@.len()
                &&& forall|i: int|
                    0 <= i < children.len() ==> #[trigger] children[i] == plan.children@[i]@
                &&& tasks.len() == plan.tasks@.len()
                &&& forall|i: int| 0 <= i < tasks.len() ==> #[trigger] tasks[i] == plan.tasks@[i]@
            },
            (NodeRunResult::WorkAccepted(done), RunResultView::WorkAccepted { summary }) =>
                done.work.summary@ == summary,
            (NodeRunResult::Failed(a), RunResultView::Failed(b)) => a@ == b,
            _ => false,
        },
{
}

/// Work to integrate, and what it is integrated into, are seen whole.
pub proof fn law_integrations_are_seen_whole(
    w: WorkIntegration,
    a: Artifact,
    s: Workspace,
    t: WorkAttempt,
)
    ensures
        w@.node_id == w.node_id.0@,
        w@.objective == w.objective@,
        w@.summary == w.work.summary@,
        w@.attempt == w.attempt,
        same_texts(w.target_files@, w@.target_files),
        same_plan(w.validation_plan, w@.validation_plan),
        w@.team == w.team@,
        same_option(w.task_id, w@.task_id),
        a@.repo_path == a.repo_path@,
        a@.branch == a.branch@,
        a@.commit_sha == a.commit_sha@,
        s@.path == s.path@,
        s@.base_commit == s.base_commit@,
        t@.attempt == t.attempt,
        t@.workspace == t.workspace@,
{
}

/// A record is seen whole.
pub proof fn law_records_are_seen_whole(r: TelemetryRecord)
    ensures
        r@.source == r.source@,
        same_option(r.node_id, r@.node_id),
        r@.attempt == r.attempt,
        r@.event == r.event@,
        match (r.event, r@.event) {
            (
                TelemetryEvent::MachineStarted { machine: a },
                TelemetryEventView::MachineStarted { machine: b },
            ) => a@ == b,
            (
                TelemetryEvent::StateEntered { machine: a, state: c },
                TelemetryEventView::StateEntered { machine: b, state: d },
            ) => a@ == b && c@ == d,
            (
                TelemetryEvent::EventReceived { machine: a, event: c },
                TelemetryEventView::EventReceived { machine: b, event: d },
            ) => a@ == b && c@ == d,
            (
                TelemetryEvent::EffectEmitted { machine: a, effect: c },
                TelemetryEventView::EffectEmitted { machine: b, effect: d },
            ) => a@ == b && c@ == d,
            (TelemetryEvent::ValidationStarted, TelemetryEventView::ValidationStarted) => true,
            (
                TelemetryEvent::ValidationPassed { summary: a },
                TelemetryEventView::ValidationPassed { summary: b },
            ) => a@ == b,
            (
                TelemetryEvent::ValidationFailed { summary: a, command: c, exit_code: e, stdout: o, stderr: s },
                TelemetryEventView::ValidationFailed {
                    summary: b,
                    command: d,
                    exit_code: f,
                    stdout: p,
                    stderr: t,
                },
            ) => a@ == b && same_option(c, d) && e == f && same_option(o, p) && same_option(s, t),
            (
                TelemetryEvent::WorkAttemptDiscarded {
                    attempt_id: a,
                    node_id: c,
                    attempt: e,
                    base_commit: g,
                    changed_files: i,
                    git_diff: k,
                    reason: m,
                },
                TelemetryEventView::WorkAttemptDiscarded {
                    attempt_id: b,
                    node_id: d,
                    attempt: f,
                    base_commit: h,
                    changed_files: j,
                    git_diff: l,
                    reason: n,
                },
            ) => a@ == b && c@ == d && e == f && g@ == h && same_texts(i@, j) && k@ == l && m@ == n,
            (
                TelemetryEvent::CheckpointSaved { node_count: a, completed_count: c },
                TelemetryEventView::CheckpointSaved { node_count: b, completed_count: d },
            ) => a == b && c == d,
            _ => false,
        },
{
}

} // verus!
