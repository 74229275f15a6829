//! Handing nodes to runners.

use forge_scheduler::artifacts::{Artifact, ArtifactView, WorkAttempt, Workspace};
use forge_scheduler::dispatch::{RunNodeDispatch, dispatch_line, dispatch_run_node, make_run_request, node_result_event, progress_label, render_objective};
use forge_scheduler::event::SchedulerEvent;
use forge_scheduler::failure::FailureKind;
use forge_scheduler::graph::{ModelTier, NodeId, NodeKind, RetryFeedback, TestPlanContext};
use forge_scheduler::node_runner::{NodeRunRequest, NodeRunResult, NodeRunWorkResult, NodeRunner};
use forge_scheduler::telemetry::{NoopTelemetry, TelemetrySink};
use forge_scheduler::types::{NodeFailure, PlanOutput, RecoveryAction, WorkOutput};

#[test]
fn plan_node_label_ignores_worker_role() {
    let label = progress_label(&NodeKind::Plan, &NodeId("root".to_string()), &None);
    assert_eq!(
        label,
        format!("[planner {}]", NodeId("root".to_string()).short())
    );
}

#[test]
fn work_node_label_appends_worker_role_when_present() {
    let label = progress_label(
        &NodeKind::Work,
        &NodeId("a3f7c2".to_string()),
        &Some("tester".to_string()),
    );
    assert_eq!(label, "[worker a3f7c2/tester]");
}

#[test]
fn work_node_label_omits_slash_when_worker_role_absent() {
    let label = progress_label(&NodeKind::Work, &NodeId("a3f7c2".to_string()), &None);
    assert_eq!(label, "[worker a3f7c2]");
}

fn command(kind: NodeKind, feedback: Option<&str>) -> RunNodeDispatch {
    RunNodeDispatch {
        node_id: NodeId("0123456789".to_string()),
        worker_role: Some("tester".to_string()),
        kind,
        objective: "write tests".to_string(),
        target_files: vec!["a.py".to_string(), "b.py".to_string()],
        test_plan_context: TestPlanContext {
            required_validation_targets: vec!["test_a.py".to_string()],
            planned_test_targets: vec![],
        },
        model_tier: ModelTier::Strong,
        attempt: 2,
        retry_feedback: feedback.map(|d| RetryFeedback {
            diagnostics: d.to_string(),
        }),
        team: "team".to_string(),
        adapter: "adapter".to_string(),
        northstar: "northstar".to_string(),
    }
}

#[test]
fn labels_use_the_short_id() {
    let id = NodeId("0123456789".to_string());
    assert_eq!(progress_label(&NodeKind::Plan, &id, &None), "[planner 01234567]");
    assert_eq!(dispatch_line(&id, NodeKind::Work), "[scheduler] dispatch 01234567 Work");
}

#[test]
fn objective_without_feedback_is_told_as_it_is() {
    assert_eq!(render_objective(&"do it".to_string(), &vec!["a.py".to_string()], &None), "do it");
}

#[test]
fn objective_with_feedback_names_the_target_files() {
    let feedback = Some(RetryFeedback {
        diagnostics: "line 1: error".to_string(),
    });
    assert_eq!(
        render_objective(
            &"do it".to_string(),
            &vec!["a.py".to_string(), "b.py".to_string()],
            &feedback
        ),
        "do it\n\nValidation feedback for retry:\nTarget files: a.py, b.py\nline 1: error"
    );
    assert_eq!(
        render_objective(&"do it".to_string(), &vec![], &feedback),
        "do it\n\nValidation feedback for retry:\nTarget files: (none specified)\nline 1: error"
    );
}

#[test]
fn request_carries_the_dispatch_and_the_artifact() {
    let artifact = Some(Artifact {
        repo_path: "/repo".to_string(),
        branch: "main".to_string(),
        commit_sha: "abc".to_string(),
    });
    let attempt = Some(WorkAttempt {
        attempt: 2,
        workspace: Workspace {
            path: "/tmp/w".to_string(),
            base_commit: "abc".to_string(),
        },
    });
    let request = make_run_request(command(NodeKind::Work, Some("oops")), &artifact, attempt);
    assert_eq!(request.kind, NodeKind::Work);
    assert_eq!(request.node_id.0, "0123456789");
    assert_eq!(
        request.objective,
        "write tests\n\nValidation feedback for retry:\nTarget files: a.py, b.py\noops"
    );
    assert_eq!(request.target_files, vec!["a.py".to_string(), "b.py".to_string()]);
    assert_eq!(request.model_tier, ModelTier::Strong);
    assert_eq!(request.attempt, 2);
    assert_eq!(
        request.artifact_view,
        Some(ArtifactView {
            repo_path: "/repo".to_string(),
            commit_sha: "abc".to_string(),
        })
    );
    assert_eq!(request.work_attempt.map(|w| w.workspace.path), Some("/tmp/w".to_string()));
    assert_eq!(request.team, "team");
    assert_eq!(request.worker_role, Some("tester".to_string()));
}

struct EchoRunner;

impl NodeRunner for EchoRunner {
    fn run_node(&self, request: NodeRunRequest, _telemetry: &dyn TelemetrySink) -> NodeRunResult {
        NodeRunResult::WorkAccepted(NodeRunWorkResult {
            work: WorkOutput {
                summary: request.objective,
            },
        })
    }
}

#[test]
fn runner_gets_the_rendered_objective_and_its_answer_is_told() {
    let event = dispatch_run_node(
        &EchoRunner,
        &NoopTelemetry,
        command(NodeKind::Work, Some("oops")),
        &None,
        None,
    );
    assert_eq!(
        event,
        SchedulerEvent::WorkAccepted {
            node_id: NodeId("0123456789".to_string()),
            work: WorkOutput {
                summary:
                    "write tests\n\nValidation feedback for retry:\nTarget files: a.py, b.py\noops"
                        .to_string(),
            },
        }
    );
}

#[test]
fn results_become_events_about_the_node() {
    let id = NodeId("N".to_string());
    let failure = NodeFailure {
        kind: FailureKind::ProviderFailure,
        message: "down".to_string(),
        recovery: RecoveryAction::Retry {
            message: "again".to_string(),
        },
    };
    assert_eq!(
        node_result_event(id.clone(), NodeRunResult::Failed(failure.clone())),
        SchedulerEvent::NodeFailed {
            node_id: id.clone(),
            failure,
        }
    );
    let plan = PlanOutput {
        children: vec![],
        tasks: vec![],
    };
    assert_eq!(
        node_result_event(id.clone(), NodeRunResult::PlanAccepted(plan.clone())),
        SchedulerEvent::PlanAccepted { node_id: id, plan }
    );
}
