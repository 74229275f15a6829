//! Scheduler failure types.

use vstd::prelude::*;

use crate::text;
use crate::text::{copy_texts, decimal_text, join_texts, Text};

verus! {

/// Machine-readable cause of a node or integration failure.
#[derive(Clone, Copy, Debug, PartialEq, Eq, Structural)]
pub enum FailureKind {
    /// Provider transport, timeout, rate-limit, or other retryable provider failure.
    ProviderFailure,
    /// Provider failure known not to benefit from retrying.
    ProviderTerminalFailure,
    /// Role or planner response violated the expected protocol.
    ProtocolFailure,
    /// File or tool loop failure.
    ToolFailure,
    /// Project validation command failed.
    ValidationFailure,
    /// Planner output violated structured planner validation.
    PlannerValidationFailure,
    /// Work producer accepted a result with no artifact file changes.
    WorkSemanticValidationFailure,
    /// Deliberation reached a semantic quality limit.
    DeliberationFailure,
    /// Artifact integration failed.
    IntegrationFailure,
    /// Artifact integration was refused because a sibling integrated first.
    IntegrationConflict,
    /// The user task was semantically rejected by the producing role.
    UserTaskRejection,
    /// The node's dispatch thread panicked before returning a result.
    DispatchPanic,
}

/// The recovery action that triggered an `AttemptsExhausted` failure.
#[derive(Clone, Copy, Debug, PartialEq, Eq, Structural)]
pub enum ExhaustedAction {
    /// `Retry` recovery.
    Retry,
    /// `Split` recovery.
    Split,
    /// `ElevateModel` recovery.
    ElevateModel,
}

/// The name of an exhausted action.
pub open spec fn action_name(action: ExhaustedAction) -> Text {
    match action {
        ExhaustedAction::Retry => "Retry"@,
        ExhaustedAction::Split => "Split"@,
        ExhaustedAction::ElevateModel => "ElevateModel"@,
    }
}

impl ExhaustedAction {
    /// The action's name.
    pub fn name(&self) -> (name: &'static str)
        ensures
            name@ == action_name(*self),
    {
        match self {
            ExhaustedAction::Retry => "Retry",
            ExhaustedAction::Split => "Split",
            ExhaustedAction::ElevateModel => "ElevateModel",
        }
    }
}

/// The typed cause of a scheduler run failure.
#[derive(Debug, PartialEq)]
pub enum FailureReason {
    /// A graph invariant was violated.
    GraphInvariantViolation(String),
    /// Wrong event for the state, wrong outcome for the node, id mismatch.
    ProtocolViolation(String),
    /// No node is ready but the graph is not complete.
    Deadlock(String),
    /// A node exhausted all attempts under a recoverable recovery action.
    AttemptsExhausted {
        /// The node that exhausted its attempts.
        node_id: String,
        /// The attempt limit that was reached.
        max_attempts: u32,
        /// The recovery action that was requested.
        recovery_action: ExhaustedAction,
    },
    /// Escalation was requested, no higher tier exists, attempts are exhausted.
    NoHigherModelTierAvailable {
        /// The node that could not be elevated.
        node_id: String,
        /// The attempt limit at the time of failure.
        max_attempts: u32,
    },
    /// Adding nodes would exceed the graph size limit.
    GraphCapacityExceeded {
        /// The maximum number of nodes in a run graph.
        limit: usize,
    },
    /// A plan expansion would exceed the plan depth limit.
    PlanDepthExceeded {
        /// The maximum nesting depth of plan nodes.
        limit: usize,
    },
    /// A terminal recovery action halted the run.
    TerminalRecovery {
        /// The message of the terminal recovery action.
        terminal_message: String,
        /// The failure message that triggered it.
        failure_message: String,
    },
    /// Required test targets were not completed before the run finished.
    RequiredTestTargetsMissing(String),
    /// A triggered node's target files could not be derived from its task.
    TargetDerivationFailed(String),
    /// Every node is done, but a terminal team has not acted on some tasks.
    TerminalTeamIncomplete {
        /// The terminal team.
        team: String,
        /// The tasks it has not completed.
        task_ids: Vec<String>,
    },
}

/// The mathematical value of a [`FailureReason`].
pub enum ReasonView {
    GraphInvariantViolation(Text),
    ProtocolViolation(Text),
    Deadlock(Text),
    AttemptsExhausted { node_id: Text, max_attempts: u32, recovery_action: ExhaustedAction },
    NoHigherModelTierAvailable { node_id: Text, max_attempts: u32 },
    GraphCapacityExceeded { limit: usize },
    PlanDepthExceeded { limit: usize },
    TerminalRecovery { terminal_message: Text, failure_message: Text },
    RequiredTestTargetsMissing(Text),
    TargetDerivationFailed(Text),
    TerminalTeamIncomplete { team: Text, task_ids: Seq<Text> },
}

impl View for FailureReason {
    type V = ReasonView;

    open spec fn view(&self) -> ReasonView {
        match self {
            FailureReason::GraphInvariantViolation(detail) => ReasonView::GraphInvariantViolation(
                detail@,
            ),
            FailureReason::ProtocolViolation(detail) => ReasonView::ProtocolViolation(detail@),
            FailureReason::Deadlock(detail) => ReasonView::Deadlock(detail@),
            FailureReason::AttemptsExhausted { node_id, max_attempts, recovery_action } =>
                ReasonView::AttemptsExhausted {
                node_id: node_id@,
                max_attempts: *max_attempts,
                recovery_action: *recovery_action,
            },
            FailureReason::NoHigherModelTierAvailable { node_id, max_attempts } =>
                ReasonView::NoHigherModelTierAvailable {
                node_id: node_id@,
                max_attempts: *max_attempts,
            },
            FailureReason::GraphCapacityExceeded { limit } => ReasonView::GraphCapacityExceeded {
                limit: *limit,
            },
            FailureReason::PlanDepthExceeded { limit } => ReasonView::PlanDepthExceeded {
                limit: *limit,
            },
            FailureReason::TerminalRecovery { terminal_message, failure_message } =>
                ReasonView::TerminalRecovery {
                terminal_message: terminal_message@,
                failure_message: failure_message@,
            },
            FailureReason::RequiredTestTargetsMissing(detail) =>
                ReasonView::RequiredTestTargetsMissing(detail@),
            FailureReason::TargetDerivationFailed(detail) => ReasonView::TargetDerivationFailed(
                detail@,
            ),
            FailureReason::TerminalTeamIncomplete { team, task_ids } =>
                ReasonView::TerminalTeamIncomplete {
                team: team@,
                task_ids: text::texts(task_ids@),
            },
        }
    }
}

impl Clone for FailureReason {
    fn clone(&self) -> (copy: Self)
        ensures
            copy@ == self@,
    {
        match self {
            FailureReason::GraphInvariantViolation(detail) =>
                FailureReason::GraphInvariantViolation(detail.clone()),
            FailureReason::ProtocolViolation(detail) => FailureReason::ProtocolViolation(
                detail.clone(),
            ),
            FailureReason::Deadlock(detail) => FailureReason::Deadlock(detail.clone()),
            FailureReason::AttemptsExhausted { node_id, max_attempts, recovery_action } =>
                FailureReason::AttemptsExhausted {
                node_id: node_id.clone(),
                max_attempts: *max_attempts,
                recovery_action: *recovery_action,
            },
            FailureReason::NoHigherModelTierAvailable { node_id, max_attempts } =>
                FailureReason::NoHigherModelTierAvailable {
                node_id: node_id.clone(),
                max_attempts: *max_attempts,
            },
            FailureReason::GraphCapacityExceeded { limit } =>
                FailureReason::GraphCapacityExceeded { limit: *limit },
            FailureReason::PlanDepthExceeded { limit } => FailureReason::PlanDepthExceeded {
                limit: *limit,
            },
            FailureReason::TerminalRecovery { terminal_message, failure_message } =>
                FailureReason::TerminalRecovery {
                terminal_message: terminal_message.clone(),
                failure_message: failure_message.clone(),
            },
            FailureReason::RequiredTestTargetsMissing(detail) =>
                FailureReason::RequiredTestTargetsMissing(detail.clone()),
            FailureReason::TargetDerivationFailed(detail) => FailureReason::TargetDerivationFailed(
                detail.clone(),
            ),
            FailureReason::TerminalTeamIncomplete { team, task_ids } =>
                FailureReason::TerminalTeamIncomplete {
                team: team.clone(),
                task_ids: copy_texts(task_ids),
            },
        }
    }
}

/// The message that joins a terminal message and the failure behind it:
/// whichever already says the other, or both.
pub open spec fn combined_message(terminal: Text, failure: Text) -> Text {
    if terminal.len() == 0 {
        failure
    } else if failure.len() == 0 || text::occurs_in(failure, terminal) {
        terminal
    } else if text::occurs_in(terminal, failure) {
        failure
    } else {
        terminal + ": "@ + failure
    }
}

/// The human-readable message of a failure reason.
pub open spec fn reason_message(reason: ReasonView) -> Text {
    match reason {
        ReasonView::GraphInvariantViolation(detail) => detail,
        ReasonView::ProtocolViolation(detail) => "protocol violation: "@ + detail,
        ReasonView::Deadlock(detail) => detail,
        ReasonView::AttemptsExhausted { node_id, max_attempts, recovery_action } => "node "@
            + node_id + " exhausted all "@ + text::decimal(max_attempts as nat) + " attempts ("@
            + action_name(recovery_action) + ")"@,
        ReasonView::NoHigherModelTierAvailable { node_id, max_attempts } => "node "@ + node_id
            + " exhausted all "@ + text::decimal(max_attempts as nat)
            + " attempts; no higher model tier available"@,
        ReasonView::GraphCapacityExceeded { limit } => "graph size limit exceeded; limit is "@
            + text::decimal(limit as nat),
        ReasonView::PlanDepthExceeded { limit } => "plan depth limit exceeded; limit is "@
            + text::decimal(limit as nat),
        ReasonView::TerminalRecovery { terminal_message, failure_message } => combined_message(
            terminal_message,
            failure_message,
        ),
        ReasonView::RequiredTestTargetsMissing(detail) => detail,
        ReasonView::TargetDerivationFailed(detail) => detail,
        ReasonView::TerminalTeamIncomplete { team, task_ids } => "terminal team '"@ + team
            + "' has not completed tasks: "@ + text::join(task_ids, ", "@),
    }
}

impl FailureReason {
    /// The human-readable message, for telemetry and manifests.
    pub fn message(&self) -> (message: String)
        ensures
            message@ == reason_message(self@),
    {
        match self {
            FailureReason::GraphInvariantViolation(detail) => detail.clone(),
            FailureReason::ProtocolViolation(detail) => {
                let mut out = "protocol violation: ".to_string();
                out.append(detail.as_str());
                out
            },
            FailureReason::Deadlock(detail) => detail.clone(),
            FailureReason::AttemptsExhausted { node_id, max_attempts, recovery_action } => {
                let mut out = "node ".to_string();
                out.append(node_id.as_str());
                out.append(" exhausted all ");
                out.append(decimal_text(*max_attempts as u64).as_str());
                out.append(" attempts (");
                out.append(recovery_action.name());
                out.append(")");
                out
            },
            FailureReason::NoHigherModelTierAvailable { node_id, max_attempts } => {
                let mut out = "node ".to_string();
                out.append(node_id.as_str());
                out.append(" exhausted all ");
                out.append(decimal_text(*max_attempts as u64).as_str());
                out.append(" attempts; no higher model tier available");
                out
            },
            FailureReason::GraphCapacityExceeded { limit } => {
                let mut out = "graph size limit exceeded; limit is ".to_string();
                out.append(decimal_text(*limit as u64).as_str());
                out
            },
            FailureReason::PlanDepthExceeded { limit } => {
                let mut out = "plan depth limit exceeded; limit is ".to_string();
                out.append(decimal_text(*limit as u64).as_str());
                out
            },
            FailureReason::TerminalRecovery { terminal_message, failure_message } => {
                if terminal_message.as_str().is_empty() {
                    failure_message.clone()
                } else if failure_message.as_str().is_empty() || text::contains_part(
                    terminal_message.as_str(),
                    failure_message.as_str(),
                ) {
                    terminal_message.clone()
                } else if text::contains_part(failure_message.as_str(), terminal_message.as_str()) {
                    failure_message.clone()
                } else {
                    let mut out = terminal_message.clone();
                    out.append(": ");
                    out.append(failure_message.as_str());
                    out
                }
            },
            FailureReason::RequiredTestTargetsMissing(detail) => detail.clone(),
            FailureReason::TargetDerivationFailed(detail) => detail.clone(),
            FailureReason::TerminalTeamIncomplete { team, task_ids } => {
                let mut out = "terminal team '".to_string();
                out.append(team.as_str());
                out.append("' has not completed tasks: ");
                out.append(join_texts(task_ids, ", ").as_str());
                out
            },
        }
    }
}

} // verus!
