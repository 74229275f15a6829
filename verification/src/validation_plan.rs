//! Validation contracts attached to work nodes, and the outcome of running one.

use vstd::prelude::*;

use crate::text;
use crate::text::{copy_texts, Text};

verus! {

/// Which files a validation step looks at.
#[derive(Clone, Copy, Debug, PartialEq, Eq, Structural)]
pub enum ValidationScope {
    /// The whole workspace.
    Workspace,
    /// Only the node's declared target files.
    TargetFiles,
}

/// When a validation step runs.
#[derive(Clone, Copy, Debug, PartialEq, Eq, Structural)]
pub enum ValidationStage {
    /// Before the work is integrated into the artifact.
    PreIntegration,
}

/// One command of a validation plan.
#[derive(Debug, PartialEq)]
pub struct ValidationStep {
    /// Program and arguments.
    pub command: Vec<String>,
    /// File patterns; when non-empty, the step runs only if one matches.
    pub when_artifacts_present: Vec<String>,
    /// Which files the step looks at.
    pub scope: ValidationScope,
    /// When the step runs.
    pub stage: ValidationStage,
    /// Whether a failing step fails the plan.
    pub must_pass: bool,
}

/// The mathematical value of a [`ValidationStep`].
pub struct ValidationStepView {
    pub command: Seq<Text>,
    pub when_artifacts_present: Seq<Text>,
    pub scope: ValidationScope,
    pub stage: ValidationStage,
    pub must_pass: bool,
}

impl View for ValidationStep {
    type V = ValidationStepView;

    open spec fn view(&self) -> ValidationStepView {
        ValidationStepView {
            command: text::texts(self.command@),
            when_artifacts_present: text::texts(self.when_artifacts_present@),
            scope: self.scope,
            stage: self.stage,
            must_pass: self.must_pass,
        }
    }
}

impl Clone for ValidationStep {
    fn clone(&self) -> (copy: Self)
        ensures
            copy@ == self@,
    {
        ValidationStep {
            command: copy_texts(&self.command),
            when_artifacts_present: copy_texts(&self.when_artifacts_present),
            scope: self.scope,
            stage: self.stage,
            must_pass: self.must_pass,
        }
    }
}

/// The validation contract of a work node.
#[derive(Debug, PartialEq)]
pub struct ValidationPlan {
    /// The commands, in order.
    pub steps: Vec<ValidationStep>,
    /// Time budget of the whole plan.
    pub timeout_seconds: u64,
}

/// The mathematical value of a [`ValidationPlan`].
pub struct ValidationPlanView {
    pub steps: Seq<ValidationStepView>,
    pub timeout_seconds: u64,
}

impl View for ValidationPlan {
    type V = ValidationPlanView;

    open spec fn view(&self) -> ValidationPlanView {
        ValidationPlanView {
            steps: self.steps@.map_values(|s: ValidationStep| s@),
            timeout_seconds: self.timeout_seconds,
        }
    }
}

impl Clone for ValidationPlan {
    fn clone(&self) -> (copy: Self)
        ensures
            copy@ == self@,
    {
        let copy = ValidationPlan {
            steps: self.steps.clone(),
            timeout_seconds: self.timeout_seconds,
        };
        assert(copy@.steps =~= self@.steps);
        copy
    }
}

/// The value of an optional validation plan.
pub open spec fn opt_plan(plan: Option<ValidationPlan>) -> Option<ValidationPlanView> {
    match plan {
        Some(p) => Some(p@),
        None => None,
    }
}

/// Copies an optional validation plan.
pub fn copy_opt_plan(plan: &Option<ValidationPlan>) -> (copy: Option<ValidationPlan>)
    ensures
        opt_plan(copy) == opt_plan(*plan),
{
    match plan {
        Some(p) => Some(p.clone()),
        None => None,
    }
}

/// What is known of the command that failed a validation.
#[derive(Debug, PartialEq)]
pub struct ValidationCommandFailure {
    /// The command line that failed.
    pub command: String,
    /// Its exit code, if it exited at all.
    pub exit_code: Option<i32>,
    /// What it printed.
    pub stdout: String,
    /// What it printed as errors.
    pub stderr: String,
}

/// The outcome of one validation.
#[derive(Debug, PartialEq)]
pub struct ValidationResult {
    /// Whether the validation passed.
    pub passed: bool,
    /// A short account of it.
    pub summary: String,
    /// The command that failed, where one did.
    pub failure: Option<ValidationCommandFailure>,
}

} // verus!
