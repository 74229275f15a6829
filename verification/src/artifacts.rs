//! The artifact that a run works on, and the workspaces of work attempts.

use vstd::prelude::*;

use crate::text::Text;

verus! {

/// A version of the artifact: a commit on a branch of a repository.
#[derive(Debug, PartialEq)]
pub struct Artifact {
    /// Where the repository is.
    pub repo_path: String,
    /// The branch that work is integrated into.
    pub branch: String,
    /// The commit that the artifact currently is.
    pub commit_sha: String,
}

/// The mathematical value of an [`Artifact`].
pub struct ArtifactValue {
    pub repo_path: Text,
    pub branch: Text,
    pub commit_sha: Text,
}

impl View for Artifact {
    type V = ArtifactValue;

    open spec fn view(&self) -> ArtifactValue {
        ArtifactValue {
            repo_path: self.repo_path@,
            branch: self.branch@,
            commit_sha: self.commit_sha@,
        }
    }
}

impl Clone for Artifact {
    fn clone(&self) -> (copy: Self)
        ensures
            copy@ == self@,
    {
        Artifact {
            repo_path: self.repo_path.clone(),
            branch: self.branch.clone(),
            commit_sha: self.commit_sha.clone(),
        }
    }
}

/// The value of an optional artifact.
pub open spec fn opt_artifact(artifact: Option<Artifact>) -> Option<ArtifactValue> {
    match artifact {
        Some(a) => Some(a@),
        None => None,
    }
}

/// Copies an optional artifact.
pub fn copy_opt_artifact(artifact: &Option<Artifact>) -> (copy: Option<Artifact>)
    ensures
        opt_artifact(copy) == opt_artifact(*artifact),
{
    match artifact {
        Some(a) => Some(a.clone()),
        None => None,
    }
}

/// What a node sees of the artifact.
#[derive(Debug, PartialEq)]
pub struct ArtifactView {
    /// Where the repository is.
    pub repo_path: String,
    /// The commit to read.
    pub commit_sha: String,
}

/// The mathematical value of an [`ArtifactView`].
pub struct ArtifactViewValue {
    pub repo_path: Text,
    pub commit_sha: Text,
}

impl View for ArtifactView {
    type V = ArtifactViewValue;

    open spec fn view(&self) -> ArtifactViewValue {
        ArtifactViewValue { repo_path: self.repo_path@, commit_sha: self.commit_sha@ }
    }
}

/// The value of an optional artifact view.
pub open spec fn opt_artifact_view(view: Option<ArtifactView>) -> Option<ArtifactViewValue> {
    match view {
        Some(v) => Some(v@),
        None => None,
    }
}

/// What a node sees of an artifact: the repository and the commit.
pub open spec fn seen(artifact: Option<ArtifactValue>) -> Option<ArtifactViewValue> {
    match artifact {
        Some(a) => Some(
            ArtifactViewValue { repo_path: a.repo_path, commit_sha: a.commit_sha },
        ),
        None => None,
    }
}

/// What a node sees of an artifact.
pub fn artifact_view(artifact: &Option<Artifact>) -> (view: Option<ArtifactView>)
    ensures
        opt_artifact_view(view) == seen(opt_artifact(*artifact)),
{
    match artifact {
        Some(a) => Some(
            ArtifactView { repo_path: a.repo_path.clone(), commit_sha: a.commit_sha.clone() },
        ),
        None => None,
    }
}

/// A working copy of the artifact for one attempt.
#[derive(Debug, PartialEq)]
pub struct Workspace {
    /// Where it is.
    pub path: String,
    /// The commit it was made from.
    pub base_commit: String,
}

/// The mathematical value of a [`Workspace`].
pub struct WorkspaceValue {
    pub path: Text,
    pub base_commit: Text,
}

impl View for Workspace {
    type V = WorkspaceValue;

    open spec fn view(&self) -> WorkspaceValue {
        WorkspaceValue { path: self.path@, base_commit: self.base_commit@ }
    }
}

impl Clone for Workspace {
    fn clone(&self) -> (copy: Self)
        ensures
            copy@ == self@,
    {
        Workspace { path: self.path.clone(), base_commit: self.base_commit.clone() }
    }
}

/// One attempt at a work node, with the workspace it may change.
#[derive(Debug, PartialEq)]
pub struct WorkAttempt {
    /// The attempt number.
    pub attempt: u32,
    /// Where the attempt works.
    pub workspace: Workspace,
}

/// The mathematical value of a [`WorkAttempt`].
pub struct WorkAttemptValue {
    pub attempt: u32,
    pub workspace: WorkspaceValue,
}

impl View for WorkAttempt {
    type V = WorkAttemptValue;

    open spec fn view(&self) -> WorkAttemptValue {
        WorkAttemptValue { attempt: self.attempt, workspace: self.workspace@ }
    }
}

impl Clone for WorkAttempt {
    fn clone(&self) -> (copy: Self)
        ensures
            copy@ == self@,
    {
        WorkAttempt { attempt: self.attempt, workspace: self.workspace.clone() }
    }
}

/// The value of an optional attempt.
pub open spec fn opt_attempt(attempt: Option<WorkAttempt>) -> Option<WorkAttemptValue> {
    match attempt {
        Some(a) => Some(a@),
        None => None,
    }
}

} // verus!
