//! Graph and node types, and the graph queries and mutations of the scheduler.
//!
//! Key invariants:
//!
//! - node ids are unique within a graph and never reused;
//! - nodes are never removed; a status only moves forward;
//! - fresh ids are random, so the ids are the only part of a transition that
//!   its state and event do not determine.

use vstd::prelude::*;

use crate::text;
use crate::text::{copy_opt_text, copy_texts, Text};
use crate::validation_plan;
use crate::validation_plan::{copy_opt_plan, ValidationPlan, ValidationPlanView};

verus! {

/// An opaque, stable identifier for a node in the run graph.
#[derive(Debug, PartialEq, Eq, Hash)]
pub struct NodeId(pub String);

impl View for NodeId {
    type V = Text;

    open spec fn view(&self) -> Text {
        self.0@
    }
}

impl Clone for NodeId {
    fn clone(&self) -> (copy: Self)
        ensures
            copy@ == self@,
    {
        NodeId(self.0.clone())
    }
}

/// The values of a list of ids.
pub open spec fn id_texts(ids: Seq<NodeId>) -> Seq<Text> {
    ids.map_values(|id: NodeId| id@)
}

/// Copies a list of ids.
pub fn copy_ids(ids: &Vec<NodeId>) -> (copy: Vec<NodeId>)
    ensures
        id_texts(copy@) == id_texts(ids@),
{
    let copy = ids.clone();
    assert(id_texts(copy@) =~= id_texts(ids@));
    copy
}

/// Whether `ids` holds `wanted`.
pub fn contains_id(ids: &Vec<NodeId>, wanted: &NodeId) -> (found: bool)
    ensures
        found == id_texts(ids@).contains(wanted@),
{
    let mut i: usize = 0;
    while i < ids.len()
        invariant
            i <= ids.len(),
            forall|j: int| 0 <= j < i ==> (#[trigger] ids@[j])@ != wanted@,
        decreases ids.len() - i,
    {
        if ids[i].0 == wanted.0 {
            assert(id_texts(ids@)[i as int] == wanted@);
            return true;
        }
        i += 1;
    }
    assert forall|j: int| 0 <= j < id_texts(ids@).len() implies id_texts(ids@)[j] != wanted@ by {
        assert(id_texts(ids@)[j] == ids@[j]@);
    }
    false
}

/// Whether a node performs planning or execution.
#[derive(Clone, Copy, Debug, PartialEq, Eq, Structural)]
pub enum NodeKind {
    /// A planning node. Decomposes an objective into child nodes.
    Plan,
    /// An execution node. Carries out a concrete, bounded task.
    Work,
}

/// The model capability level to use when running a node.
#[derive(Clone, Copy, Debug, PartialEq, Eq, Structural)]
pub enum ModelTier {
    /// The default, cost-efficient tier. Used for initial attempts.
    Cheap,
    /// The high-capability tier. Used for escalations and split planning.
    Strong,
}

/// The lifecycle position of a node within the run graph.
///
/// A status only moves forward. `Completed`, `Failed` and `Cancelled` are
/// permanent: a failed node is a historical record, and recovery creates a new
/// node in its place.
#[derive(Clone, Copy, Debug, PartialEq, Eq, Structural)]
pub enum NodeStatus {
    /// Waiting for its dependencies, or for a free slot.
    Pending,
    /// Dispatched to a runner.
    Running,
    /// Its output is being integrated.
    Integrating,
    /// Finished successfully; dependencies on it are satisfied.
    Completed,
    /// Finished unsuccessfully.
    Failed,
    /// Skipped because of a terminal failure upstream.
    Cancelled,
}

/// How a node was introduced into the run graph.
#[derive(Debug, PartialEq)]
pub enum NodeOrigin {
    /// The root plan node created directly from a run request.
    Root,
    /// A node inserted by a plan node's output, or by a team trigger.
    PlanExpansion,
    /// A replacement node created by `Retry` recovery.
    Retry {
        /// The node that failed.
        source: NodeId,
    },
    /// A replacement node created by `ElevateModel` recovery.
    ElevateModel {
        /// The node that failed.
        source: NodeId,
    },
    /// A replacement `Plan` node created by `Split` recovery.
    Split {
        /// The node that failed.
        source: NodeId,
    },
}

/// The mathematical value of a [`NodeOrigin`].
pub enum OriginView {
    Root,
    PlanExpansion,
    Retry { source: Text },
    ElevateModel { source: Text },
    Split { source: Text },
}

impl View for NodeOrigin {
    type V = OriginView;

    open spec fn view(&self) -> OriginView {
        match self {
            NodeOrigin::Root => OriginView::Root,
            NodeOrigin::PlanExpansion => OriginView::PlanExpansion,
            NodeOrigin::Retry { source } => OriginView::Retry { source: source@ },
            NodeOrigin::ElevateModel { source } => OriginView::ElevateModel { source: source@ },
            NodeOrigin::Split { source } => OriginView::Split { source: source@ },
        }
    }
}

impl Clone for NodeOrigin {
    fn clone(&self) -> (copy: Self)
        ensures
            copy@ == self@,
    {
        match self {
            NodeOrigin::Root => NodeOrigin::Root,
            NodeOrigin::PlanExpansion => NodeOrigin::PlanExpansion,
            NodeOrigin::Retry { source } => NodeOrigin::Retry { source: source.clone() },
            NodeOrigin::ElevateModel { source } => NodeOrigin::ElevateModel {
                source: source.clone(),
            },
            NodeOrigin::Split { source } => NodeOrigin::Split { source: source.clone() },
        }
    }
}

/// Structured test-target context for a work node.
#[derive(Debug, PartialEq, Eq)]
pub struct TestPlanContext {
    /// Test targets required for the node's own target files.
    pub required_validation_targets: Vec<String>,
    /// Targets scheduled in nodes that depend on this node, directly or not.
    pub planned_test_targets: Vec<String>,
}

/// The mathematical value of a [`TestPlanContext`].
pub struct TestPlanContextView {
    pub required_validation_targets: Seq<Text>,
    pub planned_test_targets: Seq<Text>,
}

impl View for TestPlanContext {
    type V = TestPlanContextView;

    open spec fn view(&self) -> TestPlanContextView {
        TestPlanContextView {
            required_validation_targets: text::texts(self.required_validation_targets@),
            planned_test_targets: text::texts(self.planned_test_targets@),
        }
    }
}

impl Clone for TestPlanContext {
    fn clone(&self) -> (copy: Self)
        ensures
            copy@ == self@,
    {
        TestPlanContext {
            required_validation_targets: copy_texts(&self.required_validation_targets),
            planned_test_targets: copy_texts(&self.planned_test_targets),
        }
    }
}

impl Default for TestPlanContext {
    fn default() -> (context: Self)
        ensures
            context@.required_validation_targets.len() == 0,
            context@.planned_test_targets.len() == 0,
    {
        TestPlanContext { required_validation_targets: vec![], planned_test_targets: vec![] }
    }
}

/// Diagnostic feedback attached to a node that replaces a failed one.
///
/// The objective stays the original task description; the dispatch layer
/// renders the feedback beside it.
#[derive(Debug, PartialEq)]
pub struct RetryFeedback {
    /// Concise diagnostic output from the failed attempt.
    pub diagnostics: String,
}

impl View for RetryFeedback {
    type V = Text;

    open spec fn view(&self) -> Text {
        self.diagnostics@
    }
}

impl Clone for RetryFeedback {
    fn clone(&self) -> (copy: Self)
        ensures
            copy@ == self@,
    {
        RetryFeedback { diagnostics: self.diagnostics.clone() }
    }
}

/// The value of optional feedback.
pub open spec fn opt_feedback(feedback: Option<RetryFeedback>) -> Option<Text> {
    match feedback {
        Some(f) => Some(f@),
        None => None,
    }
}

/// Copies optional feedback.
pub fn copy_opt_feedback(feedback: &Option<RetryFeedback>) -> (copy: Option<RetryFeedback>)
    ensures
        opt_feedback(copy) == opt_feedback(*feedback),
{
    match feedback {
        Some(f) => Some(f.clone()),
        None => None,
    }
}

/// A single unit of work in the run graph.
#[derive(Debug, PartialEq)]
pub struct Node {
    /// Stable identifier, unique within the run graph.
    pub id: NodeId,
    /// Whether this node plans or executes.
    pub kind: NodeKind,
    /// The team that owns this node; empty where no team does.
    pub team: String,
    /// The manifest task id this node acts on, if any.
    pub task_id: Option<String>,
    /// The project adapter of the owning team.
    pub adapter: String,
    /// The guiding document of the owning team.
    pub northstar: String,
    /// The worker role of a `Work` node, if it has a distinct one.
    pub worker_role: Option<String>,
    /// What this node should accomplish.
    pub objective: String,
    /// Files this node is expected and allowed to touch.
    pub target_files: Vec<String>,
    /// Test targets required for this node's target files.
    pub required_validation_targets: Vec<String>,
    /// Nodes that must be `Completed` before this node may run.
    pub dependencies: Vec<NodeId>,
    /// Current lifecycle position.
    pub status: NodeStatus,
    /// Zero-based retry count.
    pub attempt: u32,
    /// Ancestry through `Plan` nodes; bounds recursive planning.
    pub plan_depth: usize,
    /// The model capability level to use.
    pub model_tier: ModelTier,
    /// A brief description of the outcome, set on completion.
    pub summary: Option<String>,
    /// How this node was introduced into the graph.
    pub origin: NodeOrigin,
    /// The validation contract for this node.
    pub validation_plan: Option<ValidationPlan>,
    /// Diagnostic feedback from the attempt this node replaces.
    pub retry_feedback: Option<RetryFeedback>,
}

/// The mathematical value of a [`Node`].
pub struct NodeView {
    pub id: Text,
    pub kind: NodeKind,
    pub team: Text,
    pub task_id: Option<Text>,
    pub adapter: Text,
    pub northstar: Text,
    pub worker_role: Option<Text>,
    pub objective: Text,
    pub target_files: Seq<Text>,
    pub required_validation_targets: Seq<Text>,
    pub dependencies: Seq<Text>,
    pub status: NodeStatus,
    pub attempt: u32,
    pub plan_depth: usize,
    pub model_tier: ModelTier,
    pub summary: Option<Text>,
    pub origin: OriginView,
    pub validation_plan: Option<ValidationPlanView>,
    pub retry_feedback: Option<Text>,
}

impl View for Node {
    type V = NodeView;

    open spec fn view(&self) -> NodeView {
        NodeView {
            id: self.id@,
            kind: self.kind,
            team: self.team@,
            task_id: text::opt_text(self.task_id),
            adapter: self.adapter@,
            northstar: self.northstar@,
            worker_role: text::opt_text(self.worker_role),
            objective: self.objective@,
            target_files: text::texts(self.target_files@),
            required_validation_targets: text::texts(self.required_validation_targets@),
            dependencies: id_texts(self.dependencies@),
            status: self.status,
            attempt: self.attempt,
            plan_depth: self.plan_depth,
            model_tier: self.model_tier,
            summary: text::opt_text(self.summary),
            origin: self.origin@,
            validation_plan: validation_plan::opt_plan(self.validation_plan),
            retry_feedback: opt_feedback(self.retry_feedback),
        }
    }
}

impl Clone for Node {
    fn clone(&self) -> (copy: Self)
        ensures
            copy@ == self@,
    {
        Node {
            id: self.id.clone(),
            kind: self.kind,
            team: self.team.clone(),
            task_id: copy_opt_text(&self.task_id),
            adapter: self.adapter.clone(),
            northstar: self.northstar.clone(),
            worker_role: copy_opt_text(&self.worker_role),
            objective: self.objective.clone(),
            target_files: copy_texts(&self.target_files),
            required_validation_targets: copy_texts(&self.required_validation_targets),
            dependencies: copy_ids(&self.dependencies),
            status: self.status,
            attempt: self.attempt,
            plan_depth: self.plan_depth,
            model_tier: self.model_tier,
            summary: copy_opt_text(&self.summary),
            origin: self.origin.clone(),
            validation_plan: copy_opt_plan(&self.validation_plan),
            retry_feedback: copy_opt_feedback(&self.retry_feedback),
        }
    }
}

/// The complete set of nodes for one run, in insertion order.
#[derive(Debug, PartialEq)]
pub struct RunGraph {
    /// All nodes, in insertion order.
    pub nodes: Vec<Node>,
}

/// The values of a list of nodes.
pub open spec fn node_views(nodes: Seq<Node>) -> Seq<NodeView> {
    nodes.map_values(|n: Node| n@)
}

impl View for RunGraph {
    type V = Seq<NodeView>;

    open spec fn view(&self) -> Seq<NodeView> {
        node_views(self.nodes@)
    }
}

impl Clone for RunGraph {
    fn clone(&self) -> (copy: Self)
        ensures
            copy@ == self@,
    {
        let copy = RunGraph { nodes: self.nodes.clone() };
        assert(copy@ =~= self@);
        copy
    }
}

} // verus!
