//! Events received by the scheduler machine.

use vstd::prelude::*;

use crate::graph::NodeId;
use crate::manifest;
use crate::manifest::{TaskRecord, TaskRecordView};
use crate::text::Text;
use crate::types;
use crate::types::{
    FailureView, IntegrationFailure, IntegrationOutput, NodeFailure, PlanOutput, PlannerTaskView,
    RequestView, WorkOutput,
};

verus! {

/// Facts delivered to the scheduler from the outside world.
#[derive(Clone, Debug, PartialEq)]
pub enum SchedulerEvent {
    /// A synthetic tick that drives the `Active` state forward.
    Start,
    /// A dispatched plan node completed.
    PlanAccepted {
        /// The node that finished.
        node_id: NodeId,
        /// What it asks for.
        plan: PlanOutput,
    },
    /// A dispatched work node produced work that must be integrated.
    WorkAccepted {
        /// The node that finished.
        node_id: NodeId,
        /// The work to integrate.
        work: WorkOutput,
    },
    /// A dispatched node could not complete.
    NodeFailed {
        /// The node that failed.
        node_id: NodeId,
        /// The failure and recovery direction.
        failure: NodeFailure,
    },
    /// The integration of a work node's output succeeded.
    IntegrationSucceeded {
        /// The node whose work was integrated.
        node_id: NodeId,
        /// The output to store on the node.
        output: IntegrationOutput,
        /// The task manifest after the integration.
        manifest_tasks: Vec<TaskRecord>,
    },
    /// The integration of a work node's output failed.
    IntegrationFailed {
        /// The node whose work was being integrated.
        node_id: NodeId,
        /// The failure and recovery direction.
        failure: IntegrationFailure,
    },
    /// A plan node's task records were put into the manifest.
    PlannerTasksIntegrated {
        /// The plan node.
        node_id: NodeId,
        /// The task manifest after the integration.
        manifest_tasks: Vec<TaskRecord>,
    },
    /// A plan node's task records could not be put into the manifest.
    PlannerTasksIntegrationFailed {
        /// The plan node.
        node_id: NodeId,
        /// The failure and recovery direction.
        failure: IntegrationFailure,
    },
}

/// The mathematical value of a [`SchedulerEvent`].
pub enum EventView {
    Start,
    PlanAccepted { node_id: Text, children: Seq<RequestView>, tasks: Seq<PlannerTaskView> },
    WorkAccepted { node_id: Text, summary: Text },
    NodeFailed { node_id: Text, failure: FailureView },
    IntegrationSucceeded { node_id: Text, summary: Text, manifest: Seq<TaskRecordView> },
    IntegrationFailed { node_id: Text, failure: FailureView },
    PlannerTasksIntegrated { node_id: Text, manifest: Seq<TaskRecordView> },
    PlannerTasksIntegrationFailed { node_id: Text, failure: FailureView },
}

impl View for SchedulerEvent {
    type V = EventView;

    open spec fn view(&self) -> EventView {
        match self {
            SchedulerEvent::Start => EventView::Start,
            SchedulerEvent::PlanAccepted { node_id, plan } => EventView::PlanAccepted {
                node_id: node_id@,
                children: types::request_views(plan.children@),
                tasks: types::task_views(plan.tasks@),
            },
            SchedulerEvent::WorkAccepted { node_id, work } => EventView::WorkAccepted {
                node_id: node_id@,
                summary: work.summary@,
            },
            SchedulerEvent::NodeFailed { node_id, failure } => EventView::NodeFailed {
                node_id: node_id@,
                failure: failure@,
            },
            SchedulerEvent::IntegrationSucceeded { node_id, output, manifest_tasks } =>
                EventView::IntegrationSucceeded {
                node_id: node_id@,
                summary: output.summary@,
                manifest: manifest::record_views(manifest_tasks@),
            },
            SchedulerEvent::IntegrationFailed { node_id, failure } =>
                EventView::IntegrationFailed { node_id: node_id@, failure: failure@ },
            SchedulerEvent::PlannerTasksIntegrated { node_id, manifest_tasks } =>
                EventView::PlannerTasksIntegrated {
                node_id: node_id@,
                manifest: manifest::record_views(manifest_tasks@),
            },
            SchedulerEvent::PlannerTasksIntegrationFailed { node_id, failure } =>
                EventView::PlannerTasksIntegrationFailed { node_id: node_id@, failure: failure@ },
        }
    }
}

} // verus!
