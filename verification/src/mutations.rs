//! How the scheduler changes a run graph. Nodes are only ever marked, rewired
//! or appended; none is removed.

use vstd::prelude::*;

use crate::graph;
use crate::graph::{
    ModelTier, Node, NodeId, NodeKind, NodeOrigin, NodeStatus, NodeView, OriginView, RunGraph,
};
use crate::queries;
use crate::queries::MAX_PLAN_DEPTH;
use crate::search;
use crate::text;
use crate::text::{copy_opt_text, copy_texts, decimal_text, Text};
use crate::types;
use crate::types::{NodeRequest, RequestView};
use crate::validation_plan::copy_opt_plan;

verus! {

// ── marking ────────────────────────────────────────────────────────────────

/// `n`, with the given status if it carries the id.
pub open spec fn marked_node(n: NodeView, id: Text, status: NodeStatus) -> NodeView {
    if n.id == id {
        NodeView { status, ..n }
    } else {
        n
    }
}

/// The graph with the given status on the nodes that carry the id.
pub open spec fn mark(g: Seq<NodeView>, id: Text, status: NodeStatus) -> Seq<NodeView> {
    g.map_values(|n: NodeView| marked_node(n, id, status))
}

/// `n`, completed with a summary if it carries the id.
pub open spec fn summarized_node(n: NodeView, id: Text, summary: Text) -> NodeView {
    if n.id == id {
        NodeView { status: NodeStatus::Completed, summary: Some(summary), ..n }
    } else {
        n
    }
}

/// The graph with the nodes that carry the id completed with a summary.
pub open spec fn complete_with_summary(g: Seq<NodeView>, id: Text, summary: Text) -> Seq<NodeView> {
    g.map_values(|n: NodeView| summarized_node(n, id, summary))
}

// ── rewiring ───────────────────────────────────────────────────────────────

/// The dependencies with `old_id` replaced by `new_id`.
pub open spec fn remapped_ids(ids: Seq<Text>, old_id: Text, new_id: Text) -> Seq<Text> {
    ids.map_values(|d: Text| if d == old_id { new_id } else { d })
}

/// `n`, with its dependencies remapped while it is pending.
pub open spec fn remapped_node(n: NodeView, old_id: Text, new_id: Text) -> NodeView {
    if n.status is Pending {
        NodeView { dependencies: remapped_ids(n.dependencies, old_id, new_id), ..n }
    } else {
        n
    }
}

/// The graph with the dependencies of pending nodes remapped.
pub open spec fn remap(g: Seq<NodeView>, old_id: Text, new_id: Text) -> Seq<NodeView> {
    g.map_values(|n: NodeView| remapped_node(n, old_id, new_id))
}

// ── appending ──────────────────────────────────────────────────────────────

/// The plan depth of a child: one more for plan nodes. A depth that no
/// machine integer can exceed stays.
pub open spec fn child_depth(parent_depth: usize, kind: NodeKind) -> usize {
    if kind is Plan && parent_depth < usize::MAX {
        (parent_depth + 1) as usize
    } else {
        parent_depth
    }
}

/// The node that a request asks for.
pub open spec fn requested_node(
    request: RequestView,
    id: Text,
    task_id: Option<Text>,
    dependencies: Seq<Text>,
    plan_depth: usize,
) -> NodeView {
    NodeView {
        id,
        kind: request.kind,
        team: request.team,
        task_id,
        adapter: request.adapter,
        northstar: request.northstar,
        worker_role: request.worker_role,
        objective: request.objective,
        target_files: request.target_files,
        required_validation_targets: request.required_validation_targets,
        dependencies,
        status: NodeStatus::Pending,
        attempt: 0,
        plan_depth,
        model_tier: ModelTier::Cheap,
        summary: None,
        origin: OriginView::PlanExpansion,
        validation_plan: request.validation_plan,
        retry_feedback: None,
    }
}

/// The graph id that stands for a local name: that of the last request of
/// that name.
pub open spec fn assigned(children: Seq<RequestView>, ids: Seq<Text>, local: Text) -> Option<Text>
    decreases children.len(),
{
    if children.len() == 0 {
        None
    } else if children.last().id == local {
        Some(ids[children.len() - 1])
    } else {
        assigned(children.drop_last(), ids, local)
    }
}

/// The graph id that a reference means: a sibling's, or itself.
pub open spec fn resolved(children: Seq<RequestView>, ids: Seq<Text>, reference: Text) -> Text {
    match assigned(children, ids, reference) {
        Some(id) => id,
        None => reference,
    }
}

/// The references, each resolved.
pub open spec fn resolved_all(
    children: Seq<RequestView>,
    ids: Seq<Text>,
    references: Seq<Text>,
) -> Seq<Text> {
    references.map_values(|r: Text| resolved(children, ids, r))
}

/// The node that a child request of `parent` becomes.
pub open spec fn child_node(
    parent: NodeView,
    children: Seq<RequestView>,
    ids: Seq<Text>,
    request: RequestView,
) -> NodeView {
    requested_node(
        request,
        resolved(children, ids, request.id),
        if request.task_id is Some {
            request.task_id
        } else {
            parent.task_id
        },
        resolved_all(children, ids, request.dependencies),
        child_depth(parent.plan_depth, request.kind),
    )
}

/// The nodes that the child requests of `parent` become.
pub open spec fn child_nodes(
    parent: NodeView,
    children: Seq<RequestView>,
    ids: Seq<Text>,
) -> Seq<NodeView> {
    children.map_values(|r: RequestView| child_node(parent, children, ids, r))
}

/// The nodes that triggered requests become, at depths below an anchor.
pub open spec fn spawned_nodes(
    anchor_depth: usize,
    requests: Seq<RequestView>,
    ids: Seq<Text>,
) -> Seq<NodeView> {
    Seq::new(
        requests.len(),
        |i: int|
            requested_node(
                requests[i],
                ids[i],
                requests[i].task_id,
                requests[i].dependencies,
                child_depth(anchor_depth, requests[i].kind),
            ),
    )
}

// ── depth limits ───────────────────────────────────────────────────────────

/// The message for a depth over the limit.
pub open spec fn depth_message(depth: usize) -> Text {
    "plan depth limit exceeded: requested depth "@ + text::decimal(depth as nat) + "; limit is "@
        + text::decimal(MAX_PLAN_DEPTH as nat)
}

/// The message for the child at a position, if it is too deep.
pub open spec fn depth_check(parent_depth: usize, children: Seq<RequestView>) -> spec_fn(
    int,
) -> Option<Text> {
    |i: int|
        if child_depth(parent_depth, children[i].kind) > MAX_PLAN_DEPTH {
            Some(depth_message(child_depth(parent_depth, children[i].kind)))
        } else {
            None
        }
}

/// The message for the first child that is too deep, if one is.
pub open spec fn depth_violation(parent_depth: usize, children: Seq<RequestView>) -> Option<Text> {
    search::first_some(children.len(), depth_check(parent_depth, children))
}

/// The plan depth of a child: one more for plan nodes.
pub fn plan_child_depth(parent_depth: usize, kind: NodeKind) -> (depth: usize)
    ensures
        depth == child_depth(parent_depth, kind),
{
    match kind {
        NodeKind::Plan => {
            if parent_depth < usize::MAX {
                parent_depth + 1
            } else {
                parent_depth
            }
        },
        NodeKind::Work => parent_depth,
    }
}

fn plan_depth_limit_reason(depth: usize) -> (message: String)
    ensures
        message@ == depth_message(depth),
{
    let mut out = "plan depth limit exceeded: requested depth ".to_string();
    out.append(decimal_text(depth as u64).as_str());
    out.append("; limit is ");
    out.append(decimal_text(MAX_PLAN_DEPTH as u64).as_str());
    out
}

/// Checks that no child of a plan node goes over the depth limit.
pub fn validate_plan_child_depths(parent_depth: usize, children: &Vec<NodeRequest>) -> (result:
    Result<(), String>)
    ensures
        match result {
            Ok(_) => depth_violation(parent_depth, types::request_views(children@)) is None,
            Err(message) => depth_violation(parent_depth, types::request_views(children@)) == Some(
                message@,
            ),
        },
{
    let ghost views = types::request_views(children@);
    let mut i: usize = 0;
    while i < children.len()
        invariant
            i <= children.len(),
            views == types::request_views(children@),
            search::first_some(i as nat, depth_check(parent_depth, views)) is None,
        decreases children.len() - i,
    {
        assert(views[i as int] == children@[i as int]@);
        let depth = plan_child_depth(parent_depth, children[i].kind);
        if depth > MAX_PLAN_DEPTH {
            proof {
                search::lemma_first_some_extends(
                    (i + 1) as nat,
                    views.len(),
                    depth_check(parent_depth, views),
                );
            }
            return Err(plan_depth_limit_reason(depth));
        }
        i += 1;
    }
    Ok(())
}

/// Checks that a split of a node at `original_depth` stays in the depth limit.
pub fn validate_split_depth(original_depth: usize) -> (result: Result<(), String>)
    ensures
        match result {
            Ok(_) => original_depth < MAX_PLAN_DEPTH,
            Err(message) => original_depth >= MAX_PLAN_DEPTH && message@ == depth_message(
                child_depth(original_depth, NodeKind::Plan),
            ),
        },
{
    let split_depth = plan_child_depth(original_depth, NodeKind::Plan);
    if split_depth > MAX_PLAN_DEPTH {
        Err(plan_depth_limit_reason(split_depth))
    } else {
        Ok(())
    }
}

// ── the mutations ──────────────────────────────────────────────────────────

fn assigned_id(children: &Vec<NodeRequest>, ids: &Vec<NodeId>, local: &NodeId) -> (id: NodeId)
    requires
        ids@.len() >= children@.len(),
    ensures
        id@ == resolved(types::request_views(children@), graph::id_texts(ids@), local@),
{
    let ghost views = types::request_views(children@);
    let ghost id_views = graph::id_texts(ids@);
    let mut k: usize = children.len();
    assert(views.take(k as int) =~= views);
    while k > 0
        invariant
            k <= children.len(),
            ids@.len() >= children@.len(),
            views == types::request_views(children@),
            id_views == graph::id_texts(ids@),
            assigned(views, id_views, local@) == assigned(views.take(k as int), id_views, local@),
        decreases k,
    {
        let ghost part = views.take(k as int);
        assert(part.last() == children@[k - 1]@);
        if children[k - 1].id.0 == local.0 {
            assert(id_views[k - 1] == ids@[k - 1]@);
            return ids[k - 1].clone();
        }
        assert(part.drop_last() =~= views.take(k - 1));
        k -= 1;
    }
    local.clone()
}

fn resolve_dependencies(
    children: &Vec<NodeRequest>,
    ids: &Vec<NodeId>,
    references: &Vec<NodeId>,
) -> (out: Vec<NodeId>)
    requires
        ids@.len() >= children@.len(),
    ensures
        graph::id_texts(out@) == resolved_all(
            types::request_views(children@),
            graph::id_texts(ids@),
            graph::id_texts(references@),
        ),
{
    let mut out: Vec<NodeId> = Vec::new();
    let mut i: usize = 0;
    while i < references.len()
        invariant
            i <= references.len(),
            ids@.len() >= children@.len(),
            out@.len() == i,
            forall|j: int|
                0 <= j < i ==> (#[trigger] out@[j])@ == resolved(
                    types::request_views(children@),
                    graph::id_texts(ids@),
                    references@[j]@,
                ),
        decreases references.len() - i,
    {
        out.push(assigned_id(children, ids, &references[i]));
        i += 1;
    }
    assert(graph::id_texts(out@) =~= resolved_all(
        types::request_views(children@),
        graph::id_texts(ids@),
        graph::id_texts(references@),
    ));
    out
}

fn make_requested_node(
    request: &NodeRequest,
    id: NodeId,
    task_id: Option<String>,
    dependencies: Vec<NodeId>,
    plan_depth: usize,
) -> (node: Node)
    ensures
        node@ == requested_node(
            request@,
            id@,
            text::opt_text(task_id),
            graph::id_texts(dependencies@),
            plan_depth,
        ),
{
    Node {
        id,
        kind: request.kind,
        team: request.team.clone(),
        task_id,
        adapter: request.adapter.clone(),
        northstar: request.northstar.clone(),
        worker_role: copy_opt_text(&request.worker_role),
        objective: request.objective.clone(),
        target_files: copy_texts(&request.target_files),
        required_validation_targets: copy_texts(&request.required_validation_targets),
        dependencies,
        status: NodeStatus::Pending,
        attempt: 0,
        plan_depth,
        model_tier: ModelTier::Cheap,
        summary: None,
        origin: NodeOrigin::PlanExpansion,
        validation_plan: copy_opt_plan(&request.validation_plan),
        retry_feedback: None,
    }
}

impl RunGraph {
    /// Sets the status of the nodes that carry the id.
    pub fn mark_node(self, id: &NodeId, status: NodeStatus) -> (graph: RunGraph)
        ensures
            graph@ == mark(self@, id@, status),
    {
        let ghost before = self@;
        let mut graph = self;
        let mut i: usize = 0;
        while i < graph.nodes.len()
            invariant
                i <= graph.nodes.len(),
                graph.nodes@.len() == before.len(),
                forall|j: int|
                    0 <= j < i ==> (#[trigger] graph.nodes@[j])@ == marked_node(
                        before[j],
                        id@,
                        status,
                    ),
                forall|j: int| i <= j < before.len() ==> (#[trigger] graph.nodes@[j])@ == before[j],
            decreases graph.nodes.len() - i,
        {
            if graph.nodes[i].id.0 == id.0 {
                graph.nodes[i].status = status;
            }
            i += 1;
        }
        assert(graph@ =~= mark(before, id@, status));
        graph
    }

    /// Completes the nodes that carry the id, with a summary.
    pub fn mark_node_completed_with_summary(self, id: &NodeId, summary: String) -> (graph: RunGraph)
        ensures
            graph@ == complete_with_summary(self@, id@, summary@),
    {
        let ghost before = self@;
        let mut graph = self;
        let mut i: usize = 0;
        while i < graph.nodes.len()
            invariant
                i <= graph.nodes.len(),
                graph.nodes@.len() == before.len(),
                forall|j: int|
                    0 <= j < i ==> (#[trigger] graph.nodes@[j])@ == summarized_node(
                        before[j],
                        id@,
                        summary@,
                    ),
                forall|j: int| i <= j < before.len() ==> (#[trigger] graph.nodes@[j])@ == before[j],
            decreases graph.nodes.len() - i,
        {
            if graph.nodes[i].id.0 == id.0 {
                graph.nodes[i].status = NodeStatus::Completed;
                graph.nodes[i].summary = Some(summary.clone());
            }
            i += 1;
        }
        assert(graph@ =~= complete_with_summary(before, id@, summary@));
        graph
    }

    /// Appends a node.
    pub fn push_node(self, node: Node) -> (graph: RunGraph)
        ensures
            graph@ == self@.push(node@),
    {
        let ghost before = self@;
        let mut graph = self;
        graph.nodes.push(node);
        assert(graph@ =~= before.push(node@));
        graph
    }

    /// Makes pending nodes that depend on `old_id` depend on `new_id`.
    pub fn remap_pending_dependencies(self, old_id: &NodeId, new_id: &NodeId) -> (graph: RunGraph)
        ensures
            graph@ == remap(self@, old_id@, new_id@),
    {
        let ghost before = self@;
        let mut graph = self;
        let mut i: usize = 0;
        while i < graph.nodes.len()
            invariant
                i <= graph.nodes.len(),
                graph.nodes@.len() == before.len(),
                forall|j: int|
                    0 <= j < i ==> (#[trigger] graph.nodes@[j])@ == remapped_node(
                        before[j],
                        old_id@,
                        new_id@,
                    ),
                forall|j: int| i <= j < before.len() ==> (#[trigger] graph.nodes@[j])@ == before[j],
            decreases graph.nodes.len() - i,
        {
            if graph.nodes[i].status == NodeStatus::Pending {
                let ghost deps = graph.nodes@[i as int].dependencies@;
                let mut remapped: Vec<NodeId> = Vec::new();
                let mut k: usize = 0;
                while k < graph.nodes[i].dependencies.len()
                    invariant
                        i < graph.nodes.len(),
                        deps == graph.nodes@[i as int].dependencies@,
                        k <= deps.len(),
                        remapped@.len() == k,
                        forall|m: int|
                            0 <= m < k ==> (#[trigger] remapped@[m])@ == (if deps[m]@ == old_id@ {
                                new_id@
                            } else {
                                deps[m]@
                            }),
                    decreases deps.len() - k,
                {
                    if graph.nodes[i].dependencies[k].0 == old_id.0 {
                        remapped.push(new_id.clone());
                    } else {
                        remapped.push(graph.nodes[i].dependencies[k].clone());
                    }
                    k += 1;
                }
                assert(graph::id_texts(remapped@) =~= remapped_ids(
                    graph::id_texts(deps),
                    old_id@,
                    new_id@,
                ));
                graph.nodes[i].dependencies = remapped;
            }
            i += 1;
        }
        assert(graph@ =~= remap(before, old_id@, new_id@));
        graph
    }

    /// Appends the nodes that `children` ask for, with the given fresh ids.
    ///
    /// References between siblings become references between their fresh ids.
    /// A child without a task of its own acts on its parent's.
    pub fn insert_children(
        self,
        parent_id: &NodeId,
        children: &Vec<NodeRequest>,
        ids: &Vec<NodeId>,
    ) -> (graph: RunGraph)
        requires
            queries::has_id(self@, parent_id@),
            ids@.len() >= children@.len(),
        ensures
            graph@ == self@ + child_nodes(
                queries::lookup(self@, parent_id@)->0,
                types::request_views(children@),
                graph::id_texts(ids@),
            ),
    {
        let ghost before = self@;
        let parent = self.get_node(parent_id);
        let ghost parent_view = parent@;
        let parent_depth: usize = parent.plan_depth;
        let parent_task: Option<String> = copy_opt_text(&parent.task_id);
        let ghost views = types::request_views(children@);
        let ghost id_views = graph::id_texts(ids@);
        let mut graph = self;
        let mut i: usize = 0;
        assert(graph@ =~= before + child_nodes(parent_view, views, id_views).take(0));
        while i < children.len()
            invariant
                i <= children.len(),
                ids@.len() >= children@.len(),
                views == types::request_views(children@),
                id_views == graph::id_texts(ids@),
                parent_depth == parent_view.plan_depth,
                text::opt_text(parent_task) == parent_view.task_id,
                graph@ == before + child_nodes(parent_view, views, id_views).take(i as int),
            decreases children.len() - i,
        {
            let ghost all = child_nodes(parent_view, views, id_views);
            let ghost reached = graph@;
            let request = &children[i];
            assert(views[i as int] == request@);
            let task_id = match &request.task_id {
                Some(task) => Some(task.clone()),
                None => copy_opt_text(&parent_task),
            };
            let node = make_requested_node(
                request,
                assigned_id(children, ids, &request.id),
                task_id,
                resolve_dependencies(children, ids, &request.dependencies),
                plan_child_depth(parent_depth, request.kind),
            );
            assert(node@ == all[i as int]);
            graph.nodes.push(node);
            assert(graph@ =~= reached.push(node@));
            assert(before + all.take(i + 1) =~= (before + all.take(i as int)).push(all[i as int]));
            i += 1;
        }
        assert(child_nodes(parent_view, views, id_views).take(children@.len() as int)
            =~= child_nodes(parent_view, views, id_views));
        graph
    }

    /// Appends the nodes that triggered `requests` ask for, with the given
    /// fresh ids and at depths below `anchor_depth`.
    pub fn insert_spawned(
        self,
        anchor_depth: usize,
        requests: &Vec<NodeRequest>,
        ids: &Vec<NodeId>,
    ) -> (graph: RunGraph)
        requires
            ids@.len() >= requests@.len(),
        ensures
            graph@ == self@ + spawned_nodes(
                anchor_depth,
                types::request_views(requests@),
                graph::id_texts(ids@),
            ),
    {
        let ghost before = self@;
        let ghost all = spawned_nodes(
            anchor_depth,
            types::request_views(requests@),
            graph::id_texts(ids@),
        );
        let mut graph = self;
        let mut i: usize = 0;
        assert(graph@ =~= before + all.take(0));
        while i < requests.len()
            invariant
                i <= requests.len(),
                ids@.len() >= requests@.len(),
                all == spawned_nodes(
                    anchor_depth,
                    types::request_views(requests@),
                    graph::id_texts(ids@),
                ),
                graph@ == before + all.take(i as int),
            decreases requests.len() - i,
        {
            let ghost reached = graph@;
            let request = &requests[i];
            assert(types::request_views(requests@)[i as int] == request@);
            assert(graph::id_texts(ids@)[i as int] == ids@[i as int]@);
            let node = make_requested_node(
                request,
                ids[i].clone(),
                copy_opt_text(&request.task_id),
                graph::copy_ids(&request.dependencies),
                plan_child_depth(anchor_depth, request.kind),
            );
            assert(node@ == all[i as int]);
            graph.nodes.push(node);
            assert(graph@ =~= reached.push(node@));
            assert(before + all.take(i + 1) =~= (before + all.take(i as int)).push(all[i as int]));
            i += 1;
        }
        assert(all.take(requests@.len() as int) =~= all);
        graph
    }
}

} // verus!
