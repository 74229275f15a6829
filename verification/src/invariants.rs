//! Checks on a run graph and on what is delivered to it.

use vstd::prelude::*;

use crate::event::{EventView, SchedulerEvent};
use crate::graph;
use crate::graph::{
    contains_id, NodeId, NodeKind, NodeOrigin, NodeStatus, NodeView, OriginView, RunGraph,
};
use crate::queries;
use crate::search;
use crate::text;
use crate::text::{contains_text, join_texts, Text};
use crate::types;
use crate::types::{NodeRequest, RequestView};

verus! {

// ── names ──────────────────────────────────────────────────────────────────

/// The name of a status.
pub open spec fn status_name(status: NodeStatus) -> Text {
    match status {
        NodeStatus::Pending => "Pending"@,
        NodeStatus::Running => "Running"@,
        NodeStatus::Integrating => "Integrating"@,
        NodeStatus::Completed => "Completed"@,
        NodeStatus::Failed => "Failed"@,
        NodeStatus::Cancelled => "Cancelled"@,
    }
}

/// The name of a kind.
pub open spec fn kind_name(kind: NodeKind) -> Text {
    match kind {
        NodeKind::Plan => "Plan"@,
        NodeKind::Work => "Work"@,
    }
}

impl NodeStatus {
    /// The status's name.
    pub fn name(self) -> (name: &'static str)
        ensures
            name@ == status_name(self),
    {
        match self {
            NodeStatus::Pending => "Pending",
            NodeStatus::Running => "Running",
            NodeStatus::Integrating => "Integrating",
            NodeStatus::Completed => "Completed",
            NodeStatus::Failed => "Failed",
            NodeStatus::Cancelled => "Cancelled",
        }
    }
}

impl NodeKind {
    /// The kind's name.
    pub fn name(self) -> (name: &'static str)
        ensures
            name@ == kind_name(self),
    {
        match self {
            NodeKind::Plan => "Plan",
            NodeKind::Work => "Work",
        }
    }
}

/// The text in quotes, with what cannot be shown plainly escaped.
pub uninterp spec fn debug_quoted(value: Seq<char>) -> Seq<char>;

/// Quotes `value` as the standard library's `Debug` formatting of strings
/// does. Claimed: the output is determined by the characters of `value`.
#[verifier::external_body]
fn debug_text(value: &String) -> (out: String)
    ensures
        out@ == debug_quoted(value@),
{
    format!("{:?}", value)
}

// ── plan outputs ───────────────────────────────────────────────────────────

/// What to say of a dependency that nothing is known of, given its id in
/// quotes.
pub open spec fn unknown_reference(quoted: Text) -> Text {
    "plan output references unknown node id: "@ + quoted
}

/// What to say of a dependency that nothing is known of, given its id in
/// quotes.
pub fn unknown_reference_message(quoted: &String) -> (message: String)
    ensures
        message@ == unknown_reference(quoted@),
{
    let mut message = "plan output references unknown node id: ".to_string();
    message.append(quoted.as_str());
    message
}

/// Some request carries the local name.
pub open spec fn names_sibling(children: Seq<RequestView>, id: Text) -> bool {
    exists|i: int| 0 <= i < children.len() && (#[trigger] children[i]).id == id
}

/// The message for one dependency of a child, if nothing is known of it.
pub open spec fn reference_check(
    g: Seq<NodeView>,
    children: Seq<RequestView>,
    dependencies: Seq<Text>,
) -> spec_fn(int) -> Option<Text> {
    |k: int|
        if queries::has_id(g, dependencies[k]) || names_sibling(children, dependencies[k]) {
            None
        } else {
            Some(unknown_reference(debug_quoted(dependencies[k])))
        }
}

/// The message for the first unknown dependency of the child at a position.
pub open spec fn child_check(g: Seq<NodeView>, children: Seq<RequestView>) -> spec_fn(
    int,
) -> Option<Text> {
    |i: int|
        search::first_some(
            children[i].dependencies.len(),
            reference_check(g, children, children[i].dependencies),
        )
}

/// The message for the first dependency that is neither a node of the graph
/// nor a sibling, if there is one.
pub open spec fn plan_violation(g: Seq<NodeView>, children: Seq<RequestView>) -> Option<Text> {
    search::first_some(children.len(), child_check(g, children))
}

fn is_sibling(children: &Vec<NodeRequest>, id: &NodeId) -> (found: bool)
    ensures
        found == names_sibling(types::request_views(children@), id@),
{
    let ghost views = types::request_views(children@);
    let mut i: usize = 0;
    while i < children.len()
        invariant
            i <= children.len(),
            views == types::request_views(children@),
            forall|j: int| 0 <= j < i ==> (#[trigger] views[j]).id != id@,
        decreases children.len() - i,
    {
        assert(views[i as int] == children@[i as int]@);
        if children[i].id.0 == id.0 {
            return true;
        }
        i += 1;
    }
    false
}

// ── graphs ─────────────────────────────────────────────────────────────────

/// The message for the node at a position, if an earlier node has its id.
pub open spec fn duplicate_check(g: Seq<NodeView>) -> spec_fn(int) -> Option<Text> {
    |i: int|
        if queries::has_id(g.take(i), g[i].id) {
            Some("duplicate node id: "@ + g[i].id)
        } else {
            None
        }
}

/// The message for one dependency of a node, if no node carries it.
pub open spec fn dependency_check(g: Seq<NodeView>, n: NodeView) -> spec_fn(int) -> Option<Text> {
    |k: int|
        if queries::has_id(g, n.dependencies[k]) {
            None
        } else {
            Some(
                "missing dependency: node "@ + n.id + " depends on unknown id "@
                    + n.dependencies[k],
            )
        }
}

/// The message for the first missing dependency of the node at a position.
pub open spec fn dependencies_check(g: Seq<NodeView>) -> spec_fn(int) -> Option<Text> {
    |i: int| search::first_some(g[i].dependencies.len(), dependency_check(g, g[i]))
}

/// The node that a replacement stands for, and the name of the recovery.
pub open spec fn origin_source(origin: OriginView) -> Option<(Text, Text)> {
    match origin {
        OriginView::Retry { source } => Some((source, "Retry"@)),
        OriginView::ElevateModel { source } => Some((source, "ElevateModel"@)),
        OriginView::Split { source } => Some((source, "Split"@)),
        OriginView::Root => None,
        OriginView::PlanExpansion => None,
    }
}

/// The message for the node at a position, if what it replaces is missing.
pub open spec fn origin_check(g: Seq<NodeView>) -> spec_fn(int) -> Option<Text> {
    |i: int|
        match origin_source(g[i].origin) {
            Some((source, action)) => if queries::has_id(g, source) {
                None
            } else {
                Some(
                    "missing origin source: node "@ + g[i].id + " has "@ + action + " source "@
                        + source,
                )
            },
            None => None,
        }
}

/// The first thing wrong with a graph: a repeated id, then a missing
/// dependency, then a missing origin source.
pub open spec fn graph_violation(g: Seq<NodeView>) -> Option<Text> {
    match search::first_some(g.len(), duplicate_check(g)) {
        Some(message) => Some(message),
        None => match search::first_some(g.len(), dependencies_check(g)) {
            Some(message) => Some(message),
            None => search::first_some(g.len(), origin_check(g)),
        },
    }
}

/// The message for one dependency of a node, if no node carries it.
pub open spec fn blocked_check(g: Seq<NodeView>, n: NodeView) -> spec_fn(int) -> Option<Text> {
    |k: int|
        if queries::has_id(g, n.dependencies[k]) {
            None
        } else {
            Some("pending node "@ + n.id + " has missing dependency "@ + n.dependencies[k])
        }
}

/// The message for the first missing dependency of a pending node.
pub open spec fn pending_check(g: Seq<NodeView>) -> spec_fn(int) -> Option<Text> {
    |i: int|
        if g[i].status is Pending {
            search::first_some(g[i].dependencies.len(), blocked_check(g, g[i]))
        } else {
            None
        }
}

/// Why no pending node can run.
pub open spec fn deadlock_message(g: Seq<NodeView>) -> Text {
    match search::first_some(g.len(), pending_check(g)) {
        Some(message) => message,
        None => "no ready nodes: blocked dependency chain or possible cycle"@,
    }
}

// ── required tests ─────────────────────────────────────────────────────────

/// A completed work node.
pub open spec fn is_done_work(n: NodeView) -> bool {
    n.kind is Work && n.status is Completed
}

/// Some completed work node has the target.
pub open spec fn target_done(g: Seq<NodeView>, target: Text) -> bool {
    exists|i: int|
        0 <= i < g.len() && is_done_work(#[trigger] g[i]) && g[i].target_files.contains(target)
}

/// The message for one required target of a node, if it was not completed.
pub open spec fn required_check(g: Seq<NodeView>, n: NodeView) -> spec_fn(int) -> Option<Text> {
    |k: int|
        if target_done(g, n.required_validation_targets[k]) {
            None
        } else {
            Some(
                "required test target '"@ + n.required_validation_targets[k] + "' for node "@
                    + n.id + " was not completed"@,
            )
        }
}

/// The message for the first required target of a completed work node that
/// was not completed.
pub open spec fn tests_check(g: Seq<NodeView>) -> spec_fn(int) -> Option<Text> {
    |i: int|
        if is_done_work(g[i]) {
            search::first_some(g[i].required_validation_targets.len(), required_check(g, g[i]))
        } else {
            None
        }
}

/// The message for the first required test target that was not completed.
pub open spec fn missing_tests(g: Seq<NodeView>) -> Option<Text> {
    search::first_some(g.len(), tests_check(g))
}

// ── deliveries ─────────────────────────────────────────────────────────────

/// Why a result for `id` cannot be delivered, given the active nodes and how
/// many there may be.
pub open spec fn delivery_violation(
    g: Seq<NodeView>,
    slots: nat,
    id: Text,
    label: Text,
) -> Option<Text> {
    let ids = queries::ids_of(queries::active(g));
    if ids.len() == 0 {
        Some("invalid waiting state: expected exactly one active node; found none"@)
    } else if ids.len() > slots {
        Some("invalid waiting state: multiple active nodes: "@ + text::join(ids, ", "@))
    } else if ids.contains(id) {
        None
    } else if ids.len() == 1 {
        Some("expected "@ + label + " for node "@ + ids[0] + " but received "@ + id)
    } else {
        Some(
            "expected "@ + label + " for one of nodes "@ + text::join(ids, ", "@)
                + " but received "@ + id,
        )
    }
}

/// Why a node result for `id` is out of place.
pub open spec fn return_violation(g: Seq<NodeView>, id: Text) -> Option<Text> {
    match queries::lookup(g, id) {
        None => Some("node "@ + id + " not found in graph"@),
        Some(n) => if n.status is Running {
            None
        } else {
            Some(
                "protocol violation: NodeReturned for node "@ + id
                    + " expected Running but found "@ + status_name(n.status),
            )
        },
    }
}

/// Why an integration result for `id` is out of place: it needs a node of the
/// given kind that is integrating.
pub open spec fn integration_violation(
    g: Seq<NodeView>,
    id: Text,
    wanted: NodeKind,
    event: Text,
) -> Option<Text> {
    match queries::lookup(g, id) {
        None => Some("node "@ + id + " not found in graph"@),
        Some(n) => if n.kind != wanted {
            Some(
                "node "@ + id + " is "@ + kind_name(n.kind) + " but "@ + event + " requires a "@
                    + kind_name(wanted) + " node"@,
            )
        } else if n.status !is Integrating {
            Some(
                "node "@ + id + " has status "@ + status_name(n.status) + " but "@ + event
                    + " requires Integrating"@,
            )
        } else {
            None
        },
    }
}

/// Why an accepted result does not fit the kind of the node.
pub open spec fn outcome_violation(id: Text, kind: NodeKind, event: EventView) -> Option<Text> {
    if kind is Work && event is PlanAccepted {
        Some("node "@ + id + " is Work but received PlanAccepted outcome"@)
    } else if kind is Plan && event is WorkAccepted {
        Some("node "@ + id + " is Plan but received WorkAccepted outcome"@)
    } else {
        None
    }
}

/// Why an accepted result does not fit the kind of the node.
pub fn invalid_node_event_reason(id: &NodeId, kind: NodeKind, event: &SchedulerEvent) -> (reason:
    Option<String>)
    ensures
        text::opt_text(reason) == outcome_violation(id@, kind, event@),
{
    match (kind, event) {
        (NodeKind::Work, SchedulerEvent::PlanAccepted { .. }) => {
            let mut out = "node ".to_string();
            out.append(id.0.as_str());
            out.append(" is Work but received PlanAccepted outcome");
            Some(out)
        },
        (NodeKind::Plan, SchedulerEvent::WorkAccepted { .. }) => {
            let mut out = "node ".to_string();
            out.append(id.0.as_str());
            out.append(" is Plan but received WorkAccepted outcome");
            Some(out)
        },
        _ => None,
    }
}

fn node_not_found(id: &NodeId) -> (message: String)
    ensures
        message@ == "node "@ + id@ + " not found in graph"@,
{
    let mut out = "node ".to_string();
    out.append(id.0.as_str());
    out.append(" not found in graph");
    out
}

impl RunGraph {
    /// Whether some node carries the id.
    pub fn knows_id(&self, id: &NodeId) -> (known: bool)
        ensures
            known == queries::has_id(self@, id@),
    {
        proof {
            queries::lemma_lookup_some(self@, id@);
        }
        self.position_of(id).is_some()
    }

    /// Checks that every dependency of the children is a node of the graph or
    /// a sibling.
    pub fn validate_plan_dependencies(&self, children: &Vec<NodeRequest>) -> (result: Result<
        (),
        String,
    >)
        ensures
            match result {
                Ok(_) => plan_violation(self@, types::request_views(children@)) is None,
                Err(message) => plan_violation(self@, types::request_views(children@)) == Some(
                    message@,
                ),
            },
    {
        let ghost views = types::request_views(children@);
        let ghost check = child_check(self@, views);
        let mut i: usize = 0;
        while i < children.len()
            invariant
                i <= children.len(),
                views == types::request_views(children@),
                check == child_check(self@, views),
                search::first_some(i as nat, check) is None,
            decreases children.len() - i,
        {
            let ghost deps = views[i as int].dependencies;
            let ghost inner = reference_check(self@, views, deps);
            assert(views[i as int] == children@[i as int]@);
            let mut k: usize = 0;
            while k < children[i].dependencies.len()
                invariant
                    i < children.len(),
                    k <= children@[i as int].dependencies.len(),
                    views == types::request_views(children@),
                    check == child_check(self@, views),
                    deps == graph::id_texts(children@[i as int].dependencies@),
                    deps == views[i as int].dependencies,
                    inner == reference_check(self@, views, deps),
                    search::first_some(i as nat, check) is None,
                    search::first_some(k as nat, inner) is None,
                decreases children@[i as int].dependencies.len() - k,
            {
                let dep = &children[i].dependencies[k];
                assert(deps[k as int] == dep@);
                if !self.knows_id(dep) && !is_sibling(children, dep) {
                    proof {
                        search::lemma_first_some_extends((k + 1) as nat, deps.len(), inner);
                        search::lemma_first_some_extends((i + 1) as nat, views.len(), check);
                    }
                    return Err(unknown_reference_message(&debug_text(&dep.0)));
                }
                k += 1;
            }
            i += 1;
        }
        Ok(())
    }

    fn find_duplicate(&self) -> (found: Option<String>)
        ensures
            text::opt_text(found) == search::first_some(self@.len(), duplicate_check(self@)),
    {
        let mut i: usize = 0;
        while i < self.nodes.len()
            invariant
                i <= self.nodes.len(),
                search::first_some(i as nat, duplicate_check(self@)) is None,
            decreases self.nodes.len() - i,
        {
            let ghost earlier = self@.take(i as int);
            assert(self@[i as int] == self.nodes@[i as int]@);
            let mut j: usize = 0;
            while j < i
                invariant
                    j <= i,
                    i < self.nodes.len(),
                    earlier == self@.take(i as int),
                    search::first_some(i as nat, duplicate_check(self@)) is None,
                    self@[i as int] == self.nodes@[i as int]@,
                    forall|m: int| 0 <= m < j ==> (#[trigger] earlier[m]).id != self@[i as int].id,
                decreases i - j,
            {
                assert(earlier[j as int] == self.nodes@[j as int]@);
                if self.nodes[j].id.0 == self.nodes[i].id.0 {
                    proof {
                        assert(queries::has_id(earlier, self@[i as int].id));
                        search::lemma_first_some_extends(
                            (i + 1) as nat,
                            self@.len(),
                            duplicate_check(self@),
                        );
                    }
                    let mut message = "duplicate node id: ".to_string();
                    message.append(self.nodes[i].id.0.as_str());
                    return Some(message);
                }
                j += 1;
            }
            assert(!queries::has_id(earlier, self@[i as int].id));
            i += 1;
        }
        None
    }

    fn find_missing_dependency(&self) -> (found: Option<String>)
        ensures
            text::opt_text(found) == search::first_some(self@.len(), dependencies_check(self@)),
    {
        let mut i: usize = 0;
        while i < self.nodes.len()
            invariant
                i <= self.nodes.len(),
                search::first_some(i as nat, dependencies_check(self@)) is None,
            decreases self.nodes.len() - i,
        {
            let ghost n = self@[i as int];
            assert(n == self.nodes@[i as int]@);
            let mut k: usize = 0;
            while k < self.nodes[i].dependencies.len()
                invariant
                    i < self.nodes.len(),
                    n == self@[i as int],
                    n == self.nodes@[i as int]@,
                    k <= n.dependencies.len(),
                    search::first_some(i as nat, dependencies_check(self@)) is None,
                    search::first_some(k as nat, dependency_check(self@, n)) is None,
                decreases n.dependencies.len() - k,
            {
                let dep = &self.nodes[i].dependencies[k];
                assert(n.dependencies[k as int] == dep@);
                if !self.knows_id(dep) {
                    proof {
                        search::lemma_first_some_extends(
                            (k + 1) as nat,
                            n.dependencies.len(),
                            dependency_check(self@, n),
                        );
                        search::lemma_first_some_extends(
                            (i + 1) as nat,
                            self@.len(),
                            dependencies_check(self@),
                        );
                    }
                    let mut message = "missing dependency: node ".to_string();
                    message.append(self.nodes[i].id.0.as_str());
                    message.append(" depends on unknown id ");
                    message.append(dep.0.as_str());
                    return Some(message);
                }
                k += 1;
            }
            i += 1;
        }
        None
    }

    /// Checks that what every replacement stands for is in the graph.
    pub fn validate_origin_sources(&self) -> (result: Result<(), String>)
        ensures
            match result {
                Ok(_) => search::first_some(self@.len(), origin_check(self@)) is None,
                Err(message) => search::first_some(self@.len(), origin_check(self@)) == Some(
                    message@,
                ),
            },
    {
        let mut i: usize = 0;
        while i < self.nodes.len()
            invariant
                i <= self.nodes.len(),
                search::first_some(i as nat, origin_check(self@)) is None,
            decreases self.nodes.len() - i,
        {
            assert(self@[i as int] == self.nodes@[i as int]@);
            let source: Option<(&NodeId, &str)> = match &self.nodes[i].origin {
                NodeOrigin::Retry { source } => Some((source, "Retry")),
                NodeOrigin::ElevateModel { source } => Some((source, "ElevateModel")),
                NodeOrigin::Split { source } => Some((source, "Split")),
                NodeOrigin::Root => None,
                NodeOrigin::PlanExpansion => None,
            };
            if let Some((source, action)) = source {
                if !self.knows_id(source) {
                    proof {
                        search::lemma_first_some_extends(
                            (i + 1) as nat,
                            self@.len(),
                            origin_check(self@),
                        );
                    }
                    let mut message = "missing origin source: node ".to_string();
                    message.append(self.nodes[i].id.0.as_str());
                    message.append(" has ");
                    message.append(action);
                    message.append(" source ");
                    message.append(source.0.as_str());
                    return Err(message);
                }
            }
            i += 1;
        }
        Ok(())
    }

    /// Checks that ids are unique and that everything nodes refer to exists.
    pub fn validate_graph_invariants(&self) -> (result: Result<(), String>)
        ensures
            match result {
                Ok(_) => graph_violation(self@) is None,
                Err(message) => graph_violation(self@) == Some(message@),
            },
    {
        match self.find_duplicate() {
            Some(message) => return Err(message),
            None => {},
        }
        match self.find_missing_dependency() {
            Some(message) => return Err(message),
            None => {},
        }
        self.validate_origin_sources()
    }

    /// Says why no pending node can run.
    pub fn diagnose_no_ready(&self) -> (message: String)
        ensures
            message@ == deadlock_message(self@),
    {
        let mut i: usize = 0;
        while i < self.nodes.len()
            invariant
                i <= self.nodes.len(),
                search::first_some(i as nat, pending_check(self@)) is None,
            decreases self.nodes.len() - i,
        {
            let ghost n = self@[i as int];
            assert(n == self.nodes@[i as int]@);
            if self.nodes[i].status == NodeStatus::Pending {
                let mut k: usize = 0;
                while k < self.nodes[i].dependencies.len()
                    invariant
                        i < self.nodes.len(),
                        n == self@[i as int],
                        n == self.nodes@[i as int]@,
                        n.status is Pending,
                        k <= n.dependencies.len(),
                        search::first_some(i as nat, pending_check(self@)) is None,
                        search::first_some(k as nat, blocked_check(self@, n)) is None,
                    decreases n.dependencies.len() - k,
                {
                    let dep = &self.nodes[i].dependencies[k];
                    assert(n.dependencies[k as int] == dep@);
                    if !self.knows_id(dep) {
                        proof {
                            search::lemma_first_some_extends(
                                (k + 1) as nat,
                                n.dependencies.len(),
                                blocked_check(self@, n),
                            );
                            search::lemma_first_some_extends(
                                (i + 1) as nat,
                                self@.len(),
                                pending_check(self@),
                            );
                        }
                        let mut message = "pending node ".to_string();
                        message.append(self.nodes[i].id.0.as_str());
                        message.append(" has missing dependency ");
                        message.append(dep.0.as_str());
                        return message;
                    }
                    k += 1;
                }
            }
            i += 1;
        }
        "no ready nodes: blocked dependency chain or possible cycle".to_string()
    }

    fn is_target_done(&self, target: &String) -> (done: bool)
        ensures
            done == target_done(self@, target@),
    {
        let mut i: usize = 0;
        while i < self.nodes.len()
            invariant
                i <= self.nodes.len(),
                forall|j: int|
                    0 <= j < i ==> !(is_done_work(#[trigger] self@[j])
                        && self@[j].target_files.contains(target@)),
            decreases self.nodes.len() - i,
        {
            assert(self@[i as int] == self.nodes@[i as int]@);
            if self.nodes[i].kind == NodeKind::Work && self.nodes[i].status
                == NodeStatus::Completed && contains_text(&self.nodes[i].target_files, target) {
                return true;
            }
            i += 1;
        }
        false
    }

    /// Checks that the required test targets of completed work were completed.
    pub fn validate_required_tests_completed(&self) -> (result: Result<(), String>)
        ensures
            match result {
                Ok(_) => missing_tests(self@) is None,
                Err(message) => missing_tests(self@) == Some(message@),
            },
    {
        let mut i: usize = 0;
        while i < self.nodes.len()
            invariant
                i <= self.nodes.len(),
                search::first_some(i as nat, tests_check(self@)) is None,
            decreases self.nodes.len() - i,
        {
            let ghost n = self@[i as int];
            assert(n == self.nodes@[i as int]@);
            if self.nodes[i].kind == NodeKind::Work && self.nodes[i].status
                == NodeStatus::Completed {
                let mut k: usize = 0;
                while k < self.nodes[i].required_validation_targets.len()
                    invariant
                        i < self.nodes.len(),
                        n == self@[i as int],
                        n == self.nodes@[i as int]@,
                        is_done_work(n),
                        k <= n.required_validation_targets.len(),
                        search::first_some(i as nat, tests_check(self@)) is None,
                        search::first_some(k as nat, required_check(self@, n)) is None,
                    decreases n.required_validation_targets.len() - k,
                {
                    let target = &self.nodes[i].required_validation_targets[k];
                    assert(n.required_validation_targets[k as int] == target@);
                    if !self.is_target_done(target) {
                        proof {
                            search::lemma_first_some_extends(
                                (k + 1) as nat,
                                n.required_validation_targets.len(),
                                required_check(self@, n),
                            );
                            search::lemma_first_some_extends(
                                (i + 1) as nat,
                                self@.len(),
                                tests_check(self@),
                            );
                        }
                        let mut message = "required test target '".to_string();
                        message.append(target.as_str());
                        message.append("' for node ");
                        message.append(self.nodes[i].id.0.as_str());
                        message.append(" was not completed");
                        return Err(message);
                    }
                    k += 1;
                }
            }
            i += 1;
        }
        Ok(())
    }

    /// Checks that a result for `id` can be delivered: that there are active
    /// nodes, no more than there may be, and that `id` is one of them.
    pub fn resolve_in_flight(&self, slots: usize, id: &NodeId, label: &str) -> (result: Result<
        (),
        String,
    >)
        ensures
            match result {
                Ok(_) => delivery_violation(self@, slots as nat, id@, label@) is None,
                Err(message) => delivery_violation(self@, slots as nat, id@, label@) == Some(
                    message@,
                ),
            },
    {
        let active = self.active_nodes();
        let ghost ids = queries::ids_of(queries::active(self@));
        if active.len() == 0 {
            return Err(
                "invalid waiting state: expected exactly one active node; found none".to_string(),
            );
        }
        let names = id_names(&active);
        if active.len() > slots {
            let mut message = "invalid waiting state: multiple active nodes: ".to_string();
            message.append(join_texts(&names, ", ").as_str());
            return Err(message);
        }
        if contains_id(&active, id) {
            return Ok(());
        }
        let mut message = "expected ".to_string();
        message.append(label);
        if active.len() == 1 {
            assert(ids[0] == active@[0]@) by {
                assert(graph::id_texts(active@)[0] == active@[0]@);
            }
            message.append(" for node ");
            message.append(active[0].0.as_str());
        } else {
            message.append(" for one of nodes ");
            message.append(join_texts(&names, ", ").as_str());
        }
        message.append(" but received ");
        message.append(id.0.as_str());
        Err(message)
    }

    /// Why a node result for `id` is out of place.
    pub fn invalid_node_return_reason(&self, id: &NodeId) -> (reason: Option<String>)
        ensures
            text::opt_text(reason) == return_violation(self@, id@),
    {
        match self.node_for_running(id) {
            None => Some(node_not_found(id)),
            Some(node) => if node.status != NodeStatus::Running {
                let mut out = "protocol violation: NodeReturned for node ".to_string();
                out.append(id.0.as_str());
                out.append(" expected Running but found ");
                out.append(node.status.name());
                Some(out)
            } else {
                None
            },
        }
    }

    fn integration_reason(&self, id: &NodeId, wanted: NodeKind, event: &str) -> (reason: Option<
        String,
    >)
        ensures
            text::opt_text(reason) == integration_violation(self@, id@, wanted, event@),
    {
        match self.node_for_running(id) {
            None => Some(node_not_found(id)),
            Some(node) => if node.kind != wanted {
                let mut out = "node ".to_string();
                out.append(id.0.as_str());
                out.append(" is ");
                out.append(node.kind.name());
                out.append(" but ");
                out.append(event);
                out.append(" requires a ");
                out.append(wanted.name());
                out.append(" node");
                Some(out)
            } else if node.status != NodeStatus::Integrating {
                let mut out = "node ".to_string();
                out.append(id.0.as_str());
                out.append(" has status ");
                out.append(node.status.name());
                out.append(" but ");
                out.append(event);
                out.append(" requires Integrating");
                Some(out)
            } else {
                None
            },
        }
    }

    /// Why a work integration result for `id` is out of place.
    pub fn invalid_integration_reason(&self, id: &NodeId) -> (reason: Option<String>)
        ensures
            text::opt_text(reason) == integration_violation(
                self@,
                id@,
                NodeKind::Work,
                "IntegrationReturned"@,
            ),
    {
        self.integration_reason(id, NodeKind::Work, "IntegrationReturned")
    }

    /// Why a planner-task integration result for `id` is out of place.
    pub fn invalid_planner_task_integration_reason(&self, id: &NodeId) -> (reason: Option<String>)
        ensures
            text::opt_text(reason) == integration_violation(
                self@,
                id@,
                NodeKind::Plan,
                "PlannerTaskIntegrationReturned"@,
            ),
    {
        self.integration_reason(id, NodeKind::Plan, "PlannerTaskIntegrationReturned")
    }
}

fn id_names(ids: &Vec<NodeId>) -> (names: Vec<String>)
    ensures
        text::texts(names@) == graph::id_texts(ids@),
{
    let mut names: Vec<String> = Vec::new();
    let mut i: usize = 0;
    while i < ids.len()
        invariant
            i <= ids.len(),
            names@.len() == i,
            forall|j: int| 0 <= j < i ==> (#[trigger] names@[j])@ == ids@[j]@,
        decreases ids.len() - i,
    {
        names.push(ids[i].0.clone());
        i += 1;
    }
    assert(text::texts(names@) =~= graph::id_texts(ids@));
    names
}

} // verus!
