//! What the scheduler asks of a run graph.

use vstd::prelude::*;

use crate::graph::{Node, NodeId, NodeOrigin, NodeStatus, NodeView, RunGraph};
use crate::graph;
use crate::text::Text;

verus! {

/// Scheduler circuit breaker: attempts allowed per objective.
pub const MAX_ATTEMPTS: u32 = 3;

/// Scheduler circuit breaker: nodes allowed in a graph.
pub const MAX_GRAPH_NODES: usize = 100;

/// Scheduler circuit breaker: nesting allowed for plan nodes.
pub const MAX_PLAN_DEPTH: usize = 10;

// ── what the queries mean ──────────────────────────────────────────────────

/// `i` is the first position of the id in the graph.
pub open spec fn first_at(g: Seq<NodeView>, id: Text, i: int) -> bool {
    &&& 0 <= i < g.len()
    &&& g[i].id == id
    &&& forall|j: int| 0 <= j < i ==> (#[trigger] g[j]).id != id
}

/// The first node with the given id, if there is one.
pub open spec fn lookup(g: Seq<NodeView>, id: Text) -> Option<NodeView> {
    if exists|i: int| first_at(g, id, i) {
        Some(g[choose|i: int| first_at(g, id, i)])
    } else {
        None
    }
}

/// Some node carries the id.
pub open spec fn has_id(g: Seq<NodeView>, id: Text) -> bool {
    exists|i: int| 0 <= i < g.len() && (#[trigger] g[i]).id == id
}

/// Some completed node carries the id.
pub open spec fn completed_id(g: Seq<NodeView>, id: Text) -> bool {
    exists|i: int| 0 <= i < g.len() && (#[trigger] g[i]).status is Completed && g[i].id == id
}

/// Dispatched, and neither finished nor given up.
pub open spec fn is_active(n: NodeView) -> bool {
    n.status is Running || n.status is Integrating
}

/// No longer able to change status.
pub open spec fn is_terminal(n: NodeView) -> bool {
    n.status is Completed || n.status is Failed || n.status is Cancelled
}

/// Pending, with every dependency completed.
pub open spec fn is_ready(g: Seq<NodeView>, n: NodeView) -> bool {
    &&& n.status is Pending
    &&& forall|k: int| 0 <= k < n.dependencies.len() ==> completed_id(g, #[trigger] n.dependencies[k])
}

/// The nodes of `part` that are active, in order.
pub open spec fn active(part: Seq<NodeView>) -> Seq<NodeView> {
    part.filter(|n: NodeView| is_active(n))
}

/// The nodes of `part` that are ready in the graph `g`, in order.
pub open spec fn ready_in(g: Seq<NodeView>, part: Seq<NodeView>) -> Seq<NodeView> {
    part.filter(|n: NodeView| is_ready(g, n))
}

/// The ids of some nodes, in order.
pub open spec fn ids_of(part: Seq<NodeView>) -> Seq<Text> {
    part.map_values(|n: NodeView| n.id)
}

/// The ids of the ready nodes, in insertion order.
pub open spec fn ready_ids(g: Seq<NodeView>) -> Seq<Text> {
    ids_of(ready_in(g, g))
}

/// The ready nodes that were there from the start, or those added since.
pub open spec fn ready_of(g: Seq<NodeView>, part: Seq<NodeView>, from_start: bool) -> Seq<
    NodeView,
> {
    part.filter(|n: NodeView| is_ready(g, n) && (n.origin is Root <==> from_start))
}

/// The order of dispatch: what the run added, newest first, and then what was
/// there from the start, in order. So the run descends into the branch it
/// expanded last before it turns to older work.
pub open spec fn dispatch_order(g: Seq<NodeView>) -> Seq<Text> {
    ids_of(ready_of(g, g, false)).reverse() + ids_of(ready_of(g, g, true))
}

/// Every node has a terminal status.
pub open spec fn all_terminal(g: Seq<NodeView>) -> bool {
    forall|i: int| 0 <= i < g.len() ==> is_terminal(#[trigger] g[i])
}

/// The number of nodes in `part` that are completed.
pub open spec fn completed_count(part: Seq<NodeView>) -> nat {
    part.filter(|n: NodeView| n.status is Completed).len()
}

/// A node of `team` for `task_id` exists that has not failed.
pub open spec fn has_team_node(g: Seq<NodeView>, team: Text, task_id: Option<Text>) -> bool {
    exists|i: int|
        0 <= i < g.len() && (#[trigger] g[i]).team == team && g[i].task_id == task_id
            && g[i].status !is Failed
}

// ── lemmas ─────────────────────────────────────────────────────────────────

/// A graph has one first node per id, and `lookup` is it.
pub proof fn lemma_lookup_at(g: Seq<NodeView>, id: Text, i: int)
    requires
        first_at(g, id, i),
    ensures
        lookup(g, id) == Some(g[i]),
{
    let c = choose|c: int| first_at(g, id, c);
    assert(first_at(g, id, c));
    if c < i {
        assert(g[c].id != id);
    } else if i < c {
        assert(g[i].id != id);
    }
}

/// An id that some node carries is found.
pub proof fn lemma_lookup_some(g: Seq<NodeView>, id: Text)
    ensures
        lookup(g, id) is Some <==> has_id(g, id),
        lookup(g, id) matches Some(n) ==> n.id == id && g.contains(n),
    decreases g.len(),
{
    if has_id(g, id) {
        lemma_first_exists(g, id, g.len() as int);
    }
    if lookup(g, id) is Some {
        let c = choose|c: int| first_at(g, id, c);
        assert(first_at(g, id, c));
        assert(g[c].id == id);
    }
}

proof fn lemma_first_exists(g: Seq<NodeView>, id: Text, k: int)
    requires
        0 <= k <= g.len(),
        exists|i: int| 0 <= i < k && (#[trigger] g[i]).id == id,
    ensures
        exists|i: int| first_at(g, id, i),
    decreases k,
{
    let i = choose|i: int| 0 <= i < k && (#[trigger] g[i]).id == id;
    if exists|j: int| 0 <= j < i && (#[trigger] g[j]).id == id {
        lemma_first_exists(g, id, i);
    } else {
        assert(first_at(g, id, i));
    }
}

/// Filtering a prefix one element longer.
pub proof fn lemma_filter_step<A>(s: Seq<A>, pred: spec_fn(A) -> bool, i: int)
    requires
        0 <= i < s.len(),
    ensures
        s.take(i + 1).filter(pred) == if pred(s[i]) {
            s.take(i).filter(pred).push(s[i])
        } else {
            s.take(i).filter(pred)
        },
{
    reveal(Seq::filter);
    assert(s.take(i + 1).drop_last() =~= s.take(i));
}

/// Filtering keeps only elements that satisfy the predicate, all from `s`.
pub proof fn lemma_filter_members<A>(s: Seq<A>, pred: spec_fn(A) -> bool)
    ensures
        forall|i: int| 0 <= i < s.filter(pred).len() ==> pred(#[trigger] s.filter(pred)[i]),
        forall|x: A| #[trigger] s.filter(pred).contains(x) <==> s.contains(x) && pred(x),
        s.filter(pred).len() <= s.len(),
    decreases s.len(),
{
    reveal(Seq::filter);
    if s.len() > 0 {
        let front = s.drop_last();
        lemma_filter_members(front, pred);
        let f = front.filter(pred);
        let out = s.filter(pred);
        assert forall|x: A| #[trigger] out.contains(x) <==> s.contains(x) && pred(x) by {
            if out.contains(x) {
                let k = choose|k: int| 0 <= k < out.len() && out[k] == x;
                if k < f.len() {
                    assert(f[k] == x);
                    assert(f.contains(x));
                    let m = choose|m: int| 0 <= m < front.len() && front[m] == x;
                    assert(s[m] == x);
                } else {
                    assert(s[s.len() - 1] == x);
                }
            }
            if s.contains(x) && pred(x) {
                let m = choose|m: int| 0 <= m < s.len() && s[m] == x;
                if m < front.len() {
                    assert(front[m] == x);
                    assert(f.contains(x));
                    let k = choose|k: int| 0 <= k < f.len() && f[k] == x;
                    assert(out[k] == x);
                } else {
                    assert(out[out.len() - 1] == x);
                }
            }
        }
    }
}

impl RunGraph {
    /// The ids of the nodes that may run now, in insertion order.
    pub fn find_ready(&self) -> (ready: Vec<NodeId>)
        ensures
            graph::id_texts(ready@) == ready_ids(self@),
    {
        let mut ready: Vec<NodeId> = Vec::new();
        let ghost pred = |n: NodeView| is_ready(self@, n);
        let mut i: usize = 0;
        assert(self@.take(0).filter(pred) =~= Seq::<NodeView>::empty()) by {
            reveal(Seq::filter);
        }
        assert(graph::id_texts(ready@) =~= ids_of(self@.take(0).filter(pred)));
        while i < self.nodes.len()
            invariant
                i <= self.nodes.len(),
                pred == (|n: NodeView| is_ready(self@, n)),
                graph::id_texts(ready@) == ids_of(self@.take(i as int).filter(pred)),
            decreases self.nodes.len() - i,
        {
            proof {
                lemma_filter_step(self@, pred, i as int);
            }
            if self.node_is_ready(&self.nodes[i]) {
                ready.push(self.nodes[i].id.clone());
                assert(graph::id_texts(ready@) =~= ids_of(self@.take(i as int).filter(pred)).push(
                    self@[i as int].id,
                ));
                assert(ids_of(self@.take(i + 1).filter(pred)) =~= ids_of(
                    self@.take(i as int).filter(pred),
                ).push(self@[i as int].id));
            }
            i += 1;
        }
        assert(self@.take(self@.len() as int) =~= self@);
        ready
    }

    /// The ids of the ready nodes that were there from the start, or of those
    /// added since, in insertion order.
    fn find_ready_of(&self, from_start: bool) -> (ready: Vec<NodeId>)
        ensures
            graph::id_texts(ready@) == ids_of(ready_of(self@, self@, from_start)),
    {
        let mut ready: Vec<NodeId> = Vec::new();
        let ghost pred = |n: NodeView|
            is_ready(self@, n) && (n.origin is Root <==> from_start);
        let mut i: usize = 0;
        assert(self@.take(0).filter(pred) =~= Seq::<NodeView>::empty()) by {
            reveal(Seq::filter);
        }
        assert(graph::id_texts(ready@) =~= ids_of(self@.take(0).filter(pred)));
        while i < self.nodes.len()
            invariant
                i <= self.nodes.len(),
                pred == (|n: NodeView|
                    is_ready(self@, n) && (n.origin is Root <==> from_start)),
                graph::id_texts(ready@) == ids_of(self@.take(i as int).filter(pred)),
            decreases self.nodes.len() - i,
        {
            proof {
                lemma_filter_step(self@, pred, i as int);
            }
            assert(self@[i as int] == self.nodes@[i as int]@);
            let is_root = match &self.nodes[i].origin {
                NodeOrigin::Root => true,
                _ => false,
            };
            if is_root == from_start && self.node_is_ready(&self.nodes[i]) {
                ready.push(self.nodes[i].id.clone());
                assert(graph::id_texts(ready@) =~= ids_of(self@.take(i as int).filter(pred)).push(
                    self@[i as int].id,
                ));
                assert(ids_of(self@.take(i + 1).filter(pred)) =~= ids_of(
                    self@.take(i as int).filter(pred),
                ).push(self@[i as int].id));
            }
            i += 1;
        }
        assert(self@.take(self@.len() as int) =~= self@);
        ready
    }

    /// The ids of the ready nodes in the order of dispatch.
    pub fn ready_in_dispatch_order(&self) -> (order: Vec<NodeId>)
        ensures
            graph::id_texts(order@) == dispatch_order(self@),
    {
        let added = self.find_ready_of(false);
        let mut initial = self.find_ready_of(true);
        let mut order: Vec<NodeId> = Vec::new();
        let ghost newest = graph::id_texts(added@).reverse();
        let mut i: usize = 0;
        while i < added.len()
            invariant
                i <= added.len(),
                newest == graph::id_texts(added@).reverse(),
                order@.len() == i,
                forall|j: int| 0 <= j < i ==> (#[trigger] order@[j])@ == newest[j],
            decreases added.len() - i,
        {
            order.push(added[added.len() - 1 - i].clone());
            i += 1;
        }
        let ghost tail = graph::id_texts(initial@);
        order.append(&mut initial);
        assert(graph::id_texts(order@) =~= newest + tail);
        order
    }

    fn node_is_ready(&self, node: &Node) -> (ready: bool)
        ensures
            ready == is_ready(self@, node@),
    {
        if node.status != NodeStatus::Pending {
            return false;
        }
        let mut k: usize = 0;
        while k < node.dependencies.len()
            invariant
                k <= node.dependencies.len(),
                forall|m: int| 0 <= m < k ==> completed_id(self@, #[trigger] node@.dependencies[m]),
            decreases node.dependencies.len() - k,
        {
            assert(node@.dependencies[k as int] == node.dependencies@[k as int]@);
            if !self.id_is_completed(&node.dependencies[k]) {
                return false;
            }
            k += 1;
        }
        true
    }

    fn id_is_completed(&self, id: &NodeId) -> (completed: bool)
        ensures
            completed == completed_id(self@, id@),
    {
        let mut i: usize = 0;
        while i < self.nodes.len()
            invariant
                i <= self.nodes.len(),
                forall|j: int|
                    0 <= j < i ==> !((#[trigger] self@[j]).status is Completed && self@[j].id == id@),
            decreases self.nodes.len() - i,
        {
            assert(self@[i as int] == self.nodes@[i as int]@);
            if self.nodes[i].status == NodeStatus::Completed && self.nodes[i].id.0 == id.0 {
                return true;
            }
            i += 1;
        }
        false
    }

    /// Whether no node can change any more.
    pub fn all_complete(&self) -> (done: bool)
        ensures
            done == all_terminal(self@),
    {
        let mut i: usize = 0;
        while i < self.nodes.len()
            invariant
                i <= self.nodes.len(),
                forall|j: int| 0 <= j < i ==> is_terminal(#[trigger] self@[j]),
            decreases self.nodes.len() - i,
        {
            assert(self@[i as int] == self.nodes@[i as int]@);
            match self.nodes[i].status {
                NodeStatus::Pending | NodeStatus::Running | NodeStatus::Integrating => {
                    return false;
                },
                _ => {},
            }
            i += 1;
        }
        true
    }

    /// The position of the first node with the given id, if there is one.
    pub fn position_of(&self, id: &NodeId) -> (position: Option<usize>)
        ensures
            match position {
                Some(i) => first_at(self@, id@, i as int) && lookup(self@, id@) == Some(
                    self@[i as int],
                ),
                None => lookup(self@, id@) is None && !has_id(self@, id@),
            },
    {
        let mut i: usize = 0;
        while i < self.nodes.len()
            invariant
                i <= self.nodes.len(),
                forall|j: int| 0 <= j < i ==> (#[trigger] self@[j]).id != id@,
            decreases self.nodes.len() - i,
        {
            assert(self@[i as int] == self.nodes@[i as int]@);
            if self.nodes[i].id.0 == id.0 {
                proof {
                    lemma_lookup_at(self@, id@, i as int);
                }
                return Some(i);
            }
            i += 1;
        }
        proof {
            lemma_lookup_some(self@, id@);
        }
        None
    }

    /// The first node with the given id, if there is one.
    pub fn node_for_running(&self, id: &NodeId) -> (node: Option<&Node>)
        ensures
            match node {
                Some(n) => lookup(self@, id@) == Some(n@),
                None => lookup(self@, id@) is None,
            },
    {
        match self.position_of(id) {
            Some(i) => {
                assert(self@[i as int] == self.nodes@[i as int]@);
                Some(&self.nodes[i])
            },
            None => None,
        }
    }

    /// The first node with the given id, which must exist.
    pub fn get_node(&self, id: &NodeId) -> (node: &Node)
        requires
            has_id(self@, id@),
        ensures
            lookup(self@, id@) == Some(node@),
    {
        proof {
            lemma_lookup_some(self@, id@);
        }
        match self.position_of(id) {
            Some(i) => {
                assert(self@[i as int] == self.nodes@[i as int]@);
                &self.nodes[i]
            },
            None => &self.nodes[0],
        }
    }

    /// The ids of the active nodes, in insertion order.
    pub fn active_nodes(&self) -> (found: Vec<NodeId>)
        ensures
            graph::id_texts(found@) == ids_of(active(self@)),
            found@.len() == active(self@).len(),
    {
        let mut found: Vec<NodeId> = Vec::new();
        let ghost pred = |n: NodeView| is_active(n);
        let mut i: usize = 0;
        assert(self@.take(0).filter(pred) =~= Seq::<NodeView>::empty()) by {
            reveal(Seq::filter);
        }
        assert(graph::id_texts(found@) =~= ids_of(self@.take(0).filter(pred)));
        while i < self.nodes.len()
            invariant
                i <= self.nodes.len(),
                pred == (|n: NodeView| is_active(n)),
                graph::id_texts(found@) == ids_of(self@.take(i as int).filter(pred)),
            decreases self.nodes.len() - i,
        {
            proof {
                lemma_filter_step(self@, pred, i as int);
            }
            assert(self@[i as int] == self.nodes@[i as int]@);
            match self.nodes[i].status {
                NodeStatus::Running | NodeStatus::Integrating => {
                    found.push(self.nodes[i].id.clone());
                    assert(graph::id_texts(found@) =~= ids_of(
                        self@.take(i as int).filter(pred),
                    ).push(self@[i as int].id));
                    assert(ids_of(self@.take(i + 1).filter(pred)) =~= ids_of(
                        self@.take(i as int).filter(pred),
                    ).push(self@[i as int].id));
                },
                _ => {},
            }
            i += 1;
        }
        assert(self@.take(self@.len() as int) =~= self@);
        assert(graph::id_texts(found@).len() == found@.len());
        found
    }

    /// Whether `additional` more nodes fit under the graph size limit.
    pub fn graph_has_capacity(&self, additional: usize) -> (fits: bool)
        ensures
            fits == (self@.len() + additional <= MAX_GRAPH_NODES),
    {
        match self.nodes.len().checked_add(additional) {
            Some(total) => total <= MAX_GRAPH_NODES,
            None => false,
        }
    }

    /// Whether a node of `team` for `task_id` exists that has not failed.
    pub fn has_active_team_node(&self, team: &String, task_id: &Option<String>) -> (found: bool)
        ensures
            found == has_team_node(self@, team@, crate::text::opt_text(*task_id)),
    {
        let mut i: usize = 0;
        while i < self.nodes.len()
            invariant
                i <= self.nodes.len(),
                forall|j: int|
                    0 <= j < i ==> !((#[trigger] self@[j]).team == team@ && self@[j].task_id
                        == crate::text::opt_text(*task_id) && self@[j].status !is Failed),
            decreases self.nodes.len() - i,
        {
            assert(self@[i as int] == self.nodes@[i as int]@);
            if self.nodes[i].team == *team && crate::text::same_opt_text(
                &self.nodes[i].task_id,
                task_id,
            ) && self.nodes[i].status != NodeStatus::Failed {
                return true;
            }
            i += 1;
        }
        false
    }

    /// How many nodes there are, and how many of them are completed.
    pub fn node_counts(&self) -> (counts: (usize, usize))
        ensures
            counts.0 == self@.len(),
            counts.1 == completed_count(self@),
    {
        let mut completed: usize = 0;
        let ghost pred = |n: NodeView| n.status is Completed;
        let mut i: usize = 0;
        assert(self@.take(0).filter(pred).len() == 0) by {
            reveal(Seq::filter);
        }
        while i < self.nodes.len()
            invariant
                i <= self.nodes.len(),
                completed <= i,
                pred == (|n: NodeView| n.status is Completed),
                completed == self@.take(i as int).filter(pred).len(),
            decreases self.nodes.len() - i,
        {
            proof {
                lemma_filter_step(self@, pred, i as int);
            }
            assert(self@[i as int] == self.nodes@[i as int]@);
            if self.nodes[i].status == NodeStatus::Completed {
                completed += 1;
            }
            i += 1;
        }
        assert(self@.take(self@.len() as int) =~= self@);
        (self.nodes.len(), completed)
    }
}

} // verus!
