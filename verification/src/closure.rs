//! Transitive dependents of a node: the targets they schedule, and their
//! cancellation.

use vstd::prelude::*;

use crate::graph::{Node, NodeId, NodeStatus, NodeView, RunGraph, TestPlanContext, TestPlanContextView};
use crate::text;
use crate::text::{copy_texts, insert_sorted, Text};

verus! {

// ── what the closures mean ─────────────────────────────────────────────────

/// One of the node's dependencies is in the set.
pub open spec fn depends_on_any(n: NodeView, set: Set<Text>) -> bool {
    exists|k: int| 0 <= k < n.dependencies.len() && set.contains(#[trigger] n.dependencies[k])
}

/// The dependents of everything in the set are in the set. With
/// `pending_only`, only pending dependents count.
pub open spec fn closed_under_dependents(g: Seq<NodeView>, pending_only: bool, set: Set<Text>) -> bool {
    forall|i: int|
        0 <= i < g.len() && (pending_only ==> g[i].status is Pending) && depends_on_any(g[i], set)
            ==> set.contains((#[trigger] g[i]).id)
}

/// `id` is in every set that holds `source` and is closed under dependents:
/// it is `source` itself, or depends on it directly or transitively.
pub open spec fn affected(g: Seq<NodeView>, pending_only: bool, source: Text, id: Text) -> bool {
    forall|set: Set<Text>|
        set.contains(source) && #[trigger] closed_under_dependents(g, pending_only, set)
            ==> set.contains(id)
}

/// `id` depends on `source`, directly or transitively.
pub open spec fn is_dependent(g: Seq<NodeView>, pending_only: bool, source: Text, id: Text) -> bool {
    id != source && affected(g, pending_only, source, id)
}

/// The target files of the first `k` nodes, as far as they depend on `source`.
pub open spec fn dependent_targets(g: Seq<NodeView>, source: Text, k: int) -> Seq<Text>
    decreases k,
{
    if k <= 0 {
        Seq::empty()
    } else if is_dependent(g, false, source, g[k - 1].id) {
        dependent_targets(g, source, k - 1) + g[k - 1].target_files
    } else {
        dependent_targets(g, source, k - 1)
    }
}

/// The target files of all nodes that depend on `source`, sorted, each once.
pub open spec fn planned_targets(g: Seq<NodeView>, source: Text) -> Seq<Text> {
    text::sorted_distinct(dependent_targets(g, source, g.len() as int))
}

/// The test-target context of a node.
pub open spec fn test_plan_context(g: Seq<NodeView>, n: NodeView) -> TestPlanContextView {
    TestPlanContextView {
        required_validation_targets: n.required_validation_targets,
        planned_test_targets: planned_targets(g, n.id),
    }
}

/// `n` after everything pending that depends on `failed` was cancelled.
pub open spec fn cancelled_node(g: Seq<NodeView>, failed: Text, n: NodeView) -> NodeView {
    if is_dependent(g, true, failed, n.id) {
        NodeView { status: NodeStatus::Cancelled, ..n }
    } else {
        n
    }
}

/// The graph after everything pending that depends on `failed` was cancelled.
pub open spec fn cancel_dependents(g: Seq<NodeView>, failed: Text) -> Seq<NodeView> {
    g.map_values(|n: NodeView| cancelled_node(g, failed, n))
}

// ── computing them ─────────────────────────────────────────────────────────

/// The ids that the marks stand for, and the source.
spec fn marked_set(g: Seq<NodeView>, source: Text, marks: Seq<bool>) -> Set<Text> {
    Set::new(
        |x: Text|
            x == source || exists|j: int|
                0 <= j < marks.len() && j < g.len() && #[trigger] marks[j] && g[j].id == x,
    )
}

/// How many marks are not set.
spec fn unmarked(marks: Seq<bool>) -> nat
    decreases marks.len(),
{
    if marks.len() == 0 {
        0
    } else {
        unmarked(marks.drop_last()) + if marks.last() {
            0nat
        } else {
            1nat
        }
    }
}

proof fn lemma_unmarked_update(marks: Seq<bool>, i: int)
    requires
        0 <= i < marks.len(),
        !marks[i],
    ensures
        unmarked(marks.update(i, true)) + 1 == unmarked(marks),
    decreases marks.len(),
{
    let updated = marks.update(i, true);
    if i == marks.len() - 1 {
        assert(updated.drop_last() =~= marks.drop_last());
    } else {
        assert(updated.drop_last() =~= marks.drop_last().update(i, true));
        lemma_unmarked_update(marks.drop_last(), i);
    }
}

/// Node `i` is a dependent that the marks do not cover yet.
spec fn uncovered(g: Seq<NodeView>, pending_only: bool, source: Text, marks: Seq<bool>, i: int) -> bool {
    &&& pending_only ==> g[i].status is Pending
    &&& !marked_set(g, source, marks).contains(g[i].id)
    &&& depends_on_any(g[i], marked_set(g, source, marks))
}

/// Every mark stands on an affected node.
spec fn marks_affected(g: Seq<NodeView>, pending_only: bool, source: Text, marks: Seq<bool>) -> bool {
    forall|j: int|
        0 <= j < marks.len() && #[trigger] marks[j] ==> affected(g, pending_only, source, g[j].id)
}

proof fn lemma_extend_affected(
    g: Seq<NodeView>,
    pending_only: bool,
    source: Text,
    marks: Seq<bool>,
    i: int,
)
    requires
        marks.len() == g.len(),
        0 <= i < g.len(),
        marks_affected(g, pending_only, source, marks),
        uncovered(g, pending_only, source, marks, i),
    ensures
        affected(g, pending_only, source, g[i].id),
{
    assert forall|set: Set<Text>|
        set.contains(source) && #[trigger] closed_under_dependents(
            g,
            pending_only,
            set,
        ) implies set.contains(g[i].id) by {
        let k = choose|k: int|
            0 <= k < g[i].dependencies.len() && marked_set(g, source, marks).contains(
                #[trigger] g[i].dependencies[k],
            );
        let dep = g[i].dependencies[k];
        assert(marked_set(g, source, marks).contains(dep));
        if dep != source {
            let j = choose|j: int|
                0 <= j < marks.len() && j < g.len() && #[trigger] marks[j] && g[j].id == dep;
            assert(affected(g, pending_only, source, g[j].id));
        }
        assert(set.contains(dep));
        assert(depends_on_any(g[i], set));
    }
}

proof fn lemma_fixpoint(g: Seq<NodeView>, pending_only: bool, source: Text, marks: Seq<bool>, id: Text)
    requires
        marks.len() == g.len(),
        marks_affected(g, pending_only, source, marks),
        forall|i: int| 0 <= i < g.len() ==> !#[trigger] uncovered(g, pending_only, source, marks, i),
    ensures
        affected(g, pending_only, source, id) <==> marked_set(g, source, marks).contains(id),
{
    let set = marked_set(g, source, marks);
    assert(set.contains(source));
    assert forall|i: int|
        0 <= i < g.len() && (pending_only ==> g[i].status is Pending) && depends_on_any(
            g[i],
            set,
        ) implies set.contains((#[trigger] g[i]).id) by {
        assert(!uncovered(g, pending_only, source, marks, i));
    }
    assert(closed_under_dependents(g, pending_only, set));
    if set.contains(id) && id != source {
        let j = choose|j: int|
            0 <= j < marks.len() && j < g.len() && #[trigger] marks[j] && g[j].id == id;
        assert(affected(g, pending_only, source, g[j].id));
    }
}

impl RunGraph {
    fn is_marked(&self, source: &NodeId, marks: &Vec<bool>, id: &NodeId) -> (marked: bool)
        requires
            marks@.len() == self@.len(),
        ensures
            marked == marked_set(self@, source@, marks@).contains(id@),
    {
        if id.0 == source.0 {
            return true;
        }
        let mut j: usize = 0;
        while j < self.nodes.len()
            invariant
                j <= self.nodes.len(),
                marks@.len() == self@.len(),
                id@ != source@,
                forall|m: int| 0 <= m < j ==> !(#[trigger] marks@[m] && self@[m].id == id@),
            decreases self.nodes.len() - j,
        {
            assert(self@[j as int] == self.nodes@[j as int]@);
            if marks[j] && self.nodes[j].id.0 == id.0 {
                return true;
            }
            j += 1;
        }
        false
    }

    fn depends_on_marked(&self, source: &NodeId, marks: &Vec<bool>, node: &Node) -> (depends: bool)
        requires
            marks@.len() == self@.len(),
        ensures
            depends == depends_on_any(node@, marked_set(self@, source@, marks@)),
    {
        let mut k: usize = 0;
        while k < node.dependencies.len()
            invariant
                k <= node.dependencies.len(),
                marks@.len() == self@.len(),
                forall|m: int|
                    0 <= m < k ==> !marked_set(self@, source@, marks@).contains(
                        #[trigger] node@.dependencies[m],
                    ),
            decreases node.dependencies.len() - k,
        {
            assert(node@.dependencies[k as int] == node.dependencies@[k as int]@);
            if self.is_marked(source, marks, &node.dependencies[k]) {
                return true;
            }
            k += 1;
        }
        false
    }

    /// One pass over the nodes: marks dependents that were not covered.
    fn grow_marks(&self, source: &NodeId, pending_only: bool, marks: &mut Vec<bool>) -> (grew: bool)
        requires
            old(marks)@.len() == self@.len(),
            marks_affected(self@, pending_only, source@, old(marks)@),
        ensures
            final(marks)@.len() == self@.len(),
            marks_affected(self@, pending_only, source@, final(marks)@),
            grew ==> unmarked(final(marks)@) < unmarked(old(marks)@),
            !grew ==> forall|i: int|
                0 <= i < self@.len() ==> !#[trigger] uncovered(
                    self@,
                    pending_only,
                    source@,
                    final(marks)@,
                    i,
                ),
    {
        let mut grew = false;
        let mut i: usize = 0;
        while i < self.nodes.len()
            invariant
                i <= self.nodes.len(),
                marks@.len() == self@.len(),
                marks_affected(self@, pending_only, source@, marks@),
                grew ==> unmarked(marks@) < unmarked(old(marks)@),
                !grew ==> marks@ == old(marks)@ && forall|j: int|
                    0 <= j < i ==> !#[trigger] uncovered(
                        self@,
                        pending_only,
                        source@,
                        old(marks)@,
                        j,
                    ),
            decreases self.nodes.len() - i,
        {
            assert(self@[i as int] == self.nodes@[i as int]@);
            let eligible = !pending_only || self.nodes[i].status == NodeStatus::Pending;
            if eligible && !self.is_marked(source, marks, &self.nodes[i].id)
                && self.depends_on_marked(source, marks, &self.nodes[i]) {
                proof {
                    assert(uncovered(self@, pending_only, source@, marks@, i as int));
                    lemma_extend_affected(self@, pending_only, source@, marks@, i as int);
                    assert(!marks@[i as int]);
                    lemma_unmarked_update(marks@, i as int);
                }
                marks.set(i, true);
                grew = true;
            }
            i += 1;
        }
        grew
    }

    /// For each node, whether it depends on `source`.
    fn dependents(&self, source: &NodeId, pending_only: bool) -> (flags: Vec<bool>)
        ensures
            flags@.len() == self@.len(),
            forall|i: int|
                0 <= i < self@.len() ==> #[trigger] flags@[i] == is_dependent(
                    self@,
                    pending_only,
                    source@,
                    self@[i].id,
                ),
    {
        let mut marks: Vec<bool> = Vec::new();
        while marks.len() < self.nodes.len()
            invariant
                marks@.len() <= self@.len(),
                forall|j: int| 0 <= j < marks@.len() ==> !#[trigger] marks@[j],
            decreases self.nodes.len() - marks.len(),
        {
            marks.push(false);
        }
        let mut grew = true;
        while grew
            invariant
                marks@.len() == self@.len(),
                marks_affected(self@, pending_only, source@, marks@),
                !grew ==> forall|i: int|
                    0 <= i < self@.len() ==> !#[trigger] uncovered(
                        self@,
                        pending_only,
                        source@,
                        marks@,
                        i,
                    ),
            decreases
                    (if grew {
                        unmarked(marks@) + 1
                    } else {
                        0
                    }),
        {
            grew = self.grow_marks(source, pending_only, &mut marks);
        }
        let mut flags: Vec<bool> = Vec::new();
        let mut i: usize = 0;
        while i < self.nodes.len()
            invariant
                i <= self.nodes.len(),
                flags@.len() == i,
                marks@.len() == self@.len(),
                marks_affected(self@, pending_only, source@, marks@),
                forall|j: int|
                    0 <= j < self@.len() ==> !#[trigger] uncovered(
                        self@,
                        pending_only,
                        source@,
                        marks@,
                        j,
                    ),
                forall|j: int|
                    0 <= j < i ==> #[trigger] flags@[j] == is_dependent(
                        self@,
                        pending_only,
                        source@,
                        self@[j].id,
                    ),
            decreases self.nodes.len() - i,
        {
            proof {
                assert(self@[i as int] == self.nodes@[i as int]@);
                lemma_fixpoint(self@, pending_only, source@, marks@, self@[i as int].id);
            }
            let flag = self.nodes[i].id.0 != source.0 && self.is_marked(
                source,
                &marks,
                &self.nodes[i].id,
            );
            flags.push(flag);
            i += 1;
        }
        flags
    }

    /// The target files of all nodes that depend on `source`, sorted, each once.
    pub fn downstream_target_files(&self, source: &NodeId) -> (targets: Vec<String>)
        ensures
            text::texts(targets@) == planned_targets(self@, source@),
    {
        let flags = self.dependents(source, false);
        let mut targets: Vec<String> = Vec::new();
        let mut i: usize = 0;
        assert(text::texts(targets@) =~= Seq::<Text>::empty());
        while i < self.nodes.len()
            invariant
                i <= self.nodes.len(),
                flags@.len() == self@.len(),
                forall|j: int|
                    0 <= j < self@.len() ==> #[trigger] flags@[j] == is_dependent(
                        self@,
                        false,
                        source@,
                        self@[j].id,
                    ),
                text::texts(targets@) == text::sorted_distinct(
                    dependent_targets(self@, source@, i as int),
                ),
            decreases self.nodes.len() - i,
        {
            assert(self@[i as int] == self.nodes@[i as int]@);
            assert(flags@[i as int] == is_dependent(self@, false, source@, self@[i as int].id));
            if flags[i] {
                let ghost base = dependent_targets(self@, source@, i as int);
                let ghost files = self@[i as int].target_files;
                let mut k: usize = 0;
                assert(base + files.take(0) =~= base);
                while k < self.nodes[i].target_files.len()
                    invariant
                        i < self.nodes.len(),
                        k <= self.nodes@[i as int].target_files.len(),
                        files == text::texts(self.nodes@[i as int].target_files@),
                        text::texts(targets@) == text::sorted_distinct(
                            base + files.take(k as int),
                        ),
                    decreases self.nodes@[i as int].target_files.len() - k,
                {
                    let ghost grown = base + files.take(k + 1);
                    assert(grown.drop_last() =~= base + files.take(k as int));
                    assert(grown.last() == files[k as int]);
                    insert_sorted(&mut targets, self.nodes[i].target_files[k].clone());
                    k += 1;
                }
                assert(files.take(files.len() as int) =~= files);
            }
            i += 1;
        }
        targets
    }

    /// The test-target context of `node`.
    pub fn test_plan_context_for_node(&self, node: &Node) -> (context: TestPlanContext)
        ensures
            context@ == test_plan_context(self@, node@),
    {
        TestPlanContext {
            required_validation_targets: copy_texts(&node.required_validation_targets),
            planned_test_targets: self.downstream_target_files(&node.id),
        }
    }

    /// Cancels every pending node that depends on `failed`.
    pub fn cancel_pending_dependents(self, failed: &NodeId) -> (graph: RunGraph)
        ensures
            graph@ == cancel_dependents(self@, failed@),
    {
        let ghost before = self@;
        let flags = self.dependents(failed, true);
        let mut graph = self;
        let mut i: usize = 0;
        while i < graph.nodes.len()
            invariant
                i <= graph.nodes.len(),
                graph.nodes@.len() == before.len(),
                flags@.len() == before.len(),
                forall|j: int|
                    0 <= j < before.len() ==> #[trigger] flags@[j] == is_dependent(
                        before,
                        true,
                        failed@,
                        before[j].id,
                    ),
                forall|j: int|
                    0 <= j < i ==> (#[trigger] graph.nodes@[j])@ == cancelled_node(
                        before,
                        failed@,
                        before[j],
                    ),
                forall|j: int| i <= j < before.len() ==> (#[trigger] graph.nodes@[j])@ == before[j],
            decreases graph.nodes.len() - i,
        {
            assert(flags@[i as int] == is_dependent(before, true, failed@, before[i as int].id));
            if flags[i] {
                graph.nodes[i].status = NodeStatus::Cancelled;
            }
            i += 1;
        }
        assert(graph@ =~= cancel_dependents(before, failed@));
        graph
    }
}

} // verus!
