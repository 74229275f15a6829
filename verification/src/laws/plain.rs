//! The words in which laws speak of graphs: each says of the nodes themselves
//! what it means.

use vstd::prelude::*;

use crate::closure;
use crate::graph::{NodeView, OriginView};
use crate::queries;
use crate::soundness;
use crate::teams::ConfigView;
use crate::text;
use crate::text::Text;

verus! {

// ── nodes ──────────────────────────────────────────────────────────────────

/// Some node carries the id.
pub open spec fn known(g: Seq<NodeView>, id: Text) -> bool {
    exists|i: int| 0 <= i < g.len() && (#[trigger] g[i]).id == id
}

/// Some node that is completed carries the id.
pub open spec fn done(g: Seq<NodeView>, id: Text) -> bool {
    exists|i: int| 0 <= i < g.len() && (#[trigger] g[i]).id == id && g[i].status is Completed
}

/// The node waits for nothing any more.
pub open spec fn may_run(g: Seq<NodeView>, i: int) -> bool {
    &&& g[i].status is Pending
    &&& forall|k: int| 0 <= k < g[i].dependencies.len() ==> done(g, #[trigger] g[i].dependencies[k])
}

/// The node is with a runner or with integration.
pub open spec fn is_in_flight(n: NodeView) -> bool {
    n.status is Running || n.status is Integrating
}

/// How many nodes are with a runner or with integration.
pub open spec fn in_flight(g: Seq<NodeView>) -> nat
    decreases g.len(),
{
    if g.len() == 0 {
        0
    } else {
        in_flight(g.drop_last()) + if is_in_flight(g.last()) {
            1nat
        } else {
            0nat
        }
    }
}

/// How many nodes may be in flight at once: the cap, and never none.
pub open spec fn room(config: ConfigView) -> int {
    if config.dispatch_cap == 0 {
        1
    } else {
        config.dispatch_cap as int
    }
}

/// Nothing more becomes of any node.
pub open spec fn is_over(g: Seq<NodeView>) -> bool {
    forall|i: int|
        0 <= i < g.len() ==> (#[trigger] g[i]).status is Completed || g[i].status is Failed
            || g[i].status is Cancelled
}

/// The node at `i` is the first that carries the id.
pub open spec fn is_first(g: Seq<NodeView>, id: Text, i: int) -> bool {
    &&& 0 <= i < g.len()
    &&& g[i].id == id
    &&& forall|j: int| 0 <= j < i ==> (#[trigger] g[j]).id != id
}

/// What a node stands for is in the graph, if it stands for anything.
pub open spec fn source_known(g: Seq<NodeView>, origin: OriginView) -> bool {
    match origin {
        OriginView::Root => true,
        OriginView::PlanExpansion => true,
        OriginView::Retry { source } => known(g, source),
        OriginView::ElevateModel { source } => known(g, source),
        OriginView::Split { source } => known(g, source),
    }
}

/// Every id names one node, and everything that a node names is there.
pub open spec fn is_whole(g: Seq<NodeView>) -> bool {
    &&& forall|i: int, j: int|
        0 <= i < g.len() && 0 <= j < g.len() && i != j ==> (#[trigger] g[i]).id != (
        #[trigger] g[j]).id
    &&& forall|i: int, k: int|
        0 <= i < g.len() && 0 <= k < g[i].dependencies.len() ==> known(
            g,
            #[trigger] g[i].dependencies[k],
        )
    &&& forall|i: int| 0 <= i < g.len() ==> source_known(g, (#[trigger] g[i]).origin)
}

// ── waiting for one another ────────────────────────────────────────────────

/// The node at `i` waits for the node of the id, directly or through at most
/// `n` links; with `pending_only`, only through pending nodes.
pub open spec fn waits_within(
    g: Seq<NodeView>,
    pending_only: bool,
    i: int,
    id: Text,
    n: nat,
) -> bool
    decreases n,
{
    &&& n > 0
    &&& 0 <= i < g.len()
    &&& pending_only ==> g[i].status is Pending
    &&& g[i].dependencies.contains(id) || exists|j: int|
        0 <= j < g.len() && g[i].dependencies.contains((#[trigger] g[j]).id) && waits_within(
            g,
            pending_only,
            j,
            id,
            (n - 1) as nat,
        )
}

/// The node at `i` waits for the node of the id, directly or through others.
pub open spec fn waits_for(g: Seq<NodeView>, pending_only: bool, i: int, id: Text) -> bool {
    exists|n: nat| #[trigger] waits_within(g, pending_only, i, id, n)
}

// ── that the queries say the same ──────────────────────────────────────────

/// The queries of the graph mean what the words say.
pub proof fn lemma_words(g: Seq<NodeView>)
    ensures
        forall|id: Text| #[trigger] queries::has_id(g, id) == known(g, id),
        forall|id: Text| #[trigger] queries::completed_id(g, id) == done(g, id),
        forall|i: int| 0 <= i < g.len() ==> #[trigger] may_run(g, i) == queries::is_ready(g, g[i]),
        queries::all_terminal(g) == is_over(g),
{
    assert forall|id: Text| #[trigger] queries::has_id(g, id) == known(g, id) by {
        if known(g, id) {
            let i = choose|i: int| 0 <= i < g.len() && (#[trigger] g[i]).id == id;
            assert(g[i].id == id);
        }
    }
    assert forall|id: Text| #[trigger] queries::completed_id(g, id) == done(g, id) by {
        if done(g, id) {
            let i = choose|i: int|
                0 <= i < g.len() && (#[trigger] g[i]).id == id && g[i].status is Completed;
            assert(g[i].status is Completed);
        }
        if queries::completed_id(g, id) {
            let i = choose|i: int|
                0 <= i < g.len() && (#[trigger] g[i]).status is Completed && g[i].id == id;
            assert(g[i].status is Completed);
        }
    }
    assert forall|i: int| 0 <= i < g.len() implies #[trigger] may_run(g, i) == queries::is_ready(
        g,
        g[i],
    ) by {
        let d = g[i].dependencies;
        assert forall|k: int| 0 <= k < d.len() implies done(g, #[trigger] d[k])
            == queries::completed_id(g, d[k]) by {}
        if queries::is_ready(g, g[i]) {
            assert forall|k: int| 0 <= k < g[i].dependencies.len() implies done(
                g,
                #[trigger] g[i].dependencies[k],
            ) by {
                assert(queries::completed_id(g, d[k]));
            }
        }
        if may_run(g, i) {
            assert forall|k: int| 0 <= k < g[i].dependencies.len() implies queries::completed_id(
                g,
                #[trigger] g[i].dependencies[k],
            ) by {
                assert(done(g, g[i].dependencies[k]));
            }
        }
    }
    assert forall|i: int| 0 <= i < g.len() implies queries::is_terminal(#[trigger] g[i]) == (
    g[i].status is Completed || g[i].status is Failed || g[i].status is Cancelled) by {}
    if is_over(g) {
        assert forall|i: int| 0 <= i < g.len() implies queries::is_terminal(#[trigger] g[i]) by {}
    }
    if queries::all_terminal(g) {
        assert forall|i: int| 0 <= i < g.len() implies (#[trigger] g[i]).status is Completed
            || g[i].status is Failed || g[i].status is Cancelled by {
            assert(queries::is_terminal(g[i]));
        }
    }
}

/// Whole graphs are the sound ones.
pub proof fn lemma_whole(g: Seq<NodeView>)
    ensures
        is_whole(g) == soundness::sound(g),
{
    lemma_words(g);
    if soundness::sound(g) {
        assert forall|i: int, k: int|
            0 <= i < g.len() && 0 <= k < g[i].dependencies.len() implies known(
            g,
            #[trigger] g[i].dependencies[k],
        ) by {
            assert(queries::has_id(g, g[i].dependencies[k]));
        }
    }
    if is_whole(g) {
        assert forall|i: int, k: int|
            0 <= i < g.len() && 0 <= k < g[i].dependencies.len() implies queries::has_id(
            g,
            #[trigger] g[i].dependencies[k],
        ) by {
            assert(known(g, g[i].dependencies[k]));
        }
        assert forall|i: int| 0 <= i < g.len() implies match crate::invariants::origin_source(
            (#[trigger] g[i]).origin,
        ) {
            Some((source, _)) => queries::has_id(g, source),
            None => true,
        } by {
            assert(source_known(g, g[i].origin));
        }
    }
}

/// The active nodes are those in flight.
pub proof fn lemma_in_flight(g: Seq<NodeView>)
    ensures
        queries::active(g).len() == in_flight(g),
    decreases g.len(),
{
    reveal(Seq::filter);
    if g.len() > 0 {
        lemma_in_flight(g.drop_last());
    }
}

/// A node in flight counts.
pub proof fn lemma_counts(g: Seq<NodeView>, i: int)
    requires
        0 <= i < g.len(),
        is_in_flight(g[i]),
    ensures
        in_flight(g) > 0,
    decreases g.len(),
{
    if i < g.len() - 1 {
        assert(g.drop_last()[i] == g[i]);
        lemma_counts(g.drop_last(), i);
    }
}

/// Where the elements stand that a filter keeps: in order, and all of them.
pub proof fn lemma_kept<A>(s: Seq<A>, pred: spec_fn(A) -> bool) -> (at: Seq<int>)
    ensures
        at.len() == s.filter(pred).len(),
        forall|p: int|
            0 <= p < at.len() ==> 0 <= #[trigger] at[p] < s.len() && s.filter(pred)[p] == s[at[p]]
                && pred(s[at[p]]),
        forall|p: int, q: int| 0 <= p < q < at.len() ==> #[trigger] at[p] < #[trigger] at[q],
        forall|i: int| 0 <= i < s.len() && pred(#[trigger] s[i]) ==> at.contains(i),
    decreases s.len(),
{
    reveal(Seq::filter);
    if s.len() == 0 {
        Seq::empty()
    } else {
        let front = lemma_kept(s.drop_last(), pred);
        let at = if pred(s.last()) {
            front.push(s.len() - 1)
        } else {
            front
        };
        assert forall|p: int| 0 <= p < at.len() implies 0 <= #[trigger] at[p] < s.len()
            && s.filter(pred)[p] == s[at[p]] && pred(s[at[p]]) by {
            if p < front.len() {
                assert(s.drop_last()[front[p]] == s[front[p]]);
            }
        }
        assert forall|i: int| 0 <= i < s.len() && pred(#[trigger] s[i]) implies at.contains(i) by {
            if i < s.len() - 1 {
                assert(s.drop_last()[i] == s[i]);
                let p = choose|p: int| 0 <= p < front.len() && front[p] == i;
                assert(at[p] == i);
            } else {
                assert(at[at.len() - 1] == i);
            }
        }
        at
    }
}

// ── that closures say the same ─────────────────────────────────────────────

proof fn lemma_waiting_is_affected(
    g: Seq<NodeView>,
    pending_only: bool,
    i: int,
    id: Text,
    n: nat,
    set: Set<Text>,
)
    requires
        waits_within(g, pending_only, i, id, n),
        set.contains(id),
        closure::closed_under_dependents(g, pending_only, set),
    ensures
        set.contains(g[i].id),
    decreases n,
{
    if !g[i].dependencies.contains(id) {
        let j = choose|j: int|
            0 <= j < g.len() && g[i].dependencies.contains((#[trigger] g[j]).id) && waits_within(
                g,
                pending_only,
                j,
                id,
                (n - 1) as nat,
            );
        lemma_waiting_is_affected(g, pending_only, j, id, (n - 1) as nat, set);
        let k = choose|k: int| 0 <= k < g[i].dependencies.len() && g[i].dependencies[k] == g[j].id;
        assert(set.contains(g[i].dependencies[k]));
    } else {
        let k = choose|k: int| 0 <= k < g[i].dependencies.len() && g[i].dependencies[k] == id;
        assert(set.contains(g[i].dependencies[k]));
    }
    assert(closure::depends_on_any(g[i], set));
}

/// The dependents of a node are those that wait for it, link by link.
pub proof fn lemma_dependents(g: Seq<NodeView>, pending_only: bool, id: Text, i: int)
    requires
        soundness::unique_ids(g),
        0 <= i < g.len(),
        g[i].id != id,
    ensures
        closure::is_dependent(g, pending_only, id, g[i].id) == waits_for(g, pending_only, i, id),
{
    if waits_for(g, pending_only, i, id) {
        let n = choose|n: nat| #[trigger] waits_within(g, pending_only, i, id, n);
        assert forall|set: Set<Text>|
            set.contains(id) && #[trigger] closure::closed_under_dependents(
                g,
                pending_only,
                set,
            ) implies set.contains(g[i].id) by {
            lemma_waiting_is_affected(g, pending_only, i, id, n, set);
        }
    }
    if closure::is_dependent(g, pending_only, id, g[i].id) {
        let set = Set::new(
            |x: Text|
                x == id || exists|j: int|
                    0 <= j < g.len() && (#[trigger] g[j]).id == x && waits_for(
                        g,
                        pending_only,
                        j,
                        id,
                    ),
        );
        assert forall|a: int|
            0 <= a < g.len() && (pending_only ==> g[a].status is Pending)
                && closure::depends_on_any(g[a], set) implies set.contains((#[trigger] g[a]).id) by {
            let k = choose|k: int|
                0 <= k < g[a].dependencies.len() && set.contains(#[trigger] g[a].dependencies[k]);
            let d = g[a].dependencies[k];
            assert(g[a].dependencies.contains(d));
            if d == id {
                assert(waits_within(g, pending_only, a, id, 1));
            } else {
                let j = choose|j: int|
                    0 <= j < g.len() && (#[trigger] g[j]).id == d && waits_for(
                        g,
                        pending_only,
                        j,
                        id,
                    );
                let n = choose|n: nat| #[trigger] waits_within(g, pending_only, j, id, n);
                let more = (n + 1) as nat;
                assert(waits_within(g, pending_only, j, id, (more - 1) as nat));
                assert(waits_within(g, pending_only, a, id, more));
            }
        }
        assert(closure::closed_under_dependents(g, pending_only, set));
        assert(set.contains(g[i].id));
    }
}

// ── texts in order ─────────────────────────────────────────────────────────

/// The texts agree before `k`, and there the first one ends or has the lower
/// character.
pub open spec fn parts_at(a: Text, b: Text, k: int) -> bool {
    &&& 0 <= k <= a.len()
    &&& k < b.len()
    &&& forall|j: int| 0 <= j < k ==> #[trigger] a[j] == b[j]
    &&& k == a.len() || (a[k] as int) < (b[k] as int)
}

/// The first text stands before the second in a dictionary.
pub open spec fn stands_before(a: Text, b: Text) -> bool {
    exists|k: int| #[trigger] parts_at(a, b, k)
}

/// The texts stand in the order of a dictionary, and none twice.
pub open spec fn in_order(list: Seq<Text>) -> bool {
    forall|p: int, q: int|
        0 <= p < q < list.len() ==> stands_before(#[trigger] list[p], #[trigger] list[q])
}

/// Texts are ordered as in a dictionary.
pub proof fn law_texts_are_ordered_as_in_a_dictionary(a: Text, b: Text)
    ensures
        text::text_before(a, b) == stands_before(a, b),
    decreases a.len(),
{
    if b.len() > 0 && a.len() == 0 {
        assert(parts_at(a, b, 0));
    } else if b.len() > 0 && a[0] == b[0] {
        let x = a.drop_first();
        let y = b.drop_first();
        law_texts_are_ordered_as_in_a_dictionary(x, y);
        if stands_before(x, y) {
            let k = choose|k: int| #[trigger] parts_at(x, y, k);
            assert forall|j: int| 0 <= j < k + 1 implies #[trigger] a[j] == b[j] by {
                if j > 0 {
                    assert(x[j - 1] == y[j - 1]);
                }
            }
            assert(parts_at(a, b, k + 1));
        }
        if stands_before(a, b) {
            let k = choose|k: int| #[trigger] parts_at(a, b, k);
            assert(k > 0);
            assert forall|j: int| 0 <= j < k - 1 implies #[trigger] x[j] == y[j] by {
                assert(a[j + 1] == b[j + 1]);
            }
            assert(parts_at(x, y, k - 1));
        }
    } else if b.len() > 0 {
        if (a[0] as int) < (b[0] as int) {
            assert(parts_at(a, b, 0));
        }
        if stands_before(a, b) {
            let k = choose|k: int| #[trigger] parts_at(a, b, k);
            if k > 0 {
                assert(a[0] == b[0]);
            }
        }
    }
}

/// What is sorted with nothing twice stands in the order of a dictionary and
/// holds what was given.
pub proof fn lemma_sorted(items: Seq<Text>)
    ensures
        in_order(text::sorted_distinct(items)),
        forall|x: Text| #[trigger] text::sorted_distinct(items).contains(x) == items.contains(x),
{
    text::lemma_sorted_distinct(items);
    let list = text::sorted_distinct(items);
    assert forall|p: int, q: int| 0 <= p < q < list.len() implies stands_before(
        #[trigger] list[p],
        #[trigger] list[q],
    ) by {
        law_texts_are_ordered_as_in_a_dictionary(list[p], list[q]);
        assert(text::text_before(list[p], list[q]));
    }
}

/// The target files of what waits for a node are those that are planned.
pub proof fn lemma_planned_targets(g: Seq<NodeView>, id: Text, k: int, target: Text)
    requires
        soundness::unique_ids(g),
        0 <= k <= g.len(),
    ensures
        closure::dependent_targets(g, id, k).contains(target) == exists|j: int|
            0 <= j < k && (#[trigger] g[j]).id != id && waits_for(g, false, j, id)
                && g[j].target_files.contains(target),
    decreases k,
{
    if k > 0 {
        lemma_planned_targets(g, id, k - 1, target);
        let n = g[k - 1];
        let before = closure::dependent_targets(g, id, k - 1);
        if n.id != id {
            lemma_dependents(g, false, id, k - 1);
        }
        if closure::is_dependent(g, false, id, n.id) {
            let all = before + n.target_files;
            if before.contains(target) {
                let p = choose|p: int| 0 <= p < before.len() && before[p] == target;
                assert(all[p] == target);
            }
            if n.target_files.contains(target) {
                let p = choose|p: int| 0 <= p < n.target_files.len() && n.target_files[p] == target;
                assert(all[before.len() + p] == target);
            }
            if all.contains(target) {
                let p = choose|p: int| 0 <= p < all.len() && all[p] == target;
                if p < before.len() {
                    assert(before[p] == target);
                } else {
                    assert(n.target_files[p - before.len()] == target);
                }
            }
        }
    }
}

} // verus!
