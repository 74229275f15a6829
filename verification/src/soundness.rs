//! Sound graphs: every id names one node, and everything a node refers to is
//! there.

use vstd::prelude::*;

use crate::graph::{NodeView, OriginView};
use crate::invariants;
use crate::queries;
use crate::search;
use crate::text::Text;

verus! {

/// No two nodes carry the same id.
pub open spec fn unique_ids(g: Seq<NodeView>) -> bool {
    forall|i: int, j: int|
        0 <= i < g.len() && 0 <= j < g.len() && i != j ==> (#[trigger] g[i]).id != (
        #[trigger] g[j]).id
}

/// Every dependency names a node of the graph.
pub open spec fn dependencies_exist(g: Seq<NodeView>) -> bool {
    forall|i: int, k: int|
        0 <= i < g.len() && 0 <= k < g[i].dependencies.len() ==> queries::has_id(
            g,
            #[trigger] g[i].dependencies[k],
        )
}

/// Whatever a replacement stands for is a node of the graph.
pub open spec fn origins_exist(g: Seq<NodeView>) -> bool {
    forall|i: int|
        0 <= i < g.len() ==> match invariants::origin_source((#[trigger] g[i]).origin) {
            Some((source, _)) => queries::has_id(g, source),
            None => true,
        }
}

/// Ids are unique and references exist.
pub open spec fn sound(g: Seq<NodeView>) -> bool {
    unique_ids(g) && dependencies_exist(g) && origins_exist(g)
}

/// The ids can be given to new nodes: they differ from each other and from
/// all ids in use.
pub open spec fn fresh(ids: Seq<Text>, g: Seq<NodeView>) -> bool {
    &&& forall|i: int| 0 <= i < ids.len() ==> !queries::has_id(g, #[trigger] ids[i])
    &&& forall|i: int, j: int|
        0 <= i < ids.len() && 0 <= j < ids.len() && i != j ==> #[trigger] ids[i]
            != #[trigger] ids[j]
}

/// Graph validation accepts exactly the sound graphs. It reads ids as opaque
/// texts: only whether two of them are equal matters.
pub proof fn law_validation_accepts_sound_graphs(g: Seq<NodeView>)
    ensures
        invariants::graph_violation(g) is None <==> sound(g),
{
    lemma_no_duplicates(g);
    lemma_no_missing_dependencies(g);
    search::lemma_first_some_none(g.len(), invariants::origin_check(g));
    let check = invariants::origin_check(g);
    if forall|i: int| 0 <= i < g.len() ==> #[trigger] check(i) is None {
        assert forall|i: int| 0 <= i < g.len() implies match invariants::origin_source(
            (#[trigger] g[i]).origin,
        ) {
            Some((source, _)) => queries::has_id(g, source),
            None => true,
        } by {
            assert(check(i) is None);
        }
    }
}

proof fn lemma_no_duplicates(g: Seq<NodeView>)
    ensures
        search::first_some(g.len(), invariants::duplicate_check(g)) is None <==> unique_ids(g),
{
    let check = invariants::duplicate_check(g);
    search::lemma_first_some_none(g.len(), check);
    if forall|i: int| 0 <= i < g.len() ==> #[trigger] check(i) is None {
        assert forall|i: int, j: int|
            0 <= i < g.len() && 0 <= j < g.len() && i != j implies (#[trigger] g[i]).id != (
        #[trigger] g[j]).id by {
            let (low, high) = if i < j {
                (i, j)
            } else {
                (j, i)
            };
            assert(check(high) is None);
            assert(g.take(high)[low] == g[low]);
        }
    }
    if unique_ids(g) {
        assert forall|i: int| 0 <= i < g.len() implies #[trigger] check(i) is None by {
            if queries::has_id(g.take(i), g[i].id) {
                let j = choose|j: int|
                    0 <= j < g.take(i).len() && (#[trigger] g.take(i)[j]).id == g[i].id;
                assert(g.take(i)[j] == g[j]);
            }
        }
    }
}

proof fn lemma_no_missing_dependencies(g: Seq<NodeView>)
    ensures
        search::first_some(g.len(), invariants::dependencies_check(g)) is None
            <==> dependencies_exist(g),
{
    let check = invariants::dependencies_check(g);
    search::lemma_first_some_none(g.len(), check);
    assert forall|i: int| 0 <= i < g.len() implies (#[trigger] check(i) is None <==> forall|k: int|
        0 <= k < g[i].dependencies.len() ==> queries::has_id(
            g,
            #[trigger] g[i].dependencies[k],
        )) by {
        let inner = invariants::dependency_check(g, g[i]);
        search::lemma_first_some_none(g[i].dependencies.len(), inner);
        if forall|k: int| 0 <= k < g[i].dependencies.len() ==> #[trigger] inner(k) is None {
            assert forall|k: int| 0 <= k < g[i].dependencies.len() implies queries::has_id(
                g,
                #[trigger] g[i].dependencies[k],
            ) by {
                assert(inner(k) is None);
            }
        }
    }
    if forall|i: int| 0 <= i < g.len() ==> #[trigger] check(i) is None {
        assert forall|i: int, k: int|
            0 <= i < g.len() && 0 <= k < g[i].dependencies.len() implies queries::has_id(
            g,
            #[trigger] g[i].dependencies[k],
        ) by {
            assert(check(i) is None);
        }
    }
}

// ── ids are opaque ─────────────────────────────────────────────────────────

/// The node with every id in it renamed.
pub open spec fn renamed_node(n: NodeView, f: spec_fn(Text) -> Text) -> NodeView {
    NodeView {
        id: f(n.id),
        dependencies: n.dependencies.map_values(f),
        origin: match n.origin {
            OriginView::Root => OriginView::Root,
            OriginView::PlanExpansion => OriginView::PlanExpansion,
            OriginView::Retry { source } => OriginView::Retry { source: f(source) },
            OriginView::ElevateModel { source } => OriginView::ElevateModel { source: f(source) },
            OriginView::Split { source } => OriginView::Split { source: f(source) },
        },
        ..n
    }
}

/// The graph with every id in it renamed.
pub open spec fn renamed(g: Seq<NodeView>, f: spec_fn(Text) -> Text) -> Seq<NodeView> {
    g.map_values(|n: NodeView| renamed_node(n, f))
}

/// Different ids get different names.
pub open spec fn injective(f: spec_fn(Text) -> Text) -> bool {
    forall|a: Text, b: Text| #[trigger] f(a) == #[trigger] f(b) ==> a == b
}

/// Renaming keeps which ids a graph has.
pub proof fn lemma_renamed_id(g: Seq<NodeView>, f: spec_fn(Text) -> Text, id: Text)
    requires
        injective(f),
    ensures
        queries::has_id(renamed(g, f), f(id)) <==> queries::has_id(g, id),
{
    let h = renamed(g, f);
    if queries::has_id(g, id) {
        let i = choose|i: int| 0 <= i < g.len() && (#[trigger] g[i]).id == id;
        assert(h[i] == renamed_node(g[i], f));
    }
    if queries::has_id(h, f(id)) {
        let i = choose|i: int| 0 <= i < h.len() && (#[trigger] h[i]).id == f(id);
        assert(h[i] == renamed_node(g[i], f));
        assert(f(g[i].id) == f(id));
    }
}

/// Ids are opaque: whether validation accepts a graph does not depend on what
/// its ids are, only on which of them are the same.
pub proof fn law_validation_does_not_read_ids(g: Seq<NodeView>, f: spec_fn(Text) -> Text)
    requires
        injective(f),
    ensures
        invariants::graph_violation(renamed(g, f)) is None <==> invariants::graph_violation(
            g,
        ) is None,
{
    let h = renamed(g, f);
    law_validation_accepts_sound_graphs(g);
    law_validation_accepts_sound_graphs(h);
    assert forall|i: int| 0 <= i < g.len() implies #[trigger] h[i] == renamed_node(g[i], f) by {}
    if sound(g) {
        assert forall|i: int, j: int| 0 <= i < h.len() && 0 <= j < h.len() && i != j implies (
        #[trigger] h[i]).id != (#[trigger] h[j]).id by {
            assert(g[i].id != g[j].id);
        }
        assert forall|i: int, k: int|
            0 <= i < h.len() && 0 <= k < h[i].dependencies.len() implies queries::has_id(
            h,
            #[trigger] h[i].dependencies[k],
        ) by {
            assert(queries::has_id(g, g[i].dependencies[k]));
            lemma_renamed_id(g, f, g[i].dependencies[k]);
        }
        assert forall|i: int| 0 <= i < h.len() implies match invariants::origin_source(
            (#[trigger] h[i]).origin,
        ) {
            Some((source, _)) => queries::has_id(h, source),
            None => true,
        } by {
            if let Some((source, _)) = invariants::origin_source(g[i].origin) {
                lemma_renamed_id(g, f, source);
            }
        }
    }
    if sound(h) {
        assert forall|i: int, j: int| 0 <= i < g.len() && 0 <= j < g.len() && i != j implies (
        #[trigger] g[i]).id != (#[trigger] g[j]).id by {
            assert(h[i].id != h[j].id);
        }
        assert forall|i: int, k: int|
            0 <= i < g.len() && 0 <= k < g[i].dependencies.len() implies queries::has_id(
            g,
            #[trigger] g[i].dependencies[k],
        ) by {
            assert(queries::has_id(h, h[i].dependencies[k]));
            lemma_renamed_id(g, f, g[i].dependencies[k]);
        }
        assert forall|i: int| 0 <= i < g.len() implies match invariants::origin_source(
            (#[trigger] g[i]).origin,
        ) {
            Some((source, _)) => queries::has_id(g, source),
            None => true,
        } by {
            assert(h[i] == renamed_node(g[i], f));
            if let Some((source, _)) = invariants::origin_source(g[i].origin) {
                lemma_renamed_id(g, f, source);
            }
        }
    }
}

/// With unique ids, the node that carries an id is the one looked up.
pub proof fn lemma_unique_lookup(g: Seq<NodeView>, i: int)
    requires
        unique_ids(g),
        0 <= i < g.len(),
    ensures
        queries::lookup(g, g[i].id) == Some(g[i]),
{
    assert(queries::first_at(g, g[i].id, i)) by {
        assert forall|j: int| 0 <= j < i implies (#[trigger] g[j]).id != g[i].id by {}
    }
    queries::lemma_lookup_at(g, g[i].id, i);
}

/// A node that is looked up stands somewhere in the graph.
pub proof fn lemma_lookup_position(g: Seq<NodeView>, id: Text) -> (i: int)
    requires
        queries::has_id(g, id),
    ensures
        0 <= i < g.len(),
        g[i].id == id,
        queries::lookup(g, id) == Some(g[i]),
{
    queries::lemma_lookup_some(g, id);
    let n = queries::lookup(g, id)->0;
    let i = choose|i: int| 0 <= i < g.len() && g[i] == n;
    i
}

} // verus!
