//! Tables of values by node and attempt.

use vstd::prelude::*;

use crate::graph::NodeId;
use crate::text::Text;

verus! {

/// A value and the attempt it belongs to.
pub struct AttemptEntry<T> {
    node_id: NodeId,
    attempt: u32,
    value: T,
}

/// A table with at most one value for each attempt at each node.
pub struct AttemptTable<T> {
    entries: Vec<AttemptEntry<T>>,
}

/// The table that a list of insertions leaves.
spec fn contents<T>(entries: Seq<AttemptEntry<T>>) -> Map<(Text, u32), T>
    decreases entries.len(),
{
    if entries.len() == 0 {
        Map::empty()
    } else {
        contents(entries.drop_last()).insert(
            (entries.last().node_id@, entries.last().attempt),
            entries.last().value,
        )
    }
}

impl<T> View for AttemptTable<T> {
    type V = Map<(Text, u32), T>;

    closed spec fn view(&self) -> Map<(Text, u32), T> {
        contents(self.entries@)
    }
}

/// The value of a table at a key, if it has one.
pub open spec fn at<T>(table: Map<(Text, u32), T>, key: (Text, u32)) -> Option<T> {
    if table.dom().contains(key) {
        Some(table[key])
    } else {
        None
    }
}

/// The messages of a table, as texts.
pub open spec fn messages(table: Map<(Text, u32), String>) -> Map<(Text, u32), Text> {
    table.map_values(|message: String| message@)
}

/// Taking the texts of a table keeps insertions, removals and what is found.
pub proof fn lemma_messages(table: Map<(Text, u32), String>, key: (Text, u32), message: String)
    ensures
        messages(table.insert(key, message)) == messages(table).insert(key, message@),
        messages(table.remove(key)) == messages(table).remove(key),
        at(messages(table), key) == match at(table, key) {
            Some(found) => Some(found@),
            None => None,
        },
{
    assert(messages(table.insert(key, message)) =~= messages(table).insert(key, message@));
    assert(messages(table.remove(key)) =~= messages(table).remove(key));
}

impl<T> AttemptTable<T> {
    /// An empty table.
    pub fn new() -> (table: AttemptTable<T>)
        ensures
            table@ == Map::<(Text, u32), T>::empty(),
    {
        AttemptTable { entries: Vec::new() }
    }

    /// Sets the value of an attempt, in place of any that was there.
    pub fn insert(&mut self, node_id: NodeId, attempt: u32, value: T)
        ensures
            final(self)@ == old(self)@.insert((node_id@, attempt), value),
    {
        let ghost before = self.entries@;
        self.entries.push(AttemptEntry { node_id, attempt, value });
        assert(self.entries@.drop_last() =~= before);
    }

    /// Takes the value of an attempt out, if there is one.
    pub fn remove(&mut self, node_id: &NodeId, attempt: u32) -> (removed: Option<T>)
        ensures
            removed == at(old(self)@, (node_id@, attempt)),
            final(self)@ == old(self)@.remove((node_id@, attempt)),
    {
        let ghost before = self.entries@;
        let ghost key = (node_id@, attempt);
        let ghost mut seen: int = 0;
        let mut removed: Option<T> = None;
        let mut i: usize = 0;
        assert(before.take(0) =~= Seq::<AttemptEntry<T>>::empty());
        assert(self.entries@.take(0) =~= Seq::<AttemptEntry<T>>::empty());
        assert(contents(self.entries@.take(0)) =~= contents(before.take(0)).remove(key));
        assert(self.entries@.skip(0) =~= before.skip(0));
        while i < self.entries.len()
            invariant
                i <= self.entries.len(),
                key == (node_id@, attempt),
                0 <= seen <= before.len(),
                self.entries@.skip(i as int) == before.skip(seen),
                contents(self.entries@.take(i as int)) == contents(before.take(seen)).remove(key),
                removed == at(contents(before.take(seen)), key),
            decreases self.entries.len() - i,
        {
            let ghost entries = self.entries@;
            let ghost here = entries[i as int];
            proof {
                assert(entries.skip(i as int).len() == entries.len() - i);
                assert(before.skip(seen).len() == before.len() - seen);
                assert(entries.skip(i as int)[0] == here);
                assert(before.skip(seen)[0] == before[seen]);
                assert(before.take(seen + 1).drop_last() =~= before.take(seen));
                assert(before.take(seen + 1).last() == here);
                assert(entries.skip(i as int).drop_first() =~= before.skip(seen + 1));
            }
            if self.entries[i].attempt == attempt && self.entries[i].node_id.0 == node_id.0 {
                let entry = self.entries.remove(i);
                removed = Some(entry.value);
                proof {
                    assert(self.entries@.take(i as int) =~= entries.take(i as int));
                    assert(self.entries@.skip(i as int) =~= entries.skip(i as int).drop_first());
                    assert(contents(before.take(seen + 1)).remove(key) =~= contents(
                        before.take(seen),
                    ).remove(key));
                }
            } else {
                proof {
                    let there = (here.node_id@, here.attempt);
                    assert(there != key);
                    assert(entries.take(i + 1).drop_last() =~= entries.take(i as int));
                    assert(entries.skip(i + 1) =~= entries.skip(i as int).drop_first());
                    assert(contents(before.take(seen)).insert(there, here.value).remove(key)
                        =~= contents(before.take(seen)).remove(key).insert(there, here.value));
                }
                i += 1;
            }
            proof {
                seen = seen + 1;
            }
        }
        proof {
            assert(self.entries@.skip(i as int).len() == 0);
            assert(before.skip(seen).len() == 0);
            assert(before.take(seen) =~= before);
            assert(self.entries@.take(i as int) =~= self.entries@);
        }
        removed
    }
}

} // verus!
