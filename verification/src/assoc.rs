//! Lists of entries keyed by text, read as mappings.

use vstd::prelude::*;

verus! {

/// No key occurs twice among the entries.
pub open spec fn distinct_keys<V>(entries: Seq<(Seq<char>, V)>) -> bool {
    forall|a: int, b: int|
        0 <= a < b < entries.len() ==> (#[trigger] entries[a]).0 != (#[trigger] entries[b]).0
}

/// The mapping that a list of entries stands for. A later entry for a key
/// that is already there would replace the earlier one.
pub open spec fn entries_map<V>(entries: Seq<(Seq<char>, V)>) -> Map<Seq<char>, V>
    decreases entries.len(),
{
    if entries.len() == 0 {
        Map::empty()
    } else {
        entries_map(entries.drop_last()).insert(entries.last().0, entries.last().1)
    }
}

/// A key is in the mapping exactly if some entry has it.
pub proof fn lemma_entries_map_domain<V>(entries: Seq<(Seq<char>, V)>, text: Seq<char>)
    ensures
        entries_map(entries).contains_key(text) <==> exists|i: int|
            0 <= i < entries.len() && (#[trigger] entries[i]).0 == text,
    decreases entries.len(),
{
    if entries.len() > 0 {
        let front = entries.drop_last();
        lemma_entries_map_domain(front, text);
        if entries_map(entries).contains_key(text) {
            if entries.last().0 == text {
                assert(entries[entries.len() - 1].0 == text);
            } else {
                let i = choose|i: int| 0 <= i < front.len() && (#[trigger] front[i]).0 == text;
                assert(entries[i].0 == text);
            }
        }
        if exists|i: int| 0 <= i < entries.len() && (#[trigger] entries[i]).0 == text {
            let i = choose|i: int| 0 <= i < entries.len() && (#[trigger] entries[i]).0 == text;
            if i < entries.len() - 1 {
                assert(front[i].0 == text);
            }
        }
    }
}

/// Where no key occurs twice, each entry's key maps to its value.
pub proof fn lemma_entries_map_value<V>(entries: Seq<(Seq<char>, V)>, i: int)
    requires
        0 <= i < entries.len(),
        distinct_keys(entries),
    ensures
        entries_map(entries).contains_key(entries[i].0),
        entries_map(entries)[entries[i].0] == entries[i].1,
    decreases entries.len(),
{
    let front = entries.drop_last();
    if i < entries.len() - 1 {
        assert forall|a: int, b: int| 0 <= a < b < front.len() implies (#[trigger] front[a]).0 != (
        #[trigger] front[b]).0 by {
            assert(entries[a].0 != entries[b].0);
        }
        lemma_entries_map_value(front, i);
        assert(entries[i].0 != entries[entries.len() - 1].0);
        assert(front[i] == entries[i]);
    }
}

/// Where no key occurs twice, the mapping has as many keys as there are
/// entries.
pub proof fn lemma_entries_count<V>(entries: Seq<(Seq<char>, V)>)
    requires
        distinct_keys(entries),
    ensures
        entries_map(entries).dom().finite(),
        entries_map(entries).dom().len() == entries.len(),
    decreases entries.len(),
{
    if entries.len() > 0 {
        let front = entries.drop_last();
        assert forall|a: int, b: int| 0 <= a < b < front.len() implies (#[trigger] front[a]).0 != (
        #[trigger] front[b]).0 by {
            assert(entries[a].0 != entries[b].0);
        }
        lemma_entries_count(front);
        lemma_entries_map_domain(front, entries.last().0);
        if entries_map(front).contains_key(entries.last().0) {
            let i = choose|i: int| 0 <= i < front.len() && (#[trigger] front[i]).0 == entries.last().0;
            assert(entries[i].0 != entries[entries.len() - 1].0);
        }
    }
}

} // verus!
