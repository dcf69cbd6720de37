//! The offset index: for each identifier, the offset of its latest record.

use vstd::prelude::*;

verus! {

/// One entry of the index: an identifier and the offset of the record that
/// was written last for it.
#[derive(Debug)]
pub struct IndexEntry {
    pub id: String,
    pub offset: u64,
}

/// No identifier has two entries.
pub open spec fn distinct_ids(entries: Seq<IndexEntry>) -> bool {
    forall|i: int, j: int|
        0 <= i < entries.len() && 0 <= j < entries.len() && entries[i].id@ == entries[j].id@
            ==> i == j
}

/// Some entry carries the identifier `id`.
pub open spec fn has_entry(entries: Seq<IndexEntry>, id: Seq<char>) -> bool {
    exists|i: int| 0 <= i < entries.len() && #[trigger] entries[i].id@ == id
}

/// The position of an entry that carries `id`.
pub open spec fn entry_position(entries: Seq<IndexEntry>, id: Seq<char>) -> int {
    choose|i: int| 0 <= i < entries.len() && #[trigger] entries[i].id@ == id
}

/// The mapping that a list of entries stands for.
pub open spec fn entries_map(entries: Seq<IndexEntry>) -> Map<Seq<char>, u64> {
    Map::new(
        |id: Seq<char>| has_entry(entries, id),
        |id: Seq<char>| entries[entry_position(entries, id)].offset,
    )
}

/// A mapping from identifiers to offsets in which each identifier has at most
/// one entry.
#[derive(Debug)]
pub struct OffsetIndex {
    entries: Vec<IndexEntry>,
}

impl View for OffsetIndex {
    type V = Map<Seq<char>, u64>;

    closed spec fn view(&self) -> Map<Seq<char>, u64> {
        entries_map(self.entries@)
    }
}

/// The position of the entry of `key` in `entries`, or `None` when no entry
/// carries it.
fn find_entry(entries: &Vec<IndexEntry>, key: &String) -> (found: Option<usize>)
    ensures
        match found {
            Some(i) => i < entries@.len() && entries@[i as int].id@ == key@,
            None => !has_entry(entries@, key@),
        },
{
    let mut i: usize = 0;
    while i < entries.len()
        invariant
            i <= entries@.len(),
            forall|j: int| 0 <= j < i ==> entries@[j].id@ != key@,
        decreases entries@.len() - i,
    {
        if entries[i].id == *key {
            return Some(i);
        }
        i = i + 1;
    }
    None
}

impl OffsetIndex {
    #[verifier::type_invariant]
    spec fn one_entry_per_id(self) -> bool {
        distinct_ids(self.entries@)
    }

    /// An index without entries.
    pub fn new() -> (index: Self)
        ensures
            index@ == Map::<Seq<char>, u64>::empty(),
    {
        let index = OffsetIndex { entries: Vec::new() };
        assert(index@ =~= Map::<Seq<char>, u64>::empty());
        index
    }

    /// The offset kept for `id`, or `None` when `id` was never entered.
    pub fn lookup(&self, id: &str) -> (found: Option<u64>)
        ensures
            found == (if self@.contains_key(id@) {
                Some(self@[id@])
            } else {
                None
            }),
    {
        proof {
            use_type_invariant(self);
        }
        let key: String = id.to_owned();
        match find_entry(&self.entries, &key) {
            Some(i) => Some(self.entries[i].offset),
            None => None,
        }
    }

    /// Enters `offset` for `id`: the entry of `id` is replaced if there is
    /// one, and added if there is none. No other identifier is touched.
    pub fn upsert(&mut self, id: &str, offset: u64)
        ensures
            final(self)@ == old(self)@.insert(id@, offset),
    {
        proof {
            use_type_invariant(&*self);
        }
        let key: String = id.to_owned();
        let mut entries: Vec<IndexEntry> = Vec::new();
        std::mem::swap(&mut entries, &mut self.entries);
        let ghost before = entries@;
        match find_entry(&entries, &key) {
            Some(i) => {
                entries.set(i, IndexEntry { id: key, offset });
                proof {
                    lemma_replaced(before, entries@, i as int);
                }
            },
            None => {
                entries.push(IndexEntry { id: key, offset });
                proof {
                    assert(entries@.drop_last() =~= before);
                    lemma_added(before, entries@);
                }
            },
        }
        self.entries = entries;
    }
}

/// Replacing the entry at `at` by one of the same identifier keeps the
/// identifiers distinct and changes the mapping at that identifier alone.
proof fn lemma_replaced(before: Seq<IndexEntry>, after: Seq<IndexEntry>, at: int)
    requires
        distinct_ids(before),
        0 <= at < before.len(),
        after == before.update(at, after[at]),
        after[at].id@ == before[at].id@,
    ensures
        distinct_ids(after),
        entries_map(after) == entries_map(before).insert(after[at].id@, after[at].offset),
{
    let id = after[at].id@;
    assert forall|i: int| 0 <= i < after.len() implies #[trigger] after[i].id@ == before[i].id@ by {}
    assert forall|k: Seq<char>| has_entry(after, k) <==> has_entry(before, k) by {
        if has_entry(after, k) {
            let j: int = entry_position(after, k);
            assert(before[j].id@ == k);
        }
        if has_entry(before, k) {
            let j: int = entry_position(before, k);
            assert(after[j].id@ == k);
        }
    }
    assert(has_entry(before, id));
    assert forall|k: Seq<char>| has_entry(after, k) implies entries_map(after)[k] == entries_map(
        before,
    ).insert(id, after[at].offset)[k] by {
        let j: int = entry_position(after, k);
        let j0: int = entry_position(before, k);
        assert(after[j0].id@ == k);
        assert(j == j0);
    }
    assert(entries_map(after) =~= entries_map(before).insert(id, after[at].offset));
}

/// Adding an entry whose identifier has none keeps the identifiers distinct
/// and extends the mapping by that entry.
proof fn lemma_added(before: Seq<IndexEntry>, after: Seq<IndexEntry>)
    requires
        distinct_ids(before),
        after.len() == before.len() + 1,
        after.drop_last() == before,
        !has_entry(before, after.last().id@),
    ensures
        distinct_ids(after),
        entries_map(after) == entries_map(before).insert(after.last().id@, after.last().offset),
{
    let id = after.last().id@;
    let last: int = after.len() - 1;
    assert forall|i: int| 0 <= i < before.len() implies #[trigger] after[i] == before[i] by {
        assert(after.drop_last()[i] == after[i]);
    }
    assert forall|i: int| 0 <= i < before.len() implies #[trigger] before[i].id@ != id by {}
    assert forall|k: Seq<char>| has_entry(after, k) <==> (k == id || has_entry(before, k)) by {
        if has_entry(after, k) {
            let j: int = entry_position(after, k);
            if j < last {
                assert(before[j].id@ == k);
            }
        }
        if has_entry(before, k) {
            let j: int = entry_position(before, k);
            assert(after[j].id@ == k);
        }
        if k == id {
            assert(after[last].id@ == id);
        }
    }
    assert forall|k: Seq<char>| has_entry(after, k) implies entries_map(after)[k] == entries_map(
        before,
    ).insert(id, after.last().offset)[k] by {
        let j: int = entry_position(after, k);
        if k != id {
            let j0: int = entry_position(before, k);
            assert(after[j0].id@ == k);
            assert(j == j0);
        } else {
            assert(j == last);
        }
    }
    assert(entries_map(after) =~= entries_map(before).insert(id, after.last().offset));
}

} // verus!
