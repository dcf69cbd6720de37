//! What holds of the store as a whole, stated over the mathematical values
//! that the contracts of the log, the index and the engine speak of.

use vstd::prelude::*;
use crate::codec::decoded;
use crate::document::DocumentView;
use crate::engine::{
    consistent, empty_store, fetched, lemma_stored, put_step, stored, StoreState,
};
use crate::error::StoreError;
use crate::log::{appended, lemma_appended_record, lemma_record_stable, record_at, NEWLINE};

verus! {

/// A document that was put is what a get of its identifier returns, with its
/// identifier, its revision marker and all its fields.
pub proof fn law_round_trip(before: StoreState, document: DocumentView, after: StoreState)
    requires
        put_step(before, document, after),
    ensures
        fetched(after, document.id) == Ok::<Option<DocumentView>, StoreError>(Some(document)),
{
    let payload = choose|payload: Seq<u8>| stored(before, document, payload, after);
    lemma_stored(before, document, payload, after);
}

/// A put leaves the answer for every other identifier as it was, provided
/// the entry of that identifier pointed at a complete record.
pub proof fn law_put_keeps_others(
    before: StoreState,
    document: DocumentView,
    after: StoreState,
    id: Seq<char>,
)
    requires
        put_step(before, document, after),
        id != document.id,
        before.index.contains_key(id) ==> record_at(before.log, before.index[id] as int) is Some,
    ensures
        fetched(after, id) == fetched(before, id),
{
    let payload = choose|payload: Seq<u8>| stored(before, document, payload, after);
    lemma_stored(before, document, payload, after);
}

/// After two puts under one identifier a get returns the second document.
/// The log grows with each put and still holds both records: the first is
/// still the record at the offset where it was written.
pub proof fn law_overwrite(
    start: StoreState,
    first: DocumentView,
    middle: StoreState,
    second: DocumentView,
    end: StoreState,
)
    requires
        put_step(start, first, middle),
        put_step(middle, second, end),
        first.id == second.id,
    ensures
        fetched(end, first.id) == Ok::<Option<DocumentView>, StoreError>(Some(second)),
        first != second ==> fetched(end, first.id) != Ok::<Option<DocumentView>, StoreError>(
            Some(first),
        ),
        start.log.len() < middle.log.len() < end.log.len(),
        end.log.subrange(0, middle.log.len() as int) == middle.log,
        middle.log.subrange(0, start.log.len() as int) == start.log,
        record_at(end.log, start.log.len() as int) matches Some(payload) && decoded(payload)
            == Some(first),
        record_at(end.log, middle.log.len() as int) matches Some(payload) && decoded(payload)
            == Some(second),
{
    law_round_trip(middle, second, end);
    let one = choose|payload: Seq<u8>| stored(start, first, payload, middle);
    let two = choose|payload: Seq<u8>| stored(middle, second, payload, end);
    assert(end.log.subrange(0, middle.log.len() as int) =~= middle.log);
    assert(middle.log.subrange(0, start.log.len() as int) =~= start.log);
    lemma_appended_record(start.log, one);
    lemma_appended_record(middle.log, two);
    lemma_record_stable(middle.log, two.push(NEWLINE), start.log.len() as int);
}

/// Each put writes at the offset that was the length of the log before it,
/// so that the offsets of successive appends grow strictly.
pub proof fn law_offsets_increase(log: Seq<u8>, first: Seq<u8>, second: Seq<u8>)
    ensures
        appended(log, first).len() == log.len() + first.len() + 1,
        log.len() < appended(log, first).len(),
        appended(log, first).len() < appended(appended(log, first), second).len(),
        appended(log, first).subrange(0, log.len() as int) == log,
{
    assert(appended(log, first).subrange(0, log.len() as int) =~= log);
}

/// The documents were put one after the other into a store that held
/// nothing, and `states` are the stores in between: `states[i]` before the
/// put of `documents[i]`, `states[i + 1]` after it.
pub open spec fn is_history(states: Seq<StoreState>, documents: Seq<DocumentView>) -> bool {
    &&& states.len() == documents.len() + 1
    &&& states[0] == empty_store()
    &&& forall|i: int|
        0 <= i < documents.len() ==> put_step(#[trigger] states[i], documents[i], states[i + 1])
}

/// The document that was written last under `id`, if any was.
pub open spec fn latest(documents: Seq<DocumentView>, id: Seq<char>) -> Option<DocumentView>
    decreases documents.len(),
{
    if documents.len() == 0 {
        None
    } else if documents.last().id == id {
        Some(documents.last())
    } else {
        latest(documents.drop_last(), id)
    }
}

/// A store that was only ever written by puts is consistent, and for each
/// identifier it is in one of two states: absent, where no document was put
/// under it, or present with the document of the latest put.
pub proof fn law_latest_write(states: Seq<StoreState>, documents: Seq<DocumentView>)
    requires
        is_history(states, documents),
    ensures
        consistent(states.last()),
        forall|id: Seq<char>| #[trigger]
            fetched(states.last(), id) == Ok::<Option<DocumentView>, StoreError>(
                latest(documents, id),
            ),
    decreases documents.len(),
{
    let end = states.last();
    if documents.len() == 0 {
        assert(end == empty_store());
        assert forall|id: Seq<char>| #[trigger]
            fetched(end, id) == Ok::<Option<DocumentView>, StoreError>(latest(documents, id)) by {}
    } else {
        let earlier = states.drop_last();
        let written = documents.drop_last();
        let document = documents.last();
        assert(is_history(earlier, written)) by {
            assert forall|i: int| 0 <= i < written.len() implies put_step(
                #[trigger] earlier[i],
                written[i],
                earlier[i + 1],
            ) by {
                assert(put_step(states[i], documents[i], states[i + 1]));
            }
        }
        law_latest_write(earlier, written);
        let before = earlier.last();
        assert(before == states[documents.len() - 1]);
        assert(put_step(states[documents.len() - 1], documents[documents.len() - 1], end));
        let payload = choose|payload: Seq<u8>| stored(before, document, payload, end);
        lemma_stored(before, document, payload, end);
        assert forall|id: Seq<char>| #[trigger]
            fetched(end, id) == Ok::<Option<DocumentView>, StoreError>(latest(documents, id)) by {
            if id != document.id {
                assert(fetched(before, id) == Ok::<Option<DocumentView>, StoreError>(
                    latest(written, id),
                ));
                assert(fetched(end, id) == fetched(before, id));
            }
        }
    }
}

/// A get of an identifier under which nothing was ever put returns absent,
/// and no error.
pub proof fn law_absence(states: Seq<StoreState>, documents: Seq<DocumentView>, id: Seq<char>)
    requires
        is_history(states, documents),
        forall|i: int| 0 <= i < documents.len() ==> (#[trigger] documents[i]).id != id,
    ensures
        fetched(states.last(), id) == Ok::<Option<DocumentView>, StoreError>(None),
{
    law_latest_write(states, documents);
    lemma_never_written(documents, id);
}

/// No document is the latest under an identifier that none of them carries.
proof fn lemma_never_written(documents: Seq<DocumentView>, id: Seq<char>)
    requires
        forall|i: int| 0 <= i < documents.len() ==> (#[trigger] documents[i]).id != id,
    ensures
        latest(documents, id) is None,
    decreases documents.len(),
{
    if documents.len() > 0 {
        assert(documents[documents.len() - 1].id != id);
        let written = documents.drop_last();
        assert forall|i: int| 0 <= i < written.len() implies (#[trigger] written[i]).id != id by {
            assert(documents[i].id != id);
        }
        lemma_never_written(written, id);
    }
}

} // verus!
