//! The storage engine: a record log and an offset index, composed into
//! get and put on whole documents.

use vstd::prelude::*;
use crate::codec::{decode_document, decoded, encode_document, encoding, is_payload_of};
use crate::document::{Document, DocumentView};
use crate::error::StoreError;
use crate::index::OffsetIndex;
use crate::log::{
    appended, lemma_appended_record, lemma_record_stable, read_record, record_at, RecordLog,
    NEWLINE,
};

verus! {

/// The store as a mathematical value: the bytes of the log, and the offset
/// that the index keeps for each identifier.
pub struct StoreState {
    pub log: Seq<u8>,
    pub index: Map<Seq<char>, u64>,
}

/// The store that holds nothing.
pub open spec fn empty_store() -> StoreState {
    StoreState { log: Seq::empty(), index: Map::empty() }
}

/// What reading a document at `offset` in `log` yields: the document that
/// the record beginning there spells, or corruption.
pub open spec fn document_read(log: Seq<u8>, offset: int) -> Result<DocumentView, StoreError> {
    match record_at(log, offset) {
        None => Err(StoreError::Corruption),
        Some(payload) => match decoded(payload) {
            None => Err(StoreError::Corruption),
            Some(document) => Ok(document),
        },
    }
}

/// What a get of `id` yields in `store`: absent where the index has no entry
/// for `id`; else the document that the record at the entry's offset spells;
/// corruption where no complete record begins there or where the record
/// spells no document.
pub open spec fn fetched(store: StoreState, id: Seq<char>) -> Result<
    Option<DocumentView>,
    StoreError,
> {
    if !store.index.contains_key(id) {
        Ok(None)
    } else {
        match document_read(store.log, store.index[id] as int) {
            Ok(document) => Ok(Some(document)),
            Err(error) => Err(error),
        }
    }
}

/// `after` is `before` with `document` put as the record `payload`: the
/// payload stands behind everything that the log held, and the index points
/// the document's identifier at the offset where it begins.
pub open spec fn stored(
    before: StoreState,
    document: DocumentView,
    payload: Seq<u8>,
    after: StoreState,
) -> bool {
    &&& is_payload_of(payload, document)
    &&& before.log.len() <= u64::MAX
    &&& after.log == appended(before.log, payload)
    &&& after.index == before.index.insert(document.id, before.log.len() as u64)
}

/// `after` is `before` with `document` put.
pub open spec fn put_step(before: StoreState, document: DocumentView, after: StoreState) -> bool {
    exists|payload: Seq<u8>| stored(before, document, payload, after)
}

/// Every entry of the index points at a complete record of the log, and that
/// record spells a document whose identifier is the entry's.
pub open spec fn consistent(store: StoreState) -> bool {
    forall|id: Seq<char>| #[trigger]
        store.index.contains_key(id) ==> ({
            &&& fetched(store, id) matches Ok(Some(document))
            &&& document.id == id
        })
}

/// The outcome of a get, with the document as a mathematical value.
pub open spec fn outcome_view(r: Result<Option<Document>, StoreError>) -> Result<
    Option<DocumentView>,
    StoreError,
> {
    match r {
        Ok(Some(document)) => Ok(Some(document@)),
        Ok(None) => Ok(None),
        Err(error) => Err(error),
    }
}

/// A put changes the answer for the identifier that was put, and keeps
/// every entry that pointed at a complete record.
pub proof fn lemma_stored(
    before: StoreState,
    document: DocumentView,
    payload: Seq<u8>,
    after: StoreState,
)
    requires
        stored(before, document, payload, after),
    ensures
        fetched(after, document.id) == Ok::<Option<DocumentView>, StoreError>(Some(document)),
        forall|id: Seq<char>|
            id != document.id && (before.index.contains_key(id) ==> record_at(
                before.log,
                before.index[id] as int,
            ) is Some) ==> #[trigger] fetched(after, id) == fetched(before, id),
        consistent(before) ==> consistent(after),
{
    lemma_appended_record(before.log, payload);
    assert forall|id: Seq<char>|
        id != document.id && (before.index.contains_key(id) ==> record_at(
            before.log,
            before.index[id] as int,
        ) is Some) implies #[trigger] fetched(after, id) == fetched(before, id) by {
        if before.index.contains_key(id) {
            lemma_record_stable(before.log, payload.push(NEWLINE), before.index[id] as int);
        }
    }
    if consistent(before) {
        assert forall|id: Seq<char>| #[trigger] after.index.contains_key(id) implies ({
            &&& fetched(after, id) matches Ok(Some(found))
            &&& found.id == id
        }) by {
            if id != document.id {
                assert(before.index.contains_key(id));
                assert(fetched(after, id) == fetched(before, id));
            }
        }
    }
}

/// The payload under which `document` goes into the log. A document without
/// identifier is refused with `MalformedInput`; where serializing fails the
/// error is `Io`.
pub fn record_payload(document: &Document) -> (r: Result<Vec<u8>, StoreError>)
    ensures
        !document.has_id() ==> r matches Err(StoreError::MalformedInput),
        document.has_id() ==> match encoding(document@) {
            Some(text) => r matches Ok(payload) && payload@ == text,
            None => r matches Err(StoreError::Io),
        },
        r matches Ok(payload) ==> is_payload_of(payload@, document@),
{
    if document.id().is_empty() {
        return Err(StoreError::MalformedInput);
    }
    encode_document(document)
}

/// Reads the document whose record begins at `offset` in `log`. Fails with
/// `Corruption` where no complete record begins there, or where the record
/// spells no document.
pub fn document_at(log: &[u8], offset: u64) -> (r: Result<Document, StoreError>)
    ensures
        match document_read(log@, offset as int) {
            Ok(spelled) => r matches Ok(document) && document@ == spelled,
            Err(_) => r matches Err(StoreError::Corruption),
        },
{
    match read_record(log, offset) {
        Err(_) => Err(StoreError::Corruption),
        Ok(payload) => match decode_document(payload.as_slice()) {
            None => Err(StoreError::Corruption),
            Some(document) => Ok(document),
        },
    }
}

/// The storage engine. It owns the log and the index; callers see whole
/// documents.
#[derive(Debug)]
pub struct Database {
    log: RecordLog,
    index: OffsetIndex,
}

impl View for Database {
    type V = StoreState;

    closed spec fn view(&self) -> StoreState {
        StoreState { log: self.log@, index: self.index@ }
    }
}

impl Database {
    /// An engine over an empty log and an empty index.
    pub fn new() -> (database: Self)
        ensures
            database@ == empty_store(),
    {
        Database { log: RecordLog::new(), index: OffsetIndex::new() }
    }

    /// An engine over a log and an index as they were found. Nothing is
    /// checked here: a get reports what does not fit together.
    pub fn from_parts(log: RecordLog, index: OffsetIndex) -> (database: Self)
        ensures
            database@ == (StoreState { log: log@, index: index@ }),
    {
        Database { log, index }
    }

    /// The log.
    pub fn log(&self) -> (log: &RecordLog)
        ensures
            log@ == self@.log,
    {
        &self.log
    }

    /// The index.
    pub fn index(&self) -> (index: &OffsetIndex)
        ensures
            index@ == self@.index,
    {
        &self.index
    }

    /// Looks `id` up in the index and reads the document at the offset found
    /// there. `Ok(None)` where `id` has no entry. Fails with `Corruption`
    /// where the entry points at no complete record or at a record that
    /// spells no document. Where the store is consistent a get never fails.
    pub fn get_document(&self, id: &str) -> (r: Result<Option<Document>, StoreError>)
        ensures
            outcome_view(r) == fetched(self@, id@),
            consistent(self@) ==> r is Ok,
    {
        match self.index.lookup(id) {
            None => Ok(None),
            Some(offset) => match document_at(self.log.as_bytes(), offset) {
                Ok(document) => Ok(Some(document)),
                Err(error) => Err(error),
            },
        }
    }

    /// Stores `document` and hands it back unchanged. The document is
    /// serialized, appended to the log as one record, and the index is pointed
    /// at that record under the document's identifier, whether or not the
    /// identifier was there before. A document without identifier is refused
    /// with `MalformedInput`; where serializing fails the error is `Io`; in
    /// both cases neither the log nor the index changes.
    pub fn put_document(&mut self, document: Document) -> (r: Result<Document, StoreError>)
        ensures
            !document.has_id() ==> (r matches Err(StoreError::MalformedInput)) && final(self)@
                == old(self)@,
            document.has_id() ==> match encoding(document@) {
                Some(payload) => r == Ok::<Document, StoreError>(document) && stored(
                    old(self)@,
                    document@,
                    payload,
                    final(self)@,
                ),
                None => (r matches Err(StoreError::Io)) && final(self)@ == old(self)@,
            },
            r is Ok ==> put_step(old(self)@, document@, final(self)@),
            r is Ok ==> fetched(final(self)@, document@.id) == Ok::<
                Option<DocumentView>,
                StoreError,
            >(Some(document@)),
            consistent(old(self)@) ==> consistent(final(self)@),
    {
        let payload: Vec<u8> = match record_payload(&document) {
            Ok(payload) => payload,
            Err(error) => {
                return Err(error);
            },
        };
        let ghost before = self@;
        let offset: u64 = self.log.append(payload.as_slice());
        self.index.upsert(document.id(), offset);
        proof {
            assert(stored(before, document@, payload@, self@));
            lemma_stored(before, document@, payload@, self@);
        }
        Ok(document)
    }
}

} // verus!
