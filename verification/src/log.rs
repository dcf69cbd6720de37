//! The record log: an append-only sequence of bytes in which every record is
//! a payload followed by one newline.

use vstd::prelude::*;
use crate::error::StoreError;

verus! {

/// The byte that ends a record.
pub const NEWLINE: u8 = 10;

/// A payload followed by its delimiter: the bytes that one append adds.
pub open spec fn framed(payload: Seq<u8>) -> Seq<u8> {
    payload.push(NEWLINE)
}

/// The log after `payload` was appended to `log`.
pub open spec fn appended(log: Seq<u8>, payload: Seq<u8>) -> Seq<u8> {
    log + framed(payload)
}

/// `payload` is the record that begins at `offset`: the bytes from `offset`
/// up to, and without, the next newline.
pub open spec fn is_record_at(log: Seq<u8>, offset: int, payload: Seq<u8>) -> bool {
    &&& 0 <= offset
    &&& offset + payload.len() < log.len()
    &&& log.subrange(offset, offset + payload.len()) == payload
    &&& !payload.contains(NEWLINE)
    &&& log[offset + payload.len()] == NEWLINE
}

/// The record that begins at `offset`, if the log holds a newline at or after
/// `offset`.
pub open spec fn record_at(log: Seq<u8>, offset: int) -> Option<Seq<u8>> {
    if exists|p: Seq<u8>| is_record_at(log, offset, p) {
        Some(choose|p: Seq<u8>| is_record_at(log, offset, p))
    } else {
        None
    }
}

/// At most one payload is the record at an offset.
pub proof fn lemma_record_unique(log: Seq<u8>, offset: int, p: Seq<u8>, q: Seq<u8>)
    requires
        is_record_at(log, offset, p),
        is_record_at(log, offset, q),
    ensures
        p == q,
{
    if p.len() < q.len() {
        assert(q[p.len() as int] == log.subrange(offset, offset + q.len())[p.len() as int]);
        assert(q.contains(NEWLINE));
    }
    if q.len() < p.len() {
        assert(p[q.len() as int] == log.subrange(offset, offset + p.len())[q.len() as int]);
        assert(p.contains(NEWLINE));
    }
    assert(p =~= q);
}

/// A payload that is the record at an offset is what `record_at` gives.
pub proof fn lemma_record_at(log: Seq<u8>, offset: int, p: Seq<u8>)
    requires
        is_record_at(log, offset, p),
    ensures
        record_at(log, offset) == Some(p),
{
    let q = choose|q: Seq<u8>| is_record_at(log, offset, q);
    lemma_record_unique(log, offset, p, q);
}

/// A payload without a newline, once appended, is the record at the offset
/// that the log had as its length before.
pub proof fn lemma_appended_record(log: Seq<u8>, payload: Seq<u8>)
    requires
        !payload.contains(NEWLINE),
    ensures
        record_at(appended(log, payload), log.len() as int) == Some(payload),
{
    let after = appended(log, payload);
    assert(after.subrange(log.len() as int, (log.len() + payload.len()) as int) =~= payload);
    assert(is_record_at(after, log.len() as int, payload));
    lemma_record_at(after, log.len() as int, payload);
}

/// Offsets are stable: bytes added behind a log change no record that it
/// already holds.
pub proof fn lemma_record_stable(log: Seq<u8>, more: Seq<u8>, offset: int)
    requires
        record_at(log, offset) is Some,
    ensures
        record_at(log + more, offset) == record_at(log, offset),
{
    let p = choose|p: Seq<u8>| is_record_at(log, offset, p);
    assert((log + more).subrange(offset, offset + p.len()) =~= log.subrange(
        offset,
        offset + p.len(),
    ));
    assert(is_record_at(log + more, offset, p));
    lemma_record_at(log + more, offset, p);
}

/// The bytes of `payload` with the delimiter behind them.
pub fn frame_record(payload: &[u8]) -> (record: Vec<u8>)
    ensures
        record@ == framed(payload@),
{
    let mut record: Vec<u8> = Vec::new();
    let mut i: usize = 0;
    while i < payload.len()
        invariant
            i <= payload@.len(),
            record@ == payload@.subrange(0, i as int),
        decreases payload@.len() - i,
    {
        record.push(payload[i]);
        i = i + 1;
        assert(record@ =~= payload@.subrange(0, i as int));
    }
    record.push(NEWLINE);
    assert(payload@.subrange(0, i as int) =~= payload@);
    record
}

/// Reads the record that begins at `offset` in `bytes`: forward from
/// `offset` until the next newline, which is left out. Fails when `offset`
/// lies behind the last byte or when no newline follows it.
pub fn read_record(bytes: &[u8], offset: u64) -> (r: Result<Vec<u8>, StoreError>)
    ensures
        match record_at(bytes@, offset as int) {
            Some(payload) => r matches Ok(found) && found@ == payload,
            None => r == Err::<Vec<u8>, StoreError>(StoreError::Io),
        },
{
    let len: usize = bytes.len();
    if offset > len as u64 {
        assert forall|p: Seq<u8>| !is_record_at(bytes@, offset as int, p) by {}
        return Err(StoreError::Io);
    }
    let start: usize = offset as usize;
    let mut payload: Vec<u8> = Vec::new();
    let mut i: usize = start;
    while i < len && bytes[i] != NEWLINE
        invariant
            len == bytes@.len(),
            start <= i <= len,
            payload@ == bytes@.subrange(start as int, i as int),
            forall|j: int| start <= j < i ==> bytes@[j] != NEWLINE,
        decreases len - i,
    {
        payload.push(bytes[i]);
        i = i + 1;
        assert(payload@ =~= bytes@.subrange(start as int, i as int));
    }
    if i == len {
        assert forall|p: Seq<u8>| !is_record_at(bytes@, offset as int, p) by {
            if is_record_at(bytes@, offset as int, p) {
                assert(bytes@[offset + p.len()] == NEWLINE);
            }
        }
        Err(StoreError::Io)
    } else {
        proof {
            assert(!payload@.contains(NEWLINE)) by {
                if payload@.contains(NEWLINE) {
                    let k: int = choose|k: int| 0 <= k < payload@.len() && payload@[k] == NEWLINE;
                    assert(bytes@[start + k] == NEWLINE);
                }
            }
            assert(is_record_at(bytes@, offset as int, payload@));
            lemma_record_at(bytes@, offset as int, payload@);
        }
        Ok(payload)
    }
}

/// An append-only log of records, held as its bytes.
#[derive(Debug)]
pub struct RecordLog {
    bytes: Vec<u8>,
}

impl View for RecordLog {
    type V = Seq<u8>;

    closed spec fn view(&self) -> Seq<u8> {
        self.bytes@
    }
}

impl RecordLog {
    /// A log that holds no record.
    pub fn new() -> (log: Self)
        ensures
            log@ == Seq::<u8>::empty(),
    {
        RecordLog { bytes: Vec::new() }
    }

    /// The log whose content is `bytes`, as found in storage.
    pub fn from_bytes(bytes: Vec<u8>) -> (log: Self)
        ensures
            log@ == bytes@,
    {
        RecordLog { bytes }
    }

    /// The number of bytes in the log: the offset of the next record.
    pub fn len(&self) -> (n: u64)
        ensures
            n == self@.len(),
    {
        self.bytes.len() as u64
    }

    /// The log's content.
    pub fn as_bytes(&self) -> (bytes: &[u8])
        ensures
            bytes@ == self@,
    {
        self.bytes.as_slice()
    }

    /// Writes `payload` and a newline behind what the log holds, and returns
    /// the offset at which the write began. No earlier byte changes.
    pub fn append(&mut self, payload: &[u8]) -> (offset: u64)
        ensures
            offset == old(self)@.len(),
            final(self)@ == appended(old(self)@, payload@),
    {
        let offset: u64 = self.bytes.len() as u64;
        let mut record = frame_record(payload);
        self.bytes.append(&mut record);
        offset
    }

    /// Reads the record that begins at `offset`, up to and without the next
    /// newline. Fails when `offset` lies behind the end of the log or when no
    /// newline follows it.
    pub fn read_at(&self, offset: u64) -> (r: Result<Vec<u8>, StoreError>)
        ensures
            match record_at(self@, offset as int) {
                Some(payload) => r matches Ok(found) && found@ == payload,
                None => r == Err::<Vec<u8>, StoreError>(StoreError::Io),
            },
    {
        read_record(self.bytes.as_slice(), offset)
    }
}

} // verus!
