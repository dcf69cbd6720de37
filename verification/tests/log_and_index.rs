use docstore::error::StoreError;
use docstore::index::OffsetIndex;
use docstore::log::{frame_record, read_record, RecordLog, NEWLINE};

#[test]
fn append_returns_the_length_before_the_write() {
    let mut log = RecordLog::new();
    assert_eq!(log.len(), 0);
    assert_eq!(log.append(b"abc"), 0);
    assert_eq!(log.len(), 4);
    assert_eq!(log.append(b""), 4);
    assert_eq!(log.len(), 5);
    assert_eq!(log.append(b"hello world"), 5);
    assert_eq!(log.len(), 17);
    assert_eq!(log.as_bytes(), b"abc\n\nhello world\n");
}

#[test]
fn offsets_of_successive_appends_grow_strictly() {
    let mut log = RecordLog::new();
    let mut last: Option<u64> = None;
    for payload in [&b"one"[..], &b""[..], &b"three"[..], &b"4"[..]] {
        let before = log.len();
        let offset = log.append(payload);
        assert_eq!(offset, before);
        if let Some(previous) = last {
            assert!(offset > previous);
        }
        last = Some(offset);
    }
}

#[test]
fn read_at_returns_the_bytes_up_to_the_newline() {
    let mut log = RecordLog::new();
    let first = log.append(b"first");
    let second = log.append(b"second");
    let third = log.append(b"");
    assert_eq!(log.read_at(first), Ok(b"first".to_vec()));
    assert_eq!(log.read_at(second), Ok(b"second".to_vec()));
    assert_eq!(log.read_at(third), Ok(Vec::new()));
    assert_eq!(log.read_at(2), Ok(b"rst".to_vec()));
    assert_eq!(log.read_at(5), Ok(Vec::new()));
}

#[test]
fn read_at_fails_behind_the_end_and_without_delimiter() {
    let mut log = RecordLog::new();
    assert_eq!(log.read_at(0), Err(StoreError::Io));
    assert_eq!(log.read_at(1), Err(StoreError::Io));
    log.append(b"abc");
    assert_eq!(log.read_at(4), Err(StoreError::Io));
    assert_eq!(log.read_at(5), Err(StoreError::Io));
    assert_eq!(log.read_at(u64::MAX), Err(StoreError::Io));

    let torn = RecordLog::from_bytes(b"whole\nhalf".to_vec());
    assert_eq!(torn.read_at(0), Ok(b"whole".to_vec()));
    assert_eq!(torn.read_at(6), Err(StoreError::Io));
    assert_eq!(torn.len(), 10);
}

#[test]
fn earlier_records_stay_where_they_are() {
    let mut log = RecordLog::new();
    let first = log.append(b"keep me");
    let snapshot = log.as_bytes().to_vec();
    for i in 0..20u8 {
        log.append(&[b'a' + i]);
        assert_eq!(log.read_at(first), Ok(b"keep me".to_vec()));
        assert_eq!(&log.as_bytes()[..snapshot.len()], &snapshot[..]);
    }
}

#[test]
fn a_payload_with_a_newline_reads_back_as_its_first_line() {
    let mut log = RecordLog::new();
    let offset = log.append(b"two\nlines");
    assert_eq!(log.as_bytes(), b"two\nlines\n");
    assert_eq!(log.read_at(offset), Ok(b"two".to_vec()));
}

#[test]
fn frame_record_adds_one_newline() {
    assert_eq!(NEWLINE, b'\n');
    assert_eq!(frame_record(b""), vec![b'\n']);
    assert_eq!(frame_record(b"xy"), vec![b'x', b'y', b'\n']);
}

#[test]
fn read_record_works_on_any_bytes() {
    assert_eq!(read_record(b"a\nbc\n", 2), Ok(b"bc".to_vec()));
    assert_eq!(read_record(b"a\nbc\n", 1), Ok(Vec::new()));
    assert_eq!(read_record(b"a\nbc", 2), Err(StoreError::Io));
    assert_eq!(read_record(b"a\nbc\n", 5), Err(StoreError::Io));
    assert_eq!(read_record(b"a\nbc\n", 6), Err(StoreError::Io));
}

#[test]
fn lookup_finds_what_upsert_entered() {
    let mut index = OffsetIndex::new();
    assert_eq!(index.lookup("a"), None);
    index.upsert("a", 10);
    index.upsert("b", 20);
    assert_eq!(index.lookup("a"), Some(10));
    assert_eq!(index.lookup("b"), Some(20));
    assert_eq!(index.lookup("c"), None);
    assert_eq!(index.lookup(""), None);
}

#[test]
fn upsert_replaces_the_entry_of_an_identifier() {
    let mut index = OffsetIndex::new();
    index.upsert("a", 1);
    index.upsert("b", 2);
    index.upsert("a", 3);
    assert_eq!(index.lookup("a"), Some(3));
    assert_eq!(index.lookup("b"), Some(2));
    index.upsert("a", 0);
    assert_eq!(index.lookup("a"), Some(0));
    index.upsert("", u64::MAX);
    assert_eq!(index.lookup(""), Some(u64::MAX));
    assert_eq!(index.lookup("b"), Some(2));
}
