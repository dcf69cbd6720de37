use docstore::document::Document;
use docstore::engine::{document_at, record_payload, Database};
use docstore::error::StoreError;
use docstore::index::OffsetIndex;
use docstore::log::{frame_record, RecordLog};

fn document(id: &str, rev: Option<&str>, fields: &[(&str, &str)]) -> Document {
    let mut document = Document::new(id, rev);
    for (name, value) in fields {
        document.set_field(name, value).unwrap();
    }
    document
}

#[test]
fn scenario_put_get_overwrite_absent_and_malformed() {
    let mut database = Database::new();

    let first = document("a", None, &[("x", "1")]);
    let echoed = database.put_document(first.clone()).unwrap();
    assert!(echoed.equals(&first));
    let found = database.get_document("a").unwrap().unwrap();
    assert!(found.equals(&first));
    assert_eq!(found.id(), "a");
    assert_eq!(found.rev(), None);
    assert_eq!(found.field("x"), Some("1"));

    let second = document("a", None, &[("x", "2")]);
    database.put_document(second.clone()).unwrap();
    let found = database.get_document("a").unwrap().unwrap();
    assert_eq!(found.field("x"), Some("2"));
    assert!(found.equals(&second));
    assert!(!found.equals(&first));

    assert!(database.get_document("b").unwrap().is_none());

    let log_before = database.log().as_bytes().to_vec();
    let offset_before = database.index().lookup("a");
    let refused = database.put_document(document("", None, &[("x", "3")]));
    assert_eq!(refused.err(), Some(StoreError::MalformedInput));
    assert_eq!(database.log().as_bytes(), &log_before[..]);
    assert_eq!(database.index().lookup("a"), offset_before);
    assert_eq!(database.index().lookup(""), None);
}

#[test]
fn round_trip_keeps_identifier_revision_and_fields() {
    let mut database = Database::new();
    let original = document(
        "doc-1",
        Some("7-abc"),
        &[("title", "Hello"), ("body", "two\nlines"), ("quote", "say \"hi\" \\ bye"), ("uni", "gr\u{fc}\u{df}e \u{1f600}")],
    );
    database.put_document(original.clone()).unwrap();
    let found = database.get_document("doc-1").unwrap().unwrap();
    assert!(found.equals(&original));
    assert_eq!(found.rev(), Some("7-abc"));
    assert_eq!(found.field("body"), Some("two\nlines"));
    assert_eq!(found.field("quote"), Some("say \"hi\" \\ bye"));
    assert_eq!(found.field("uni"), Some("gr\u{fc}\u{df}e \u{1f600}"));
    assert_eq!(found.field("missing"), None);
}

#[test]
fn put_writes_one_line_of_json_and_points_the_index_at_it() {
    let mut database = Database::new();
    database.put_document(document("a", None, &[("x", "1")])).unwrap();
    assert_eq!(database.log().as_bytes(), b"{\"id\":\"a\",\"rev\":null,\"x\":\"1\"}\n");
    assert_eq!(database.index().lookup("a"), Some(0));
    database.put_document(document("b", Some("r1"), &[])).unwrap();
    assert_eq!(
        database.log().as_bytes(),
        &b"{\"id\":\"a\",\"rev\":null,\"x\":\"1\"}\n{\"id\":\"b\",\"rev\":\"r1\"}\n"[..]
    );
    assert_eq!(database.index().lookup("b"), Some(30));
    assert_eq!(database.index().lookup("a"), Some(0));
}

#[test]
fn overwrite_keeps_both_records_and_grows_the_log() {
    let mut database = Database::new();
    let empty = database.log().len();
    database.put_document(document("k", None, &[("v", "one")])).unwrap();
    let after_first = database.log().len();
    let first_offset = database.index().lookup("k").unwrap();
    database.put_document(document("k", None, &[("v", "two")])).unwrap();
    let after_second = database.log().len();
    let second_offset = database.index().lookup("k").unwrap();

    assert!(empty < after_first);
    assert!(after_first < after_second);
    assert_eq!(first_offset, 0);
    assert_eq!(second_offset, after_first);

    let old = document_at(database.log().as_bytes(), first_offset).unwrap();
    assert_eq!(old.field("v"), Some("one"));
    let new = database.get_document("k").unwrap().unwrap();
    assert_eq!(new.field("v"), Some("two"));
}

#[test]
fn put_leaves_other_identifiers_alone() {
    let mut database = Database::new();
    database.put_document(document("a", None, &[("n", "1")])).unwrap();
    database.put_document(document("b", None, &[("n", "2")])).unwrap();
    database.put_document(document("a", None, &[("n", "3")])).unwrap();
    assert_eq!(database.get_document("b").unwrap().unwrap().field("n"), Some("2"));
    assert_eq!(database.get_document("a").unwrap().unwrap().field("n"), Some("3"));
}

#[test]
fn never_written_identifier_is_absent() {
    let database = Database::new();
    assert!(database.get_document("anything").unwrap().is_none());
    assert!(database.get_document("").unwrap().is_none());

    let mut database = Database::new();
    database.put_document(document("present", None, &[])).unwrap();
    assert!(database.get_document("absent").unwrap().is_none());
    assert!(database.get_document("presen").unwrap().is_none());
    assert!(database.get_document("present ").unwrap().is_none());
}

#[test]
fn many_reads_through_one_shared_engine_agree() {
    let mut database = Database::new();
    let names = ["a", "b", "c", "d", "e"];
    for name in names {
        database.put_document(document(name, None, &[("self", name)])).unwrap();
    }
    let shared = &database;
    let readers: Vec<&Database> = vec![shared, shared, shared];
    for round in 0..3 {
        for (i, name) in names.iter().enumerate() {
            let reader = readers[(i + round) % readers.len()];
            let found = reader.get_document(name).unwrap().unwrap();
            assert_eq!(found.id(), *name);
            assert_eq!(found.field("self"), Some(*name));
        }
    }
}

#[test]
fn index_entry_behind_the_log_is_corruption() {
    let mut index = OffsetIndex::new();
    index.upsert("a", 1000);
    let database = Database::from_parts(RecordLog::new(), index);
    assert_eq!(database.get_document("a").err(), Some(StoreError::Corruption));
    assert!(database.get_document("b").unwrap().is_none());
}

#[test]
fn truncated_tail_is_corruption() {
    let mut index = OffsetIndex::new();
    index.upsert("a", 0);
    let log = RecordLog::from_bytes(b"{\"id\":\"a\",\"rev\":null}".to_vec());
    let database = Database::from_parts(log, index);
    assert_eq!(database.get_document("a").err(), Some(StoreError::Corruption));
}

#[test]
fn record_that_is_no_document_is_corruption() {
    let mut index = OffsetIndex::new();
    index.upsert("a", 0);
    index.upsert("b", 9);
    index.upsert("c", 11);
    let log = RecordLog::from_bytes(b"not json\n\n{\"rev\":\"1\"}\n".to_vec());
    let database = Database::from_parts(log, index);
    assert_eq!(database.get_document("a").err(), Some(StoreError::Corruption));
    assert_eq!(database.get_document("b").err(), Some(StoreError::Corruption));
    assert_eq!(database.get_document("c").err(), Some(StoreError::Corruption));
}

#[test]
fn engine_over_found_parts_reads_and_goes_on_writing() {
    let mut index = OffsetIndex::new();
    index.upsert("old", 0);
    let log = RecordLog::from_bytes(b"{\"id\":\"old\",\"rev\":\"1\",\"k\":\"v\"}\n".to_vec());
    let mut database = Database::from_parts(log, index);
    let found = database.get_document("old").unwrap().unwrap();
    assert_eq!(found.rev(), Some("1"));
    assert_eq!(found.field("k"), Some("v"));
    database.put_document(document("new", None, &[])).unwrap();
    assert_eq!(database.index().lookup("new"), Some(31));
    assert!(database.get_document("old").unwrap().is_some());
    assert!(database.get_document("new").unwrap().is_some());
}

#[test]
fn record_payload_checks_the_identifier_and_serializes() {
    assert_eq!(record_payload(&document("", Some("r"), &[])).err(), Some(StoreError::MalformedInput));
    let payload = record_payload(&document("z", Some("r"), &[("a", "b")])).unwrap();
    assert_eq!(payload, b"{\"a\":\"b\",\"id\":\"z\",\"rev\":\"r\"}".to_vec());
    assert_eq!(frame_record(&payload), b"{\"a\":\"b\",\"id\":\"z\",\"rev\":\"r\"}\n".to_vec());
}

#[test]
fn document_at_reads_one_line_as_a_file_reader_hands_it_over() {
    let line = b"{\"id\":\"a\",\"x\":\"1\"}\n";
    let found = document_at(line, 0).unwrap();
    assert_eq!(found.id(), "a");
    assert_eq!(found.rev(), None);
    assert_eq!(found.field("x"), Some("1"));
    assert_eq!(document_at(b"{\"id\":\"a\"}", 0).err(), Some(StoreError::Corruption));
    assert_eq!(document_at(b"", 0).err(), Some(StoreError::Corruption));
    assert_eq!(document_at(line, 100).err(), Some(StoreError::Corruption));
    assert_eq!(document_at(b"[1,2]\n", 0).err(), Some(StoreError::Corruption));
}
