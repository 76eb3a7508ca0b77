use csv_ingest::state::{copy_text, FileState, InsertOutcome, Ledger, Record};

fn record(sn: &str, datetime: &str, result: &str, path: &str, row: i64) -> Record {
    Record {
        sn: sn.to_string(),
        datetime: datetime.to_string(),
        result: result.to_string(),
        source_path: path.to_string(),
        row_index: row,
        line_hash: format!("hash-{sn}-{row}"),
    }
}

fn state(path: &str, mtime: i64, last: Option<&str>) -> FileState {
    FileState {
        path: path.to_string(),
        mtime,
        size: 10,
        hash: "h".to_string(),
        lines_read: 2,
        bytes_read: 10,
        last_line: last.map(|s| s.to_string()),
        last_line_hash: None,
        last_line_index: Some(2),
        updated_at: 100,
    }
}

#[test]
fn a_new_ledger_is_empty() {
    let ledger = Ledger::new();
    assert_eq!(ledger.record_count(), 0);
    assert!(ledger.load_file_state("a.csv").is_none());
}

#[test]
fn new_records_are_stored_in_order() {
    let mut ledger = Ledger::new();
    assert_eq!(ledger.insert_record(&record("1", "t1", "PASS", "a.csv", 1)), InsertOutcome::Inserted);
    assert_eq!(ledger.insert_record(&record("2", "t2", "FAIL", "a.csv", 2)), InsertOutcome::Inserted);
    assert_eq!(ledger.record_count(), 2);
    assert_eq!(ledger.record(0).sn, "1");
    assert_eq!(ledger.record(1).sn, "2");
    assert_eq!(ledger.record(1).row_index, 2);
    assert_eq!(ledger.record(1).line_hash, "hash-2-2");
}

#[test]
fn a_used_slot_is_not_filled_again() {
    let mut ledger = Ledger::new();
    ledger.insert_record(&record("1", "t1", "PASS", "a.csv", 1));
    let out = ledger.insert_record(&record("other", "t9", "FAIL", "a.csv", 1));
    assert_eq!(out, InsertOutcome::DuplicateIgnored);
    assert_eq!(ledger.record_count(), 1);
    assert_eq!(ledger.record(0).sn, "1");
    assert_eq!(ledger.record(0).result, "PASS");
}

#[test]
fn a_known_event_is_not_stored_again() {
    let mut ledger = Ledger::new();
    ledger.insert_record(&record("1", "t1", "PASS", "a.csv", 1));
    let out = ledger.insert_record(&record("1", "t1", "PASS", "a.csv", 7));
    assert_eq!(out, InsertOutcome::DuplicateIgnored);
    assert_eq!(ledger.record_count(), 1);
    assert_eq!(ledger.record(0).row_index, 1);
}

#[test]
fn the_same_record_twice_is_stored_once() {
    let mut ledger = Ledger::new();
    let r = record("1", "t1", "PASS", "a.csv", 1);
    assert_eq!(ledger.insert_record(&r), InsertOutcome::Inserted);
    assert_eq!(ledger.insert_record(&r), InsertOutcome::DuplicateIgnored);
    assert_eq!(ledger.insert_record(&r.clone()), InsertOutcome::DuplicateIgnored);
    assert_eq!(ledger.record_count(), 1);
}

#[test]
fn slots_and_events_are_kept_by_file() {
    let mut ledger = Ledger::new();
    ledger.insert_record(&record("1", "t1", "PASS", "a.csv", 1));
    assert_eq!(ledger.insert_record(&record("1", "t1", "PASS", "b.csv", 1)), InsertOutcome::Inserted);
    assert_eq!(ledger.insert_record(&record("1", "t1", "FAIL", "a.csv", 2)), InsertOutcome::Inserted);
    assert_eq!(ledger.insert_record(&record("1", "t2", "PASS", "a.csv", 3)), InsertOutcome::Inserted);
    assert_eq!(ledger.insert_record(&record("2", "t1", "PASS", "a.csv", 4)), InsertOutcome::Inserted);
    assert_eq!(ledger.record_count(), 5);
}

#[test]
fn the_line_hash_is_no_key() {
    let mut ledger = Ledger::new();
    let a = record("1", "t1", "PASS", "a.csv", 1);
    let mut b = record("2", "t2", "PASS", "a.csv", 2);
    b.line_hash = a.line_hash.clone();
    ledger.insert_record(&a);
    assert_eq!(ledger.insert_record(&b), InsertOutcome::Inserted);
}

#[test]
fn a_watermark_is_kept_by_path() {
    let mut ledger = Ledger::new();
    ledger.upsert_file_state(&state("a.csv", 1, Some("x")));
    ledger.upsert_file_state(&state("b.csv", 2, None));
    let a = ledger.load_file_state("a.csv").unwrap();
    assert_eq!(a.path, "a.csv");
    assert_eq!(a.mtime, 1);
    assert_eq!(a.last_line.as_deref(), Some("x"));
    assert_eq!(a.last_line_index, Some(2));
    assert_eq!(a.updated_at, 100);
    let b = ledger.load_file_state("b.csv").unwrap();
    assert_eq!(b.mtime, 2);
    assert_eq!(b.last_line, None);
    assert!(ledger.load_file_state("c.csv").is_none());
    assert!(ledger.load_file_state("a.cs").is_none());
}

#[test]
fn a_watermark_is_overwritten_whole() {
    let mut ledger = Ledger::new();
    ledger.upsert_file_state(&state("a.csv", 1, Some("x")));
    ledger.upsert_file_state(&state("b.csv", 2, Some("y")));
    ledger.upsert_file_state(&state("a.csv", 3, None));
    let a = ledger.load_file_state("a.csv").unwrap();
    assert_eq!(a.mtime, 3);
    assert_eq!(a.last_line, None);
    let b = ledger.load_file_state("b.csv").unwrap();
    assert_eq!(b.mtime, 2);
    assert_eq!(b.last_line.as_deref(), Some("y"));
    ledger.upsert_file_state(&state("a.csv", 3, None));
    assert_eq!(ledger.load_file_state("a.csv").unwrap().mtime, 3);
}

#[test]
fn watermarks_and_records_do_not_touch_each_other() {
    let mut ledger = Ledger::new();
    ledger.insert_record(&record("1", "t1", "PASS", "a.csv", 1));
    ledger.upsert_file_state(&state("a.csv", 1, None));
    assert_eq!(ledger.record_count(), 1);
    ledger.insert_record(&record("2", "t1", "PASS", "a.csv", 2));
    assert_eq!(ledger.load_file_state("a.csv").unwrap().mtime, 1);
}

#[test]
fn copies_are_equal() {
    let s = state("a.csv", 1, Some("x"));
    let c = s.clone();
    assert_eq!(c.path, s.path);
    assert_eq!(c.last_line, s.last_line);
    assert_eq!(c.hash, s.hash);
    assert_eq!(copy_text(&Some("x".to_string())), Some("x".to_string()));
    assert_eq!(copy_text(&None), None);
}
