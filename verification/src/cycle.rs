//! One reconciliation cycle for one path: compare fingerprints, read what is
//! new from the resume point, hand the records to the store, and only then
//! move the watermark.

use vstd::prelude::*;
use crate::digest::{text_hash, text_hex};
use crate::encoding::MAX_INPUT_LEN;
use crate::meta::FileMeta;
use crate::reader::{
    emitted, file_columns, file_rows, read_error, read_incremental, records_view, resume_info,
    CsvRecord, CsvRecordView, ReadError, ReadResult, ReadResultView,
};
use crate::state::{
    copy_text, store_all, store_one, FileState, FileStateView, InsertOutcome, Ledger, Record,
    RecordView,
};
use crate::text::same_text;

verus! {

/// How many rows before the last one of the previous pass the next pass
/// looks at again.
pub const RESUME_MARGIN: i64 = 10;

/// Where a pass starts looking and which row it takes as already seen.
pub struct ResumePoint {
    pub start_index: i64,
    pub anchor_raw: Option<String>,
    pub anchor_hash: Option<String>,
}

/// What a pass over a changed file gives.
pub struct Ingest {
    /// The records to hand to the store, in file order.
    pub records: Vec<Record>,
    /// Where the pass ended: what the watermark is to remember once every
    /// record has been handed over.
    pub pass: ReadResult,
}

/// How a cycle ended for one path.
#[derive(Debug, Clone, Copy, PartialEq, Eq, Structural)]
pub enum CycleOutcome {
    /// The fingerprint is the stored one; nothing was read or written.
    Unchanged,
    /// The file could not be read; nothing was written.
    Failed(ReadError),
    /// The file was read: `parsed` rows were new to the pass, `inserted` of
    /// them new to the store.
    Ingested { parsed: usize, inserted: usize },
}

/// Whether the watermark `prior` carries the fingerprint `meta`.
pub open spec fn unchanged(meta: FileMeta, prior: Option<FileStateView>) -> bool {
    match prior {
        Some(s) => s.mtime == meta.mtime && s.size == meta.size && s.hash == meta.hash@,
        None => false,
    }
}

/// Ordinal of the first row that a pass looks at, after a pass that ended at
/// the row `last`: ten rows back, and never before the first row.
pub open spec fn start_index_for(last: Option<int>) -> int {
    match last {
        Some(i) => if i > RESUME_MARGIN {
            i - RESUME_MARGIN
        } else {
            1
        },
        None => 1,
    }
}

/// The record that the store is handed for a new row of the file at
/// `source_path`.
pub open spec fn record_for(row: CsvRecordView, source_path: Seq<char>) -> RecordView {
    RecordView {
        sn: row.sn,
        datetime: row.datetime,
        result: row.result,
        source_path,
        row_index: row.row_index,
        line_hash: text_hex(row.raw),
    }
}

/// The records that the store is handed for new rows, one for one.
pub open spec fn records_for(rows: Seq<CsvRecordView>, source_path: Seq<char>) -> Seq<RecordView> {
    Seq::new(rows.len(), |i: int| record_for(rows[i], source_path))
}

/// The watermark after a pass: the fingerprint that was read, and where the
/// pass ended.
pub open spec fn watermark_for(
    path: Seq<char>,
    meta: FileMeta,
    pass: ReadResultView,
    now: int,
) -> FileStateView {
    FileStateView {
        path,
        mtime: meta.mtime as int,
        size: meta.size as int,
        hash: meta.hash@,
        lines_read: pass.lines_read,
        bytes_read: pass.bytes_read,
        last_line: pass.last_line,
        last_line_hash: pass.last_line_hash,
        last_line_index: pass.last_line_index,
        updated_at: now,
    }
}

/// The views of a sequence of records, one for one.
pub open spec fn stored_view(records: Seq<Record>) -> Seq<RecordView> {
    Seq::new(records.len(), |i: int| records[i]@)
}

/// The watermark of an optional file state.
pub open spec fn prior_view(prior: Option<FileState>) -> Option<FileStateView> {
    match prior {
        Some(s) => Some(s@),
        None => None,
    }
}

/// Ordinal of the first row that the pass after `prior` looks at.
pub open spec fn prior_start(prior: Option<FileStateView>) -> int {
    match prior {
        Some(s) => start_index_for(s.last_line_index),
        None => 1,
    }
}

/// The anchor text that `prior` remembers.
pub open spec fn prior_anchor_raw(prior: Option<FileStateView>) -> Option<Seq<char>> {
    match prior {
        Some(s) => s.last_line,
        None => None,
    }
}

/// The anchor hash that `prior` remembers.
pub open spec fn prior_anchor_hash(prior: Option<FileStateView>) -> Option<Seq<char>> {
    match prior {
        Some(s) => s.last_line_hash,
        None => None,
    }
}

/// The new rows of a file with content `bytes`, read from where `prior`
/// says.
pub open spec fn new_rows(bytes: Seq<u8>, prior: Option<FileStateView>) -> Seq<CsvRecordView> {
    emitted(
        file_rows(bytes),
        file_columns(bytes),
        prior_start(prior),
        prior_anchor_raw(prior),
        prior_anchor_hash(prior),
    )
}

/// What the pass over a file with content `bytes`, read from where `prior`
/// says, leaves for the next one.
pub open spec fn pass_info(bytes: Seq<u8>, prior: Option<FileStateView>) -> ReadResultView {
    resume_info(
        file_rows(bytes),
        prior_start(prior),
        prior_anchor_raw(prior),
        prior_anchor_hash(prior),
        bytes.len() as int,
    )
}

/// Whether the file is as it was at the last ingest: modification time, size
/// and content hash are those of the watermark.
pub fn is_unchanged(meta: &FileMeta, prior: &Option<FileState>) -> (b: bool)
    ensures
        b == unchanged(*meta, prior_view(*prior)),
{
    match prior {
        Some(s) => s.mtime == meta.mtime && s.size == meta.size && same_text(
            s.hash.as_str(),
            meta.hash.as_str(),
        ),
        None => false,
    }
}

/// Where the next pass starts: without a watermark at the first row and with
/// no anchor; with one, ten rows before the last row of the previous pass,
/// anchored at the row that the watermark remembers.
pub fn resume_point(prior: &Option<FileState>) -> (rp: ResumePoint)
    ensures
        rp.start_index == prior_start(prior_view(*prior)),
        rp.anchor_raw.deep_view() == prior_anchor_raw(prior_view(*prior)),
        rp.anchor_hash.deep_view() == prior_anchor_hash(prior_view(*prior)),
{
    match prior {
        None => ResumePoint { start_index: 1, anchor_raw: None, anchor_hash: None },
        Some(s) => {
            let last: i64 = match s.last_line_index {
                Some(i) => i,
                None => 1,
            };
            let start_index: i64 = if last > RESUME_MARGIN {
                last - RESUME_MARGIN
            } else {
                1
            };
            ResumePoint {
                start_index,
                anchor_raw: copy_text(&s.last_line),
                anchor_hash: copy_text(&s.last_line_hash),
            }
        },
    }
}

/// The record to store for a new row of the file at `source_path`. Its hash
/// is that of the row's canonical text.
pub fn to_record(row: &CsvRecord, source_path: &str) -> (r: Record)
    ensures
        r@ == record_for(row@, source_path@),
{
    Record {
        sn: row.sn.clone(),
        datetime: row.datetime.clone(),
        result: row.result.clone(),
        source_path: source_path.to_owned(),
        row_index: row.row_index,
        line_hash: text_hash(row.raw.as_str()),
    }
}

/// The watermark to store after a pass over the file at `path`.
pub fn next_file_state(path: &str, meta: &FileMeta, pass: &ReadResult, now: i64) -> (s: FileState)
    ensures
        s@ == watermark_for(path@, *meta, pass@, now as int),
{
    FileState {
        path: path.to_owned(),
        mtime: meta.mtime,
        size: meta.size,
        hash: meta.hash.clone(),
        lines_read: pass.lines_read,
        bytes_read: pass.bytes_read,
        last_line: copy_text(&pass.last_line),
        last_line_hash: copy_text(&pass.last_line_hash),
        last_line_index: pass.last_line_index,
        updated_at: now,
    }
}

/// A borrowed form of an optional text.
fn as_text(text: &Option<String>) -> (r: Option<&str>)
    ensures
        r.deep_view() == text.deep_view(),
{
    match text {
        Some(t) => Some(t.as_str()),
        None => None,
    }
}

/// Reads what is new in a changed file, from where the watermark `prior`
/// says, and prepares what the store is to be handed: a record for each new
/// row. On an error there is nothing to hand over, and the stored watermark
/// stands.
pub fn ingest(path: &str, prior: &Option<FileState>, bytes: &[u8]) -> (r: Result<Ingest, ReadError>)
    requires
        bytes@.len() <= MAX_INPUT_LEN,
    ensures
        match r {
            Ok(ing) => {
                &&& read_error(bytes@) is None
                &&& stored_view(ing.records@) == records_for(
                    new_rows(bytes@, prior_view(*prior)),
                    path@,
                )
                &&& ing.pass@ == pass_info(bytes@, prior_view(*prior))
            },
            Err(e) => read_error(bytes@) == Some(e),
        },
{
    let rp = resume_point(prior);
    let (rows, pass) = match read_incremental(
        bytes,
        rp.start_index,
        as_text(&rp.anchor_raw),
        as_text(&rp.anchor_hash),
    ) {
        Ok(out) => out,
        Err(e) => {
            return Err(e);
        },
    };
    let ghost want = records_for(new_rows(bytes@, prior_view(*prior)), path@);
    assert(records_view(rows@) == new_rows(bytes@, prior_view(*prior)));
    let mut records: Vec<Record> = Vec::new();
    let mut i: usize = 0;
    while i < rows.len()
        invariant
            i <= rows.len(),
            want == records_for(records_view(rows@), path@),
            records@.len() == i,
            forall|k: int| 0 <= k < i ==> (#[trigger] records@[k])@ == want[k],
        decreases rows.len() - i,
    {
        let record = to_record(&rows[i], path);
        assert(records_view(rows@)[i as int] == rows@[i as int]@);
        records.push(record);
        i += 1;
    }
    assert(stored_view(records@) =~= want);
    Ok(Ingest { records, pass })
}

/// One cycle for one path against a ledger in memory. A file whose
/// fingerprint is the stored one is left alone. A file that cannot be read
/// changes nothing. Otherwise every new record is handed to the ledger, and
/// only then is the watermark moved.
pub fn run_cycle(
    ledger: &mut Ledger,
    path: &str,
    meta: &FileMeta,
    bytes: &[u8],
    now: i64,
) -> (out: CycleOutcome)
    requires
        old(ledger).wf(),
        bytes@.len() <= MAX_INPUT_LEN,
    ensures
        final(ledger).wf(),
        !(out is Failed) ==> unchanged(*meta, final(ledger).watermark(path@)),
        unchanged(*meta, old(ledger).watermark(path@)) ==> {
            &&& out == CycleOutcome::Unchanged
            &&& final(ledger).states() == old(ledger).states()
            &&& final(ledger).records() == old(ledger).records()
        },
        !unchanged(*meta, old(ledger).watermark(path@)) && read_error(bytes@) is Some ==> {
            &&& out == CycleOutcome::Failed(read_error(bytes@)->0)
            &&& final(ledger).states() == old(ledger).states()
            &&& final(ledger).records() == old(ledger).records()
        },
        !unchanged(*meta, old(ledger).watermark(path@)) && read_error(bytes@) is None ==> {
            let prior = old(ledger).watermark(path@);
            let handed = records_for(new_rows(bytes@, prior), path@);
            &&& final(ledger).records() == store_all(old(ledger).records(), handed)
            &&& final(ledger).watermark(path@) == Some(
                watermark_for(path@, *meta, pass_info(bytes@, prior), now as int),
            )
            &&& forall|p: Seq<char>|
                p != path@ ==> #[trigger] final(ledger).watermark(p) == old(ledger).watermark(p)
            &&& out == (CycleOutcome::Ingested {
                parsed: handed.len() as usize,
                inserted: (final(ledger).records().len() - old(ledger).records().len()) as usize,
            })
        },
{
    let prior = ledger.load_file_state(path);
    assert(prior_view(prior) == ledger.watermark(path@));
    if is_unchanged(meta, &prior) {
        return CycleOutcome::Unchanged;
    }
    let ing = match ingest(path, &prior, bytes) {
        Ok(ing) => ing,
        Err(e) => {
            return CycleOutcome::Failed(e);
        },
    };
    let ghost held = ledger.records();
    let ghost handed = stored_view(ing.records@);
    let mut inserted: usize = 0;
    let mut i: usize = 0;
    assert(handed.take(0) =~= Seq::<RecordView>::empty());
    while i < ing.records.len()
        invariant
            i <= ing.records@.len(),
            ledger.wf(),
            handed == stored_view(ing.records@),
            ledger.states() == old(ledger).states(),
            held == old(ledger).records(),
            ledger.records() == store_all(held, handed.take(i as int)),
            ledger.records().len() == held.len() + inserted,
            inserted <= i,
        decreases ing.records@.len() - i,
    {
        proof {
            let upto = handed.take(i + 1);
            assert(upto.drop_last() == handed.take(i as int));
            assert(upto.last() == ing.records@[i as int]@);
            assert(store_all(held, upto) == store_one(
                store_all(held, handed.take(i as int)),
                upto.last(),
            ));
        }
        match ledger.insert_record(&ing.records[i]) {
            InsertOutcome::Inserted => {
                inserted += 1;
            },
            InsertOutcome::DuplicateIgnored => {},
        }
        i += 1;
    }
    assert(handed.take(i as int) == handed);
    ledger.upsert_file_state(&next_file_state(path, meta, &ing.pass, now));
    CycleOutcome::Ingested { parsed: ing.records.len(), inserted }
}

} // verus!
