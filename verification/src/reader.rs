//! Incremental reading of one file snapshot: header resolution, the resume
//! window, anchor reconciliation and the resume information for the next
//! pass.

use vstd::prelude::*;
use crate::digest::{text_hash, text_hex};
use crate::encoding::{decoded_text, detect_and_decode, MAX_INPUT_LEN};
use crate::text::{is_key, lowers_to, strip_line_feeds, trim, trimmed, without_line_feeds};
use crate::tokens::{csv_header, csv_line, csv_records, read_header, read_records, write_row, Row};

verus! {

/// What one pass over a file leaves for the next one.
pub struct ReadResult {
    /// Number of rows emitted as new.
    pub new_records: usize,
    /// Canonical text of the last row met inside the resume window.
    pub last_line: Option<String>,
    /// Hash of that text.
    pub last_line_hash: Option<String>,
    /// Ordinal of the last row of the pass, counted from 1.
    pub last_line_index: Option<i64>,
    /// Length of the file in bytes.
    pub bytes_read: i64,
    /// Number of rows that the pass reached.
    pub lines_read: i64,
}

/// Positions of the three required columns in the header.
pub struct Columns {
    pub sn_idx: usize,
    pub dt_idx: usize,
    pub rs_idx: usize,
}

/// A row emitted as new.
pub struct CsvRecord {
    pub sn: String,
    pub datetime: String,
    pub result: String,
    /// Canonical text of the whole row.
    pub raw: String,
    /// Ordinal of the row in the file, counted from 1 after the header.
    pub row_index: i64,
}

/// Why a pass over a file gave nothing.
#[derive(Debug, Clone, Copy, PartialEq, Eq, Structural)]
pub enum ReadError {
    /// The tokenizer could not read a header record.
    Header,
    /// No column is named `SN`.
    MissingSn,
    /// No column is named `Datetime`.
    MissingDatetime,
    /// No column is named `Result`.
    MissingResult,
    /// More rows than a row ordinal can count.
    TooManyRows,
}

impl ReadError {
    /// The error in words.
    pub open spec fn text(self) -> Seq<char> {
        match self {
            ReadError::Header => "cannot read the header record"@,
            ReadError::MissingSn => "missing SN column"@,
            ReadError::MissingDatetime => "missing Datetime column"@,
            ReadError::MissingResult => "missing Result column"@,
            ReadError::TooManyRows => "too many rows"@,
        }
    }

    /// The error in words.
    pub fn message(&self) -> (s: String)
        ensures
            s@ == self.text(),
    {
        match self {
            ReadError::Header => "cannot read the header record".to_owned(),
            ReadError::MissingSn => "missing SN column".to_owned(),
            ReadError::MissingDatetime => "missing Datetime column".to_owned(),
            ReadError::MissingResult => "missing Result column".to_owned(),
            ReadError::TooManyRows => "too many rows".to_owned(),
        }
    }
}

pub struct CsvRecordView {
    pub sn: Seq<char>,
    pub datetime: Seq<char>,
    pub result: Seq<char>,
    pub raw: Seq<char>,
    pub row_index: int,
}

pub struct ReadResultView {
    pub new_records: int,
    pub last_line: Option<Seq<char>>,
    pub last_line_hash: Option<Seq<char>>,
    pub last_line_index: Option<int>,
    pub bytes_read: int,
    pub lines_read: int,
}

impl View for CsvRecord {
    type V = CsvRecordView;

    open spec fn view(&self) -> CsvRecordView {
        CsvRecordView {
            sn: self.sn@,
            datetime: self.datetime@,
            result: self.result@,
            raw: self.raw@,
            row_index: self.row_index as int,
        }
    }
}

impl View for ReadResult {
    type V = ReadResultView;

    open spec fn view(&self) -> ReadResultView {
        ReadResultView {
            new_records: self.new_records as int,
            last_line: self.last_line.deep_view(),
            last_line_hash: self.last_line_hash.deep_view(),
            last_line_index: match self.last_line_index {
                Some(i) => Some(i as int),
                None => None,
            },
            bytes_read: self.bytes_read as int,
            lines_read: self.lines_read as int,
        }
    }
}

/// The views of a sequence of records, one for one.
pub open spec fn records_view(records: Seq<CsvRecord>) -> Seq<CsvRecordView> {
    Seq::new(records.len(), |i: int| records[i]@)
}

/// Whether a header cell names the column `key`: trimmed and in ASCII lower
/// case it reads `key`.
pub open spec fn names_column(cell: Seq<char>, key: Seq<char>) -> bool {
    lowers_to(trim(cell), key)
}

/// The last column of `header` that names `key`.
pub open spec fn find_column(header: Row, key: Seq<char>) -> Option<int>
    decreases header.len(),
{
    if header.len() == 0 {
        None
    } else if names_column(header.last(), key) {
        Some(header.len() - 1)
    } else {
        find_column(header.drop_last(), key)
    }
}

/// The required column that `header` lacks, asked for in the order serial
/// number, timestamp, outcome.
pub open spec fn missing_column(header: Row) -> Option<ReadError> {
    if find_column(header, "sn"@) is None {
        Some(ReadError::MissingSn)
    } else if find_column(header, "datetime"@) is None {
        Some(ReadError::MissingDatetime)
    } else if find_column(header, "result"@) is None {
        Some(ReadError::MissingResult)
    } else {
        None
    }
}

/// The positions of the required columns in a header that has them all.
pub open spec fn columns_of(header: Row) -> Columns {
    Columns {
        sn_idx: find_column(header, "sn"@)->0 as usize,
        dt_idx: find_column(header, "datetime"@)->0 as usize,
        rs_idx: find_column(header, "result"@)->0 as usize,
    }
}

/// Number of items before the first one that the tokenizer could not parse.
pub open spec fn leading_count(items: Seq<Option<Row>>) -> nat
    decreases items.len(),
{
    if items.len() > 0 && items.first() is Some {
        1 + leading_count(items.drop_first())
    } else {
        0
    }
}

/// The rows of a pass: the items before the first one that the tokenizer
/// could not parse.
pub open spec fn leading_rows(items: Seq<Option<Row>>) -> Seq<Row> {
    Seq::new(leading_count(items), |i: int| items[i]->0)
}

/// Canonical text of a row: the row written out again by the serializer,
/// without the line end.
pub open spec fn canonical(row: Row) -> Seq<char> {
    strip_line_feeds(csv_line(row))
}

/// The field of `row` at `i`, trimmed; empty where the row is too short.
pub open spec fn cell(row: Row, i: int) -> Seq<char> {
    if 0 <= i < row.len() {
        trim(row[i])
    } else {
        Seq::empty()
    }
}

/// Whether `row` is the anchor: its canonical text is the anchor text, or its
/// hash is the anchor hash.
pub open spec fn is_anchor(
    row: Row,
    anchor_raw: Option<Seq<char>>,
    anchor_hash: Option<Seq<char>>,
) -> bool {
    ||| anchor_raw == Some(canonical(row))
    ||| anchor_hash == Some(text_hex(canonical(row)))
}

/// Position, counted from 0, of the first row inside the resume window of a
/// pass over `n` rows: rows with an ordinal under `start_index` lie before
/// it.
pub open spec fn window_start(n: int, start_index: int) -> int {
    if start_index <= 1 {
        0
    } else if start_index - 1 >= n {
        n
    } else {
        start_index - 1
    }
}

/// Position just behind the first anchor row at or after `from`; the number
/// of rows where there is none.
pub open spec fn past_anchor(
    rows: Seq<Row>,
    from: int,
    anchor_raw: Option<Seq<char>>,
    anchor_hash: Option<Seq<char>>,
) -> int
    decreases rows.len() - from,
{
    if from < 0 || from >= rows.len() {
        rows.len() as int
    } else if is_anchor(rows[from], anchor_raw, anchor_hash) {
        from + 1
    } else {
        past_anchor(rows, from + 1, anchor_raw, anchor_hash)
    }
}

/// Position, counted from 0, of the first new row. Without an anchor it is
/// the start of the resume window. With one, it is just behind the first
/// anchor row in the window, and behind the last row where the window holds
/// no anchor row.
pub open spec fn first_new(
    rows: Seq<Row>,
    start_index: int,
    anchor_raw: Option<Seq<char>>,
    anchor_hash: Option<Seq<char>>,
) -> int {
    let lo = window_start(rows.len() as int, start_index);
    if anchor_raw is None && anchor_hash is None {
        lo
    } else {
        past_anchor(rows, lo, anchor_raw, anchor_hash)
    }
}

/// The record made of the row at position `i`, counted from 0.
pub open spec fn record_at(rows: Seq<Row>, cols: Columns, i: int) -> CsvRecordView {
    CsvRecordView {
        sn: cell(rows[i], cols.sn_idx as int),
        datetime: cell(rows[i], cols.dt_idx as int),
        result: cell(rows[i], cols.rs_idx as int),
        raw: canonical(rows[i]),
        row_index: i + 1,
    }
}

/// The new records of a pass: one for each row from the first new one on, in
/// file order.
pub open spec fn emitted(
    rows: Seq<Row>,
    cols: Columns,
    start_index: int,
    anchor_raw: Option<Seq<char>>,
    anchor_hash: Option<Seq<char>>,
) -> Seq<CsvRecordView> {
    let first = first_new(rows, start_index, anchor_raw, anchor_hash);
    Seq::new((rows.len() - first) as nat, |k: int| record_at(rows, cols, first + k))
}

/// What a pass leaves for the next one. The anchor is the last row of the
/// pass if it lies inside the resume window, whether it was emitted or not.
pub open spec fn resume_info(
    rows: Seq<Row>,
    start_index: int,
    anchor_raw: Option<Seq<char>>,
    anchor_hash: Option<Seq<char>>,
    file_bytes: int,
) -> ReadResultView {
    let n = rows.len() as int;
    let met = n > 0 && n >= start_index;
    ReadResultView {
        new_records: n - first_new(rows, start_index, anchor_raw, anchor_hash),
        last_line: if met { Some(canonical(rows[n - 1])) } else { None },
        last_line_hash: if met { Some(text_hex(canonical(rows[n - 1]))) } else { None },
        last_line_index: if n > 0 { Some(n) } else { None },
        bytes_read: file_bytes,
        lines_read: n,
    }
}

/// Position of the last cell of `header` that names `key`.
fn last_named(header: &Vec<String>, key: &str) -> (r: Option<usize>)
    ensures
        match r {
            Some(i) => find_column(header.deep_view(), key@) == Some(i as int) && i < header.len(),
            None => find_column(header.deep_view(), key@) is None,
        },
{
    let ghost hv = header.deep_view();
    let mut found: Option<usize> = None;
    let mut i: usize = 0;
    assert(hv.take(0).len() == 0);
    while i < header.len()
        invariant
            i <= header.len(),
            hv == header.deep_view(),
            match found {
                Some(j) => find_column(hv.take(i as int), key@) == Some(j as int) && j < i,
                None => find_column(hv.take(i as int), key@) is None,
            },
        decreases header.len() - i,
    {
        let hit = is_key(header[i].as_str(), key);
        proof {
            let next = hv.take(i + 1);
            assert(next.last() == header@[i as int]@);
            assert(next.drop_last() == hv.take(i as int));
        }
        if hit {
            found = Some(i);
        }
        i += 1;
    }
    assert(hv.take(i as int) == hv);
    found
}

/// Resolves the three required columns by name, whatever their case and the
/// white space around them. Where a name occurs twice, the last occurrence
/// counts. A missing column is reported, the serial number first, then the
/// timestamp, then the outcome.
pub fn header_index(header: &Vec<String>) -> (r: Result<Columns, ReadError>)
    ensures
        match r {
            Ok(cols) => missing_column(header.deep_view()) is None && cols == columns_of(
                header.deep_view(),
            ),
            Err(e) => missing_column(header.deep_view()) == Some(e),
        },
{
    let sn = last_named(header, "sn");
    let dt = last_named(header, "datetime");
    let rs = last_named(header, "result");
    match sn {
        None => Err(ReadError::MissingSn),
        Some(sn_idx) => match dt {
            None => Err(ReadError::MissingDatetime),
            Some(dt_idx) => match rs {
                None => Err(ReadError::MissingResult),
                Some(rs_idx) => Ok(Columns { sn_idx, dt_idx, rs_idx }),
            },
        },
    }
}

/// Canonical text of a row: its fields written out again with the quoting
/// that the tokenizer reads, without the line end.
pub fn record_to_raw(fields: &Vec<String>) -> (raw: String)
    ensures
        raw@ == canonical(fields.deep_view()),
{
    let line = write_row(fields);
    without_line_feeds(line.as_str())
}

/// The field of `row` at `i`, trimmed; empty where the row is too short.
fn cell_of(row: &Vec<String>, i: usize) -> (r: String)
    ensures
        r@ == cell(row.deep_view(), i as int),
{
    if i < row.len() {
        trimmed(row[i].as_str())
    } else {
        String::new()
    }
}

/// Number of items before the first one that could not be parsed.
fn count_leading(items: &Vec<Option<Vec<String>>>) -> (n: usize)
    ensures
        n == leading_count(items.deep_view()),
        n <= items.len(),
        forall|j: int| 0 <= j < n ==> (#[trigger] items@[j]) is Some,
{
    let ghost iv = items.deep_view();
    let mut n: usize = 0;
    assert(iv.skip(0) == iv);
    while n < items.len() && items[n].is_some()
        invariant
            n <= items.len(),
            iv == items.deep_view(),
            leading_count(iv) == n + leading_count(iv.skip(n as int)),
            forall|j: int| 0 <= j < n ==> (#[trigger] items@[j]) is Some,
        decreases items.len() - n,
    {
        assert(iv.skip(n as int).first() == items@[n as int].deep_view());
        assert(iv.skip(n as int).drop_first() == iv.skip(n + 1));
        n += 1;
    }
    proof {
        if n < items.len() {
            assert(iv.skip(n as int).first() == items@[n as int].deep_view());
        }
    }
    n
}

/// Whether two optional texts are the same.
fn is_text(want: &Option<String>, have: &String) -> (b: bool)
    ensures
        b == (want.deep_view() == Some(have@)),
{
    match want {
        Some(w) => *w == *have,
        None => false,
    }
}

/// One pass over the tokenized items of a file. Items from the first one
/// that could not be parsed on are left out. Rows with an ordinal under
/// `start_index` are skipped. Without an anchor every other row is new; with
/// one, rows up to and including the first anchor row are taken as seen and
/// the rows behind it are new.
pub fn scan_rows(
    items: &Vec<Option<Vec<String>>>,
    cols: &Columns,
    start_index: i64,
    anchor_raw: Option<&str>,
    anchor_hash: Option<&str>,
    file_bytes: i64,
) -> (out: (Vec<CsvRecord>, ReadResult))
    requires
        items.len() <= i64::MAX,
    ensures
        records_view(out.0@) == emitted(
            leading_rows(items.deep_view()),
            *cols,
            start_index as int,
            anchor_raw.deep_view(),
            anchor_hash.deep_view(),
        ),
        out.1@ == resume_info(
            leading_rows(items.deep_view()),
            start_index as int,
            anchor_raw.deep_view(),
            anchor_hash.deep_view(),
            file_bytes as int,
        ),
{
    let ghost rows = leading_rows(items.deep_view());
    let ghost a_raw = anchor_raw.deep_view();
    let ghost a_hash = anchor_hash.deep_view();
    let want_raw: Option<String> = match anchor_raw {
        Some(a) => Some(a.to_owned()),
        None => None,
    };
    let want_hash: Option<String> = match anchor_hash {
        Some(a) => Some(a.to_owned()),
        None => None,
    };
    let n = count_leading(items);
    let lo: usize = if start_index <= 1 {
        0
    } else if (start_index - 1) as u64 >= n as u64 {
        n
    } else {
        (start_index - 1) as usize
    };
    let mut records: Vec<CsvRecord> = Vec::new();
    let mut reached = want_raw.is_none() && want_hash.is_none();
    let mut last_raw: Option<String> = None;
    let mut last_hash: Option<String> = None;
    let ghost mut first: int = lo as int;
    let mut i: usize = lo;
    while i < n
        invariant
            lo <= i <= n <= items.len() <= i64::MAX,
            rows == leading_rows(items.deep_view()),
            rows.len() == n,
            forall|j: int| 0 <= j < n ==> (#[trigger] items@[j]) is Some,
            lo == window_start(n as int, start_index as int),
            want_raw.deep_view() == a_raw,
            want_hash.deep_view() == a_hash,
            reached ==> lo <= first <= i && first == first_new(
                rows,
                start_index as int,
                a_raw,
                a_hash,
            ),
            reached ==> records_view(records@) =~= Seq::new(
                (i - first) as nat,
                |k: int| record_at(rows, *cols, first + k),
            ),
            !reached ==> !(a_raw is None && a_hash is None) && records@.len() == 0,
            !reached ==> past_anchor(rows, lo as int, a_raw, a_hash) == past_anchor(
                rows,
                i as int,
                a_raw,
                a_hash,
            ),
            i > lo ==> last_raw.deep_view() == Some(canonical(rows[i - 1])),
            i > lo ==> last_hash.deep_view() == Some(text_hex(canonical(rows[i - 1]))),
            i == lo ==> last_raw is None && last_hash is None,
        decreases n - i,
    {
        let row: &Vec<String> = items[i].as_ref().unwrap();
        assert(row.deep_view() == rows[i as int]);
        let raw = record_to_raw(row);
        let raw_hash = text_hash(raw.as_str());
        if !reached {
            let hit = is_text(&want_raw, &raw) || is_text(&want_hash, &raw_hash);
            assert(hit == is_anchor(rows[i as int], a_raw, a_hash));
            if hit {
                reached = true;
                proof {
                    first = i + 1;
                }
            }
        } else {
            let record = CsvRecord {
                sn: cell_of(row, cols.sn_idx),
                datetime: cell_of(row, cols.dt_idx),
                result: cell_of(row, cols.rs_idx),
                raw: raw.clone(),
                row_index: (i + 1) as i64,
            };
            assert(record@ == record_at(rows, *cols, i as int));
            let ghost before = records@;
            records.push(record);
            assert forall|k: int| 0 <= k < i + 1 - first implies records_view(records@)[k]
                == record_at(rows, *cols, first + k) by {
                if k < i - first {
                    assert(records@[k] == before[k]);
                    assert(records_view(before)[k] == record_at(rows, *cols, first + k));
                }
            }
        }
        last_raw = Some(raw);
        last_hash = Some(raw_hash);
        i += 1;
    }
    proof {
        let first_spec = first_new(rows, start_index as int, a_raw, a_hash);
        if !reached {
            assert(first_spec == n);
        }
        assert(records_view(records@).len() == records@.len());
        assert(records_view(records@) =~= emitted(rows, *cols, start_index as int, a_raw, a_hash));
    }
    let result = ReadResult {
        new_records: records.len(),
        last_line: last_raw,
        last_line_hash: last_hash,
        last_line_index: if n > 0 {
            Some(n as i64)
        } else {
            None
        },
        bytes_read: file_bytes,
        lines_read: n as i64,
    };
    assert(result@ == resume_info(rows, start_index as int, a_raw, a_hash, file_bytes as int));
    (records, result)
}

/// Why a pass over a file with content `bytes` gives nothing, if it does.
pub open spec fn read_error(bytes: Seq<u8>) -> Option<ReadError> {
    let text = decoded_text(bytes);
    match csv_header(text) {
        None => Some(ReadError::Header),
        Some(header) => if missing_column(header) is Some {
            missing_column(header)
        } else if csv_records(text).len() > i64::MAX {
            Some(ReadError::TooManyRows)
        } else {
            None
        },
    }
}

/// The rows of a file with content `bytes`, up to the first one that the
/// tokenizer cannot parse.
pub open spec fn file_rows(bytes: Seq<u8>) -> Seq<Row> {
    leading_rows(csv_records(decoded_text(bytes)))
}

/// The positions of the required columns in a file with content `bytes`.
pub open spec fn file_columns(bytes: Seq<u8>) -> Columns {
    columns_of(csv_header(decoded_text(bytes))->0)
}

/// Reads what is new in a file snapshot. The bytes are decoded as a whole,
/// the first record is the header, and the rows behind it are counted from 1.
/// A header that cannot be read or that lacks a required column is an error.
/// A row that the tokenizer cannot parse ends the pass; the rows before it
/// still count.
pub fn read_incremental(
    bytes: &[u8],
    start_index: i64,
    anchor_raw: Option<&str>,
    anchor_hash: Option<&str>,
) -> (r: Result<(Vec<CsvRecord>, ReadResult), ReadError>)
    requires
        bytes@.len() <= MAX_INPUT_LEN,
    ensures
        match r {
            Ok(out) => {
                &&& read_error(bytes@) is None
                &&& records_view(out.0@) == emitted(
                    file_rows(bytes@),
                    file_columns(bytes@),
                    start_index as int,
                    anchor_raw.deep_view(),
                    anchor_hash.deep_view(),
                )
                &&& out.1@ == resume_info(
                    file_rows(bytes@),
                    start_index as int,
                    anchor_raw.deep_view(),
                    anchor_hash.deep_view(),
                    bytes@.len() as int,
                )
            },
            Err(e) => read_error(bytes@) == Some(e),
        },
{
    let text = detect_and_decode(bytes);
    let header = match read_header(text.as_str()) {
        Some(h) => h,
        None => {
            return Err(ReadError::Header);
        },
    };
    let cols = match header_index(&header) {
        Ok(c) => c,
        Err(e) => {
            return Err(e);
        },
    };
    let items = read_records(text.as_str());
    if items.len() as u64 > i64::MAX as u64 {
        return Err(ReadError::TooManyRows);
    }
    Ok(scan_rows(&items, &cols, start_index, anchor_raw, anchor_hash, bytes.len() as i64))
}

} // verus!
