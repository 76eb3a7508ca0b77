//! The CSV tokenizer and serializer of the `csv` crate, with its default
//! dialect: comma-separated, double-quoted, first record a header, every
//! record as wide as the header.

use vstd::prelude::*;

verus! {

/// A tokenized record: its fields, in order.
pub type Row = Seq<Seq<char>>;

/// The header record that `csv::Reader::headers` gives for a reader over
/// `text`, or `None` where it reports an error.
pub uninterp spec fn csv_header(text: Seq<char>) -> Option<Row>;

/// What `csv::Reader::records` yields over `text`, item by item, until the
/// input ends: a record, or `None` where the reader reports an error for
/// that record. The header record is not among them.
pub uninterp spec fn csv_records(text: Seq<char>) -> Seq<Option<Row>>;

/// What `csv::Writer::write_record` writes for one record on a fresh writer,
/// terminator included.
pub uninterp spec fn csv_line(row: Row) -> Seq<char>;

/// Calls `csv::Reader::headers` on a reader over `text`. Trusted: the result
/// is a function of the text alone.
#[verifier::external_body]
pub(crate) fn read_header(text: &str) -> (header: Option<Vec<String>>)
    ensures
        header.deep_view() == csv_header(text@),
{
    let mut rdr = csv::ReaderBuilder::new().has_headers(true).from_reader(text.as_bytes());
    rdr.headers().ok().map(|h| h.iter().map(String::from).collect())
}

/// Calls `csv::Reader::records` on a reader over `text` and walks it to the
/// end. Trusted: the items are a function of the text alone.
#[verifier::external_body]
pub(crate) fn read_records(text: &str) -> (items: Vec<Option<Vec<String>>>)
    ensures
        items.deep_view() == csv_records(text@),
{
    let mut rdr = csv::ReaderBuilder::new().has_headers(true).from_reader(text.as_bytes());
    rdr.records().map(|r| r.ok().map(|rec| rec.iter().map(String::from).collect())).collect()
}

/// Calls `csv::Writer::write_record` on a fresh writer into memory and hands
/// back what was written. Trusted: the line is a function of the fields
/// alone. Writing one record into memory cannot fail, and what is written for
/// UTF-8 fields is UTF-8.
#[verifier::external_body]
pub(crate) fn write_row(fields: &Vec<String>) -> (line: String)
    ensures
        line@ == csv_line(fields.deep_view()),
{
    let mut wtr = csv::WriterBuilder::new().from_writer(Vec::new());
    wtr.write_record(fields.iter()).unwrap();
    String::from_utf8(wtr.into_inner().unwrap()).unwrap()
}

} // verus!
