use crate::text::nested_views;
use vstd::prelude::*;

verus! {

/// The line that the `csv` crate writes for a record of four fields, line
/// end included; `None` where it refuses the record.
pub uninterp spec fn csv_record_of(
    first: Seq<char>,
    second: Seq<char>,
    third: Seq<char>,
    fourth: Seq<char>,
) -> Option<Seq<char>>;

/// The records that the `csv` crate reads from `text`, where no line is a
/// header and all records have as many fields as the first; else the error's
/// message.
pub uninterp spec fn csv_rows_of(text: Seq<char>) -> Result<Seq<Seq<Seq<char>>>, Seq<char>>;

/// What was read, as texts.
pub open spec fn rows_views(rows: Result<Vec<Vec<String>>, String>) -> Result<
    Seq<Seq<Seq<char>>>,
    Seq<char>,
> {
    match rows {
        Ok(rows) => Ok(nested_views(rows@)),
        Err(message) => Err(message@),
    }
}

/// What was written, as a text.
pub open spec fn record_view(record: Option<String>) -> Option<Seq<char>> {
    match record {
        Some(text) => Some(text@),
        None => None,
    }
}

/// `csv::Writer::serialize` on a tuple of four fields, written to memory: the
/// fields with commas between them, a field in quotes where it needs them, and
/// a line feed.
#[verifier::external_body]
pub(crate) fn csv_record(first: &str, second: &str, third: &str, fourth: &str) -> (out: Option<
    String,
>)
    ensures
        record_view(out) == csv_record_of(first@, second@, third@, fourth@),
{
    let mut writer = csv::Writer::from_writer(vec![]);
    writer.serialize((first, second, third, fourth)).ok()?;
    String::from_utf8(writer.into_inner().ok()?).ok()
}

/// `csv::Reader::records` on `text`, read without a header line: all records
/// with their fields, or the message of the first error.
#[verifier::external_body]
pub(crate) fn csv_rows(text: &str) -> (out: Result<Vec<Vec<String>>, String>)
    ensures
        rows_views(out) == csv_rows_of(text@),
{
    let mut reader = csv::ReaderBuilder::new().has_headers(false).from_reader(text.as_bytes());
    reader.records().map(|record| record.map(|fields| fields.iter().map(String::from).collect()))
        .collect::<Result<Vec<Vec<String>>, csv::Error>>().map_err(|error| error.to_string())
}

} // verus!
