//! The boundary to the `csv` crate: reading a delimited byte stream
//! into trimmed field rows, and writing field rows back out.  Only
//! the two calls into `csv` are trusted; everything either side of
//! them is verified against the two named results below.

use vstd::prelude::*;

verus! {

/// What `csv` reads from a byte stream: the field rows after the
/// header, every field trimmed, or nothing when the stream is not
/// well-formed (for instance, a record with the wrong number of
/// fields).  A function of the input bytes alone.
pub uninterp spec fn csv_rows(data: Seq<u8>) -> Option<Seq<Seq<Seq<u8>>>>;

/// What `csv` writes for a sequence of field rows: the comma
/// separated, newline terminated text.  A function of the rows
/// alone.
pub uninterp spec fn csv_text(rows: Seq<Seq<Seq<u8>>>) -> Seq<u8>;

/// Relies on `csv::Reader::byte_records` (with `Trim::All` and the
/// default header handling): it yields the field rows after the
/// header with surrounding ASCII whitespace trimmed, erring on a
/// malformed stream, as a function of the input bytes alone.
#[verifier::external_body]
pub(crate) fn read_csv_rows(data: &Vec<u8>) -> (r: Result<Vec<Vec<Vec<u8>>>, String>)
    ensures
        match r {
            Ok(rows) => csv_rows(data@) == Some(rows.deep_view()),
            Err(_) => csv_rows(data@) is None,
        },
{
    let mut reader = csv::ReaderBuilder::new().trim(csv::Trim::All).from_reader(data.as_slice());
    let mut rows = Vec::new();
    for record in reader.byte_records() {
        match record {
            Ok(rec) => rows.push(rec.iter().map(|f| f.to_vec()).collect()),
            Err(e) => return Err(e.to_string()),
        }
    }
    Ok(rows)
}

/// Relies on `csv::Writer::write_record`: it encodes each row as a
/// comma separated, newline terminated record, as a function of the
/// rows alone.
#[verifier::external_body]
pub(crate) fn write_csv_rows(rows: &Vec<Vec<Vec<u8>>>) -> (r: Vec<u8>)
    ensures
        r@ == csv_text(rows.deep_view()),
{
    let mut writer = csv::Writer::from_writer(Vec::new());
    for row in rows {
        if writer.write_record(row).is_err() {
            return Vec::new();
        }
    }
    writer.into_inner().unwrap_or_default()
}

} // verus!
