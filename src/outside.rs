//! Calls into the CSV tokenizer and the UTF-8 validator.
use vstd::prelude::*;
use vstd::utf8::{valid_utf8, decode_utf8};
use crate::lines::rows_view;

verus! {

/// The records that the CSV tokenizer reads from `data` with the given delimiter and quote
/// (no header, ragged records allowed), or `None` where it reports an error.
pub uninterp spec fn csv_records(data: Seq<u8>, delim: u8, quote: Option<u8>) -> Option<
    Seq<Seq<Seq<u8>>>,
>;

/// The contents of a list of records.
pub open spec fn records_view(v: Seq<Vec<Vec<u8>>>) -> Seq<Seq<Seq<u8>>> {
    v.map_values(|r: Vec<Vec<u8>>| rows_view(r@))
}

pub open spec fn opt_records_view(v: Option<Vec<Vec<Vec<u8>>>>) -> Option<Seq<Seq<Seq<u8>>>> {
    match v {
        Some(x) => Some(records_view(x@)),
        None => None,
    }
}

/// Relies on csv::ReaderBuilder and csv::Reader::byte_records: tokenizes `data` into records
/// of byte fields with the given delimiter and quote; the outcome depends on the arguments alone.
#[verifier::external_body]
pub(crate) fn read_records(data: &[u8], delim: u8, quote: Option<u8>) -> (r: Option<
    Vec<Vec<Vec<u8>>>,
>)
    ensures
        opt_records_view(r) == csv_records(data@, delim, quote),
{
    let mut builder = csv::ReaderBuilder::new();
    builder.delimiter(delim).has_headers(false).flexible(true);
    builder.quoting(quote.is_some()).quote(quote.unwrap_or_default());
    let mut out = Vec::new();
    for record in builder.from_reader(data).byte_records() {
        out.push(record.ok()?.iter().map(|f| f.to_vec()).collect());
    }
    Some(out)
}

/// Relies on simdutf8::basic::from_utf8: it succeeds exactly on well-formed UTF-8, and then
/// gives the text that the bytes encode.
#[verifier::external_body]
pub(crate) fn utf8_text(b: &[u8]) -> (r: Option<String>)
    ensures
        r is Some <==> valid_utf8(b@),
        r matches Some(s) ==> s@ == decode_utf8(b@),
{
    simdutf8::basic::from_utf8(b).ok().map(|s| s.to_string())
}

} // verus!
