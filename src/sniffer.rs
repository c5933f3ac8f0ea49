//! The sniffing pipeline: preamble, delimiter, quote, raggedness, header and schema.
use vstd::prelude::*;
use vstd::utf8::valid_utf8;
use crate::lines::{LF, rows_view, sample_lines, split_lines};
use crate::delimiter::{best_delimiter, confident, infer_delimiter};
use crate::quoting::{
    detect_quote,
    counts_vary,
    detect_doubled,
    infer_quote,
    infer_flexible,
    infer_doubled,
};
use crate::preamble::{preamble_rows, count_preamble, MAX_PREAMBLE, WINDOW};
use crate::outside::{csv_records, records_view, read_records, utf8_text};
use crate::schema::{
    detect_header,
    width,
    column_types,
    column_names,
    strings_view,
    has_header_row,
    infer_types,
    infer_names,
};
use crate::metadata::{Metadata, Dialect, Header, Quote, Escape, Comment};

verus! {

/// Why a sample could not be sniffed.
#[derive(PartialEq, Eq, Structural, Clone, Copy, Debug)]
pub enum SniffError {
    /// The sample holds no line of a table.
    EmptySample,
    /// No candidate delimiter gives a strict majority of the lines the same field count.
    NoConsistentDelimiter,
    /// The tokenizer could not read the table's lines with the inferred settings.
    Unreadable,
}

/// Bounds on the work of sniffing.
#[derive(PartialEq, Eq, Structural, Clone, Copy, Debug)]
pub struct SniffLimits {
    /// Most lines of the table (after the preamble) that are examined.
    pub max_rows: usize,
    /// Most leading lines that may be taken for a preamble.
    pub max_preamble: usize,
    /// Number of following lines that a candidate first table line is compared with.
    pub window: usize,
}

/// The standard limits: every table line, a preamble of up to `MAX_PREAMBLE` lines, and a
/// window of `WINDOW` lines.
pub open spec fn standard_limits() -> SniffLimits {
    SniffLimits { max_rows: usize::MAX, max_preamble: MAX_PREAMBLE, window: WINDOW }
}

impl SniffLimits {
    /// The standard limits.
    pub fn standard() -> (r: SniffLimits)
        ensures
            r == standard_limits(),
    {
        SniffLimits { max_rows: usize::MAX, max_preamble: MAX_PREAMBLE, window: WINDOW }
    }
}

/// Number of preamble lines of the sample under the limits.
pub open spec fn sample_preamble(sample: Seq<u8>, lim: SniffLimits) -> nat {
    preamble_rows(sample_lines(sample), lim.max_preamble as nat, lim.window as nat)
}

/// The lines of the table that are examined: the sample's lines after the preamble, at most
/// `lim.max_rows` of them.
pub open spec fn table_lines(sample: Seq<u8>, lim: SniffLimits) -> Seq<Seq<u8>> {
    let ls = sample_lines(sample);
    let p = sample_preamble(sample, lim) as int;
    let end = if ls.len() - p > lim.max_rows {
        p + lim.max_rows
    } else {
        ls.len() as int
    };
    ls.subrange(p, end)
}

/// The lines, each followed by a line feed.
pub open spec fn joined(lines: Seq<Seq<u8>>) -> Seq<u8>
    decreases lines.len(),
{
    if lines.len() == 0 {
        Seq::<u8>::empty()
    } else {
        joined(lines.drop_last()) + lines.last() + seq![LF]
    }
}

/// Sum of the lengths of the lines.
pub open spec fn total_len(lines: Seq<Seq<u8>>) -> nat
    decreases lines.len(),
{
    if lines.len() == 0 {
        0
    } else {
        total_len(lines.drop_last()) + lines.last().len()
    }
}

/// Average line length, rounded down; 0 for no lines.
pub open spec fn average_len(lines: Seq<Seq<u8>>) -> nat {
    if lines.len() == 0 {
        0
    } else {
        total_len(lines) / lines.len()
    }
}

pub open spec fn quote_of(q: Option<u8>) -> Quote {
    match q {
        Some(b) => Quote::Enabled(b),
        None => Quote::Disabled,
    }
}

/// The delimiter chosen for the sample's table.
pub open spec fn sample_delimiter(sample: Seq<u8>, lim: SniffLimits) -> u8 {
    best_delimiter(table_lines(sample, lim))
}

/// The quote byte chosen for the sample's table.
pub open spec fn sample_quote(sample: Seq<u8>, lim: SniffLimits) -> Option<u8> {
    detect_quote(table_lines(sample, lim), sample_delimiter(sample, lim))
}

/// The dialect of the sample before header detection.
pub open spec fn base_dialect(sample: Seq<u8>, lim: SniffLimits) -> Dialect {
    let body = table_lines(sample, lim);
    Dialect {
        delimiter: sample_delimiter(sample, lim),
        header: Header {
            has_header_row: false,
            num_preamble_rows: sample_preamble(sample, lim) as usize,
        },
        quote: quote_of(sample_quote(sample, lim)),
        escape: Escape::Disabled,
        comment: Comment::Disabled,
        double_quote: detect_doubled(body, sample_quote(sample, lim)),
        flexible: counts_vary(body, sample_delimiter(sample, lim), sample_quote(sample, lim)),
        is_utf8: valid_utf8(sample),
    }
}

/// The records that the tokenizer reads from the sample's table.
pub open spec fn sample_records(sample: Seq<u8>, lim: SniffLimits) -> Option<Seq<Seq<Seq<u8>>>> {
    csv_records(
        joined(table_lines(sample, lim)),
        sample_delimiter(sample, lim),
        sample_quote(sample, lim),
    )
}

/// `r` is the outcome of sniffing `sample` under `lim`: an error exactly where no table line is
/// left, where no delimiter is confident, or where the tokenizer fails; else the metadata of
/// the tokenized records.
pub open spec fn sniff_outcome(sample: Seq<u8>, lim: SniffLimits, r: Result<Metadata, SniffError>) -> bool {
    let body = table_lines(sample, lim);
    &&& r == Err::<Metadata, SniffError>(SniffError::EmptySample) <==> body.len() == 0
    &&& r == Err::<Metadata, SniffError>(SniffError::NoConsistentDelimiter) <==> (body.len() > 0
        && !confident(body))
    &&& r == Err::<Metadata, SniffError>(SniffError::Unreadable) <==> (body.len() > 0 && confident(
        body,
    ) && sample_records(sample, lim) is None)
    &&& r matches Ok(m) ==> sample_records(sample, lim) matches Some(recs) && describes(
        m,
        base_dialect(sample, lim),
        average_len(body),
        recs,
    )
}

/// `m` is the metadata of `recs` under the dialect `base`, with the header row detected.
pub open spec fn describes(m: Metadata, base: Dialect, avg: nat, recs: Seq<Seq<Seq<u8>>>) -> bool {
    let h = detect_header(recs);
    &&& m.dialect == Dialect { header: Header { has_header_row: h, ..base.header }, ..base }
    &&& m.avg_record_len as nat == avg
    &&& m.num_fields as nat == width(recs)
    &&& strings_view(m.fields@) == column_names(recs, h)
    &&& m.types@ == column_types(recs, h)
}

/// The metadata of tokenized records: the header row is detected, then the column types and
/// names are inferred.
pub fn describe_records(base: Dialect, avg_record_len: usize, recs: &Vec<Vec<Vec<u8>>>) -> (m:
    Metadata)
    ensures
        describes(m, base, avg_record_len as nat, records_view(recs@)),
{
    let h = has_header_row(recs);
    let num_fields = crate::schema::record_width(recs);
    let types = infer_types(recs, h);
    let fields = infer_names(recs, h);
    let mut dialect = base;
    dialect.header.has_header_row = h;
    Metadata { dialect, avg_record_len, num_fields, fields, types }
}

fn join_lines(lines: &Vec<Vec<u8>>) -> (r: Vec<u8>)
    ensures
        r@ == joined(rows_view(lines@)),
{
    let ghost ls = rows_view(lines@);
    let mut out: Vec<u8> = Vec::new();
    let mut i: usize = 0;
    assert(ls.subrange(0, 0) =~= Seq::<Seq<u8>>::empty());
    while i < lines.len()
        invariant
            i <= lines@.len(),
            ls == rows_view(lines@),
            out@ == joined(ls.subrange(0, i as int)),
        decreases lines@.len() - i,
    {
        assert(ls.subrange(0, i + 1).drop_last() =~= ls.subrange(0, i as int));
        assert(ls[i as int] == lines@[i as int]@);
        let mut line = lines[i].clone();
        out.append(&mut line);
        out.push(LF);
        i = i + 1;
    }
    assert(ls.subrange(0, i as int) =~= ls);
    out
}

fn average_line_len(lines: &Vec<Vec<u8>>, bound: usize) -> (r: usize)
    requires
        forall|j: int| 0 <= j < lines@.len() ==> (#[trigger] lines@[j])@.len() <= bound,
    ensures
        r as nat == average_len(rows_view(lines@)),
{
    let ghost ls = rows_view(lines@);
    let n = lines.len();
    if n == 0 {
        return 0;
    }
    let mut total: u128 = 0;
    let mut i: usize = 0;
    assert(ls.subrange(0, 0) =~= Seq::<Seq<u8>>::empty());
    while i < n
        invariant
            i <= n,
            n == lines@.len(),
            ls == rows_view(lines@),
            forall|j: int| 0 <= j < lines@.len() ==> (#[trigger] lines@[j])@.len() <= bound,
            total as nat == total_len(ls.subrange(0, i as int)),
            total <= i * bound,
        decreases n - i,
    {
        assert(ls.subrange(0, i + 1).drop_last() =~= ls.subrange(0, i as int));
        assert(ls[i as int] == lines@[i as int]@);
        let l = lines[i].len();
        assert(total + l <= (i + 1) * bound) by (nonlinear_arith)
            requires
                total <= i * bound,
                l <= bound,
        ;
        assert((i + 1) * bound <= 18446744073709551615 * 18446744073709551615) by (nonlinear_arith)
            requires
                i + 1 <= 18446744073709551615,
                bound <= 18446744073709551615,
        ;
        total = total + l as u128;
        i = i + 1;
    }
    assert(ls.subrange(0, i as int) =~= ls);
    let avg = total / (n as u128);
    assert(avg <= bound) by (nonlinear_arith)
        requires
            avg == total / (n as u128),
            total <= n * bound,
            n > 0,
    ;
    avg as usize
}

/// Sniffs a sample with the standard limits.
pub fn sniff(sample: &[u8]) -> (r: Result<Metadata, SniffError>)
    requires
        sample@.len() < usize::MAX,
    ensures
        sniff_outcome(sample@, standard_limits(), r),
{
    sniff_with(sample, SniffLimits::standard())
}

/// Sniffs a sample: finds the preamble, the delimiter, the quote character and whether field
/// counts vary, reads the table's records with these settings, and infers header and schema.
pub fn sniff_with(sample: &[u8], lim: SniffLimits) -> (r: Result<Metadata, SniffError>)
    requires
        sample@.len() < usize::MAX,
    ensures
        sniff_outcome(sample@, lim, r),
{
    let lines = split_lines(sample);
    let ghost ls = rows_view(lines@);
    let k = count_preamble(&lines, lim.max_preamble, lim.window);
    let end: usize = if lines.len() - k > lim.max_rows {
        k + lim.max_rows
    } else {
        lines.len()
    };
    let mut body: Vec<Vec<u8>> = Vec::new();
    let mut i: usize = k;
    while i < end
        invariant
            k <= i <= end <= lines@.len(),
            ls == rows_view(lines@),
            k as nat == sample_preamble(sample@, lim),
            end == table_lines(sample@, lim).len() + k,
            forall|j: int| 0 <= j < lines@.len() ==> (#[trigger] lines@[j])@.len() <= sample@.len(),
            forall|j: int| 0 <= j < body@.len() ==> (#[trigger] body@[j])@.len() <= sample@.len(),
            rows_view(body@) =~= ls.subrange(k as int, i as int),
        decreases lines@.len() - i,
    {
        let ghost before = body@;
        body.push(lines[i].clone());
        assert(rows_view(body@) =~= rows_view(before).push(lines@[i as int]@));
        i = i + 1;
    }
    assert(rows_view(body@) =~= table_lines(sample@, lim));
    if body.len() == 0 {
        return Err(SniffError::EmptySample);
    }
    let score = infer_delimiter(&body);
    let delim = score.delimiter;
    if (score.support as u128) * 2 <= body.len() as u128 {
        return Err(SniffError::NoConsistentDelimiter);
    }
    let quote = infer_quote(&body, delim);
    let flexible = infer_flexible(&body, delim, quote);
    let double_quote = infer_doubled(&body, quote);
    let is_utf8 = utf8_text(sample).is_some();
    let data = join_lines(&body);
    let recs = match read_records(data.as_slice(), delim, quote) {
        Some(v) => v,
        None => {
            return Err(SniffError::Unreadable);
        },
    };
    let avg = average_line_len(&body, sample.len());
    let base = Dialect {
        delimiter: delim,
        header: Header { has_header_row: false, num_preamble_rows: k },
        quote: Quote::from_byte(quote),
        escape: Escape::Disabled,
        comment: Comment::Disabled,
        double_quote,
        flexible,
        is_utf8,
    };
    assert(base == base_dialect(sample@, lim));
    Ok(describe_records(base, avg, &recs))
}

} // verus!
