//! Header detection, column types and column names of tokenized records.
use vstd::prelude::*;
use vstd::utf8::{valid_utf8, decode_utf8};
use crate::field_type::{Type, value_type, column_type, rank, classify_value, join_types};
use crate::outside::{records_view, utf8_text};

verus! {

/// Field `c` of record `r`, empty where the record is shorter.
pub open spec fn cell(recs: Seq<Seq<Seq<u8>>>, r: int, c: int) -> Seq<u8> {
    if 0 <= c < recs[r].len() {
        recs[r][c]
    } else {
        Seq::<u8>::empty()
    }
}

/// Column `c` of the records from record `from` on.
pub open spec fn column_values(recs: Seq<Seq<Seq<u8>>>, c: int, from: int) -> Seq<Seq<u8>> {
    Seq::new((recs.len() - from) as nat, |i: int| cell(recs, from + i, c))
}

/// Largest number of fields of a record.
pub open spec fn width(recs: Seq<Seq<Seq<u8>>>) -> nat
    decreases recs.len(),
{
    if recs.len() == 0 {
        0
    } else {
        let w = width(recs.drop_last());
        if recs.last().len() > w {
            recs.last().len()
        } else {
            w
        }
    }
}

/// The first record's value in column `c` is of a more general type than the column's
/// values in the records after it.
pub open spec fn labels_column(recs: Seq<Seq<Seq<u8>>>, c: int) -> bool {
    match (value_type(cell(recs, 0, c)), column_type(column_values(recs, c, 1))) {
        (Some(a), Some(b)) => rank(a) > rank(b),
        _ => false,
    }
}

/// Number of the first `n` columns whose first value looks like a label.
pub open spec fn label_votes(recs: Seq<Seq<Seq<u8>>>, n: int) -> nat
    decreases n,
{
    if n <= 0 {
        0
    } else {
        label_votes(recs, n - 1) + if labels_column(recs, n - 1) {
            1nat
        } else {
            0nat
        }
    }
}

/// The first record is a header: there are two or more records and columns, and in a strict
/// majority of the columns the first value looks like a label.
pub open spec fn detect_header(recs: Seq<Seq<Seq<u8>>>) -> bool {
    let n = width(recs);
    recs.len() >= 2 && n >= 2 && 2 * label_votes(recs, n as int) > n
}

/// A column type, Text where no value told anything.
pub open spec fn settled_type(t: Option<Type>) -> Type {
    match t {
        Some(x) => x,
        None => Type::Text,
    }
}

/// Index of the first data record.
pub open spec fn data_start(has_header: bool) -> int {
    if has_header {
        1
    } else {
        0
    }
}

/// The type of each column over the data records.
pub open spec fn column_types(recs: Seq<Seq<Seq<u8>>>, has_header: bool) -> Seq<Type> {
    Seq::new(
        width(recs),
        |c: int| settled_type(column_type(column_values(recs, c, data_start(has_header)))),
    )
}

/// Decimal digits of `n`.
pub open spec fn decimal(n: nat) -> Seq<u8>
    decreases n,
{
    if n < 10 {
        seq![(48 + n) as u8]
    } else {
        decimal(n / 10).push((48 + n % 10) as u8)
    }
}

/// `field ` followed by the column's position.
pub open spec fn placeholder(c: nat) -> Seq<u8> {
    seq![102u8, 105u8, 101u8, 108u8, 100u8, 32u8] + decimal(c)
}

/// The bytes of column `c`'s name.
pub open spec fn name_bytes(recs: Seq<Seq<Seq<u8>>>, has_header: bool, c: int) -> Seq<u8> {
    if has_header {
        cell(recs, 0, c)
    } else {
        placeholder(c as nat)
    }
}

/// The text of well-formed UTF-8, and empty text otherwise.
pub open spec fn text_of(b: Seq<u8>) -> Seq<char> {
    if valid_utf8(b) {
        decode_utf8(b)
    } else {
        Seq::<char>::empty()
    }
}

/// The name of each column.
pub open spec fn column_names(recs: Seq<Seq<Seq<u8>>>, has_header: bool) -> Seq<Seq<char>> {
    Seq::new(width(recs), |c: int| text_of(name_bytes(recs, has_header, c)))
}

pub open spec fn strings_view(v: Seq<String>) -> Seq<Seq<char>> {
    v.map_values(|s: String| s@)
}

fn cell_type(recs: &Vec<Vec<Vec<u8>>>, r: usize, c: usize) -> (t: Option<Type>)
    requires
        r < recs@.len(),
    ensures
        t == value_type(cell(records_view(recs@), r as int, c as int)),
{
    let ghost rv = records_view(recs@);
    assert(rv[r as int] == crate::lines::rows_view(recs@[r as int]@));
    if c < recs[r].len() {
        assert(rv[r as int][c as int] == recs@[r as int]@[c as int]@);
        classify_value(recs[r][c].as_slice())
    } else {
        None
    }
}

fn column_type_from(recs: &Vec<Vec<Vec<u8>>>, c: usize, from: usize) -> (t: Option<Type>)
    requires
        from <= recs@.len(),
    ensures
        t == column_type(column_values(records_view(recs@), c as int, from as int)),
{
    let ghost rv = records_view(recs@);
    let ghost vals = column_values(rv, c as int, from as int);
    let mut acc: Option<Type> = None;
    let mut r: usize = from;
    assert(vals.subrange(0, 0) =~= Seq::<Seq<u8>>::empty());
    while r < recs.len()
        invariant
            from <= r <= recs@.len(),
            rv == records_view(recs@),
            vals == column_values(rv, c as int, from as int),
            acc == column_type(vals.subrange(0, r - from)),
        decreases recs@.len() - r,
    {
        assert(vals.subrange(0, r + 1 - from).drop_last() =~= vals.subrange(0, r - from));
        let t = cell_type(recs, r, c);
        acc = join_types(acc, t);
        r = r + 1;
    }
    assert(vals.subrange(0, r - from) =~= vals);
    acc
}

/// Largest number of fields of a record.
pub fn record_width(recs: &Vec<Vec<Vec<u8>>>) -> (w: usize)
    ensures
        w as nat == width(records_view(recs@)),
{
    let ghost rv = records_view(recs@);
    let mut w: usize = 0;
    let mut r: usize = 0;
    assert(rv.subrange(0, 0) =~= Seq::<Seq<Seq<u8>>>::empty());
    while r < recs.len()
        invariant
            r <= recs@.len(),
            rv == records_view(recs@),
            w as nat == width(rv.subrange(0, r as int)),
        decreases recs@.len() - r,
    {
        assert(rv.subrange(0, r + 1).drop_last() =~= rv.subrange(0, r as int));
        assert(rv[r as int] == crate::lines::rows_view(recs@[r as int]@));
        if recs[r].len() > w {
            w = recs[r].len();
        }
        r = r + 1;
    }
    assert(rv.subrange(0, r as int) =~= rv);
    w
}

/// Whether the first record is a header row.
pub fn has_header_row(recs: &Vec<Vec<Vec<u8>>>) -> (r: bool)
    ensures
        r == detect_header(records_view(recs@)),
{
    let ghost rv = records_view(recs@);
    let n = record_width(recs);
    if recs.len() < 2 || n < 2 {
        return false;
    }
    let mut votes: usize = 0;
    let mut c: usize = 0;
    while c < n
        invariant
            c <= n,
            n as nat == width(rv),
            recs@.len() >= 2,
            rv == records_view(recs@),
            votes <= c,
            votes as nat == label_votes(rv, c as int),
        decreases n - c,
    {
        let first = cell_type(recs, 0, c);
        let rest = column_type_from(recs, c, 1);
        let label = match (first, rest) {
            (Some(a), Some(b)) => a.rank() > b.rank(),
            _ => false,
        };
        if label {
            votes = votes + 1;
        }
        c = c + 1;
    }
    votes > n - votes
}

/// The type of each column over the data records (after the header row, if any).
pub fn infer_types(recs: &Vec<Vec<Vec<u8>>>, has_header: bool) -> (r: Vec<Type>)
    requires
        has_header ==> recs@.len() >= 1,
    ensures
        r@ == column_types(records_view(recs@), has_header),
{
    let ghost rv = records_view(recs@);
    let n = record_width(recs);
    let from: usize = if has_header {
        1
    } else {
        0
    };
    let mut out: Vec<Type> = Vec::new();
    let mut c: usize = 0;
    while c < n
        invariant
            c <= n,
            n as nat == width(rv),
            from as int == data_start(has_header),
            from <= recs@.len(),
            rv == records_view(recs@),
            out@ =~= column_types(rv, has_header).subrange(0, c as int),
        decreases n - c,
    {
        let t = match column_type_from(recs, c, from) {
            Some(x) => x,
            None => Type::Text,
        };
        out.push(t);
        c = c + 1;
    }
    out
}

fn push_decimal(n: usize, out: &mut Vec<u8>)
    ensures
        final(out)@ == old(out)@ + decimal(n as nat),
    decreases n,
{
    if n >= 10 {
        push_decimal(n / 10, out);
    }
    let d: u8 = (n % 10) as u8;
    out.push(48 + d);
    assert(final(out)@ =~= old(out)@ + decimal(n as nat));
}

fn column_name(recs: &Vec<Vec<Vec<u8>>>, has_header: bool, c: usize) -> (s: String)
    requires
        has_header ==> recs@.len() >= 1,
    ensures
        s@ == text_of(name_bytes(records_view(recs@), has_header, c as int)),
{
    let ghost rv = records_view(recs@);
    let bytes: Vec<u8> = if has_header {
        assert(rv[0] == crate::lines::rows_view(recs@[0]@));
        if c < recs[0].len() {
            assert(rv[0][c as int] == recs@[0]@[c as int]@);
            recs[0][c].clone()
        } else {
            Vec::new()
        }
    } else {
        let mut b: Vec<u8> = vec![102, 105, 101, 108, 100, 32];
        push_decimal(c, &mut b);
        b
    };
    assert(bytes@ =~= name_bytes(rv, has_header, c as int));
    match utf8_text(bytes.as_slice()) {
        Some(s) => s,
        None => String::new(),
    }
}

/// The name of each column: the header row's values, or `field 0`, `field 1`, ... where there
/// is no header row.
pub fn infer_names(recs: &Vec<Vec<Vec<u8>>>, has_header: bool) -> (r: Vec<String>)
    requires
        has_header ==> recs@.len() >= 1,
    ensures
        strings_view(r@) == column_names(records_view(recs@), has_header),
{
    let ghost rv = records_view(recs@);
    let n = record_width(recs);
    let mut out: Vec<String> = Vec::new();
    let mut c: usize = 0;
    while c < n
        invariant
            c <= n,
            n as nat == width(rv),
            has_header ==> recs@.len() >= 1,
            rv == records_view(recs@),
            strings_view(out@) =~= column_names(rv, has_header).subrange(0, c as int),
        decreases n - c,
    {
        let s = column_name(recs, has_header, c);
        let ghost before = out@;
        out.push(s);
        assert(strings_view(out@) =~= strings_view(before).push(s@));
        c = c + 1;
    }
    out
}

} // verus!
