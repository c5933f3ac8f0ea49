//! Detecting the quote character and whether field counts vary.
use vstd::prelude::*;
use crate::lines::{field_count, scan_fields, count_fields, rows_view};

verus! {

/// Double quote.
pub const DOUBLE_QUOTE: u8 = 34;

/// Single quote.
pub const SINGLE_QUOTE: u8 = 39;

/// `q` stands at index `i` at the start of a field.
pub open spec fn opens_at(l: Seq<u8>, delim: u8, q: u8, i: int) -> bool {
    0 <= i < l.len() && l[i] == q && (i == 0 || l[i - 1] == delim)
}

/// `q` stands at index `j` at the end of a field.
pub open spec fn closes_at(l: Seq<u8>, delim: u8, q: u8, j: int) -> bool {
    0 <= j < l.len() && l[j] == q && (j + 1 == l.len() || l[j + 1] == delim)
}

/// Number of rows in which a quote byte must wrap fields at one field position.
pub const MIN_QUOTED_ROWS: usize = 2;

/// Bytes that may quote fields: ASCII punctuation other than the delimiter.
pub open spec fn is_quote_candidate(b: u8, delim: u8) -> bool {
    b != delim && ((33 <= b <= 47) || (58 <= b <= 64) || (91 <= b <= 96) || (123 <= b <= 126))
}

/// Position of the field in which index `i` of the line stands, delimiters inside `q` not
/// counted.
pub open spec fn field_index(l: Seq<u8>, delim: u8, q: u8, i: int) -> int {
    field_count(l.subrange(0, i), delim, Some(q)) - 1
}

/// A `q` opens field `f` of the line and a later `q` closes a field.
pub open spec fn wraps_at(l: Seq<u8>, delim: u8, q: u8, f: int) -> bool {
    exists|i: int, j: int|
        i < j && opens_at(l, delim, q, i) && field_index(l, delim, q, i) == f && closes_at(
            l,
            delim,
            q,
            j,
        )
}

/// Number of the lines in which `q` wraps field `f`.
pub open spec fn wrap_rows(lines: Seq<Seq<u8>>, delim: u8, q: u8, f: int) -> nat
    decreases lines.len(),
{
    if lines.len() == 0 {
        0
    } else {
        wrap_rows(lines.drop_last(), delim, q, f) + if wraps_at(lines.last(), delim, q, f) {
            1nat
        } else {
            0nat
        }
    }
}

/// Length of the longest line.
pub open spec fn max_len(lines: Seq<Seq<u8>>) -> nat
    decreases lines.len(),
{
    if lines.len() == 0 {
        0
    } else if lines.last().len() > max_len(lines.drop_last()) {
        lines.last().len()
    } else {
        max_len(lines.drop_last())
    }
}

/// Most lines in which `q` wraps one field position below `n`.
pub open spec fn quote_score_upto(lines: Seq<Seq<u8>>, delim: u8, q: u8, n: int) -> nat
    decreases n,
{
    if n <= 0 {
        0
    } else {
        let prev = quote_score_upto(lines, delim, q, n - 1);
        let here = wrap_rows(lines, delim, q, n - 1);
        if here > prev {
            here
        } else {
            prev
        }
    }
}

/// Most lines in which `q` wraps one field position (a field position is below the length of
/// the longest line).
pub open spec fn quote_score(lines: Seq<Seq<u8>>, delim: u8, q: u8) -> nat {
    quote_score_upto(lines, delim, q, max_len(lines) as int)
}

/// The best quote candidate among the bytes below `n`: its score reaches `MIN_QUOTED_ROWS`
/// and is the highest, the smaller byte winning a tie.
pub open spec fn quote_upto(lines: Seq<Seq<u8>>, delim: u8, n: int) -> Option<u8>
    decreases n,
{
    if n <= 0 {
        None
    } else {
        let prev = quote_upto(lines, delim, n - 1);
        let b = (n - 1) as u8;
        let s = quote_score(lines, delim, b);
        if is_quote_candidate(b, delim) && s >= MIN_QUOTED_ROWS && match prev {
            None => true,
            Some(p) => s > quote_score(lines, delim, p),
        } {
            Some(b)
        } else {
            prev
        }
    }
}

/// The quote character: the byte that wraps fields at one field position in the most lines
/// (at least `MIN_QUOTED_ROWS`), or none.
pub open spec fn detect_quote(lines: Seq<Seq<u8>>, delim: u8) -> Option<u8> {
    quote_upto(lines, delim, 256)
}

/// Some line has another field count than the first, fields split with quotes honoured.
pub open spec fn counts_vary(lines: Seq<Seq<u8>>, delim: u8, quote: Option<u8>) -> bool {
    exists|i: int|
        0 <= i < lines.len() && #[trigger] field_count(lines[i], delim, quote) != field_count(
            lines[0],
            delim,
            quote,
        )
}

fn wraps_in(l: &[u8], delim: u8, q: u8, f: usize) -> (r: bool)
    requires
        l@.len() < usize::MAX,
    ensures
        r == wraps_at(l@, delim, q, f as int),
{
    let mut seen_open = false;
    let ghost mut wi: int = 0;
    let mut c: usize = 1;
    let mut open = false;
    let mut j: usize = 0;
    assert(l@.subrange(0, 0) =~= Seq::<u8>::empty());
    while j < l.len()
        invariant
            j <= l@.len() < usize::MAX,
            1 <= c <= j + 1,
            (c as nat, open) == scan_fields(l@.subrange(0, j as int), delim, Some(q)),
            seen_open ==> wi < j && opens_at(l@, delim, q, wi) && field_index(l@, delim, q, wi)
                == f,
            !seen_open ==> forall|i: int|
                0 <= i < j ==> !(opens_at(l@, delim, q, i) && field_index(l@, delim, q, i) == f),
            forall|a: int, b: int|
                0 <= a < b < j ==> !(opens_at(l@, delim, q, a) && field_index(l@, delim, q, a) == f
                    && closes_at(l@, delim, q, b)),
        decreases l@.len() - j,
    {
        let x = l[j];
        let closes = x == q && (j + 1 == l.len() || l[j + 1] == delim);
        if seen_open && closes {
            assert(opens_at(l@, delim, q, wi) && closes_at(l@, delim, q, j as int));
            return true;
        }
        let opens = x == q && (j == 0 || l[j - 1] == delim);
        assert(field_index(l@, delim, q, j as int) == c - 1);
        if opens && !seen_open && c - 1 == f {
            seen_open = true;
            proof {
                wi = j as int;
            }
        }
        assert(l@.subrange(0, j + 1).drop_last() =~= l@.subrange(0, j as int));
        if x == q {
            open = !open;
        } else if x == delim && !open {
            c = c + 1;
        }
        j = j + 1;
    }
    false
}

fn count_wrap_rows(lines: &Vec<Vec<u8>>, delim: u8, q: u8, f: usize) -> (r: usize)
    requires
        forall|i: int| 0 <= i < lines@.len() ==> (#[trigger] lines@[i])@.len() < usize::MAX,
    ensures
        r as nat == wrap_rows(rows_view(lines@), delim, q, f as int),
{
    let ghost ls = rows_view(lines@);
    let mut n: usize = 0;
    let mut i: usize = 0;
    assert(ls.subrange(0, 0) =~= Seq::<Seq<u8>>::empty());
    while i < lines.len()
        invariant
            i <= lines@.len(),
            n <= i,
            ls == rows_view(lines@),
            forall|k: int| 0 <= k < lines@.len() ==> (#[trigger] lines@[k])@.len() < usize::MAX,
            n as nat == wrap_rows(ls.subrange(0, i as int), delim, q, f as int),
        decreases lines@.len() - i,
    {
        assert(ls.subrange(0, i + 1).drop_last() =~= ls.subrange(0, i as int));
        assert(ls[i as int] == lines@[i as int]@);
        if wraps_in(lines[i].as_slice(), delim, q, f) {
            n = n + 1;
        }
        i = i + 1;
    }
    assert(ls.subrange(0, i as int) =~= ls);
    n
}

fn longest_line(lines: &Vec<Vec<u8>>) -> (r: usize)
    ensures
        r as nat == max_len(rows_view(lines@)),
{
    let ghost ls = rows_view(lines@);
    let mut m: usize = 0;
    let mut i: usize = 0;
    assert(ls.subrange(0, 0) =~= Seq::<Seq<u8>>::empty());
    while i < lines.len()
        invariant
            i <= lines@.len(),
            ls == rows_view(lines@),
            m as nat == max_len(ls.subrange(0, i as int)),
        decreases lines@.len() - i,
    {
        assert(ls.subrange(0, i + 1).drop_last() =~= ls.subrange(0, i as int));
        assert(ls[i as int] == lines@[i as int]@);
        if lines[i].len() > m {
            m = lines[i].len();
        }
        i = i + 1;
    }
    assert(ls.subrange(0, i as int) =~= ls);
    m
}

/// Whether `q` occurs in some line.
pub open spec fn occurs_in(lines: Seq<Seq<u8>>, q: u8) -> bool {
    exists|k: int, i: int| 0 <= k < lines.len() && 0 <= i < lines[k].len() && #[trigger] lines[k][i] == q
}

fn byte_occurs(lines: &Vec<Vec<u8>>, q: u8) -> (r: bool)
    ensures
        r == occurs_in(rows_view(lines@), q),
{
    let ghost ls = rows_view(lines@);
    let mut k: usize = 0;
    while k < lines.len()
        invariant
            k <= lines@.len(),
            ls == rows_view(lines@),
            forall|a: int, i: int| 0 <= a < k && 0 <= i < ls[a].len() ==> #[trigger] ls[a][i] != q,
        decreases lines@.len() - k,
    {
        assert(ls[k as int] == lines@[k as int]@);
        let mut i: usize = 0;
        while i < lines[k].len()
            invariant
                k < lines@.len(),
                i <= lines@[k as int]@.len(),
                ls == rows_view(lines@),
                ls[k as int] == lines@[k as int]@,
                forall|p: int| 0 <= p < i ==> #[trigger] ls[k as int][p] != q,
            decreases lines@[k as int]@.len() - i,
        {
            if lines[k][i] == q {
                assert(ls[k as int][i as int] == q);
                return true;
            }
            i = i + 1;
        }
        k = k + 1;
    }
    false
}

/// A byte that wraps no field of any line scores nothing.
pub proof fn lemma_no_wraps_no_score(lines: Seq<Seq<u8>>, delim: u8, q: u8)
    requires
        forall|k: int, f: int| 0 <= k < lines.len() ==> !#[trigger] wraps_at(lines[k], delim, q, f),
    ensures
        quote_score(lines, delim, q) == 0,
{
    assert forall|f: int| wrap_rows(lines, delim, q, f) == 0 by {
        lemma_no_wrap_rows(lines, delim, q, f);
    }
    lemma_score_zero(lines, delim, q, max_len(lines) as int);
}

proof fn lemma_no_wrap_rows(lines: Seq<Seq<u8>>, delim: u8, q: u8, f: int)
    requires
        forall|k: int, g: int| 0 <= k < lines.len() ==> !#[trigger] wraps_at(lines[k], delim, q, g),
    ensures
        wrap_rows(lines, delim, q, f) == 0,
    decreases lines.len(),
{
    if lines.len() > 0 {
        assert(!wraps_at(lines[lines.len() - 1], delim, q, f));
        lemma_no_wrap_rows(lines.drop_last(), delim, q, f);
    }
}

proof fn lemma_score_zero(lines: Seq<Seq<u8>>, delim: u8, q: u8, n: int)
    requires
        forall|f: int| wrap_rows(lines, delim, q, f) == 0,
    ensures
        quote_score_upto(lines, delim, q, n) == 0,
    decreases n,
{
    if n > 0 {
        lemma_score_zero(lines, delim, q, n - 1);
        assert(wrap_rows(lines, delim, q, n - 1) == 0);
    }
}

/// A byte that occurs in no line wraps no field.
pub proof fn lemma_absent_byte_wraps_nothing(lines: Seq<Seq<u8>>, delim: u8, q: u8)
    requires
        !occurs_in(lines, q),
    ensures
        forall|k: int, f: int| 0 <= k < lines.len() ==> !#[trigger] wraps_at(lines[k], delim, q, f),
{
    assert forall|k: int, f: int| 0 <= k < lines.len() implies !#[trigger] wraps_at(
        lines[k],
        delim,
        q,
        f,
    ) by {
        assert forall|i: int| !opens_at(lines[k], delim, q, i) by {
            if 0 <= i < lines[k].len() && lines[k][i] == q {
                assert(occurs_in(lines, q));
            }
        }
    }
}

fn score_quote(lines: &Vec<Vec<u8>>, delim: u8, q: u8) -> (r: usize)
    requires
        forall|i: int| 0 <= i < lines@.len() ==> (#[trigger] lines@[i])@.len() < usize::MAX,
    ensures
        r as nat == quote_score(rows_view(lines@), delim, q),
{
    let ghost ls = rows_view(lines@);
    if !byte_occurs(lines, q) {
        proof {
            lemma_absent_byte_wraps_nothing(ls, delim, q);
            lemma_no_wraps_no_score(ls, delim, q);
        }
        return 0;
    }
    let w = longest_line(lines);
    let mut best: usize = 0;
    let mut f: usize = 0;
    while f < w
        invariant
            f <= w,
            w as nat == max_len(ls),
            ls == rows_view(lines@),
            forall|i: int| 0 <= i < lines@.len() ==> (#[trigger] lines@[i])@.len() < usize::MAX,
            best as nat == quote_score_upto(ls, delim, q, f as int),
        decreases w - f,
    {
        let here = count_wrap_rows(lines, delim, q, f);
        if here > best {
            best = here;
        }
        f = f + 1;
    }
    best
}

/// The quote character of the lines, given their delimiter.
pub fn infer_quote(lines: &Vec<Vec<u8>>, delim: u8) -> (r: Option<u8>)
    requires
        forall|i: int| 0 <= i < lines@.len() ==> (#[trigger] lines@[i])@.len() < usize::MAX,
    ensures
        r == detect_quote(rows_view(lines@), delim),
{
    let ghost ls = rows_view(lines@);
    let mut best: Option<u8> = None;
    let mut best_score: usize = 0;
    let mut n: usize = 0;
    while n < 256
        invariant
            n <= 256,
            ls == rows_view(lines@),
            forall|i: int| 0 <= i < lines@.len() ==> (#[trigger] lines@[i])@.len() < usize::MAX,
            best == quote_upto(ls, delim, n as int),
            best matches Some(p) ==> best_score as nat == quote_score(ls, delim, p),
        decreases 256 - n,
    {
        let b = n as u8;
        let candidate = b != delim && ((33 <= b && b <= 47) || (58 <= b && b <= 64) || (91 <= b
            && b <= 96) || (123 <= b && b <= 126));
        if candidate {
            let s = score_quote(lines, delim, b);
            let better = match best {
                None => true,
                Some(_) => s > best_score,
            };
            if s >= MIN_QUOTED_ROWS && better {
                best = Some(b);
                best_score = s;
            }
        }
        n = n + 1;
    }
    best
}

/// Whether the lines have varying field counts under the delimiter and quote.
pub fn infer_flexible(lines: &Vec<Vec<u8>>, delim: u8, quote: Option<u8>) -> (r: bool)
    requires
        forall|i: int| 0 <= i < lines@.len() ==> (#[trigger] lines@[i])@.len() < usize::MAX,
    ensures
        r == counts_vary(rows_view(lines@), delim, quote),
{
    let ghost ls = rows_view(lines@);
    if lines.len() == 0 {
        return false;
    }
    let first = count_fields(lines[0].as_slice(), delim, quote);
    assert(ls[0] == lines@[0]@);
    let mut i: usize = 1;
    while i < lines.len()
        invariant
            1 <= i <= lines@.len(),
            ls == rows_view(lines@),
            first as nat == field_count(ls[0], delim, quote),
            forall|k: int| 0 <= k < lines@.len() ==> (#[trigger] lines@[k])@.len() < usize::MAX,
            forall|k: int| 0 <= k < i ==> #[trigger] field_count(ls[k], delim, quote) == field_count(
                ls[0],
                delim,
                quote,
            ),
        decreases lines@.len() - i,
    {
        let c = count_fields(lines[i].as_slice(), delim, quote);
        assert(ls[i as int] == lines@[i as int]@);
        if c != first {
            assert(field_count(ls[i as int], delim, quote) != field_count(ls[0], delim, quote));
            return true;
        }
        i = i + 1;
    }
    false
}

/// The line holds `q` twice in a row.
pub open spec fn has_doubled(l: Seq<u8>, q: u8) -> bool {
    exists|i: int| 0 <= i && i + 1 < l.len() && l[i] == q && #[trigger] l[i + 1] == q
}

/// Whether a doubled quote character occurs in the lines: with quoting on, such a pair stands
/// for one quote character inside a quoted field.
pub open spec fn detect_doubled(lines: Seq<Seq<u8>>, quote: Option<u8>) -> bool {
    match quote {
        Some(q) => exists|k: int| 0 <= k < lines.len() && has_doubled(#[trigger] lines[k], q),
        None => false,
    }
}

fn doubled_in(l: &[u8], q: u8) -> (r: bool)
    ensures
        r == has_doubled(l@, q),
{
    let mut i: usize = 0;
    while i < l.len()
        invariant
            i <= l@.len(),
            forall|j: int| 0 <= j < i && j + 1 < l@.len() ==> !(l@[j] == q && #[trigger] l@[j + 1] == q),
        decreases l@.len() - i,
    {
        if i + 1 < l.len() && l[i] == q && l[i + 1] == q {
            return true;
        }
        i = i + 1;
    }
    proof {
        assert forall|j: int| 0 <= j && j + 1 < l@.len() implies !(l@[j] == q && #[trigger] l@[j + 1]
            == q) by {
            assert(j < i);
        }
    }
    false
}

/// Whether the lines hold a doubled quote character, for the given quote.
pub fn infer_doubled(lines: &Vec<Vec<u8>>, quote: Option<u8>) -> (r: bool)
    ensures
        r == detect_doubled(rows_view(lines@), quote),
{
    let ghost ls = rows_view(lines@);
    if quote.is_none() {
        return false;
    }
    let q = quote.unwrap();
    let mut k: usize = 0;
    while k < lines.len()
        invariant
            k <= lines@.len(),
            ls == rows_view(lines@),
            quote == Some(q),
            forall|j: int| 0 <= j < k ==> !has_doubled(#[trigger] ls[j], q),
        decreases lines@.len() - k,
    {
        assert(ls[k as int] == lines@[k as int]@);
        if doubled_in(lines[k].as_slice(), q) {
            assert(has_doubled(ls[k as int], q));
            assert(quote == Some(q));
            assert(detect_doubled(ls, quote));
            return true;
        }
        k = k + 1;
    }
    false
}

} // verus!
