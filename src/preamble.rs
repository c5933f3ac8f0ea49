//! Finding the non-tabular lines that precede the table.
use vstd::prelude::*;
use crate::lines::{field_count, count_fields, rows_view};
use crate::quoting::{DOUBLE_QUOTE, SINGLE_QUOTE};

verus! {

/// Standard bound on the leading lines that may be taken for a preamble.
pub const MAX_PREAMBLE: usize = 20;

/// Standard number of following lines that a candidate first table line is compared with.
pub const WINDOW: usize = 10;

/// Field count with quote `q` honoured.
pub open spec fn quoted_count(l: Seq<u8>, delim: u8, q: u8) -> nat {
    field_count(l, delim, Some(q))
}

/// Number of lines compared with line `k`: at most `window`.
pub open spec fn window_len(lines: Seq<Seq<u8>>, k: int, window: nat) -> int {
    if lines.len() - k - 1 < window {
        lines.len() - k - 1
    } else {
        window as int
    }
}

/// Among the `n` lines after line `k`, the number with the field count of line `k`.
pub open spec fn window_matches(lines: Seq<Seq<u8>>, k: int, delim: u8, q: u8, n: int) -> nat
    decreases n,
{
    if n <= 0 {
        0
    } else {
        window_matches(lines, k, delim, q, n - 1) + if quoted_count(lines[k + n], delim, q)
            == quoted_count(lines[k], delim, q) {
            1nat
        } else {
            0nat
        }
    }
}

/// Line `k` splits into two or more fields under `delim` with quote `q` honoured, and a strict
/// majority of the lines after it split into as many.
pub open spec fn starts_table_with(
    lines: Seq<Seq<u8>>,
    k: int,
    delim: u8,
    q: u8,
    window: nat,
) -> bool {
    &&& quoted_count(lines[k], delim, q) >= 2
    &&& 2 * window_matches(lines, k, delim, q, window_len(lines, k, window)) > window_len(
        lines,
        k,
        window,
    )
}

/// The table starts at line `k` under one of the candidate delimiters, with quote `q`.
pub open spec fn starts_table_quoted(lines: Seq<Seq<u8>>, k: int, q: u8, window: nat) -> bool {
    starts_table_with(lines, k, 9, q, window) || starts_table_with(lines, k, 44, q, window)
        || starts_table_with(lines, k, 59, q, window) || starts_table_with(lines, k, 124, q, window)
}

/// The table starts at line `k` under one of the candidate delimiters, counted with double or
/// with single quotes honoured.
pub open spec fn starts_table(lines: Seq<Seq<u8>>, k: int, window: nat) -> bool {
    starts_table_quoted(lines, k, DOUBLE_QUOTE, window) || starts_table_quoted(
        lines,
        k,
        SINGLE_QUOTE,
        window,
    )
}

/// Bound of the lines searched for the table's start: at most `max_preamble`.
pub open spec fn search_end(lines: Seq<Seq<u8>>, max_preamble: nat) -> int {
    if lines.len() < max_preamble {
        lines.len() as int
    } else {
        max_preamble as int
    }
}

/// The first line at or after `k` where the table starts, or 0 where none does.
pub open spec fn table_start_from(lines: Seq<Seq<u8>>, k: int, max_preamble: nat, window: nat) -> nat
    decreases search_end(lines, max_preamble) - k,
{
    if k < 0 || k >= search_end(lines, max_preamble) {
        0
    } else if starts_table(lines, k, window) {
        k as nat
    } else {
        table_start_from(lines, k + 1, max_preamble, window)
    }
}

/// Number of preamble lines.
pub open spec fn preamble_rows(lines: Seq<Seq<u8>>, max_preamble: nat, window: nat) -> nat {
    table_start_from(lines, 0, max_preamble, window)
}

fn table_starts_with(lines: &Vec<Vec<u8>>, k: usize, delim: u8, q: u8, window: usize) -> (r: bool)
    requires
        k < lines@.len(),
        forall|i: int| 0 <= i < lines@.len() ==> (#[trigger] lines@[i])@.len() < usize::MAX,
    ensures
        r == starts_table_with(rows_view(lines@), k as int, delim, q, window as nat),
{
    let ghost ls = rows_view(lines@);
    let head = count_fields(lines[k].as_slice(), delim, Some(q));
    assert(ls[k as int] == lines@[k as int]@);
    if head < 2 {
        return false;
    }
    let w: usize = if lines.len() - k - 1 < window {
        lines.len() - k - 1
    } else {
        window
    };
    let total = lines.len();
    let mut m: usize = 0;
    let mut n: usize = 0;
    while n < w
        invariant
            total as int == lines@.len(),
            n <= w,
            w as int == window_len(ls, k as int, window as nat),
            k + w < lines@.len(),
            k < lines@.len(),
            ls == rows_view(lines@),
            head as nat == quoted_count(ls[k as int], delim, q),
            forall|i: int| 0 <= i < lines@.len() ==> (#[trigger] lines@[i])@.len() < usize::MAX,
            m <= n,
            m as nat == window_matches(ls, k as int, delim, q, n as int),
        decreases w - n,
    {
        let j: usize = k + n + 1;
        let c = count_fields(lines[j].as_slice(), delim, Some(q));
        assert(ls[j as int] == lines@[j as int]@);
        if c == head {
            m = m + 1;
        }
        n = n + 1;
    }
    m > w - m
}

fn table_starts_quoted(lines: &Vec<Vec<u8>>, k: usize, q: u8, window: usize) -> (r: bool)
    requires
        k < lines@.len(),
        forall|i: int| 0 <= i < lines@.len() ==> (#[trigger] lines@[i])@.len() < usize::MAX,
    ensures
        r == starts_table_quoted(rows_view(lines@), k as int, q, window as nat),
{
    table_starts_with(lines, k, 9, q, window) || table_starts_with(lines, k, 44, q, window)
        || table_starts_with(lines, k, 59, q, window) || table_starts_with(lines, k, 124, q, window)
}

/// Number of non-tabular lines before the table: the first line (among the first
/// `max_preamble`) from which the table starts, or 0 where no line starts it.
pub fn count_preamble(lines: &Vec<Vec<u8>>, max_preamble: usize, window: usize) -> (r: usize)
    requires
        forall|i: int| 0 <= i < lines@.len() ==> (#[trigger] lines@[i])@.len() < usize::MAX,
    ensures
        r as nat == preamble_rows(rows_view(lines@), max_preamble as nat, window as nat),
        r <= lines@.len(),
{
    let ghost ls = rows_view(lines@);
    let end: usize = if lines.len() < max_preamble {
        lines.len()
    } else {
        max_preamble
    };
    let mut k: usize = 0;
    while k < end
        invariant
            k <= end,
            end as int == search_end(ls, max_preamble as nat),
            end <= lines@.len(),
            ls == rows_view(lines@),
            forall|i: int| 0 <= i < lines@.len() ==> (#[trigger] lines@[i])@.len() < usize::MAX,
            table_start_from(ls, 0, max_preamble as nat, window as nat) == table_start_from(
                ls,
                k as int,
                max_preamble as nat,
                window as nat,
            ),
        decreases end - k,
    {
        if table_starts_quoted(lines, k, DOUBLE_QUOTE, window) || table_starts_quoted(
            lines,
            k,
            SINGLE_QUOTE,
            window,
        ) {
            return k;
        }
        k = k + 1;
    }
    0
}

} // verus!
