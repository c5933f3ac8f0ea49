//! Splitting a sample into lines and counting the fields of a line.
use vstd::prelude::*;

verus! {

/// Line feed.
pub const LF: u8 = 10;

/// Carriage return.
pub const CR: u8 = 13;

/// The contents of a list of byte vectors.
pub open spec fn rows_view(v: Seq<Vec<u8>>) -> Seq<Seq<u8>> {
    v.map_values(|x: Vec<u8>| x@)
}

/// The pieces of `s` between occurrences of `sep` (always at least one piece).
pub open spec fn split_on(s: Seq<u8>, sep: u8) -> Seq<Seq<u8>>
    decreases s.len(),
{
    if s.len() == 0 {
        seq![Seq::<u8>::empty()]
    } else {
        let prev = split_on(s.drop_last(), sep);
        if s.last() == sep {
            prev.push(Seq::<u8>::empty())
        } else {
            prev.update(prev.len() - 1, prev.last().push(s.last()))
        }
    }
}

pub proof fn lemma_split_on_nonempty(s: Seq<u8>, sep: u8)
    ensures
        split_on(s, sep).len() >= 1,
    decreases s.len(),
{
    if s.len() > 0 {
        lemma_split_on_nonempty(s.drop_last(), sep);
    }
}

/// A line without its trailing carriage return.
pub open spec fn strip_cr(l: Seq<u8>) -> Seq<u8> {
    if l.len() > 0 && l.last() == CR {
        l.drop_last()
    } else {
        l
    }
}

/// The lines of a sample: the pieces between line feeds, without a final empty piece, each
/// without a trailing carriage return.
pub open spec fn sample_lines(s: Seq<u8>) -> Seq<Seq<u8>> {
    let parts = split_on(s, LF);
    let body = if parts.last().len() == 0 {
        parts.drop_last()
    } else {
        parts
    };
    body.map_values(|l: Seq<u8>| strip_cr(l))
}

/// Field count and whether a quote is open, after scanning `l` from the left.
pub open spec fn scan_fields(l: Seq<u8>, delim: u8, quote: Option<u8>) -> (nat, bool)
    decreases l.len(),
{
    if l.len() == 0 {
        (1, false)
    } else {
        let (c, open) = scan_fields(l.drop_last(), delim, quote);
        if quote == Some(l.last()) {
            (c, !open)
        } else if l.last() == delim && !open {
            (c + 1, open)
        } else {
            (c, open)
        }
    }
}

/// Number of fields of a line: one more than the delimiters that stand outside quotes
/// (`quote == None`: every delimiter counts).
pub open spec fn field_count(l: Seq<u8>, delim: u8, quote: Option<u8>) -> nat {
    scan_fields(l, delim, quote).0
}

/// Splits `s` at every `sep`.
pub fn split_bytes(s: &[u8], sep: u8) -> (r: Vec<Vec<u8>>)
    ensures
        rows_view(r@) == split_on(s@, sep),
        forall|k: int| 0 <= k < r@.len() ==> (#[trigger] r@[k])@.len() <= s@.len(),
{
    let mut parts: Vec<Vec<u8>> = Vec::new();
    let mut cur: Vec<u8> = Vec::new();
    let mut i: usize = 0;
    assert(s@.subrange(0, 0) =~= Seq::<u8>::empty());
    assert(rows_view(parts@).push(cur@) =~= split_on(s@.subrange(0, 0), sep));
    while i < s.len()
        invariant
            i <= s@.len(),
            rows_view(parts@).push(cur@) == split_on(s@.subrange(0, i as int), sep),
            cur@.len() <= i,
            forall|k: int| 0 <= k < parts@.len() ==> (#[trigger] parts@[k])@.len() <= i,
        decreases s@.len() - i,
    {
        let b = s[i];
        proof {
            assert(s@.subrange(0, i + 1).drop_last() =~= s@.subrange(0, i as int));
        }
        if b == sep {
            let old_cur = cur;
            cur = Vec::new();
            proof {
                assert(rows_view(parts@.push(old_cur)) =~= rows_view(parts@).push(old_cur@));
            }
            parts.push(old_cur);
        } else {
            let ghost pv = rows_view(parts@).push(cur@);
            cur.push(b);
            assert(rows_view(parts@).push(cur@) =~= pv.update(pv.len() - 1, pv.last().push(b)));
        }
        i = i + 1;
    }
    assert(s@.subrange(0, i as int) =~= s@);
    let ghost before = parts@;
    parts.push(cur);
    assert(rows_view(parts@) =~= rows_view(before).push(parts@.last()@));
    parts
}

/// The lines of a sample.
pub fn split_lines(s: &[u8]) -> (r: Vec<Vec<u8>>)
    ensures
        rows_view(r@) == sample_lines(s@),
        forall|k: int| 0 <= k < r@.len() ==> (#[trigger] r@[k])@.len() <= s@.len(),
{
    let mut parts = split_bytes(s, LF);
    proof {
        lemma_split_on_nonempty(s@, LF);
    }
    let n = parts.len();
    if parts[n - 1].len() == 0 {
        let ghost before = parts@;
        parts.pop();
        assert(rows_view(parts@) =~= rows_view(before).drop_last());
    }
    let ghost body = rows_view(parts@);
    let mut out: Vec<Vec<u8>> = Vec::new();
    let mut i: usize = 0;
    while i < parts.len()
        invariant
            i <= parts@.len(),
            body == rows_view(parts@),
            forall|k: int| 0 <= k < parts@.len() ==> (#[trigger] parts@[k])@.len() <= s@.len(),
            forall|k: int| 0 <= k < out@.len() ==> (#[trigger] out@[k])@.len() <= s@.len(),
            rows_view(out@) =~= body.subrange(0, i as int).map_values(|l: Seq<u8>| strip_cr(l)),
        decreases parts@.len() - i,
    {
        let mut line = parts[i].clone();
        let k = line.len();
        if k > 0 && line[k - 1] == CR {
            line.pop();
        }
        assert(line@ == strip_cr(body[i as int]));
        let ghost prev = out@;
        out.push(line);
        assert(rows_view(out@) =~= rows_view(prev).push(line@));
        assert(body.subrange(0, i + 1).map_values(|l: Seq<u8>| strip_cr(l)) =~= body.subrange(
            0,
            i as int,
        ).map_values(|l: Seq<u8>| strip_cr(l)).push(strip_cr(body[i as int])));
        i = i + 1;
    }
    assert(body.subrange(0, i as int) =~= body);
    out
}

/// Number of fields of `l` under `delim`, with delimiters inside `quote` not counted.
pub fn count_fields(l: &[u8], delim: u8, quote: Option<u8>) -> (r: usize)
    requires
        l@.len() < usize::MAX,
    ensures
        r == field_count(l@, delim, quote),
{
    let mut c: usize = 1;
    let mut open = false;
    let mut i: usize = 0;
    assert(l@.subrange(0, 0) =~= Seq::<u8>::empty());
    while i < l.len()
        invariant
            i <= l@.len() < usize::MAX,
            c <= i + 1,
            (c as nat, open) == scan_fields(l@.subrange(0, i as int), delim, quote),
        decreases l@.len() - i,
    {
        let b = l[i];
        assert(l@.subrange(0, i + 1).drop_last() =~= l@.subrange(0, i as int));
        let is_quote = match quote {
            Some(q) => q == b,
            None => false,
        };
        if is_quote {
            open = !open;
        } else if b == delim && !open {
            c = c + 1;
        }
        i = i + 1;
    }
    assert(l@.subrange(0, i as int) =~= l@);
    c
}

} // verus!
