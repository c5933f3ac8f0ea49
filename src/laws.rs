//! Properties of the sniffer, stated over its specification and proved.
use vstd::prelude::*;
use crate::field_type::{Type, rank, join_spec, join_opt, value_type, column_type};
use crate::lines::{field_count, scan_fields};
use crate::delimiter::{
    candidates,
    naive_counts,
    freq,
    mode_index,
    seen_before,
    distinct,
    modal_fields,
    support,
    spread,
    best_delimiter,
    best_of,
    confident,
};
use crate::quoting::{
    lemma_absent_byte_wraps_nothing,
    DOUBLE_QUOTE,
    SINGLE_QUOTE,
    MIN_QUOTED_ROWS,
    is_quote_candidate,
    opens_at,
    closes_at,
    field_index,
    wraps_at,
    wrap_rows,
    max_len,
    quote_score,
    quote_score_upto,
    quote_upto,
    detect_quote,
    counts_vary,
    lemma_no_wraps_no_score,
};
use crate::preamble::{
    quoted_count,
    window_len,
    window_matches,
    starts_table,
    starts_table_quoted,
    starts_table_with,
    search_end,
    table_start_from,
    preamble_rows,
};
use crate::schema::{cell, column_values, width, labels_column, label_votes, detect_header};
use crate::sniffer::{SniffLimits, SniffError, sniff_outcome, table_lines, describes};
use crate::lines::sample_lines;
use crate::metadata::{Dialect, Quote};
use crate::metadata::Metadata;
use crate::schema::strings_view;

verus! {

/// Joining types does not depend on their order.
pub proof fn lemma_join_commutative(a: Option<Type>, b: Option<Type>)
    ensures
        join_opt(a, b) == join_opt(b, a),
{
}

/// Joining types does not depend on grouping.
pub proof fn lemma_join_associative(a: Option<Type>, b: Option<Type>, c: Option<Type>)
    ensures
        join_opt(join_opt(a, b), c) == join_opt(a, join_opt(b, c)),
{
}

/// An empty value leaves a type unchanged, and Text absorbs every type.
pub proof fn lemma_join_identity_and_absorption(a: Option<Type>)
    ensures
        join_opt(None, a) == a,
        join_opt(a, None) == a,
        join_opt(a, Some(Type::Text)) == Some(Type::Text),
        join_opt(a, a) == a,
{
}

/// The joined type is at least as general as each type joined.
pub proof fn lemma_join_upper_bound(a: Type, b: Type)
    ensures
        rank(join_spec(a, b)) >= rank(a),
        rank(join_spec(a, b)) >= rank(b),
{
}

/// Sniffing is deterministic: two outcomes of sniffing one sample under the same limits are
/// the same error, or metadata with equal dialect, average record length, number of fields,
/// field names and types.
pub proof fn lemma_sniff_deterministic(
    s: Seq<u8>,
    lim: SniffLimits,
    r1: Result<Metadata, SniffError>,
    r2: Result<Metadata, SniffError>,
)
    requires
        sniff_outcome(s, lim, r1),
        sniff_outcome(s, lim, r2),
    ensures
        r1 is Ok <==> r2 is Ok,
        r1 is Err ==> r1 == r2,
        r1 matches Ok(m1) ==> r2 matches Ok(m2) && m1.dialect == m2.dialect && m1.avg_record_len
            == m2.avg_record_len && m1.num_fields == m2.num_fields && strings_view(m1.fields@)
            == strings_view(m2.fields@) && m1.types@ == m2.types@,
{
    if let Err(e) = r1 {
        match e {
            SniffError::EmptySample => {},
            SniffError::NoConsistentDelimiter => {},
            SniffError::Unreadable => {},
        }
    }
    if let Err(e) = r2 {
        match e {
            SniffError::EmptySample => {},
            SniffError::NoConsistentDelimiter => {},
            SniffError::Unreadable => {},
        }
    }
}

proof fn lemma_width_uniform(recs: Seq<Seq<Seq<u8>>>, n: nat)
    requires
        recs.len() > 0,
        forall|r: int| 0 <= r < recs.len() ==> (#[trigger] recs[r]).len() == n,
    ensures
        width(recs) == n,
    decreases recs.len(),
{
    if recs.len() > 1 {
        lemma_width_uniform(recs.drop_last(), n);
    } else {
        assert(width(recs.drop_last()) == 0);
    }
}

proof fn lemma_column_all(vals: Seq<Seq<u8>>, t: Type)
    requires
        vals.len() > 0,
        forall|i: int| 0 <= i < vals.len() ==> value_type(#[trigger] vals[i]) == Some(t),
    ensures
        column_type(vals) == Some(t),
    decreases vals.len(),
{
    if vals.len() > 1 {
        lemma_column_all(vals.drop_last(), t);
    } else {
        assert(column_type(vals.drop_last()) == None::<Type>);
    }
    assert(value_type(vals.last()) == Some(t));
}

proof fn lemma_votes(recs: Seq<Seq<Seq<u8>>>, k: int, all: bool)
    requires
        0 <= k,
        forall|c: int| 0 <= c < k ==> labels_column(recs, c) == all,
    ensures
        label_votes(recs, k) == if all {
            k as nat
        } else {
            0nat
        },
    decreases k,
{
    if k > 0 {
        lemma_votes(recs, k - 1, all);
    }
}

/// A first record of Text labels over records of Integers in every column is a header row;
/// a first record of Integers is not. Two or more columns are needed for either.
pub proof fn lemma_header_round_trip(recs: Seq<Seq<Seq<u8>>>, n: nat, first: Type)
    requires
        recs.len() >= 2,
        n >= 2,
        first == Type::Text || first == Type::Integer,
        forall|r: int| 0 <= r < recs.len() ==> (#[trigger] recs[r]).len() == n,
        forall|c: int| 0 <= c < n ==> value_type(#[trigger] recs[0][c]) == Some(first),
        forall|r: int, c: int|
            1 <= r < recs.len() && 0 <= c < n ==> value_type(#[trigger] recs[r][c]) == Some(
                Type::Integer,
            ),
    ensures
        detect_header(recs) == (first == Type::Text),
{
    lemma_width_uniform(recs, n);
    assert forall|c: int| 0 <= c < n implies labels_column(recs, c) == (first == Type::Text) by {
        let vals = column_values(recs, c, 1);
        assert forall|i: int| 0 <= i < vals.len() implies value_type(#[trigger] vals[i]) == Some(
            Type::Integer,
        ) by {
            assert(vals[i] == cell(recs, 1 + i, c));
            assert(recs[1 + i].len() == n);
        }
        lemma_column_all(vals, Type::Integer);
        assert(recs[0].len() == n);
        assert(cell(recs, 0, c) == recs[0][c]);
    }
    lemma_votes(recs, n as int, first == Type::Text);
}

proof fn lemma_no_delimiter_one_field(l: Seq<u8>, d: u8)
    requires
        forall|i: int| 0 <= i < l.len() ==> l[i] != d,
    ensures
        scan_fields(l, d, None) == (1nat, false),
    decreases l.len(),
{
    if l.len() > 0 {
        lemma_no_delimiter_one_field(l.drop_last(), d);
    }
}

proof fn lemma_freq_uniform(cs: Seq<nat>, v: nat)
    requires
        forall|i: int| 0 <= i < cs.len() ==> cs[i] == v,
    ensures
        freq(cs, v) == cs.len(),
    decreases cs.len(),
{
    if cs.len() > 0 {
        lemma_freq_uniform(cs.drop_last(), v);
    }
}

proof fn lemma_mode_in_range(cs: Seq<nat>, n: int)
    requires
        1 <= n,
    ensures
        0 <= mode_index(cs, n) < n,
    decreases n,
{
    if n > 1 {
        lemma_mode_in_range(cs, n - 1);
    }
}

proof fn lemma_distinct_uniform(cs: Seq<nat>, n: int)
    requires
        1 <= n <= cs.len(),
        forall|i: int| 0 <= i < cs.len() ==> #[trigger] cs[i] == cs[0],
    ensures
        distinct(cs, n) == 1,
    decreases n,
{
    if n > 1 {
        lemma_distinct_uniform(cs, n - 1);
        assert(seen_before(cs, n - 1)) by {
            assert(cs[0] == cs[n - 1]);
        }
    } else {
        assert(distinct(cs, 0) == 0);
        assert(!seen_before(cs, 0));
    }
}

/// Statistics of a delimiter under which every line has `n` fields.
proof fn lemma_uniform_counts(lines: Seq<Seq<u8>>, d: u8, n: nat)
    requires
        lines.len() > 0,
        forall|i: int| 0 <= i < lines.len() ==> field_count(#[trigger] lines[i], d, None) == n,
    ensures
        modal_fields(lines, d) == n,
        support(lines, d) == lines.len(),
        spread(lines, d) == 1,
{
    let cs = naive_counts(lines, d);
    assert forall|i: int| 0 <= i < cs.len() implies cs[i] == n by {
        assert(field_count(lines[i], d, None) == n);
    }
    lemma_mode_in_range(cs, cs.len() as int);
    lemma_freq_uniform(cs, n);
    lemma_distinct_uniform(cs, cs.len() as int);
}

proof fn lemma_no_quote_found(lines: Seq<Seq<u8>>, d: u8, n: int)
    requires
        forall|b: u8| quote_score(lines, d, b) == 0,
    ensures
        quote_upto(lines, d, n) == None::<u8>,
    decreases n,
{
    if n > 0 {
        lemma_no_quote_found(lines, d, n - 1);
        assert(quote_score(lines, d, (n - 1) as u8) == 0);
    }
}

/// Lines that all split into the same `n >= 2` fields under one candidate delimiter `d`, that
/// hold no other candidate delimiter and in which no byte wraps a field: `d` is chosen, with
/// confidence, quoting is off and the field counts do not vary.
pub proof fn lemma_consistent_delimiter_recovered(lines: Seq<Seq<u8>>, d: u8, n: nat)
    requires
        lines.len() > 0,
        candidates().contains(d),
        n >= 2,
        forall|i: int| 0 <= i < lines.len() ==> field_count(#[trigger] lines[i], d, None) == n,
        forall|k: int, i: int|
            0 <= k < lines.len() && 0 <= i < lines[k].len() ==> #[trigger] lines[k][i] == d
                || !candidates().contains(lines[k][i]),
        forall|k: int, b: u8, f: int| 0 <= k < lines.len() ==> !#[trigger] wraps_at(lines[k], d, b, f),
    ensures
        best_delimiter(lines) == d,
        confident(lines),
        detect_quote(lines, d) == None::<u8>,
        !counts_vary(lines, d, None),
{
    let cands = candidates();
    assert(cands[0] == 9 && cands[1] == 44 && cands[2] == 59 && cands[3] == 124 && cands.len()
        == 4);
    assert forall|j: int| 0 <= j < cands.len() && cands[j] != d implies modal_fields(
        lines,
        #[trigger] cands[j],
    ) == 1 && support(lines, cands[j]) == lines.len() && spread(lines, cands[j]) == 1 by {
        let c = cands[j];
        assert(cands.contains(c));
        assert forall|i: int| 0 <= i < lines.len() implies field_count(
            #[trigger] lines[i],
            c,
            None,
        ) == 1 by {
            assert forall|p: int| 0 <= p < lines[i].len() implies lines[i][p] != c by {
                assert(lines[i][p] == d || !candidates().contains(lines[i][p]));
            }
            lemma_no_delimiter_one_field(lines[i], c);
        }
        lemma_uniform_counts(lines, c, 1);
    }
    lemma_uniform_counts(lines, d, n);
    assert(d == 9 || d == 44 || d == 59 || d == 124);
    assert(best_of(lines, 1) == cands[0]);
    assert(best_of(lines, 2) == if d == cands[1] {
        d
    } else {
        cands[0]
    });
    assert(best_of(lines, 3) == if d == cands[1] || d == cands[2] {
        d
    } else {
        cands[0]
    });
    assert(best_of(lines, 4) == d);
    assert forall|b: u8| quote_score(lines, d, b) == 0 by {
        lemma_no_wraps_no_score(lines, d, b);
    }
    lemma_no_quote_found(lines, d, 256);
}

/// A field as written: wrapped in `q` where it holds the delimiter.
pub open spec fn encode_field(f: Seq<u8>, d: u8, q: u8) -> Seq<u8> {
    if f.contains(d) {
        seq![q] + f + seq![q]
    } else {
        f
    }
}

/// A record as written: its encoded fields separated by `d`.
pub open spec fn encode_record(fs: Seq<Seq<u8>>, d: u8, q: u8) -> Seq<u8>
    decreases fs.len(),
{
    if fs.len() == 0 {
        Seq::<u8>::empty()
    } else if fs.len() == 1 {
        encode_field(fs[0], d, q)
    } else {
        encode_record(fs.drop_last(), d, q) + seq![d] + encode_field(fs.last(), d, q)
    }
}

proof fn lemma_encoded_prefix(fs: Seq<Seq<u8>>, d: u8, q: u8, m: int)
    requires
        1 <= m <= fs.len(),
    ensures
        encode_record(fs.take(m), d, q).len() <= encode_record(fs, d, q).len(),
        encode_record(fs, d, q).subrange(0, encode_record(fs.take(m), d, q).len() as int)
            == encode_record(fs.take(m), d, q),
        m < fs.len() ==> encode_record(fs, d, q).len() > encode_record(fs.take(m), d, q).len()
            && encode_record(fs, d, q)[encode_record(fs.take(m), d, q).len() as int] == d,
    decreases fs.len(),
{
    let p = encode_record(fs.take(m), d, q);
    let whole = encode_record(fs, d, q);
    if m == fs.len() {
        assert(fs.take(m) =~= fs);
        assert(whole.subrange(0, whole.len() as int) =~= whole);
    } else {
        let init = fs.drop_last();
        lemma_encoded_prefix(init, d, q, m);
        assert(init.take(m) =~= fs.take(m));
        let pi = encode_record(init, d, q);
        assert(whole == pi + seq![d] + encode_field(fs.last(), d, q));
        assert(whole.subrange(0, p.len() as int) =~= pi.subrange(0, p.len() as int));
        if m < init.len() {
            assert(whole[p.len() as int] == pi[p.len() as int]);
        } else {
            assert(init.take(m) =~= init);
            assert(whole[p.len() as int] == d);
        }
    }
}

/// Scanning state after `y`, started from `st`.
pub open spec fn scan_from(st: (nat, bool), y: Seq<u8>, d: u8, quote: Option<u8>) -> (nat, bool)
    decreases y.len(),
{
    if y.len() == 0 {
        st
    } else {
        let (c, open) = scan_from(st, y.drop_last(), d, quote);
        if quote == Some(y.last()) {
            (c, !open)
        } else if y.last() == d && !open {
            (c + 1, open)
        } else {
            (c, open)
        }
    }
}

proof fn lemma_scan_from_append(st: (nat, bool), y: Seq<u8>, z: Seq<u8>, d: u8, quote: Option<u8>)
    ensures
        scan_from(st, y + z, d, quote) == scan_from(scan_from(st, y, d, quote), z, d, quote),
    decreases z.len(),
{
    if z.len() == 0 {
        assert(y + z =~= y);
    } else {
        assert((y + z).drop_last() =~= y + z.drop_last());
        lemma_scan_from_append(st, y, z.drop_last(), d, quote);
    }
}

proof fn lemma_scan_is_scan_from(x: Seq<u8>, d: u8, quote: Option<u8>)
    ensures
        scan_fields(x, d, quote) == scan_from((1nat, false), x, d, quote),
    decreases x.len(),
{
    if x.len() > 0 {
        lemma_scan_is_scan_from(x.drop_last(), d, quote);
    }
}

proof fn lemma_scan_one(c: nat, open: bool, b: u8, d: u8, quote: Option<u8>)
    ensures
        scan_from((c, open), seq![b], d, quote) == if quote == Some(b) {
            (c, !open)
        } else if b == d && !open {
            (c + 1, open)
        } else {
            (c, open)
        },
{
    let s = seq![b];
    assert(s.len() == 1);
    assert(s.last() == b);
    assert(s.drop_last() =~= Seq::<u8>::empty());
    assert(scan_from((c, open), s.drop_last(), d, quote) == (c, open));
}

proof fn lemma_scan_plain(c: nat, open: bool, f: Seq<u8>, d: u8, q: u8)
    requires
        forall|i: int| 0 <= i < f.len() ==> f[i] != q,
        !open ==> forall|i: int| 0 <= i < f.len() ==> f[i] != d,
    ensures
        scan_from((c, open), f, d, Some(q)) == (c, open),
    decreases f.len(),
{
    if f.len() > 0 {
        lemma_scan_plain(c, open, f.drop_last(), d, q);
    }
}

proof fn lemma_scan_field(c: nat, f: Seq<u8>, d: u8, q: u8)
    requires
        q != d,
        forall|i: int| 0 <= i < f.len() ==> f[i] != q,
    ensures
        scan_from((c, false), encode_field(f, d, q), d, Some(q)) == (c, false),
{
    if f.contains(d) {
        lemma_scan_one(c, false, q, d, Some(q));
        lemma_scan_plain(c, true, f, d, q);
        lemma_scan_from_append((c, false), seq![q], f, d, Some(q));
        lemma_scan_from_append((c, false), seq![q] + f, seq![q], d, Some(q));
        lemma_scan_one(c, true, q, d, Some(q));
    } else {
        assert forall|i: int| 0 <= i < f.len() implies f[i] != d by {
            if f[i] == d {
                assert(f.contains(d));
            }
        }
        lemma_scan_plain(c, false, f, d, q);
    }
}

proof fn lemma_scan_record(fs: Seq<Seq<u8>>, d: u8, q: u8)
    requires
        fs.len() >= 1,
        q != d,
        forall|j: int, i: int| 0 <= j < fs.len() && 0 <= i < fs[j].len() ==> #[trigger] fs[j][i]
            != q,
    ensures
        scan_from((1nat, false), encode_record(fs, d, q), d, Some(q)) == (fs.len(), false),
    decreases fs.len(),
{
    let last = fs[fs.len() - 1];
    assert forall|i: int| 0 <= i < last.len() implies last[i] != q by {
        assert(fs[fs.len() - 1][i] != q);
    }
    if fs.len() == 1 {
        lemma_scan_field(1, fs[0], d, q);
    } else {
        let init = fs.drop_last();
        lemma_scan_record(init, d, q);
        let pi = encode_record(init, d, q);
        lemma_scan_from_append((1nat, false), pi, seq![d], d, Some(q));
        lemma_scan_one(init.len(), false, d, d, Some(q));
        lemma_scan_from_append((1nat, false), pi + seq![d], encode_field(fs.last(), d, q), d, Some(q));
        lemma_scan_field(fs.len(), fs.last(), d, q);
    }
}

proof fn lemma_count_bound(x: Seq<u8>, d: u8, quote: Option<u8>)
    ensures
        scan_fields(x, d, quote).0 <= x.len() + 1,
    decreases x.len(),
{
    if x.len() > 0 {
        lemma_count_bound(x.drop_last(), d, quote);
    }
}

proof fn lemma_quoted_field_written(fs: Seq<Seq<u8>>, d: u8, q: u8, j: int)
    requires
        0 <= j < fs.len(),
        fs[j].contains(d),
        q != d,
        forall|c: int, i: int| 0 <= c < fs.len() && 0 <= i < fs[c].len() ==> #[trigger] fs[c][i]
            != q,
    ensures
        wraps_at(encode_record(fs, d, q), d, q, j),
        j < encode_record(fs, d, q).len(),
{
    let line = encode_record(fs, d, q);
    let p = encode_record(fs.take(j + 1), d, q);
    let e = encode_field(fs[j], d, q);
    lemma_encoded_prefix(fs, d, q, j + 1);
    if j == 0 {
        assert(fs.take(1)[0] == fs[0]);
        assert(p == e);
    } else {
        assert(fs.take(j + 1).drop_last() =~= fs.take(j));
        assert(fs.take(j + 1).last() == fs[j]);
        assert(p == encode_record(fs.take(j), d, q) + seq![d] + e);
    }
    let i = p.len() - e.len();
    let k = p.len() - 1;
    assert(e.len() >= 2);
    assert(line[i] == p[i]);
    assert(line[k] == p[k]);
    assert(e[0] == q && e[e.len() - 1] == q);
    if j > 0 {
        assert(line[i - 1] == p[i - 1]);
        let pj = encode_record(fs.take(j), d, q);
        assert(line.subrange(0, i) =~= pj + seq![d]);
        let tj = fs.take(j);
        assert forall|c: int, x: int| 0 <= c < tj.len() && 0 <= x < tj[c].len() implies #[trigger] tj[c][x]
            != q by {
            assert(tj[c] == fs[c]);
        }
        lemma_scan_record(tj, d, q);
        lemma_scan_is_scan_from(pj + seq![d], d, Some(q));
        lemma_scan_from_append((1nat, false), pj, seq![d], d, Some(q));
        lemma_scan_one(j as nat, false, d, d, Some(q));
        assert(field_index(line, d, q, i) == j);
    } else {
        assert(line.subrange(0, 0) =~= Seq::<u8>::empty());
        assert(field_index(line, d, q, i) == 0);
    }
    lemma_count_bound(line.subrange(0, i), d, Some(q));
    assert(opens_at(line, d, q, i));
    assert(closes_at(line, d, q, k));
}

proof fn lemma_byte_not_written(fs: Seq<Seq<u8>>, d: u8, q: u8, b: u8)
    requires
        b != d,
        b != q,
        forall|j: int, i: int| 0 <= j < fs.len() && 0 <= i < fs[j].len() ==> #[trigger] fs[j][i]
            != b,
    ensures
        forall|i: int| 0 <= i < encode_record(fs, d, q).len() ==> #[trigger] encode_record(
            fs,
            d,
            q,
        )[i] != b,
    decreases fs.len(),
{
    if fs.len() > 0 {
        let last = fs.last();
        let e = encode_field(last, d, q);
        assert forall|i: int| 0 <= i < e.len() implies e[i] != b by {
            if last.contains(d) {
                if 1 <= i < e.len() - 1 {
                    assert(e[i] == last[i - 1]);
                    assert(fs[fs.len() - 1][i - 1] != b);
                }
            } else {
                assert(fs[fs.len() - 1][i] != b);
            }
        }
        if fs.len() > 1 {
            let init = fs.drop_last();
            lemma_byte_not_written(init, d, q, b);
            let pi = encode_record(init, d, q);
            let whole = encode_record(fs, d, q);
            assert(whole == pi + seq![d] + e);
            assert forall|i: int| 0 <= i < whole.len() implies #[trigger] whole[i] != b by {
                if i < pi.len() {
                    assert(whole[i] == pi[i]);
                } else if i == pi.len() {
                    assert(whole[i] == d);
                } else {
                    assert(whole[i] == e[i - pi.len() - 1]);
                }
            }
        } else {
            assert(encode_record(fs, d, q) == e);
        }
    }
}

proof fn lemma_wrap_rows_one(lines: Seq<Seq<u8>>, d: u8, q: u8, f: int, k: int)
    requires
        0 <= k < lines.len(),
        wraps_at(lines[k], d, q, f),
    ensures
        wrap_rows(lines, d, q, f) >= 1,
    decreases lines.len(),
{
    if k < lines.len() - 1 {
        lemma_wrap_rows_one(lines.drop_last(), d, q, f, k);
    }
}

proof fn lemma_wrap_rows_two(lines: Seq<Seq<u8>>, d: u8, q: u8, f: int, k1: int, k2: int)
    requires
        0 <= k1 < k2 < lines.len(),
        wraps_at(lines[k1], d, q, f),
        wraps_at(lines[k2], d, q, f),
    ensures
        wrap_rows(lines, d, q, f) >= 2,
    decreases lines.len(),
{
    if k2 < lines.len() - 1 {
        lemma_wrap_rows_two(lines.drop_last(), d, q, f, k1, k2);
    } else {
        lemma_wrap_rows_one(lines.drop_last(), d, q, f, k1);
    }
}

proof fn lemma_line_within_max(lines: Seq<Seq<u8>>, k: int)
    requires
        0 <= k < lines.len(),
    ensures
        lines[k].len() <= max_len(lines),
    decreases lines.len(),
{
    if k < lines.len() - 1 {
        lemma_line_within_max(lines.drop_last(), k);
    }
}

proof fn lemma_score_covers(lines: Seq<Seq<u8>>, d: u8, q: u8, n: int, f: int)
    requires
        0 <= f < n,
    ensures
        quote_score_upto(lines, d, q, n) >= wrap_rows(lines, d, q, f),
    decreases n,
{
    if f < n - 1 {
        lemma_score_covers(lines, d, q, n - 1, f);
    }
}

proof fn lemma_only_quote(lines: Seq<Seq<u8>>, d: u8, q: u8, n: int)
    requires
        0 <= n <= 256,
        is_quote_candidate(q, d),
        quote_score(lines, d, q) >= MIN_QUOTED_ROWS,
        forall|b: u8| b != q && is_quote_candidate(b, d) ==> #[trigger] quote_score(lines, d, b) == 0,
    ensures
        quote_upto(lines, d, n) == if n <= q {
            None::<u8>
        } else {
            Some(q)
        },
    decreases n,
{
    if n > 0 {
        lemma_only_quote(lines, d, q, n - 1);
        let b = (n - 1) as u8;
        assert(!is_quote_candidate(b, d) || quote_score(lines, d, b) == 0 || b == q);
    }
}

/// Records written with a quote byte `q` (punctuation other than the delimiter) around the
/// fields that hold the delimiter, where no field holds punctuation other than the delimiter
/// and two records hold the delimiter in the same field: quote detection finds `q`.
pub proof fn lemma_quote_recovered(
    rows: Seq<Seq<Seq<u8>>>,
    d: u8,
    q: u8,
    k1: int,
    k2: int,
    j: int,
)
    requires
        is_quote_candidate(q, d),
        forall|r: int, c: int, i: int|
            0 <= r < rows.len() && 0 <= c < rows[r].len() && 0 <= i < rows[r][c].len()
                ==> !is_quote_candidate(#[trigger] rows[r][c][i], d),
        0 <= k1 < k2 < rows.len(),
        0 <= j < rows[k1].len(),
        0 <= j < rows[k2].len(),
        rows[k1][j].contains(d),
        rows[k2][j].contains(d),
    ensures
        detect_quote(Seq::new(rows.len(), |r: int| encode_record(rows[r], d, q)), d) == Some(q),
{
    let lines = Seq::new(rows.len(), |r: int| encode_record(rows[r], d, q));
    assert forall|r: int, c: int, i: int|
        0 <= r < rows.len() && 0 <= c < rows[r].len() && 0 <= i < rows[r][c].len() implies #[trigger] rows[r][c][i]
        != q by {
        assert(!is_quote_candidate(rows[r][c][i], d));
    }
    let f1 = rows[k1];
    let f2 = rows[k2];
    assert forall|c: int, i: int| 0 <= c < f1.len() && 0 <= i < f1[c].len() implies #[trigger] f1[c][i]
        != q by {
        assert(rows[k1][c][i] != q);
    }
    assert forall|c: int, i: int| 0 <= c < f2.len() && 0 <= i < f2[c].len() implies #[trigger] f2[c][i]
        != q by {
        assert(rows[k2][c][i] != q);
    }
    lemma_quoted_field_written(f1, d, q, j);
    lemma_quoted_field_written(f2, d, q, j);
    lemma_wrap_rows_two(lines, d, q, j, k1, k2);
    lemma_line_within_max(lines, k1);
    lemma_score_covers(lines, d, q, max_len(lines) as int, j);
    assert forall|b: u8| b != q && is_quote_candidate(b, d) implies #[trigger] quote_score(
        lines,
        d,
        b,
    ) == 0 by {
        assert forall|k: int, i: int| 0 <= k < lines.len() && 0 <= i < lines[k].len() implies #[trigger] lines[k][i]
            != b by {
            let fs = rows[k];
            assert forall|c: int, p: int| 0 <= c < fs.len() && 0 <= p < fs[c].len() implies #[trigger] fs[c][p]
                != b by {
                assert(!is_quote_candidate(rows[k][c][p], d));
            }
            lemma_byte_not_written(fs, d, q, b);
        }
        lemma_absent_byte_wraps_nothing(lines, d, b);
        lemma_no_wraps_no_score(lines, d, b);
    }
    lemma_only_quote(lines, d, q, 256);
}

proof fn lemma_no_delimiter_single_field(l: Seq<u8>, d: u8, quote: Option<u8>)
    requires
        forall|i: int| 0 <= i < l.len() ==> l[i] != d,
    ensures
        field_count(l, d, quote) == 1,
    decreases l.len(),
{
    if l.len() > 0 {
        lemma_no_delimiter_single_field(l.drop_last(), d, quote);
    }
}

proof fn lemma_window_all_match(lines: Seq<Seq<u8>>, k: int, d: u8, q: u8, n: int)
    requires
        0 <= k,
        0 <= n,
        k + n < lines.len(),
        forall|i: int| k <= i < lines.len() ==> #[trigger] quoted_count(lines[i], d, q) == quoted_count(
            lines[k],
            d,
            q,
        ),
    ensures
        window_matches(lines, k, d, q, n) == n,
    decreases n,
{
    if n > 0 {
        lemma_window_all_match(lines, k, d, q, n - 1);
        assert(quoted_count(lines[k + n], d, q) == quoted_count(lines[k], d, q));
    }
}

proof fn lemma_not_tabular(lines: Seq<Seq<u8>>, k: int, window: nat)
    requires
        0 <= k < lines.len(),
        forall|i: int| 0 <= i < lines[k].len() ==> !candidates().contains(#[trigger] lines[k][i]),
    ensures
        !starts_table(lines, k, window),
{
    let cands = candidates();
    assert(cands[0] == 9 && cands[1] == 44 && cands[2] == 59 && cands[3] == 124);
    assert forall|j: int, q: u8| 0 <= j < 4 implies #[trigger] quoted_count(lines[k], cands[j], q)
        == 1 by {
        assert forall|i: int| 0 <= i < lines[k].len() implies lines[k][i] != cands[j] by {
            assert(!cands.contains(lines[k][i]));
        }
        lemma_no_delimiter_single_field(lines[k], cands[j], Some(q));
    }
    assert(!starts_table_quoted(lines, k, DOUBLE_QUOTE, window));
    assert(!starts_table_quoted(lines, k, SINGLE_QUOTE, window));
}

/// Two title lines that hold no candidate delimiter, followed by two or more lines that all
/// split into the same `n >= 2` fields under a candidate delimiter: the preamble is the two
/// title lines (where the search covers three lines or more and the window one or more).
pub proof fn lemma_title_lines_are_preamble(
    lines: Seq<Seq<u8>>,
    d: u8,
    n: nat,
    max_preamble: nat,
    window: nat,
)
    requires
        lines.len() >= 4,
        max_preamble >= 3,
        window >= 1,
        candidates().contains(d),
        n >= 2,
        forall|k: int, i: int|
            0 <= k < 2 && 0 <= i < lines[k].len() ==> !candidates().contains(#[trigger] lines[k][i]),
        forall|k: int| 2 <= k < lines.len() ==> #[trigger] quoted_count(lines[k], d, DOUBLE_QUOTE)
            == n,
    ensures
        preamble_rows(lines, max_preamble, window) == 2,
{
    let cands = candidates();
    assert(cands[0] == 9 && cands[1] == 44 && cands[2] == 59 && cands[3] == 124 && cands.len()
        == 4);
    assert(d == 9 || d == 44 || d == 59 || d == 124);
    lemma_not_tabular(lines, 0, window);
    lemma_not_tabular(lines, 1, window);
    let w = window_len(lines, 2, window);
    assert forall|i: int| 2 <= i < lines.len() implies #[trigger] quoted_count(
        lines[i],
        d,
        DOUBLE_QUOTE,
    ) == quoted_count(lines[2], d, DOUBLE_QUOTE) by {
        assert(quoted_count(lines[i], d, DOUBLE_QUOTE) == n);
        assert(quoted_count(lines[2], d, DOUBLE_QUOTE) == n);
    }
    lemma_window_all_match(lines, 2, d, DOUBLE_QUOTE, w);
    assert(starts_table_with(lines, 2, d, DOUBLE_QUOTE, window));
    assert(starts_table_quoted(lines, 2, DOUBLE_QUOTE, window));
    assert(starts_table(lines, 2, window));
    assert(search_end(lines, max_preamble) >= 3);
    assert(table_start_from(lines, 2, max_preamble, window) == 2);
    assert(table_start_from(lines, 1, max_preamble, window) == 2);
    assert(table_start_from(lines, 0, max_preamble, window) == 2);
}

/// At the level of `sniff`: where the examined table lines all split into the same `n >= 2`
/// fields under one candidate delimiter `d`, hold no other candidate delimiter and no byte
/// wraps a field, sniffing does not fail for want of a delimiter, and metadata that it returns
/// has delimiter `d`, no quoting and fixed field counts.
pub proof fn lemma_sniff_recovers_delimiter(
    s: Seq<u8>,
    lim: SniffLimits,
    r: Result<Metadata, SniffError>,
    d: u8,
    n: nat,
)
    requires
        sniff_outcome(s, lim, r),
        table_lines(s, lim).len() > 0,
        candidates().contains(d),
        n >= 2,
        forall|i: int|
            0 <= i < table_lines(s, lim).len() ==> field_count(
                #[trigger] table_lines(s, lim)[i],
                d,
                None,
            ) == n,
        forall|k: int, i: int|
            0 <= k < table_lines(s, lim).len() && 0 <= i < table_lines(s, lim)[k].len()
                ==> #[trigger] table_lines(s, lim)[k][i] == d || !candidates().contains(
                table_lines(s, lim)[k][i],
            ),
        forall|k: int, b: u8, f: int|
            0 <= k < table_lines(s, lim).len() ==> !#[trigger] wraps_at(
                table_lines(s, lim)[k],
                d,
                b,
                f,
            ),
    ensures
        r != Err::<Metadata, SniffError>(SniffError::NoConsistentDelimiter),
        r != Err::<Metadata, SniffError>(SniffError::EmptySample),
        r matches Ok(m) ==> m.dialect.delimiter == d && m.dialect.quote == Quote::Disabled
            && !m.dialect.flexible,
{
    lemma_consistent_delimiter_recovered(table_lines(s, lim), d, n);
}

/// At the level of `describe_records`: records of one width `n >= 2`, two or more of them,
/// whose first record is all Text over records of Integers are described with a header row;
/// where the first record is all Integers too, without one.
pub proof fn lemma_described_header(
    m: Metadata,
    base: Dialect,
    avg: nat,
    recs: Seq<Seq<Seq<u8>>>,
    n: nat,
    first: Type,
)
    requires
        describes(m, base, avg, recs),
        recs.len() >= 2,
        n >= 2,
        first == Type::Text || first == Type::Integer,
        forall|r: int| 0 <= r < recs.len() ==> (#[trigger] recs[r]).len() == n,
        forall|c: int| 0 <= c < n ==> value_type(#[trigger] recs[0][c]) == Some(first),
        forall|r: int, c: int|
            1 <= r < recs.len() && 0 <= c < n ==> value_type(#[trigger] recs[r][c]) == Some(
                Type::Integer,
            ),
    ensures
        m.dialect.header.has_header_row == (first == Type::Text),
{
    lemma_header_round_trip(recs, n, first);
}

/// At the level of `sniff`: two title lines without a candidate delimiter, followed by two or
/// more lines of the same `n >= 2` fields under a candidate delimiter, give metadata with two
/// preamble rows (where the limits search three lines or more with a window of one or more).
pub proof fn lemma_sniff_title_lines(
    s: Seq<u8>,
    lim: SniffLimits,
    r: Result<Metadata, SniffError>,
    d: u8,
    n: nat,
)
    requires
        sniff_outcome(s, lim, r),
        lim.max_preamble >= 3,
        lim.window >= 1,
        sample_lines(s).len() >= 4,
        candidates().contains(d),
        n >= 2,
        forall|k: int, i: int|
            0 <= k < 2 && 0 <= i < sample_lines(s)[k].len() ==> !candidates().contains(
                #[trigger] sample_lines(s)[k][i],
            ),
        forall|k: int|
            2 <= k < sample_lines(s).len() ==> #[trigger] quoted_count(
                sample_lines(s)[k],
                d,
                DOUBLE_QUOTE,
            ) == n,
    ensures
        r matches Ok(m) ==> m.dialect.header.num_preamble_rows == 2,
{
    lemma_title_lines_are_preamble(
        sample_lines(s),
        d,
        n,
        lim.max_preamble as nat,
        lim.window as nat,
    );
}

} // verus!
