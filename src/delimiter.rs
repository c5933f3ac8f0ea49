//! Choosing the field delimiter by how consistently each candidate splits the lines.
use vstd::prelude::*;
use crate::lines::{field_count, count_fields};

verus! {

/// Tab, comma, semicolon and pipe, in ascending byte order.
pub open spec fn candidates() -> Seq<u8> {
    seq![9u8, 44u8, 59u8, 124u8]
}

pub open spec fn nat_view(v: Seq<usize>) -> Seq<nat> {
    v.map_values(|x: usize| x as nat)
}

/// Field count of each line, every delimiter counted.
pub open spec fn naive_counts(lines: Seq<Seq<u8>>, delim: u8) -> Seq<nat> {
    Seq::new(lines.len(), |i: int| field_count(lines[i], delim, None))
}

/// How often `v` occurs in `cs`.
pub open spec fn freq(cs: Seq<nat>, v: nat) -> nat
    decreases cs.len(),
{
    if cs.len() == 0 {
        0
    } else {
        freq(cs.drop_last(), v) + if cs.last() == v {
            1nat
        } else {
            0nat
        }
    }
}

/// Index of the first of the first `n` values that occurs most often in `cs`.
pub open spec fn mode_index(cs: Seq<nat>, n: int) -> int
    decreases n,
{
    if n <= 1 {
        0
    } else {
        let b = mode_index(cs, n - 1);
        if freq(cs, cs[n - 1]) > freq(cs, cs[b]) {
            n - 1
        } else {
            b
        }
    }
}

/// Whether `cs[i]` occurs in `cs` before index `i`.
pub open spec fn seen_before(cs: Seq<nat>, i: int) -> bool {
    exists|j: int| 0 <= j < i && cs[j] == cs[i]
}

/// Number of distinct values among the first `n` of `cs`.
pub open spec fn distinct(cs: Seq<nat>, n: int) -> nat
    decreases n,
{
    if n <= 0 {
        0
    } else {
        distinct(cs, n - 1) + if seen_before(cs, n - 1) {
            0nat
        } else {
            1nat
        }
    }
}

/// The most frequent field count of the lines under `delim` (the first one on a tie).
pub open spec fn modal_fields(lines: Seq<Seq<u8>>, delim: u8) -> nat {
    let cs = naive_counts(lines, delim);
    cs[mode_index(cs, cs.len() as int)]
}

/// Number of lines whose field count is the modal one.
pub open spec fn support(lines: Seq<Seq<u8>>, delim: u8) -> nat {
    freq(naive_counts(lines, delim), modal_fields(lines, delim))
}

/// Number of distinct field counts of the lines.
pub open spec fn spread(lines: Seq<Seq<u8>>, delim: u8) -> nat {
    let cs = naive_counts(lines, delim);
    distinct(cs, cs.len() as int)
}

/// Whether candidate `a` is preferred to candidate `b`: a delimiter that splits the lines
/// first; then more lines with the modal field count; then fewer distinct field counts; then
/// the smaller byte.
pub open spec fn beats(lines: Seq<Seq<u8>>, a: u8, b: u8) -> bool {
    let qa = modal_fields(lines, a) >= 2;
    let qb = modal_fields(lines, b) >= 2;
    if qa != qb {
        qa
    } else if support(lines, a) != support(lines, b) {
        support(lines, a) > support(lines, b)
    } else if spread(lines, a) != spread(lines, b) {
        spread(lines, a) < spread(lines, b)
    } else {
        a < b
    }
}

/// The preferred one of the first `n` candidates.
pub open spec fn best_of(lines: Seq<Seq<u8>>, n: int) -> u8
    decreases n,
{
    if n <= 1 {
        candidates()[0]
    } else {
        let b = best_of(lines, n - 1);
        if beats(lines, candidates()[n - 1], b) {
            candidates()[n - 1]
        } else {
            b
        }
    }
}

/// The delimiter chosen for the lines.
pub open spec fn best_delimiter(lines: Seq<Seq<u8>>) -> u8 {
    best_of(lines, candidates().len() as int)
}

/// Whether the chosen delimiter gives a strict majority of the lines the modal field count.
pub open spec fn confident(lines: Seq<Seq<u8>>) -> bool {
    2 * support(lines, best_delimiter(lines)) > lines.len()
}

/// How a candidate delimiter splits the lines.
pub struct DelimiterScore {
    pub delimiter: u8,
    pub modal_fields: usize,
    pub support: usize,
    pub spread: usize,
}

impl DelimiterScore {
    pub open spec fn matches(self, lines: Seq<Seq<u8>>) -> bool {
        &&& self.modal_fields as nat == modal_fields(lines, self.delimiter)
        &&& self.support as nat == support(lines, self.delimiter)
        &&& self.spread as nat == spread(lines, self.delimiter)
    }
}

fn frequency(cs: &Vec<usize>, v: usize) -> (r: usize)
    ensures
        r as nat == freq(nat_view(cs@), v as nat),
        r <= cs@.len(),
{
    let ghost ns = nat_view(cs@);
    let mut n: usize = 0;
    let mut i: usize = 0;
    assert(ns.subrange(0, 0) =~= Seq::<nat>::empty());
    while i < cs.len()
        invariant
            i <= cs@.len(),
            ns == nat_view(cs@),
            n <= i,
            n as nat == freq(ns.subrange(0, i as int), v as nat),
        decreases cs@.len() - i,
    {
        assert(ns.subrange(0, i + 1).drop_last() =~= ns.subrange(0, i as int));
        if cs[i] == v {
            n = n + 1;
        }
        i = i + 1;
    }
    assert(ns.subrange(0, i as int) =~= ns);
    n
}

fn occurs_before(cs: &Vec<usize>, i: usize) -> (r: bool)
    requires
        i < cs@.len(),
    ensures
        r == seen_before(nat_view(cs@), i as int),
{
    let ghost ns = nat_view(cs@);
    let mut j: usize = 0;
    while j < i
        invariant
            j <= i < cs@.len(),
            ns == nat_view(cs@),
            forall|k: int| 0 <= k < j ==> ns[k] != ns[i as int],
        decreases i - j,
    {
        if cs[j] == cs[i] {
            assert(ns[j as int] == ns[i as int]);
            return true;
        }
        j = j + 1;
    }
    false
}

/// Field counts, modal count, its support and the number of distinct counts for `delim`.
fn score(lines: &Vec<Vec<u8>>, delim: u8) -> (r: DelimiterScore)
    requires
        lines@.len() > 0,
        forall|i: int| 0 <= i < lines@.len() ==> (#[trigger] lines@[i])@.len() < usize::MAX,
    ensures
        r.delimiter == delim,
        r.matches(crate::lines::rows_view(lines@)),
{
    let ghost ls = crate::lines::rows_view(lines@);
    let mut cs: Vec<usize> = Vec::new();
    let mut i: usize = 0;
    while i < lines.len()
        invariant
            i <= lines@.len(),
            ls == crate::lines::rows_view(lines@),
            forall|k: int| 0 <= k < lines@.len() ==> (#[trigger] lines@[k])@.len() < usize::MAX,
            nat_view(cs@) =~= naive_counts(ls, delim).subrange(0, i as int),
        decreases lines@.len() - i,
    {
        let c = count_fields(lines[i].as_slice(), delim, None);
        let ghost before = cs@;
        cs.push(c);
        assert(ls[i as int] == lines@[i as int]@);
        assert(nat_view(cs@) =~= nat_view(before).push(c as nat));
        assert(naive_counts(ls, delim).subrange(0, i + 1) =~= naive_counts(ls, delim).subrange(
            0,
            i as int,
        ).push(field_count(ls[i as int], delim, None)));
        i = i + 1;
    }
    let ghost ns = nat_view(cs@);
    assert(ns =~= naive_counts(ls, delim));
    let mut best: usize = 0;
    let mut best_freq: usize = frequency(&cs, cs[0]);
    let mut spread: usize = 1;
    proof {
        assert(distinct(ns, 0) == 0);
        assert(!seen_before(ns, 0));
        assert(distinct(ns, 1) == 1);
    }
    let mut k: usize = 1;
    while k < cs.len()
        invariant
            1 <= k <= cs@.len(),
            ns == nat_view(cs@),
            best as int == mode_index(ns, k as int),
            best < k,
            best_freq as nat == freq(ns, ns[best as int]),
            spread as nat == distinct(ns, k as int),
            spread <= k,
        decreases cs@.len() - k,
    {
        let f = frequency(&cs, cs[k]);
        if f > best_freq {
            best = k;
            best_freq = f;
        }
        if !occurs_before(&cs, k) {
            spread = spread + 1;
        }
        k = k + 1;
    }
    let modal = cs[best];
    let sup = frequency(&cs, modal);
    DelimiterScore { delimiter: delim, modal_fields: modal, support: sup, spread }
}

fn prefers(a: &DelimiterScore, b: &DelimiterScore, Ghost(lines): Ghost<Seq<Seq<u8>>>) -> (r: bool)
    requires
        a.matches(lines),
        b.matches(lines),
    ensures
        r == beats(lines, a.delimiter, b.delimiter),
{
    let qa = a.modal_fields >= 2;
    let qb = b.modal_fields >= 2;
    if qa != qb {
        qa
    } else if a.support != b.support {
        a.support > b.support
    } else if a.spread != b.spread {
        a.spread < b.spread
    } else {
        a.delimiter < b.delimiter
    }
}

/// Scores every candidate delimiter on the lines and returns the preferred one's score.
pub fn infer_delimiter(lines: &Vec<Vec<u8>>) -> (r: DelimiterScore)
    requires
        lines@.len() > 0,
        forall|i: int| 0 <= i < lines@.len() ==> (#[trigger] lines@[i])@.len() < usize::MAX,
    ensures
        r.delimiter == best_delimiter(crate::lines::rows_view(lines@)),
        r.matches(crate::lines::rows_view(lines@)),
{
    let ghost ls = crate::lines::rows_view(lines@);
    let cands: Vec<u8> = vec![9, 44, 59, 124];
    assert(cands@ =~= candidates());
    let mut best = score(lines, cands[0]);
    let mut n: usize = 1;
    while n < cands.len()
        invariant
            1 <= n <= cands@.len(),
            cands@ == candidates(),
            ls == crate::lines::rows_view(lines@),
            lines@.len() > 0,
            forall|i: int| 0 <= i < lines@.len() ==> (#[trigger] lines@[i])@.len() < usize::MAX,
            best.matches(ls),
            best.delimiter == best_of(ls, n as int),
        decreases cands@.len() - n,
    {
        let s = score(lines, cands[n]);
        if prefers(&s, &best, Ghost(ls)) {
            best = s;
        }
        n = n + 1;
    }
    best
}

} // verus!
