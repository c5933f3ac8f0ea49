//! The lattice of column types and the classification of single values.
use vstd::prelude::*;

verus! {

/// `0`.
pub const DIGIT_ZERO: u8 = 48;

/// `9`.
pub const DIGIT_NINE: u8 = 57;

/// `+`.
pub const PLUS: u8 = 43;

/// `-`.
pub const MINUS: u8 = 45;

/// `.`.
pub const DOT: u8 = 46;

/// `e`.
pub const LOWER_E: u8 = 101;

/// `E`.
pub const UPPER_E: u8 = 69;

/// `A`.
pub const UPPER_A: u8 = 65;

/// `Z`.
pub const UPPER_Z: u8 = 90;

/// The type of a column, ordered from most to least specific.
#[derive(PartialEq, Eq, Structural, Clone, Copy, Debug)]
pub enum Type {
    Boolean,
    Integer,
    Float,
    Text,
}

/// Position of a type in the lattice: a larger rank is more general.
pub open spec fn rank(t: Type) -> nat {
    match t {
        Type::Boolean => 0,
        Type::Integer => 1,
        Type::Float => 2,
        Type::Text => 3,
    }
}

/// The most general of two types.
pub open spec fn join_spec(a: Type, b: Type) -> Type {
    if rank(a) >= rank(b) {
        a
    } else {
        b
    }
}

/// Join where `None` stands for "no information" (an empty value).
pub open spec fn join_opt(a: Option<Type>, b: Option<Type>) -> Option<Type> {
    match (a, b) {
        (None, y) => y,
        (Some(x), None) => Some(x),
        (Some(x), Some(y)) => Some(join_spec(x, y)),
    }
}

pub open spec fn is_digit(b: u8) -> bool {
    DIGIT_ZERO <= b <= DIGIT_NINE
}

pub open spec fn is_sign(b: u8) -> bool {
    b == PLUS || b == MINUS
}

pub open spec fn ascii_lower(b: u8) -> u8 {
    if UPPER_A <= b <= UPPER_Z {
        (b + 32) as u8
    } else {
        b
    }
}

/// Number of consecutive decimal digits of `s` starting at index `i`.
pub open spec fn digit_run(s: Seq<u8>, i: int) -> nat
    decreases s.len() - i,
{
    if 0 <= i < s.len() && is_digit(s[i]) {
        1 + digit_run(s, i + 1)
    } else {
        0
    }
}

/// Length of an optional leading sign.
pub open spec fn sign_len(s: Seq<u8>) -> nat {
    if s.len() > 0 && is_sign(s[0]) {
        1
    } else {
        0
    }
}

/// Value of a sequence of decimal digits.
pub open spec fn digits_value(s: Seq<u8>) -> nat
    decreases s.len(),
{
    if s.len() == 0 {
        0
    } else {
        digits_value(s.drop_last()) * 10 + (s.last() - DIGIT_ZERO) as nat
    }
}

/// Largest magnitude that an `i64` of the given sign holds.
pub open spec fn magnitude_limit(negative: bool) -> nat {
    if negative {
        9223372036854775808
    } else {
        9223372036854775807
    }
}

/// `true` or `false` (bytes 116 114 117 101 and 102 97 108 115 101), in any letter case.
pub open spec fn is_bool_text(s: Seq<u8>) -> bool {
    (s.len() == 4 && ascii_lower(s[0]) == 116 && ascii_lower(s[1]) == 114 && ascii_lower(s[2])
        == 117 && ascii_lower(s[3]) == 101) || (s.len() == 5 && ascii_lower(s[0]) == 102
        && ascii_lower(s[1]) == 97 && ascii_lower(s[2]) == 108 && ascii_lower(s[3]) == 115
        && ascii_lower(s[4]) == 101)
}

/// An optional sign and one or more digits whose value fits in an `i64`.
pub open spec fn is_integer_text(s: Seq<u8>) -> bool {
    let p = sign_len(s);
    &&& p < s.len()
    &&& p + digit_run(s, p as int) == s.len()
    &&& digits_value(s.subrange(p as int, s.len() as int)) <= magnitude_limit(
        p == 1 && s[0] == MINUS,
    )
}

/// Whether the exponent part `[eE][+-]?digits` spans `s` from `i` to its end.
pub open spec fn is_exponent_at(s: Seq<u8>, i: int) -> bool {
    let q = if i + 1 < s.len() && is_sign(s[i + 1]) {
        i + 2
    } else {
        i + 1
    };
    &&& 0 <= i < s.len()
    &&& (s[i] == LOWER_E || s[i] == UPPER_E)
    &&& digit_run(s, q) > 0
    &&& q + digit_run(s, q) == s.len()
}

/// A decimal number: `[+-]? digits? ('.' digits?)? ([eE] [+-]? digits)?` with at least one
/// digit before the exponent.
pub open spec fn is_float_text(s: Seq<u8>) -> bool {
    let sign_end = sign_len(s) as int;
    let int_end = sign_end + digit_run(s, sign_end);
    let frac_start = if int_end < s.len() && s[int_end] == DOT {
        int_end + 1
    } else {
        int_end
    };
    let frac_end = frac_start + digit_run(s, frac_start);
    &&& (int_end - sign_end) + (frac_end - frac_start) > 0
    &&& (frac_end == s.len() || is_exponent_at(s, frac_end))
}

/// The type of one raw value; `None` for an empty value, which carries no information.
pub open spec fn value_type(s: Seq<u8>) -> Option<Type> {
    if s.len() == 0 {
        None
    } else if is_bool_text(s) {
        Some(Type::Boolean)
    } else if is_integer_text(s) {
        Some(Type::Integer)
    } else if is_float_text(s) {
        Some(Type::Float)
    } else {
        Some(Type::Text)
    }
}

/// The join of the types of all values of a column.
pub open spec fn column_type(vals: Seq<Seq<u8>>) -> Option<Type>
    decreases vals.len(),
{
    if vals.len() == 0 {
        None
    } else {
        join_opt(column_type(vals.drop_last()), value_type(vals.last()))
    }
}

impl Type {
    /// Rank of this type in the lattice, as a number.
    pub fn rank(&self) -> (r: u8)
        ensures
            r as nat == rank(*self),
    {
        match self {
            Type::Boolean => 0,
            Type::Integer => 1,
            Type::Float => 2,
            Type::Text => 3,
        }
    }

    /// The most general of `self` and `other`.
    pub fn join(self, other: Type) -> (r: Type)
        ensures
            r == join_spec(self, other),
    {
        if self.rank() >= other.rank() {
            self
        } else {
            other
        }
    }
}

/// Join of two optional types, where `None` carries no information.
pub fn join_types(a: Option<Type>, b: Option<Type>) -> (r: Option<Type>)
    ensures
        r == join_opt(a, b),
{
    match (a, b) {
        (None, y) => y,
        (Some(x), None) => Some(x),
        (Some(x), Some(y)) => Some(x.join(y)),
    }
}

fn lower(b: u8) -> (r: u8)
    ensures
        r == ascii_lower(b),
{
    if UPPER_A <= b && b <= UPPER_Z {
        b + 32
    } else {
        b
    }
}

fn digit_run_from(s: &[u8], i: usize) -> (r: usize)
    requires
        i <= s@.len(),
    ensures
        r == i + digit_run(s@, i as int),
        r <= s@.len(),
{
    let mut j: usize = i;
    while j < s.len() && DIGIT_ZERO <= s[j] && s[j] <= DIGIT_NINE
        invariant
            i <= j <= s@.len(),
            digit_run(s@, i as int) == (j - i) + digit_run(s@, j as int),
        decreases s@.len() - j,
    {
        j = j + 1;
    }
    j
}

proof fn lemma_digits_value_grows(s: Seq<u8>, i: int, j: int)
    requires
        0 <= i <= j <= s.len(),
    ensures
        digits_value(s.subrange(0, i)) <= digits_value(s.subrange(0, j)),
    decreases j - i,
{
    if i < j {
        lemma_digits_value_grows(s, i, j - 1);
        assert(s.subrange(0, j).drop_last() =~= s.subrange(0, j - 1));
    }
}

/// Whether the digits `s[start..]` have a value of at most `limit`.
fn digits_at_most(s: &[u8], start: usize, limit: u64) -> (r: bool)
    requires
        start <= s@.len(),
        forall|k: int| start <= k < s@.len() ==> is_digit(#[trigger] s@[k]),
    ensures
        r == (digits_value(s@.subrange(start as int, s@.len() as int)) <= limit),
{
    let ghost t = s@.subrange(start as int, s@.len() as int);
    let mut val: u64 = 0;
    let mut i: usize = start;
    assert(t.subrange(0, 0) =~= Seq::<u8>::empty());
    while i < s.len()
        invariant
            start <= i <= s@.len(),
            t == s@.subrange(start as int, s@.len() as int),
            forall|k: int| start <= k < s@.len() ==> is_digit(#[trigger] s@[k]),
            val as nat == digits_value(t.subrange(0, i - start)),
            val <= limit,
        decreases s@.len() - i,
    {
        let d: u8 = s[i] - DIGIT_ZERO;
        assert(t.subrange(0, i + 1 - start).drop_last() =~= t.subrange(0, i - start));
        assert(t[i - start] == s@[i as int]);
        let nv: u128 = (val as u128) * 10 + (d as u128);
        if nv > limit as u128 {
            proof {
                lemma_digits_value_grows(t, i + 1 - start, t.len() as int);
                assert(t.subrange(0, t.len() as int) =~= t);
            }
            return false;
        }
        val = nv as u64;
        i = i + 1;
    }
    assert(t.subrange(0, i - start) =~= t);
    true
}

fn is_bool_value(s: &[u8]) -> (r: bool)
    ensures
        r == is_bool_text(s@),
{
    (s.len() == 4 && lower(s[0]) == 116 && lower(s[1]) == 114 && lower(s[2]) == 117 && lower(
        s[3],
    ) == 101) || (s.len() == 5 && lower(s[0]) == 102 && lower(s[1]) == 97 && lower(s[2])
        == 108 && lower(s[3]) == 115 && lower(s[4]) == 101)
}

fn sign_length(s: &[u8]) -> (r: usize)
    ensures
        r == sign_len(s@),
{
    if s.len() > 0 && (s[0] == PLUS || s[0] == MINUS) {
        1
    } else {
        0
    }
}

proof fn lemma_run_all_digits(s: Seq<u8>, i: int)
    requires
        0 <= i <= s.len(),
        i + digit_run(s, i) == s.len(),
    ensures
        forall|k: int| i <= k < s.len() ==> is_digit(#[trigger] s[k]),
    decreases s.len() - i,
{
    if i < s.len() {
        lemma_run_all_digits(s, i + 1);
    }
}

fn is_integer_value(s: &[u8]) -> (r: bool)
    ensures
        r == is_integer_text(s@),
{
    let p = sign_length(s);
    if p >= s.len() {
        return false;
    }
    let end = digit_run_from(s, p);
    if end != s.len() {
        return false;
    }
    proof {
        lemma_run_all_digits(s@, p as int);
    }
    let limit: u64 = if p == 1 && s[0] == MINUS {
        9223372036854775808
    } else {
        9223372036854775807
    };
    digits_at_most(s, p, limit)
}

fn is_float_value(s: &[u8]) -> (r: bool)
    ensures
        r == is_float_text(s@),
{
    let sign_end = sign_length(s);
    let int_end = digit_run_from(s, sign_end);
    let frac_start = if int_end < s.len() && s[int_end] == DOT {
        int_end + 1
    } else {
        int_end
    };
    let frac_end = digit_run_from(s, frac_start);
    if (int_end - sign_end) + (frac_end - frac_start) == 0 {
        return false;
    }
    if frac_end == s.len() {
        return true;
    }
    if s[frac_end] != LOWER_E && s[frac_end] != UPPER_E {
        return false;
    }
    let q = if frac_end + 1 < s.len() && (s[frac_end + 1] == PLUS || s[frac_end + 1] == MINUS) {
        frac_end + 2
    } else {
        frac_end + 1
    };
    let e = digit_run_from(s, q);
    e > q && e == s.len()
}

/// Classifies one raw value: empty, Boolean, Integer, Float or else Text.
pub fn classify_value(s: &[u8]) -> (r: Option<Type>)
    ensures
        r == value_type(s@),
{
    if s.len() == 0 {
        None
    } else if is_bool_value(s) {
        Some(Type::Boolean)
    } else if is_integer_value(s) {
        Some(Type::Integer)
    } else if is_float_value(s) {
        Some(Type::Float)
    } else {
        Some(Type::Text)
    }
}

} // verus!
