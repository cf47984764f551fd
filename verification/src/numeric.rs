//! Numeric lexemes: ASCII decimal unsigned integers (face indices) and
//! floating-point literals (coordinates).
//!
//! A face index is one or more ASCII digits whose value fits in `u16`.
//! A coordinate is a floating-point literal of the shape
//! `[sign] (digits [ "." [digits] ] | "." digits) [ ("e"|"E") [sign] digits ]`,
//! which covers every coordinate an OBJ file writes and is accepted verbatim
//! by an IEEE-754 conversion downstream.
use vstd::prelude::*;

verus! {

pub const DIGIT_ZERO: u8 = 0x30;
pub const DIGIT_NINE: u8 = 0x39;
pub const PLUS: u8 = 0x2B;
pub const MINUS: u8 = 0x2D;
pub const DOT: u8 = 0x2E;
pub const UPPER_E: u8 = 0x45;
pub const LOWER_E: u8 = 0x65;

pub open spec fn is_digit(b: u8) -> bool {
    DIGIT_ZERO <= b && b <= DIGIT_NINE
}

pub open spec fn all_digits(s: Seq<u8>) -> bool {
    forall|i: int| 0 <= i < s.len() ==> is_digit(#[trigger] s[i])
}

/// A run of one or more ASCII digits.
pub open spec fn is_uint_literal(s: Seq<u8>) -> bool {
    s.len() > 0 && all_digits(s)
}

/// The value denoted by a digit string, most significant digit first.
pub open spec fn uint_value(s: Seq<u8>) -> int
    decreases s.len(),
{
    if s.len() == 0 {
        0
    } else {
        uint_value(s.drop_last()) * 10 + (s.last() - DIGIT_ZERO)
    }
}

/// A face index: a digit string denoting a value that fits in `u16`.
pub open spec fn index_of(s: Seq<u8>) -> Option<u16> {
    if is_uint_literal(s) && uint_value(s) <= u16::MAX {
        Some(uint_value(s) as u16)
    } else {
        None
    }
}

proof fn lemma_uint_value_nonneg(s: Seq<u8>)
    requires
        all_digits(s),
    ensures
        uint_value(s) >= 0,
    decreases s.len(),
{
    if s.len() > 0 {
        assert(all_digits(s.drop_last())) by {
            assert(forall|i: int| 0 <= i < s.len() - 1 ==> is_digit(#[trigger] s[i]));
        }
        lemma_uint_value_nonneg(s.drop_last());
    }
}

proof fn lemma_uint_value_step_up(s: Seq<u8>, i: int)
    requires
        0 <= i < s.len(),
        all_digits(s.take(i + 1)),
    ensures
        uint_value(s.take(i + 1)) >= uint_value(s.take(i)),
{
    assert(s.take(i + 1).drop_last() =~= s.take(i));
    assert(s.take(i + 1).last() == s[i]);
    assert(is_digit(s[i])) by {
        assert(s.take(i + 1)[i] == s[i]);
    }
    assert(all_digits(s.take(i))) by {
        assert(forall|j: int|
            0 <= j < i ==> is_digit(#[trigger] s.take(i)[j]) == is_digit(s.take(i + 1)[j]));
    }
    lemma_uint_value_nonneg(s.take(i));
}

/// Parses a face index: one or more ASCII digits with a value at most
/// `u16::MAX`; anything else yields `None`.
pub fn parse_index(s: &[u8]) -> (r: Option<u16>)
    ensures
        r == index_of(s@),
{
    if s.len() == 0 {
        return None;
    }
    let mut acc: u32 = 0;
    let mut over: bool = false;
    let mut i: usize = 0;
    while i < s.len()
        invariant
            0 <= i <= s@.len(),
            all_digits(s@.take(i as int)),
            !over ==> acc == uint_value(s@.take(i as int)) && acc <= u16::MAX,
            over ==> uint_value(s@.take(i as int)) > u16::MAX,
        decreases s@.len() - i,
    {
        let b = s[i];
        if b < DIGIT_ZERO || b > DIGIT_NINE {
            assert(!all_digits(s@)) by {
                assert(s@[i as int] == b);
            }
            return None;
        }
        proof {
            assert(s@.take(i + 1).drop_last() =~= s@.take(i as int));
            assert(s@.take(i + 1).last() == s@[i as int]);
            assert(all_digits(s@.take(i + 1))) by {
                assert(forall|j: int| 0 <= j < i + 1 ==> is_digit(#[trigger] s@.take(i + 1)[j]));
            }
        }
        if !over {
            let next: u32 = acc * 10 + (b - DIGIT_ZERO) as u32;
            if next > u16::MAX as u32 {
                over = true;
            } else {
                acc = next;
            }
            proof {
                if over {
                    assert(uint_value(s@.take(i + 1)) == acc * 10 + (b - DIGIT_ZERO));
                }
            }
        } else {
            proof {
                lemma_uint_value_step_up(s@, i as int);
            }
        }
        i = i + 1;
    }
    assert(s@.take(i as int) =~= s@);
    if over {
        None
    } else {
        Some(acc as u16)
    }
}

pub open spec fn is_sign(b: u8) -> bool {
    b == PLUS || b == MINUS
}

pub open spec fn strip_sign(s: Seq<u8>) -> Seq<u8> {
    if s.len() > 0 && is_sign(s[0]) {
        s.drop_first()
    } else {
        s
    }
}

pub open spec fn is_exp_marker(b: u8) -> bool {
    b == LOWER_E || b == UPPER_E
}

/// The significand: digits and at most one decimal point, with at least one
/// digit (`12`, `12.`, `12.5`, `.5`; not `.` or the empty string).
pub open spec fn is_mantissa(s: Seq<u8>) -> bool {
    &&& s.len() > 0
    &&& forall|i: int| 0 <= i < s.len() ==> is_digit(#[trigger] s[i]) || s[i] == DOT
    &&& exists|i: int| 0 <= i < s.len() && is_digit(#[trigger] s[i])
    &&& forall|i: int, j: int|
        0 <= i < j < s.len() && #[trigger] s[i] == DOT ==> #[trigger] s[j] != DOT
}

/// The exponent field after `e`/`E`: an optional sign and then digits.
pub open spec fn is_exponent_field(s: Seq<u8>) -> bool {
    is_uint_literal(strip_sign(s))
}

/// A floating-point literal: optional sign, then a significand, then an
/// optional exponent.
pub open spec fn is_float_literal(s: Seq<u8>) -> bool {
    let t = strip_sign(s);
    ||| is_mantissa(t)
    ||| exists|i: int|
        0 <= i < t.len() && is_exp_marker(#[trigger] t[i]) && is_mantissa(t.take(i))
            && is_exponent_field(t.skip(i + 1))
}

/// Checks the significand shape over `s[from..to]`.
fn check_mantissa(s: &[u8], from: usize, to: usize) -> (r: bool)
    requires
        from <= to <= s@.len(),
    ensures
        r == is_mantissa(s@.subrange(from as int, to as int)),
{
    let ghost t = s@.subrange(from as int, to as int);
    if to == from {
        return false;
    }
    let mut digit_seen: bool = false;
    let mut dot_seen: bool = false;
    let mut i: usize = from;
    while i < to
        invariant
            from <= i <= to <= s@.len(),
            t == s@.subrange(from as int, to as int),
            forall|k: int| 0 <= k < i - from ==> is_digit(#[trigger] t[k]) || t[k] == DOT,
            digit_seen == exists|k: int| 0 <= k < i - from && is_digit(#[trigger] t[k]),
            dot_seen == exists|k: int| 0 <= k < i - from && #[trigger] t[k] == DOT,
            forall|k: int, l: int|
                0 <= k < l < i - from && #[trigger] t[k] == DOT ==> #[trigger] t[l] != DOT,
        decreases to - i,
    {
        let b = s[i];
        assert(t[i - from] == b);
        if b >= DIGIT_ZERO && b <= DIGIT_NINE {
            digit_seen = true;
        } else if b == DOT {
            if dot_seen {
                assert(!is_mantissa(t)) by {
                    let k = choose|k: int| 0 <= k < i - from && #[trigger] t[k] == DOT;
                    assert(t[k] == DOT && t[i - from] == DOT && k < i - from < t.len());
                }
                return false;
            }
            dot_seen = true;
        } else {
            assert(!is_mantissa(t));
            return false;
        }
        i = i + 1;
    }
    assert(t.len() == to - from);
    if digit_seen {
        assert(is_mantissa(t));
    } else {
        assert(!is_mantissa(t));
    }
    digit_seen
}

/// Checks the exponent field shape over `s[from..]`.
fn check_exponent(s: &[u8], from: usize) -> (r: bool)
    requires
        from <= s@.len(),
    ensures
        r == is_exponent_field(s@.skip(from as int)),
{
    let ghost t = s@.skip(from as int);
    let start: usize = if from < s.len() && (s[from] == PLUS || s[from] == MINUS) {
        from + 1
    } else {
        from
    };
    assert(strip_sign(t) =~= s@.skip(start as int));
    if start == s.len() {
        assert(!is_uint_literal(strip_sign(t)));
        return false;
    }
    let mut i: usize = start;
    while i < s.len()
        invariant
            start <= i <= s@.len(),
            t == s@.skip(from as int),
            strip_sign(t) == s@.skip(start as int),
            forall|k: int| start <= k < i ==> is_digit(#[trigger] s@[k]),
        decreases s@.len() - i,
    {
        let b = s[i];
        if b < DIGIT_ZERO || b > DIGIT_NINE {
            assert(!all_digits(s@.skip(start as int))) by {
                assert(s@.skip(start as int)[i - start] == s@[i as int]);
            }
            return false;
        }
        i = i + 1;
    }
    assert(all_digits(s@.skip(start as int))) by {
        assert(forall|k: int|
            0 <= k < s@.len() - start ==> is_digit(#[trigger] s@.skip(start as int)[k]) == is_digit(
                s@[k + start],
            ));
    }
    true
}

/// Decides whether a token is a floating-point literal, exactly as
/// `is_float_literal` states.
pub fn is_float_token(s: &[u8]) -> (r: bool)
    ensures
        r == is_float_literal(s@),
{
    let start: usize = if s.len() > 0 && (s[0] == PLUS || s[0] == MINUS) {
        1
    } else {
        0
    };
    let ghost t = strip_sign(s@);
    assert(t =~= s@.subrange(start as int, s@.len() as int));
    let mut epos: usize = 0;
    let mut found: bool = false;
    let mut i: usize = start;
    while i < s.len()
        invariant
            start <= i <= s@.len(),
            !found ==> forall|k: int| start <= k < i ==> !is_exp_marker(#[trigger] s@[k]),
            found ==> start <= epos < i && is_exp_marker(s@[epos as int]) && forall|k: int|
                start <= k < epos ==> !is_exp_marker(#[trigger] s@[k]),
        decreases s@.len() - i,
    {
        if !found {
            let b = s[i];
            if b == LOWER_E || b == UPPER_E {
                epos = i;
                found = true;
            }
        }
        i = i + 1;
    }
    if !found {
        let r = check_mantissa(s, start, s.len());
        assert(is_float_literal(s@) == r) by {
            assert(forall|j: int|
                0 <= j < t.len() ==> !is_exp_marker(#[trigger] t[j]) && t[j] == s@[j + start]);
        }
        r
    } else {
        let m = check_mantissa(s, start, epos);
        let e = check_exponent(s, epos + 1);
        let ghost p = epos - start;
        assert(t[p] == s@[epos as int] && is_exp_marker(t[p]));
        assert(t.take(p) =~= s@.subrange(start as int, epos as int));
        assert(t.skip(p + 1) =~= s@.skip(epos + 1));
        if m && e {
            assert(is_float_literal(s@));
        } else {
            assert(!is_float_literal(s@)) by {
                assert(!is_mantissa(t)) by {
                    assert(!is_digit(t[p]) && t[p] != DOT);
                }
                if exists|j: int|
                    0 <= j < t.len() && is_exp_marker(#[trigger] t[j]) && is_mantissa(t.take(j))
                        && is_exponent_field(t.skip(j + 1)) {
                    let j = choose|j: int|
                        0 <= j < t.len() && is_exp_marker(#[trigger] t[j]) && is_mantissa(t.take(j))
                            && is_exponent_field(t.skip(j + 1));
                    if j < p {
                        assert(!is_exp_marker(s@[j + start]));
                        assert(t[j] == s@[j + start]);
                    } else if j > p {
                        assert(t.take(j)[p] == t[p]);
                        assert(is_digit(t.take(j)[p]) || t.take(j)[p] == DOT);
                        assert(!is_digit(t[p]) && t[p] != DOT);
                    } else {
                        assert(t.take(p) == t.take(j) && t.skip(p + 1) == t.skip(j + 1));
                    }
                }
            }
        }
        m && e
    }
}

} // verus!
