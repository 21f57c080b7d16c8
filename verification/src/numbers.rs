//! Decimal parsing of numeric CSV fields.
//!
//! The loaders work on integer-valued fields: a non-negative population
//! weight and signed planar coordinates. A field parses exactly when it
//! is well-formed decimal text whose value fits the target type; anything
//! else is a malformed numeric field, which the loaders treat as fatal.

use vstd::prelude::*;

verus! {

pub const DIGIT_ZERO: u8 = 48;
pub const DIGIT_NINE: u8 = 57;
pub const MINUS: u8 = 45;

/// Non-empty, all ASCII digits.
pub open spec fn is_digits(s: Seq<u8>) -> bool {
    &&& s.len() > 0
    &&& forall|i: int| 0 <= i < s.len() ==> DIGIT_ZERO <= #[trigger] s[i] <= DIGIT_NINE
}

/// The value of a digit string read in base ten.
pub open spec fn dec_value(s: Seq<u8>) -> int
    decreases s.len(),
{
    if s.len() == 0 {
        0
    } else {
        dec_value(s.drop_last()) * 10 + (s.last() - DIGIT_ZERO)
    }
}

/// Well-formed signed decimal text: digits with an optional leading minus.
pub open spec fn is_int_text(s: Seq<u8>) -> bool {
    if s.len() > 0 && s[0] == MINUS {
        is_digits(s.skip(1))
    } else {
        is_digits(s)
    }
}

/// The signed value of well-formed signed decimal text.
pub open spec fn int_value(s: Seq<u8>) -> int {
    if s.len() > 0 && s[0] == MINUS {
        -dec_value(s.skip(1))
    } else {
        dec_value(s)
    }
}

proof fn lemma_dec_value_nonneg(s: Seq<u8>)
    requires
        forall|i: int| 0 <= i < s.len() ==> DIGIT_ZERO <= #[trigger] s[i] <= DIGIT_NINE,
    ensures
        dec_value(s) >= 0,
    decreases s.len(),
{
    if s.len() > 0 {
        lemma_dec_value_nonneg(s.drop_last());
        assert(dec_value(s.drop_last()) * 10 >= 0) by (nonlinear_arith)
            requires dec_value(s.drop_last()) >= 0;
    }
}

/// Once some prefix of a digit string exceeds a bound, the whole string
/// does too.
proof fn lemma_dec_value_prefix_grows(s: Seq<u8>, i: int)
    requires
        forall|j: int| 0 <= j < s.len() ==> DIGIT_ZERO <= #[trigger] s[j] <= DIGIT_NINE,
        0 <= i <= s.len(),
    ensures
        dec_value(s) >= dec_value(s.take(i)),
    decreases s.len() - i,
{
    if i < s.len() {
        let t = s.take(i + 1);
        assert(t.drop_last() =~= s.take(i));
        lemma_dec_value_nonneg(s.take(i));
        assert(dec_value(s.take(i)) * 10 >= dec_value(s.take(i))) by (nonlinear_arith)
            requires dec_value(s.take(i)) >= 0;
        assert(dec_value(t) >= dec_value(s.take(i)));
        lemma_dec_value_prefix_grows(s, i + 1);
        assert(s.take(s.len() as int) =~= s);
    } else {
        assert(s.take(i) =~= s);
    }
}

/// Parses a non-negative decimal field. Returns the value exactly when
/// the field is all digits and the value fits in `u64`.
pub fn parse_u64(s: &Vec<u8>) -> (r: Option<u64>)
    ensures
        match r {
            Some(v) => is_digits(s@) && v == dec_value(s@) && dec_value(s@) <= u64::MAX,
            None => !is_digits(s@) || dec_value(s@) > u64::MAX,
        },
{
    let n = s.len();
    if n == 0 {
        return None;
    }
    let mut acc: u64 = 0;
    for i in 0..n
        invariant
            n == s@.len(),
            forall|j: int| 0 <= j < i ==> DIGIT_ZERO <= #[trigger] s@[j] <= DIGIT_NINE,
            acc == dec_value(s@.take(i as int)),
    {
        let b = s[i];
        if b < DIGIT_ZERO || b > DIGIT_NINE {
            assert(!is_digits(s@));
            return None;
        }
        let d: u64 = (b - DIGIT_ZERO) as u64;
        let ghost t = s@.take(i + 1int);
        assert(t.drop_last() =~= s@.take(i as int));
        if acc > (u64::MAX - d) / 10 {
            assert(acc * 10 + d > u64::MAX) by {
                let lim = (u64::MAX - d) as int;
                vstd::arithmetic::div_mod::lemma_fundamental_div_mod(lim, 10);
                assert(acc >= lim / 10 + 1);
                assert(acc * 10 >= (lim / 10 + 1) * 10) by (nonlinear_arith)
                    requires acc >= lim / 10 + 1;
                assert((lim / 10 + 1) * 10 == (lim / 10) * 10 + 10) by (nonlinear_arith);
            }
            proof {
                if is_digits(s@) {
                    lemma_dec_value_prefix_grows(s@, i + 1);
                }
            }
            return None;
        }
        assert(acc * 10 + d <= u64::MAX) by {
            let lim = (u64::MAX - d) as int;
            vstd::arithmetic::div_mod::lemma_fundamental_div_mod(lim, 10);
            assert(acc * 10 <= (lim / 10) * 10) by (nonlinear_arith)
                requires acc <= lim / 10;
        }
        acc = acc * 10 + d;
        assert(acc == dec_value(t));
    }
    assert(s@.take(n as int) =~= s@);
    Some(acc)
}

/// Parses a signed decimal coordinate field. Returns the value exactly
/// when the field is well-formed signed decimal text whose value fits in
/// `i64`.
pub fn parse_i64(s: &Vec<u8>) -> (r: Option<i64>)
    ensures
        match r {
            Some(v) => is_int_text(s@) && v == int_value(s@)
                && i64::MIN <= int_value(s@) <= i64::MAX,
            None => !is_int_text(s@) || int_value(s@) < i64::MIN || int_value(s@) > i64::MAX,
        },
{
    let n = s.len();
    if n == 0 {
        return None;
    }
    if s[0] == MINUS {
        let mut rest: Vec<u8> = Vec::new();
        for i in 1..n
            invariant
                n == s@.len(),
                rest@ =~= s@.subrange(1, i as int),
        {
            rest.push(s[i]);
        }
        assert(rest@ =~= s@.skip(1));
        match parse_u64(&rest) {
            None => {
                proof {
                    if is_digits(s@.skip(1)) {
                        lemma_dec_value_nonneg(s@.skip(1));
                    }
                }
                None
            },
            Some(m) => {
                if m <= 9_223_372_036_854_775_807u64 {
                    Some(-(m as i64))
                } else if m == 9_223_372_036_854_775_808u64 {
                    Some(i64::MIN)
                } else {
                    None
                }
            },
        }
    } else {
        match parse_u64(s) {
            None => {
                proof {
                    if is_digits(s@) {
                        lemma_dec_value_nonneg(s@);
                    }
                }
                None
            },
            Some(m) => {
                if m <= 9_223_372_036_854_775_807u64 {
                    Some(m as i64)
                } else {
                    None
                }
            },
        }
    }
}

} // verus!
