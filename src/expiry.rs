//! Cookie expiry: the protocol reports it as a binary64 floating-point
//! number of seconds since the epoch; the library takes that number's bit
//! pattern (as `f64::to_bits` gives it) and keeps the whole seconds.
use vstd::arithmetic::div_mod::lemma_div_denominator;
use vstd::prelude::*;

verus! {

/// 2 to the power `n`.
pub open spec fn two_to(n: nat) -> nat
    decreases n,
{
    if n == 0 {
        1
    } else {
        2 * two_to((n - 1) as nat)
    }
}

/// 2^52: the weight of the lowest exponent bit.
pub const FRACTION_SPAN: u64 = 4503599627370496;

/// 2^63: the weight of the sign bit.
pub const SIGN_BIT: u64 = 9223372036854775808;

/// The biased exponent field of a binary64 bit pattern.
pub open spec fn exponent_field(bits: u64) -> int {
    (bits / FRACTION_SPAN) as int % 2048
}

/// The fraction field of a binary64 bit pattern.
pub open spec fn fraction_field(bits: u64) -> int {
    (bits % FRACTION_SPAN) as int
}

/// The whole part of the finite, non-negative binary64 value with these
/// fields: its significand times 2 to its exponent, rounded toward zero.
pub open spec fn whole_part(exp: int, frac: int) -> int {
    let m = if exp == 0 {
        frac
    } else {
        frac + FRACTION_SPAN
    };
    let e = if exp == 0 {
        1
    } else {
        exp
    };
    if e >= 1075 {
        m * two_to((e - 1075) as nat)
    } else {
        m / (two_to((1075 - e) as nat) as int)
    }
}

/// The expiry that a raw protocol value stands for: none where the value
/// is not greater than zero (zero, negative, NaN); otherwise the value
/// rounded toward zero to whole seconds, saturating at `i64::MAX`.
pub open spec fn expiry_of_bits(bits: u64) -> Option<i64> {
    let exp = exponent_field(bits);
    let frac = fraction_field(bits);
    if bits >= SIGN_BIT || (exp == 0 && frac == 0) || (exp == 2047 && frac != 0) {
        None
    } else if exp == 2047 {
        Some(i64::MAX)
    } else if whole_part(exp, frac) > i64::MAX {
        Some(i64::MAX)
    } else {
        Some(whole_part(exp, frac) as i64)
    }
}

proof fn lemma_two_to_grows(a: nat, b: nat)
    requires
        a <= b,
    ensures
        two_to(a) <= two_to(b),
        two_to(a) >= 1,
    decreases b,
{
    if a < b {
        lemma_two_to_grows(a, (b - 1) as nat);
    }
    if a > 0 {
        lemma_two_to_grows((a - 1) as nat, (a - 1) as nat);
    }
}

/// `m` divided by 2, `k` times.
fn halve_times(m: u64, k: u64) -> (r: u64)
    ensures
        r == m as int / (two_to(k as nat) as int),
{
    let mut v: u64 = m;
    let mut i: u64 = 0;
    assert(two_to(0) == 1);
    assert(m as int / 1 == m);
    while i < k
        invariant
            i <= k,
            v == m as int / (two_to(i as nat) as int),
        decreases k - i,
    {
        proof {
            lemma_two_to_grows(0, i as nat);
            lemma_div_denominator(m as int, two_to(i as nat) as int, 2);
            assert(two_to((i + 1) as nat) == two_to(i as nat) * 2);
        }
        v = v / 2;
        i += 1;
    }
    v
}

/// `m` doubled `k` times, where that stays below 2^63.
fn double_times(m: u64, k: u64) -> (r: u64)
    requires
        k <= 10,
        m < 2 * FRACTION_SPAN,
    ensures
        r == m * two_to(k as nat),
        r <= i64::MAX,
{
    let mut v: u64 = m;
    let mut i: u64 = 0;
    assert(two_to(0) == 1);
    while i < k
        invariant
            i <= k <= 10,
            m < 2 * FRACTION_SPAN,
            v == m * two_to(i as nat),
            v < 2 * FRACTION_SPAN * two_to(i as nat),
        decreases k - i,
    {
        proof {
            assert(two_to((i + 1) as nat) == 2 * two_to(i as nat));
            assert(two_to(10) == 1024) by {
                reveal_with_fuel(two_to, 11);
            }
            lemma_two_to_grows((i + 1) as nat, 10);
            assert(v * 2 < 2 * FRACTION_SPAN * two_to((i + 1) as nat)) by (nonlinear_arith)
                requires
                    v < 2 * FRACTION_SPAN * two_to(i as nat),
                    two_to((i + 1) as nat) == 2 * two_to(i as nat),
            ;
            assert(m * two_to((i + 1) as nat) == m * two_to(i as nat) * 2) by (nonlinear_arith)
                requires
                    two_to((i + 1) as nat) == 2 * two_to(i as nat),
            ;
            assert(2 * FRACTION_SPAN * two_to((i + 1) as nat) <= 2 * FRACTION_SPAN * 1024)
                by (nonlinear_arith)
                requires
                    two_to((i + 1) as nat) <= 1024,
            ;
        }
        v = v * 2;
        i += 1;
    }
    proof {
        assert(two_to(10) == 1024) by {
            reveal_with_fuel(two_to, 11);
        }
        lemma_two_to_grows(k as nat, 10);
        assert(2 * FRACTION_SPAN * two_to(k as nat) <= 2 * FRACTION_SPAN * 1024) by (nonlinear_arith)
            requires
                two_to(k as nat) <= 1024,
        ;
    }
    v
}

/// The expiry, in whole seconds since the epoch, that the protocol's raw
/// value with bit pattern `bits` stands for: `None` unless the value is
/// greater than zero.
pub fn expiry_from_bits(bits: u64) -> (r: Option<i64>)
    ensures
        r == expiry_of_bits(bits),
{
    let exp: u64 = (bits / FRACTION_SPAN) % 2048;
    let frac: u64 = bits % FRACTION_SPAN;
    if bits >= SIGN_BIT || (exp == 0 && frac == 0) || (exp == 2047 && frac != 0) {
        return None;
    }
    if exp == 2047 {
        return Some(i64::MAX);
    }
    let m: u64 = if exp == 0 {
        frac
    } else {
        frac + FRACTION_SPAN
    };
    let e: u64 = if exp == 0 {
        1
    } else {
        exp
    };
    if e >= 1075 {
        let k: u64 = e - 1075;
        if k > 10 {
            proof {
                assert(two_to(11) == 2048) by {
                    reveal_with_fuel(two_to, 12);
                }
                lemma_two_to_grows(11, k as nat);
                assert(m * two_to(k as nat) >= FRACTION_SPAN * 2048) by (nonlinear_arith)
                    requires
                        m >= FRACTION_SPAN,
                        two_to(k as nat) >= 2048,
                ;
            }
            Some(i64::MAX)
        } else {
            let w = double_times(m, k);
            Some(w as i64)
        }
    } else {
        let w = halve_times(m, 1075 - e);
        proof {
            assert(w <= m) by {
                lemma_two_to_grows(0, (1075 - e) as nat);
                vstd::arithmetic::div_mod::lemma_div_is_ordered_by_denominator(
                    m as int,
                    1,
                    two_to((1075 - e) as nat) as int,
                );
            }
        }
        Some(w as i64)
    }
}

} // verus!
