//! Single-precision numbers as bit patterns.
//!
//! A `u32` word `w` holds a sign bit, eight exponent bits and twenty-three
//! fraction bits. Every number that such a word can hold is a whole multiple
//! of `2^-149`, so its value is stated here as an integer: `exact(w)` is the
//! value of `w` counted in units of `2^-149`.

use vstd::prelude::*;
use vstd::arithmetic::mul::{lemma_mul_inequality, lemma_mul_strict_inequality};
use vstd::arithmetic::power2::{
    lemma2_to64, lemma_pow2_adds, lemma_pow2_pos, lemma_pow2_strictly_increases, lemma_pow2_unfold, pow2,
};

verus! {

/// The sign bit of a word.
pub const SIGN_BIT: u32 = 0x8000_0000;

/// The lowest value of the fraction's hidden leading bit, `2^23`.
pub const HIDDEN_BIT: u32 = 0x0080_0000;

/// Positive infinity. Magnitudes above it are not numbers.
pub const INFINITY: u32 = 0x7F80_0000;

/// Positive zero.
pub const ZERO: u32 = 0;

/// The number one.
pub const ONE: u32 = 0x3F80_0000;

/// The word without its sign bit.
pub open spec fn spec_magnitude(w: u32) -> u32 {
    if w >= SIGN_BIT {
        (w - SIGN_BIT) as u32
    } else {
        w
    }
}

/// Whether the sign bit is set. True of negative zero too.
pub open spec fn is_negative(w: u32) -> bool {
    w >= SIGN_BIT
}

/// Whether the word holds no number.
pub open spec fn spec_is_nan(w: u32) -> bool {
    spec_magnitude(w) > INFINITY
}

/// The value of a magnitude in units of `2^-149`: the fraction alone below
/// the first exponent, and the fraction with its hidden bit, doubled once for
/// each further exponent step, above it. Infinity comes out as `2^277`, above
/// every finite weight.
pub open spec fn weight(m: u32) -> nat {
    let exponent = m / HIDDEN_BIT;
    let fraction = m % HIDDEN_BIT;
    if exponent == 0 {
        fraction as nat
    } else {
        ((HIDDEN_BIT + fraction) * pow2((exponent - 1) as nat)) as nat
    }
}

/// The value of a word that holds a number, in units of `2^-149`.
pub open spec fn exact(w: u32) -> int {
    if is_negative(w) {
        -(weight(spec_magnitude(w)) as int)
    } else {
        weight(spec_magnitude(w)) as int
    }
}

/// The word with its sign flipped.
pub open spec fn spec_negate(w: u32) -> u32 {
    if w >= SIGN_BIT {
        (w - SIGN_BIT) as u32
    } else {
        (w + SIGN_BIT) as u32
    }
}

/// A larger magnitude weighs strictly more.
pub proof fn lemma_weight_increases(a: u32, b: u32)
    requires
        a < b,
    ensures
        weight(a) < weight(b),
{
    let ea = (a / HIDDEN_BIT) as nat;
    let fa = (a % HIDDEN_BIT) as int;
    let eb = (b / HIDDEN_BIT) as nat;
    let fb = (b % HIDDEN_BIT) as int;
    let h = HIDDEN_BIT as int;
    if ea == eb {
        if ea > 0 {
            let p = pow2((ea - 1) as nat) as int;
            lemma_pow2_pos((ea - 1) as nat);
            lemma_mul_strict_inequality(h + fa, h + fb, p);
        }
    } else {
        let q = pow2((eb - 1) as nat) as int;
        lemma_pow2_pos((eb - 1) as nat);
        lemma_mul_inequality(h, h + fb, q);
        assert(h * q <= weight(b));
        if ea == 0 {
            lemma_mul_inequality(1, q, h);
            assert(h <= h * q) by (nonlinear_arith)
                requires
                    1 <= q,
                    h > 0,
            ;
        } else {
            let p = pow2((ea - 1) as nat) as int;
            lemma_pow2_pos((ea - 1) as nat);
            lemma_mul_strict_inequality(h + fa, 2 * h, p);
            lemma_pow2_unfold(ea);
            assert(2 * h * p == h * pow2(ea)) by (nonlinear_arith)
                requires
                    pow2(ea) == 2 * p,
            ;
            if ea < eb - 1 {
                lemma_pow2_strictly_increases(ea, (eb - 1) as nat);
            }
            lemma_mul_inequality(pow2(ea) as int, q, h);
            assert(h * pow2(ea) <= h * q) by (nonlinear_arith)
                requires
                    pow2(ea) <= q,
                    h > 0,
            ;
        }
    }
}

/// Magnitudes are ordered as their weights are, and only zero weighs nothing.
pub proof fn lemma_weight_order(a: u32, b: u32)
    ensures
        a <= b <==> weight(a) <= weight(b),
        a == b <==> weight(a) == weight(b),
        weight(a) == 0 <==> a == 0,
{
    if a < b {
        lemma_weight_increases(a, b);
    }
    if b < a {
        lemma_weight_increases(b, a);
    }
    if a > 0 {
        lemma_weight_increases(0, a);
    }
}

/// The word `ONE` holds the number one: `2^149` units of `2^-149`.
pub proof fn lemma_one_exact()
    ensures
        exact(ONE) == pow2(149),
        exact(ZERO) == 0,
{
    lemma2_to64();
    lemma_pow2_adds(23, 126);
    assert(ONE / HIDDEN_BIT == 127 && ONE % HIDDEN_BIT == 0);
}

/// The word without its sign bit.
#[verifier::when_used_as_spec(spec_magnitude)]
pub fn magnitude(w: u32) -> (m: u32)
    ensures
        m == spec_magnitude(w),
        m < SIGN_BIT,
{
    if w >= SIGN_BIT {
        w - SIGN_BIT
    } else {
        w
    }
}

/// Whether the word holds no number.
#[verifier::when_used_as_spec(spec_is_nan)]
pub fn is_nan(w: u32) -> (r: bool)
    ensures
        r == spec_is_nan(w),
{
    magnitude(w) > INFINITY
}

/// Flips the sign: the value of the result is the value of `w` negated.
#[verifier::when_used_as_spec(spec_negate)]
pub fn negate(w: u32) -> (r: u32)
    ensures
        r == spec_negate(w),
        spec_magnitude(r) == spec_magnitude(w),
        is_negative(r) != is_negative(w),
        exact(r) == -exact(w),
{
    if w >= SIGN_BIT {
        w - SIGN_BIT
    } else {
        w + SIGN_BIT
    }
}

/// The numeric `<=`: false where either word holds no number, and the order
/// of the exact values otherwise, so that the two zeros are equal.
pub fn le(a: u32, b: u32) -> (r: bool)
    ensures
        r == (!spec_is_nan(a) && !spec_is_nan(b) && exact(a) <= exact(b)),
{
    if is_nan(a) || is_nan(b) {
        return false;
    }
    let ma: u32 = magnitude(a);
    let mb: u32 = magnitude(b);
    proof {
        lemma_weight_order(ma, mb);
        lemma_weight_order(mb, ma);
    }
    if a >= SIGN_BIT {
        if b >= SIGN_BIT {
            mb <= ma
        } else {
            true
        }
    } else {
        if b >= SIGN_BIT {
            ma == 0 && mb == 0
        } else {
            ma <= mb
        }
    }
}

} // verus!
