//! Scores as bit patterns.
//!
//! A score is an IEEE 754 single-precision number, carried here as the 32
//! bits that encode it: the top bit is the sign, the remaining 31 bits the
//! magnitude (exponent above mantissa). Magnitudes above that of infinity
//! encode "not a number". The functions below give those bit patterns a
//! total preorder that agrees with the numeric order and ranks every
//! not-a-number last.

use vstd::arithmetic::power2::{lemma_pow2_pos, lemma_pow2_strictly_increases, lemma_pow2_unfold, pow2};
use vstd::prelude::*;

verus! {

/// The bit that carries the sign.
pub const SIGN_BIT: u32 = 0x8000_0000;

/// The magnitude of infinity; every larger magnitude is not a number.
pub const INFINITY_BITS: u32 = 0x7f80_0000;

/// The key given to every not-a-number: above the key of any number.
pub const NAN_KEY: i64 = 0x8000_0000;

/// Whether the sign bit is set.
pub open spec fn is_negative(bits: u32) -> bool {
    bits >= SIGN_BIT
}

/// The low 31 bits: the encoded absolute value.
pub open spec fn magnitude(bits: u32) -> int {
    if bits >= SIGN_BIT {
        bits - SIGN_BIT
    } else {
        bits as int
    }
}

/// Whether the bits encode "not a number".
pub open spec fn is_nan(bits: u32) -> bool {
    magnitude(bits) > INFINITY_BITS
}

/// The bits of the number with the opposite sign.
pub open spec fn negated(bits: u32) -> u32 {
    if bits >= SIGN_BIT {
        (bits - SIGN_BIT) as u32
    } else {
        (bits + SIGN_BIT) as u32
    }
}

/// An integer that orders scores as their numeric values do: the signed
/// magnitude for a number (so both zeros share key 0), and `NAN_KEY` for
/// every not-a-number.
pub open spec fn order_key(bits: u32) -> int {
    if is_nan(bits) {
        NAN_KEY as int
    } else if is_negative(bits) {
        -magnitude(bits)
    } else {
        magnitude(bits)
    }
}

/// The key by which a score is ranked when smaller keys are better: the
/// order key of the score itself where a lower score is better, and of its
/// negation where a higher score is better. A not-a-number ranks last
/// either way.
pub open spec fn rank_key(bits: u32, lower_is_better: bool) -> int {
    if lower_is_better {
        order_key(bits)
    } else {
        order_key(negated(bits))
    }
}

/// Tells whether the bits encode "not a number".
pub fn bits_are_nan(bits: u32) -> (r: bool)
    ensures
        r == is_nan(bits),
{
    let mag: u32 = if bits >= SIGN_BIT {
        bits - SIGN_BIT
    } else {
        bits
    };
    mag > INFINITY_BITS
}

/// Flips the sign of the encoded number.
pub fn negate(bits: u32) -> (r: u32)
    ensures
        r == negated(bits),
{
    if bits >= SIGN_BIT {
        bits - SIGN_BIT
    } else {
        bits + SIGN_BIT
    }
}

/// Computes `order_key`.
pub fn sort_key(bits: u32) -> (k: i64)
    ensures
        k == order_key(bits),
{
    if bits >= SIGN_BIT {
        let mag: u32 = bits - SIGN_BIT;
        if mag > INFINITY_BITS {
            NAN_KEY
        } else {
            -(mag as i64)
        }
    } else if bits > INFINITY_BITS {
        NAN_KEY
    } else {
        bits as i64
    }
}

/// Computes `rank_key`.
pub fn ranking_key(bits: u32, lower_is_better: bool) -> (k: i64)
    ensures
        k == rank_key(bits, lower_is_better),
{
    if lower_is_better {
        sort_key(bits)
    } else {
        sort_key(negate(bits))
    }
}

/// Negating twice gives the same bits back, negation keeps a not-a-number
/// one, and it mirrors the order key of every number.
pub proof fn lemma_negated(bits: u32)
    ensures
        negated(negated(bits)) == bits,
        is_nan(negated(bits)) == is_nan(bits),
        magnitude(negated(bits)) == magnitude(bits),
        !is_nan(bits) ==> order_key(negated(bits)) == -order_key(bits),
{
}

/// Every key lies between the keys of the two infinities, or is `NAN_KEY`.
pub proof fn lemma_key_range(bits: u32, lower_is_better: bool)
    ensures
        -(INFINITY_BITS as int) <= order_key(bits) <= NAN_KEY,
        -(INFINITY_BITS as int) <= rank_key(bits, lower_is_better) <= NAN_KEY,
        is_nan(bits) <==> rank_key(bits, lower_is_better) == NAN_KEY,
{
}

/// The first magnitude with a non-zero exponent field: two to the 23, the
/// number of mantissa bits that the encoding stores.
pub const HIDDEN_BIT: u32 = 0x80_0000;

/// The absolute value that a magnitude encodes, in units of two to the
/// minus 149: the mantissa alone where the exponent field is 0, else the
/// mantissa under its hidden bit, doubled once for every step of the
/// exponent field above 1. The magnitude of infinity gets the value that
/// this formula gives it, which lies above that of every finite magnitude.
pub open spec fn scaled_abs(magnitude: int) -> int {
    let exponent = magnitude / (HIDDEN_BIT as int);
    let mantissa = magnitude % (HIDDEN_BIT as int);
    if exponent == 0 {
        mantissa
    } else {
        (HIDDEN_BIT + mantissa) * pow2((exponent - 1) as nat)
    }
}

/// The number that the bits encode, in units of two to the minus 149.
pub open spec fn scaled_value(bits: u32) -> int {
    if is_negative(bits) {
        -scaled_abs(magnitude(bits))
    } else {
        scaled_abs(magnitude(bits))
    }
}

/// A larger magnitude encodes a larger absolute value, and only magnitude 0
/// encodes 0.
pub proof fn lemma_scaled_abs_increases(m1: int, m2: int)
    requires
        0 <= m1 < m2,
    ensures
        0 <= scaled_abs(m1) < scaled_abs(m2),
{
    let h = HIDDEN_BIT as int;
    let e1 = m1 / h;
    let e2 = m2 / h;
    let f1 = m1 % h;
    let f2 = m2 % h;
    if e1 == 0 {
        if e2 > 0 {
            let p2 = pow2((e2 - 1) as nat) as int;
            lemma_pow2_pos((e2 - 1) as nat);
            assert((h + f2) * p2 >= h + f2) by (nonlinear_arith)
                requires
                    p2 >= 1,
                    h + f2 >= 0,
            ;
        }
    } else {
        let p1 = pow2((e1 - 1) as nat) as int;
        let p2 = pow2((e2 - 1) as nat) as int;
        lemma_pow2_pos((e1 - 1) as nat);
        assert(0 <= (h + f1) * p1) by (nonlinear_arith)
            requires
                p1 >= 1,
                h + f1 >= 0,
        ;
        if e1 == e2 {
            assert((h + f1) * p1 < (h + f2) * p1) by (nonlinear_arith)
                requires
                    p1 >= 1,
                    f1 < f2,
            ;
        } else {
            let q = pow2(e1 as nat) as int;
            lemma_pow2_unfold(e1 as nat);
            if e1 < e2 - 1 {
                lemma_pow2_strictly_increases(e1 as nat, (e2 - 1) as nat);
            }
            assert((h + f1) * p1 < h * q) by (nonlinear_arith)
                requires
                    q == 2 * p1,
                    p1 >= 1,
                    0 <= f1 < h,
            ;
            assert(h * q <= (h + f2) * p2) by (nonlinear_arith)
                requires
                    0 <= q <= p2,
                    0 <= f2,
                    h >= 0,
            ;
        }
    }
}

/// The order key orders the bits of two numbers as their values: a smaller
/// key is a smaller number, and equal keys are equal numbers.
pub proof fn lemma_order_key_is_numeric_order(a: u32, b: u32)
    requires
        !is_nan(a),
        !is_nan(b),
    ensures
        order_key(a) < order_key(b) <==> scaled_value(a) < scaled_value(b),
        order_key(a) == order_key(b) <==> scaled_value(a) == scaled_value(b),
{
    let ma = magnitude(a);
    let mb = magnitude(b);
    if ma < mb {
        lemma_scaled_abs_increases(ma, mb);
    } else if mb < ma {
        lemma_scaled_abs_increases(mb, ma);
    }
    if 0 < ma {
        lemma_scaled_abs_increases(0, ma);
    }
    if 0 < mb {
        lemma_scaled_abs_increases(0, mb);
    }
}

/// Under "higher is better" the rank key orders two numbers against their
/// values: the larger number has the smaller key.
pub proof fn lemma_rank_key_is_numeric_order(a: u32, b: u32, lower_is_better: bool)
    requires
        !is_nan(a),
        !is_nan(b),
    ensures
        lower_is_better ==> (rank_key(a, true) < rank_key(b, true) <==> scaled_value(a)
            < scaled_value(b)),
        !lower_is_better ==> (rank_key(a, false) < rank_key(b, false) <==> scaled_value(a)
            > scaled_value(b)),
        rank_key(a, lower_is_better) == rank_key(b, lower_is_better) <==> scaled_value(a)
            == scaled_value(b),
{
    lemma_order_key_is_numeric_order(a, b);
    lemma_negated(a);
    lemma_negated(b);
}

} // verus!
