//! Rounding keeps the order of the numbers that it rounds.

use vstd::prelude::*;
use vstd::arithmetic::div_mod::{lemma_div_is_ordered, lemma_fundamental_div_mod};
use vstd::arithmetic::power2::{
    pow2, lemma_pow2_pos, lemma_pow2_adds, lemma_pow2_unfold, lemma2_to64,
};
use crate::ieee::model::{magnitude, nearest_even, quantum, round_magnitude, INF_BITS};
use crate::ieee::rounding::lemma_round_magnitude_scale;

verus! {

/// The quantum of `num / den` says between which powers of two the
/// quotient lies.
pub proof fn lemma_quantum_bounds(num: nat, den: nat)
    requires
        den > 0,
    ensures
        num < pow2(24 + quantum(num, den)) * den,
        quantum(num, den) > 0 ==> pow2(23 + quantum(num, den)) * den <= num,
    decreases
        (if num >= 0x100_0000 * den {
            num - 0x100_0000 * den + 1
        } else {
            0
        }),
{
    lemma2_to64();
    assert(pow2(24) == 0x100_0000);
    if num >= 0x100_0000 * den {
        lemma_quantum_bounds(num, 2 * den);
        let k = quantum(num, 2 * den);
        let j = k + 1;
        assert(quantum(num, den) == j);
        lemma_pow2_unfold(24 + j);
        lemma_pow2_unfold(23 + j);
        assert(pow2(24 + j) * den == pow2(24 + k) * (2 * den)) by (nonlinear_arith)
            requires
                pow2(24 + j) == 2 * pow2((24 + j - 1) as nat),
                (24 + j - 1) as nat == 24 + k,
        ;
        assert(pow2(23 + j) * den == pow2(23 + k) * (2 * den)) by (nonlinear_arith)
            requires
                pow2(23 + j) == 2 * pow2((23 + j - 1) as nat),
                (23 + j - 1) as nat == 23 + k,
        ;
        if k == 0 {
            assert(pow2(23 + k) * (2 * den) == 0x100_0000 * den) by (nonlinear_arith)
                requires
                    pow2(23 + k) == 0x80_0000,
            ;
        }
    } else {
        assert(quantum(num, den) == 0);
    }
}

/// A greater numerator has no smaller quantum.
pub proof fn lemma_quantum_monotone(n1: nat, n2: nat, den: nat)
    requires
        den > 0,
        n1 <= n2,
    ensures
        quantum(n1, den) <= quantum(n2, den),
    decreases
        (if n1 >= 0x100_0000 * den {
            n1 - 0x100_0000 * den + 1
        } else {
            0
        }),
{
    if n1 >= 0x100_0000 * den {
        lemma_quantum_monotone(n1, n2, 2 * den);
    }
}

/// A greater numerator has no smaller nearest integer.
pub proof fn lemma_nearest_even_monotone(n1: nat, n2: nat, den: nat)
    requires
        den > 0,
        n1 <= n2,
    ensures
        nearest_even(n1, den) <= nearest_even(n2, den),
{
    lemma_div_is_ordered(n1 as int, n2 as int, den as int);
    lemma_fundamental_div_mod(n1 as int, den as int);
    lemma_fundamental_div_mod(n2 as int, den as int);
    let q1 = n1 / den;
    let q2 = n2 / den;
    if q1 == q2 {
        assert(den * q1 == den * q2);
        assert(n1 % den <= n2 % den);
    }
}

/// The significand that rounding gives has at most 24 bits, and its leading
/// bit set above the quantum 0.
pub proof fn lemma_rounded_significand(num: nat, den: nat)
    requires
        den > 0,
    ensures
        nearest_even(num, den * pow2(quantum(num, den))) <= 0x100_0000,
        quantum(num, den) > 0 ==> nearest_even(num, den * pow2(quantum(num, den))) >= 0x80_0000,
{
    let j = quantum(num, den);
    let w = den * pow2(j);
    lemma_quantum_bounds(num, den);
    lemma_pow2_pos(j);
    lemma_pow2_adds(24, j);
    lemma_pow2_adds(23, j);
    lemma2_to64();
    assert(pow2(24) == 0x100_0000 && pow2(23) == 0x80_0000);
    assert(w > 0) by (nonlinear_arith)
        requires
            w == den * pow2(j),
            den > 0,
            pow2(j) > 0,
    ;
    lemma_fundamental_div_mod(num as int, w as int);
    let q = num / w;
    assert(q < 0x100_0000) by (nonlinear_arith)
        requires
            num == w * q + num % w,
            num % w >= 0,
            num < pow2(24 + j) * den,
            pow2(24 + j) == 0x100_0000 * pow2(j),
            w == den * pow2(j),
            w > 0,
    ;
    if j > 0 {
        assert(q >= 0x80_0000) by (nonlinear_arith)
            requires
                num == w * q + num % w,
                num % w < w,
                pow2(23 + j) * den <= num,
                pow2(23 + j) == 0x80_0000 * pow2(j),
                w == den * pow2(j),
                w > 0,
        ;
    }
}

/// The nearest integer differs from the quotient by a half at most.
pub proof fn lemma_nearest_even_error(num: nat, den: nat)
    requires
        den > 0,
    ensures
        2 * (nearest_even(num, den) * den - num) <= den,
        2 * (num - nearest_even(num, den) * den) <= den,
{
    lemma_fundamental_div_mod(num as int, den as int);
    let q = num / den;
    let r = num % den;
    assert((q + 1) * den == den * q + den) by (nonlinear_arith);
    assert(q * den == den * q) by (nonlinear_arith);
}

/// Rounding moves a quotient by half of the spacing of the numbers around
/// it at most: where the rounded magnitude is finite, twice its distance
/// from the quotient is no more than `2^quantum`.
pub proof fn lemma_round_error(num: nat, den: nat)
    requires
        den > 0,
        round_magnitude(num, den) < INF_BITS,
    ensures
        2 * (magnitude(round_magnitude(num, den) as u32) * den - num) <= den * pow2(
            quantum(num, den),
        ),
        2 * (num - magnitude(round_magnitude(num, den) as u32) * den) <= den * pow2(
            quantum(num, den),
        ),
{
    let j = quantum(num, den);
    let w = den * pow2(j);
    let n = nearest_even(num, w);
    let b = round_magnitude(num, den) as u32;
    lemma_pow2_pos(j);
    assert(w > 0) by (nonlinear_arith)
        requires
            w == den * pow2(j),
            den > 0,
            pow2(j) > 0,
    ;
    lemma_rounded_significand(num, den);
    lemma_nearest_even_error(num, w);
    assert(b == j * 0x80_0000 + n);
    if n < 0x100_0000 {
        let same = crate::ieee::exact::lemma_bits_of_parts(n, j);
        assert(same == b);
    } else {
        let next = crate::ieee::exact::lemma_bits_of_parts(0x80_0000, j + 1);
        assert(next == b);
        lemma_pow2_unfold(j + 1);
        assert(0x80_0000 * pow2(j + 1) == n * pow2(j)) by (nonlinear_arith)
            requires
                pow2(j + 1) == 2 * pow2(j),
                n == 0x100_0000,
        ;
    }
    assert(magnitude(b) * den == n * w) by (nonlinear_arith)
        requires
            magnitude(b) == n * pow2(j),
            w == den * pow2(j),
    ;
}

/// Rounding moves a quotient by little against its size: by no more than
/// half a unit where the quotient is below `2^24`, and by no more than the
/// quotient's `2^24`th part where it is not.
pub proof fn lemma_round_relative(num: nat, den: nat)
    requires
        den > 0,
        round_magnitude(num, den) < INF_BITS,
    ensures
        quantum(num, den) == 0 ==> 2 * (magnitude(round_magnitude(num, den) as u32) * den - num)
            <= den && 2 * (num - magnitude(round_magnitude(num, den) as u32) * den) <= den,
        quantum(num, den) > 0 ==> 0x100_0000 * (magnitude(round_magnitude(num, den) as u32) * den
            - num) <= num && 0x100_0000 * (num - magnitude(round_magnitude(num, den) as u32)
            * den) <= num,
{
    let j = quantum(num, den);
    let m = magnitude(round_magnitude(num, den) as u32) * den;
    let w = den * pow2(j);
    lemma_round_error(num, den);
    lemma_quantum_bounds(num, den);
    lemma2_to64();
    if j == 0 {
        assert(w == den) by (nonlinear_arith)
            requires
                w == den * pow2(j),
                pow2(j) == 1,
        ;
    } else {
        lemma_pow2_adds(23, j);
        assert(pow2(23) == 0x80_0000);
        assert(0x80_0000 * w <= num) by (nonlinear_arith)
            requires
                w == den * pow2(j),
                pow2(23 + j) == 0x80_0000 * pow2(j),
                pow2(23 + j) * den <= num,
        ;
    }
}

/// Of two quotients with the same denominator, the greater rounds to no
/// smaller magnitude.
proof fn lemma_round_monotone_same(n1: nat, n2: nat, den: nat)
    requires
        den > 0,
        n1 <= n2,
    ensures
        round_magnitude(n1, den) <= round_magnitude(n2, den),
{
    let j1 = quantum(n1, den);
    let j2 = quantum(n2, den);
    lemma_quantum_monotone(n1, n2, den);
    lemma_rounded_significand(n1, den);
    lemma_rounded_significand(n2, den);
    if j1 == j2 {
        lemma_pow2_pos(j1);
        assert(den * pow2(j1) > 0) by (nonlinear_arith)
            requires
                den > 0,
                pow2(j1) > 0,
        ;
        lemma_nearest_even_monotone(n1, n2, den * pow2(j1));
    }
}

/// Of two quotients, the greater rounds to no smaller magnitude.
pub proof fn lemma_round_monotone(n1: nat, d1: nat, n2: nat, d2: nat)
    requires
        d1 > 0,
        d2 > 0,
        n1 * d2 <= n2 * d1,
    ensures
        round_magnitude(n1, d1) <= round_magnitude(n2, d2),
{
    lemma_round_magnitude_scale(n1, d1, d2);
    lemma_round_magnitude_scale(n2, d2, d1);
    assert(d1 * d2 == d2 * d1 && d1 * d2 > 0) by (nonlinear_arith)
        requires
            d1 > 0,
            d2 > 0,
    ;
    lemma_round_monotone_same(n1 * d2, n2 * d1, d1 * d2);
}

} // verus!
