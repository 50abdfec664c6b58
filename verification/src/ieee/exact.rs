//! When rounding changes nothing, and how magnitudes are ordered.

use vstd::prelude::*;
use vstd::arithmetic::div_mod::{
    lemma_fundamental_div_mod_converse_div,
    lemma_fundamental_div_mod_converse_mod,
};
use vstd::arithmetic::power2::{
    pow2, lemma_pow2_pos, lemma_pow2_adds, lemma_pow2_unfold, lemma2_to64,
};
use crate::ieee::model::{
    abs_bits, is_finite, is_nan, magnitude, nearest_even, round_magnitude, scale,
    significand, INF_BITS,
};
use crate::ieee::rounding::{lemma_pow2_le, lemma_quantum_positive, lemma_quantum_zero};

verus! {

/// The integer nearest to a whole multiple `m * p` of `p`, moved by less
/// than half of `p`, is `m`.
pub proof fn lemma_nearest_even_close(m: nat, p: nat, up: nat, down: nat)
    requires
        p > 0,
        2 * up < p,
        2 * down < p,
        m > 0 || down == 0,
    ensures
        nearest_even(m * p + up, p) == m,
        nearest_even((m * p - down) as nat, p) == m,
{
    lemma_fundamental_div_mod_converse_div((m * p + up) as int, p as int, m as int, up as int);
    lemma_fundamental_div_mod_converse_mod((m * p + up) as int, p as int, m as int, up as int);
    if down == 0 {
        lemma_fundamental_div_mod_converse_div((m * p) as int, p as int, m as int, 0);
        lemma_fundamental_div_mod_converse_mod((m * p) as int, p as int, m as int, 0);
    } else {
        let r = (p - down) as nat;
        let k = (m - 1) as nat;
        assert(m * p - down == k * p + r) by (nonlinear_arith)
            requires
                k == m - 1,
                r == p - down,
        ;
        assert(m * p - down >= 0) by (nonlinear_arith)
            requires
                m >= 1,
                down < p,
        ;
        lemma_fundamental_div_mod_converse_div((m * p - down) as int, p as int, k as int, r as int);
        lemma_fundamental_div_mod_converse_mod((m * p - down) as int, p as int, k as int, r as int);
    }
}

/// The bit pattern of a finite number is its scale and its significand.
pub proof fn lemma_abs_bits_parts(b: u32)
    requires
        is_finite(b),
    ensures
        abs_bits(b) == scale(b) * 0x80_0000 + significand(b),
        significand(b) < 0x100_0000,
        scale(b) <= 253,
        scale(b) > 0 ==> significand(b) >= 0x80_0000,
{
}

/// Rounding a number that is representable gives that number.
pub proof fn lemma_round_exact(b: u32)
    requires
        is_finite(b),
    ensures
        round_magnitude(magnitude(b), 1) == abs_bits(b),
{
    lemma_pow2_pos(scale(b));
    lemma_round_absorbs(b, 0);
}

/// A number keeps its bit pattern when less than a quarter of the weight of
/// its last significand bit is added or taken away.
pub proof fn lemma_round_absorbs(b: u32, beta: nat)
    requires
        is_finite(b),
        4 * beta < pow2(scale(b)),
    ensures
        round_magnitude(magnitude(b) + beta, 1) == abs_bits(b),
        round_magnitude((magnitude(b) - beta) as nat, 1) == abs_bits(b),
        beta <= magnitude(b),
{
    let m = significand(b);
    let e = scale(b);
    let p = pow2(e);
    let big = m * p;
    lemma_abs_bits_parts(b);
    lemma2_to64();
    lemma_pow2_pos(e);
    lemma_pow2_adds(23, e);
    lemma_pow2_adds(24, e);
    assert(pow2(23) == 0x80_0000 && pow2(24) == 0x100_0000);
    assert(1 * p == p);
    if e == 0 {
        assert(beta == 0);
        assert(big == m) by (nonlinear_arith)
            requires
                big == m * p,
                p == 1,
        ;
        lemma_quantum_zero(big, 1);
        lemma_nearest_even_close(m, 1, 0, 0);
        assert(m * 1 == m);
    } else {
        // the number from above
        assert(pow2(23 + e) * 1 <= big + beta && big + beta < pow2(24 + e) * 1) by (nonlinear_arith)
            requires
                pow2(23 + e) == 0x80_0000 * p,
                pow2(24 + e) == 0x100_0000 * p,
                big == m * p,
                0x80_0000 <= m < 0x100_0000,
                4 * beta < p,
        ;
        lemma_quantum_positive(big + beta, 1, e);
        lemma_nearest_even_close(m, p, beta, 0);
        // the number from below
        assert(beta <= big) by (nonlinear_arith)
            requires
                big == m * p,
                m >= 1,
                4 * beta < p,
        ;
        if m > 0x80_0000 || beta == 0 {
            assert(pow2(23 + e) * 1 <= big - beta && big - beta < pow2(24 + e) * 1)
                by (nonlinear_arith)
                requires
                    pow2(23 + e) == 0x80_0000 * p,
                    pow2(24 + e) == 0x100_0000 * p,
                    big == m * p,
                    0x80_0000 <= m < 0x100_0000,
                    m > 0x80_0000 || beta == 0,
                    4 * beta < p,
            ;
            lemma_quantum_positive((big - beta) as nat, 1, e);
            lemma_nearest_even_close(m, p, 0, beta);
        } else {
            // a power of two: the numbers below it lie twice as close
            assert(e >= 3) by {
                if e < 3 {
                    lemma_pow2_le(e, 2);
                }
            }
            let k = (e - 1) as nat;
            let h = pow2(k);
            lemma_pow2_unfold(e);
            lemma_pow2_pos(k);
            lemma_pow2_adds(23, k);
            lemma_pow2_adds(24, k);
            assert(1 * h == h);
            assert(big == 0x100_0000 * h) by (nonlinear_arith)
                requires
                    big == m * p,
                    m == 0x80_0000,
                    p == 2 * h,
            ;
            assert(pow2(23 + k) * 1 <= big - beta && big - beta < pow2(24 + k) * 1)
                by (nonlinear_arith)
                requires
                    pow2(23 + k) == 0x80_0000 * h,
                    pow2(24 + k) == 0x100_0000 * h,
                    big == 0x100_0000 * h,
                    2 * beta < h,
                    beta > 0,
            ;
            lemma_quantum_positive((big - beta) as nat, 1, k);
            lemma_nearest_even_close(0x100_0000, h, 0, beta);
        }
    }
}

/// Of two numbers that are not NaN, the one with the greater bit pattern,
/// the sign bit aside, has the greater magnitude.
pub proof fn lemma_magnitude_increases(a: u32, b: u32)
    requires
        abs_bits(a) < abs_bits(b),
        !is_nan(b),
    ensures
        magnitude(a) < magnitude(b),
{
    let ma = significand(a);
    let mb = significand(b);
    let ea = scale(a);
    let eb = scale(b);
    lemma_pow2_pos(ea);
    lemma_pow2_pos(eb);
    lemma2_to64();
    assert(pow2(24) == 0x100_0000 && pow2(23) == 0x80_0000);
    if ea == eb {
        assert(ma * pow2(ea) < mb * pow2(eb)) by (nonlinear_arith)
            requires
                ma < mb,
                ea == eb,
                pow2(ea) > 0,
        ;
    } else {
        assert(ea < eb);
        lemma_pow2_le(ea + 1, eb);
        lemma_pow2_unfold(ea + 1);
        assert(ma * pow2(ea) < mb * pow2(eb)) by (nonlinear_arith)
            requires
                ma < 0x100_0000,
                mb >= 0x80_0000,
                2 * pow2(ea) <= pow2(eb),
                pow2(ea) > 0,
        ;
    }
}

/// Numbers that are not NaN are ordered as their bit patterns, the sign bit
/// aside.
pub proof fn lemma_magnitude_order(a: u32, b: u32)
    requires
        !is_nan(a),
        !is_nan(b),
    ensures
        abs_bits(a) <= abs_bits(b) <==> magnitude(a) <= magnitude(b),
        abs_bits(a) == abs_bits(b) <==> magnitude(a) == magnitude(b),
{
    if abs_bits(a) < abs_bits(b) {
        lemma_magnitude_increases(a, b);
    }
    if abs_bits(b) < abs_bits(a) {
        lemma_magnitude_increases(b, a);
    }
}

/// The number with significand `m` and scale `e`, where the two are in the
/// form in which a bit pattern holds them.
pub proof fn lemma_bits_of_parts(m: nat, e: nat) -> (b: u32)
    requires
        m < 0x100_0000,
        e <= 253,
        e > 0 ==> m >= 0x80_0000,
    ensures
        b == e * 0x80_0000 + m,
        b < INF_BITS,
        significand(b) == m,
        scale(b) == e,
        magnitude(b) == m * pow2(e),
        round_magnitude(m * pow2(e), 1) == b,
{
    let b = (e * 0x80_0000 + m) as u32;
    if e > 0 || m >= 0x80_0000 {
        let f = (m - 0x80_0000) as nat;
        assert(b == (e + 1) * 0x80_0000 + f);
        lemma_fundamental_div_mod_converse_div(b as int, 0x80_0000, (e + 1) as int, f as int);
        lemma_fundamental_div_mod_converse_mod(b as int, 0x80_0000, (e + 1) as int, f as int);
    }
    lemma_round_exact(b);
    b
}

/// Every product of a number below `2^24` and a power of two up to `2^253`
/// is representable, and rounding gives its bit pattern.
pub proof fn lemma_representable(m: nat, e: nat) -> (b: u32)
    requires
        m < 0x100_0000,
        e <= 253,
    ensures
        b < INF_BITS,
        magnitude(b) == m * pow2(e),
        round_magnitude(m * pow2(e), 1) == b,
    decreases e,
{
    if e == 0 || m >= 0x80_0000 {
        lemma_bits_of_parts(m, e)
    } else {
        lemma_pow2_unfold(e);
        assert(m * pow2(e) == (2 * m) * pow2((e - 1) as nat)) by (nonlinear_arith)
            requires
                pow2(e) == 2 * pow2((e - 1) as nat),
        ;
        lemma_representable(2 * m, (e - 1) as nat)
    }
}

/// A number of at least `2^(23 + k)` is a whole multiple of `2^k`.
pub proof fn lemma_granular(b: u32, k: nat) -> (m: nat)
    requires
        is_finite(b),
        magnitude(b) >= pow2(23 + k),
    ensures
        magnitude(b) == m * pow2(k),
{
    let e = scale(b);
    let sig = significand(b);
    lemma_abs_bits_parts(b);
    lemma_pow2_pos(e);
    lemma_pow2_adds(24, e);
    lemma2_to64();
    assert(pow2(24) == 0x100_0000);
    if e < k {
        lemma_pow2_le(24 + e, 23 + k);
        assert(magnitude(b) < pow2(24 + e)) by (nonlinear_arith)
            requires
                magnitude(b) == sig * pow2(e),
                sig < 0x100_0000,
                pow2(24 + e) == 0x100_0000 * pow2(e),
                pow2(e) > 0,
        ;
        assert(false);
    }
    let d = (e - k) as nat;
    lemma_pow2_adds(d, k);
    let m = sig * pow2(d);
    assert(magnitude(b) == m * pow2(k)) by (nonlinear_arith)
        requires
            magnitude(b) == sig * pow2(e),
            m == sig * pow2(d),
            pow2(d) * pow2(k) == pow2(e),
    ;
    m
}

/// The next bit pattern stands for the next number: greater by the weight
/// of the last significand bit.
pub proof fn lemma_successor(b: u32)
    requires
        is_finite(b),
    ensures
        magnitude((abs_bits(b) + 1) as u32) == magnitude(b) + pow2(scale(b)),
{
    let a = abs_bits(b);
    let next = (a + 1) as u32;
    let m = significand(b);
    let e = scale(b);
    lemma_abs_bits_parts(b);
    lemma2_to64();
    lemma_pow2_pos(e);
    if m + 1 < 0x100_0000 {
        if e > 0 || m + 1 >= 0x80_0000 {
            let f = (m + 1 - 0x80_0000) as nat;
            assert(next == (e + 1) * 0x80_0000 + f);
            lemma_fundamental_div_mod_converse_div(next as int, 0x80_0000, (e + 1) as int, f as int);
            lemma_fundamental_div_mod_converse_mod(next as int, 0x80_0000, (e + 1) as int, f as int);
        }
        assert(significand(next) == m + 1 && scale(next) == e);
        assert((m + 1) * pow2(e) == m * pow2(e) + pow2(e)) by (nonlinear_arith);
    } else {
        assert(next == (e + 2) * 0x80_0000);
        lemma_fundamental_div_mod_converse_div(next as int, 0x80_0000, (e + 2) as int, 0);
        lemma_fundamental_div_mod_converse_mod(next as int, 0x80_0000, (e + 2) as int, 0);
        assert(significand(next) == 0x80_0000 && scale(next) == e + 1);
        lemma_pow2_unfold(e + 1);
        assert(0x80_0000 * pow2(e + 1) == m * pow2(e) + pow2(e)) by (nonlinear_arith)
            requires
                pow2(e + 1) == 2 * pow2(e),
                m == 0xff_ffff,
        ;
    }
}

} // verus!
