//! Rounding an exact quotient to the nearest binary32 magnitude.

use vstd::prelude::*;
use vstd::arithmetic::div_mod::{
    lemma_div_multiples_vanish_quotient, lemma_fundamental_div_mod,
    lemma_fundamental_div_mod_converse_div, lemma_fundamental_div_mod_converse_mod,
    lemma_truncate_middle,
};
use vstd::arithmetic::div_mod::{lemma_basic_div, lemma_small_mod};
use vstd::arithmetic::power2::{
    pow2, lemma_pow2_pos, lemma_pow2_unfold, lemma_pow2_adds, lemma_pow2_strictly_increases,
    lemma2_to64, lemma2_to64_rest,
};
use crate::ieee::model::{quantum, nearest_even, round_magnitude, INF_BITS};

verus! {

/// The quantum of a quotient below `2^24` is 0.
pub proof fn lemma_quantum_zero(num: nat, den: nat)
    requires
        num < 0x100_0000 * den,
    ensures
        quantum(num, den) == 0,
{
}

/// The quantum of a quotient is `j` where the quotient lies between
/// `2^(23 + j)` and `2^(24 + j)`.
pub proof fn lemma_quantum_positive(num: nat, den: nat, j: nat)
    requires
        j > 0,
        den > 0,
        pow2(23 + j) * den <= num,
        num < pow2(24 + j) * den,
    ensures
        quantum(num, den) == j,
    decreases j,
{
    lemma2_to64();
    let k = (j - 1) as nat;
    lemma_pow2_adds(24, k);
    lemma_pow2_adds(23, k);
    lemma_pow2_unfold(23 + j);
    lemma_pow2_unfold(24 + j);
    lemma_pow2_pos(k);
    assert(pow2(23 + j) * den == pow2(23 + k) * (2 * den)) by (nonlinear_arith)
        requires
            pow2(23 + j) == 2 * pow2((23 + j - 1) as nat),
            (23 + j - 1) as nat == 23 + k,
    ;
    assert(pow2(24 + j) * den == pow2(24 + k) * (2 * den)) by (nonlinear_arith)
        requires
            pow2(24 + j) == 2 * pow2((24 + j - 1) as nat),
            (24 + j - 1) as nat == 24 + k,
    ;
    assert(0x100_0000 * den <= pow2(23 + j) * den) by (nonlinear_arith)
        requires
            pow2(23 + j) == 2 * pow2(23 + k),
            pow2(23 + k) == 0x80_0000 * pow2(k),
            pow2(k) >= 1,
    ;
    if k == 0 {
        assert(pow2(24 + k) == 0x100_0000);
        lemma_quantum_zero(num, 2 * den);
    } else {
        lemma_quantum_positive(num, 2 * den, k);
    }
}

/// Scaling numerator and denominator alike leaves the quantum unchanged.
pub proof fn lemma_quantum_scale(num: nat, den: nat, c: nat)
    requires
        den > 0,
        c > 0,
    ensures
        quantum(num * c, den * c) == quantum(num, den),
    decreases
        (if num >= 0x100_0000 * den {
            num - 0x100_0000 * den + 1
        } else {
            0
        }),
{
    assert((num >= 0x100_0000 * den) <==> (num * c >= 0x100_0000 * (den * c))) by (nonlinear_arith)
        requires
            c > 0,
    ;
    assert(den * c > 0) by (nonlinear_arith)
        requires
            den > 0,
            c > 0,
    ;
    if num >= 0x100_0000 * den {
        assert(2 * (den * c) == (2 * den) * c) by (nonlinear_arith);
        lemma_quantum_scale(num, 2 * den, c);
    }
}

/// Scaling numerator and denominator alike leaves the nearest integer
/// unchanged.
pub proof fn lemma_nearest_even_scale(num: nat, den: nat, c: nat)
    requires
        den > 0,
        c > 0,
    ensures
        nearest_even(num * c, den * c) == nearest_even(num, den),
{
    lemma_div_multiples_vanish_quotient(c as int, num as int, den as int);
    lemma_truncate_middle(num as int, c as int, den as int);
    assert(num * c == c * num && den * c == c * den) by (nonlinear_arith);
    let r = num % den;
    assert((num * c) % (den * c) == c * r);
    assert((num * c) / (den * c) == num / den);
    assert((2 * (c * r) > den * c) <==> (2 * r > den)) by (nonlinear_arith)
        requires
            c > 0,
    ;
    assert((2 * (c * r) == den * c) <==> (2 * r == den)) by (nonlinear_arith)
        requires
            c > 0,
    ;
}

/// Scaling numerator and denominator alike leaves the rounded magnitude
/// unchanged: it depends on the quotient only.
pub proof fn lemma_round_magnitude_scale(num: nat, den: nat, c: nat)
    requires
        den > 0,
        c > 0,
    ensures
        round_magnitude(num * c, den * c) == round_magnitude(num, den),
{
    lemma_quantum_scale(num, den, c);
    let j = quantum(num, den);
    lemma_pow2_pos(j);
    assert(den * pow2(j) > 0) by (nonlinear_arith)
        requires
            den > 0,
            pow2(j) > 0,
    ;
    assert((den * c) * pow2(j) == (den * pow2(j)) * c) by (nonlinear_arith);
    lemma_nearest_even_scale(num, den * pow2(j), c);
}

/// The integer nearest to a number of which only the integer part `q` of a
/// multiple by `p` is known, and whether anything was cut off (`sticky`).
pub open spec fn nearest_even_sticky(q: nat, p: nat, sticky: bool) -> nat {
    let n = q / p;
    let r = q % p;
    if 2 * r > p || (2 * r == p && (sticky || n % 2 == 1)) {
        n + 1
    } else {
        n
    }
}

/// Rounding `(q + rem / d) / p` needs `q` and the fact whether `rem` is zero
/// only, where `p` is even.
pub proof fn lemma_nearest_even_truncated(q: nat, rem: nat, d: nat, p: nat)
    requires
        d > 0,
        rem < d,
        p > 0,
        p % 2 == 0,
    ensures
        nearest_even(q * d + rem, d * p) == nearest_even_sticky(q, p, rem != 0),
{
    let n = q / p;
    let r = q % p;
    let h = p / 2;
    lemma_fundamental_div_mod(q as int, p as int);
    let big = q * d + rem;
    let low = r * d + rem;
    assert(big == n * (d * p) + low) by (nonlinear_arith)
        requires
            q == p * n + r,
            big == q * d + rem,
            low == r * d + rem,
    ;
    assert(low < d * p) by (nonlinear_arith)
        requires
            r < p,
            rem < d,
            low == r * d + rem,
    ;
    assert(d * p > 0) by (nonlinear_arith)
        requires
            d > 0,
            p > 0,
    ;
    lemma_fundamental_div_mod_converse_div(big as int, (d * p) as int, n as int, low as int);
    lemma_fundamental_div_mod_converse_mod(big as int, (d * p) as int, n as int, low as int);
    assert(big / (d * p) == n);
    assert(big % (d * p) == low);
    let t = r * d;
    let u = h * d;
    assert(d * p == 2 * u) by (nonlinear_arith)
        requires
            p == 2 * h,
            u == h * d,
    ;
    assert(r >= h + 1 ==> t >= u + d) by (nonlinear_arith)
        requires
            t == r * d,
            u == h * d,
            d > 0,
    ;
    assert(r + 1 <= h ==> t + d <= u) by (nonlinear_arith)
        requires
            t == r * d,
            u == h * d,
            d > 0,
    ;
    assert(r == h ==> t == u);
}

/// Powers of two grow with the exponent.
pub proof fn lemma_pow2_le(a: nat, b: nat)
    requires
        a <= b,
    ensures
        pow2(a) <= pow2(b),
{
    if a < b {
        lemma_pow2_strictly_increases(a, b);
    }
}

/// A number below a power of two has its exponent below that power's.
pub proof fn lemma_pow2_lt_exponent(a: nat, b: nat)
    requires
        pow2(a) < pow2(b),
    ensures
        a < b,
{
    if a >= b {
        lemma_pow2_le(b, a);
    }
}

/// The value of `2^127`.
pub proof fn lemma_pow2_127()
    ensures
        pow2(127) == 0x8000_0000_0000_0000_0000_0000_0000_0000,
{
    lemma2_to64();
    lemma2_to64_rest();
    lemma_pow2_adds(63, 64);
}

/// `2^k` as a machine integer.
pub fn pow2_u128(k: u32) -> (r: u128)
    requires
        k <= 127,
    ensures
        r == pow2(k as nat),
{
    let mut r: u128 = 1;
    let mut i: u32 = 0;
    proof {
        lemma2_to64();
    }
    while i < k
        invariant
            i <= k,
            k <= 127,
            r == pow2(i as nat),
        decreases k - i,
    {
        proof {
            lemma_pow2_unfold((i + 1) as nat);
            lemma_pow2_le((i + 1) as nat, 127);
            lemma_pow2_127();
        }
        r = r * 2;
        i = i + 1;
    }
    r
}

/// The position of the leading one bit of `q`.
pub fn floor_log2(q: u128) -> (l: u32)
    requires
        q > 0,
    ensures
        l <= 127,
        pow2(l as nat) <= q,
        q < pow2((l + 1) as nat),
{
    let mut l: u32 = 0;
    let mut t: u128 = q;
    proof {
        lemma2_to64();
    }
    while t > 1
        invariant
            t >= 1,
            l <= 127,
            pow2(l as nat) * t <= q,
            q < pow2(l as nat) * (t + 1),
        decreases t,
    {
        let ghost t0 = t;
        let ghost below = pow2(l as nat);
        t = t / 2;
        proof {
            let above = pow2((l + 1) as nat);
            lemma_pow2_unfold((l + 1) as nat);
            assert(above * t <= q && q < above * (t + 1)) by (nonlinear_arith)
                requires
                    above == 2 * below,
                    below * t0 <= q,
                    q < below * (t0 + 1),
                    2 * t <= t0,
                    t0 <= 2 * t + 1,
            ;
            assert(above <= q) by (nonlinear_arith)
                requires
                    above * t <= q,
                    t >= 1,
            ;
            lemma_pow2_127();
            lemma_pow2_unfold(128);
            lemma_pow2_lt_exponent((l + 1) as nat, 128);
        }
        l = l + 1;
    }
    proof {
        let below = pow2(l as nat);
        lemma_pow2_unfold((l + 1) as nat);
        assert(below * t == below && below * (t + 1) == 2 * below) by (nonlinear_arith)
            requires
                t == 1,
        ;
    }
    l
}

/// The rounded magnitude of `(n / d) * 2^x`.
pub open spec fn round_scaled(n: nat, d: nat, x: int) -> nat {
    if x >= 0 {
        round_magnitude(n * pow2(x as nat), d)
    } else {
        round_magnitude(n, d * pow2((-x) as nat))
    }
}

/// A magnitude's bit pattern, cut off at infinity.
pub open spec fn saturate(b: nat) -> nat {
    if b >= INF_BITS {
        INF_BITS as nat
    } else {
        b
    }
}

/// Rounding `(n / d) * 2^x` from the quotient `q` of `n * 2^50` by `d`, the
/// remainder `rem` and the position `l` of the leading bit of `q`: for the
/// quantum `j` the quotient loses its `s` lowest bits.
proof fn lemma_round_from_quotient(
    n: nat,
    d: nat,
    x: int,
    q: nat,
    rem: nat,
    l: nat,
    j: nat,
    s: nat,
)
    requires
        d > 0,
        rem < d,
        n * pow2(50) == q * d + rem,
        pow2(l) <= q,
        q < pow2(l + 1),
        s >= 1,
        s == j + 50 - x,
        j > 0 ==> j + 73 == l + x,
        j == 0 ==> l + x <= 73,
    ensures
        round_scaled(n, d, x) == saturate(
            j * 0x80_0000 + nearest_even_sticky(q, pow2(s), rem != 0),
        ),
{
    let xp: nat = if x >= 0 { x as nat } else { 0 };
    let xm: nat = if x >= 0 { 0 } else { (-x) as nat };
    let pxp = pow2(xp);
    let pxm = pow2(xm);
    let c0 = pow2(50);
    let num = n * pxp;
    let den = d * pxm;
    lemma2_to64();
    lemma_pow2_pos(50);
    lemma_pow2_pos(xp);
    lemma_pow2_pos(xm);
    lemma_pow2_pos(s);
    lemma_pow2_pos(j);
    lemma_pow2_pos(l);
    assert(round_scaled(n, d, x) == round_magnitude(num, den)) by {
        assert(n * 1 == n && d * 1 == d);
    }
    let a = q * d + rem;
    let n1 = a * pxp;
    let d1 = den * c0;
    assert(den > 0) by (nonlinear_arith)
        requires
            den == d * pxm,
            d > 0,
            pxm > 0,
    ;
    assert(num * c0 == n1) by (nonlinear_arith)
        requires
            num == n * pxp,
            n * c0 == a,
            n1 == a * pxp,
    ;
    lemma_round_magnitude_scale(num, den, c0);
    let ps = pow2(s);
    let w = d * ps;
    let pj = pow2(j);
    lemma_pow2_adds(xm, 50);
    lemma_pow2_adds(xm + 50, j);
    lemma_pow2_adds(s, xp);
    assert(xm + 50 + j == s + xp);
    assert(d1 * pj == w * pxp) by (nonlinear_arith)
        requires
            d1 == (d * pxm) * c0,
            w == d * ps,
            pxm * c0 == pow2(xm + 50),
            pow2(xm + 50) * pj == pow2(xm + 50 + j),
            ps * pxp == pow2(s + xp),
            xm + 50 + j == s + xp,
    ;
    // the quantum
    let pl = pow2(l);
    let pl1 = pow2(l + 1);
    assert(a < pl1 * d && pl * d <= a) by (nonlinear_arith)
        requires
            a == q * d + rem,
            rem < d,
            pl <= q,
            q < pl1,
    ;
    lemma_pow2_adds(l, xp);
    lemma_pow2_adds(l + 1, xp);
    if j > 0 {
        lemma_pow2_adds(xm + 50, 23 + j);
        lemma_pow2_adds(xm + 50, 24 + j);
        assert(xm + 50 + (23 + j) == l + xp);
        assert(xm + 50 + (24 + j) == l + 1 + xp);
        assert(pow2(23 + j) * d1 <= n1) by (nonlinear_arith)
            requires
                d1 == (d * pxm) * c0,
                pxm * c0 == pow2(xm + 50),
                pow2(xm + 50) * pow2(23 + j) == pl * pxp,
                n1 == a * pxp,
                pl * d <= a,
        ;
        assert(n1 < pow2(24 + j) * d1) by (nonlinear_arith)
            requires
                d1 == (d * pxm) * c0,
                pxm * c0 == pow2(xm + 50),
                pow2(xm + 50) * pow2(24 + j) == pl1 * pxp,
                n1 == a * pxp,
                a < pl1 * d,
                pxp > 0,
        ;
        lemma_quantum_positive(n1, d1, j);
    } else {
        lemma_pow2_adds(xm + 50, 24);
        lemma_pow2_le(l + 1 + xp, xm + 74);
        assert(pow2(24) == 0x100_0000);
        assert(n1 < 0x100_0000 * d1) by (nonlinear_arith)
            requires
                d1 == (d * pxm) * c0,
                pxm * c0 == pow2(xm + 50),
                pow2(xm + 50) * 0x100_0000 == pow2(xm + 74),
                pl1 * pxp <= pow2(xm + 74),
                n1 == a * pxp,
                a < pl1 * d,
                pxp > 0,
                d > 0,
        ;
        lemma_quantum_zero(n1, d1);
    }
    assert(quantum(n1, d1) == j);
    // the significand
    assert(w > 0) by (nonlinear_arith)
        requires
            w == d * ps,
            d > 0,
            ps > 0,
    ;
    lemma_nearest_even_scale(a, w, pxp);
    lemma_pow2_unfold(s);
    lemma_nearest_even_truncated(q, rem, d, ps);
}

/// Rounds `(n / d) * 2^x`, in the unit `2^-149`, to the nearest magnitude.
pub fn round_to_bits(n: u64, d: u32, x: i32) -> (r: u32)
    requires
        0 < d < 0x100_0000,
        -1000 <= x <= 1000,
    ensures
        r == round_scaled(n as nat, d as nat, x as int),
        r <= INF_BITS,
{
    if n == 0 {
        proof {
            let xp: nat = if x >= 0 { x as nat } else { 0 };
            let xm: nat = if x >= 0 { 0 } else { (-x) as nat };
            lemma_pow2_pos(xm);
            assert(0 * pow2(xp) == 0) by (nonlinear_arith);
            assert(d * pow2(xm) > 0) by (nonlinear_arith)
                requires
                    d > 0,
                    pow2(xm) > 0,
            ;
            let den: nat = if x >= 0 { d as nat } else { (d as nat) * pow2(xm) };
            lemma_quantum_zero(0, den);
            lemma2_to64();
            assert(den * pow2(0) == den) by (nonlinear_arith)
                requires
                    pow2(0) == 1,
            ;
            lemma_basic_div(0, den as int);
            lemma_small_mod(0, den);
        }
        return 0;
    }
    proof {
        lemma2_to64();
        lemma2_to64_rest();
    }
    let a: u128 = (n as u128) * 0x4_0000_0000_0000u128;
    let q: u128 = a / (d as u128);
    let rem: u128 = a % (d as u128);
    proof {
        lemma_fundamental_div_mod(a as int, d as int);
        assert(q >= 0x400_0000) by (nonlinear_arith)
            requires
                a == d * q + rem,
                rem < d,
                d < 0x100_0000,
                a >= 0x4_0000_0000_0000,
                q >= 0,
        ;
        assert(q <= a) by (nonlinear_arith)
            requires
                a == d * q + rem,
                d >= 1,
                q >= 0,
                rem >= 0,
        ;
        assert(d * q == q * d) by (nonlinear_arith);
    }
    let l: u32 = floor_log2(q);
    proof {
        lemma_pow2_lt_exponent(26, (l + 1) as nat);
        lemma_pow2_adds(50, 64);
        lemma_pow2_lt_exponent(l as nat, 114);
    }
    let top: i32 = (l as i32) + x - 73;
    let j: u32 = if top > 0 { top as u32 } else { 0 };
    let s: u32 = if top > 0 { l - 23 } else { (50 - x) as u32 };
    if j >= 255 {
        proof {
            lemma_round_from_quotient(
                n as nat, d as nat, x as int, q as nat, rem as nat, l as nat, j as nat, s as nat,
            );
        }
        return INF_BITS;
    }
    if s > l + 1 {
        proof {
            lemma_round_from_quotient(
                n as nat, d as nat, x as int, q as nat, rem as nat, l as nat, j as nat, s as nat,
            );
            lemma_pow2_le((l + 2) as nat, s as nat);
            lemma_pow2_unfold((l + 2) as nat);
            lemma_basic_div(q as int, pow2(s as nat) as int);
            lemma_small_mod(q as nat, pow2(s as nat));
        }
        return 0;
    }
    let p: u128 = pow2_u128(s);
    proof {
        lemma_pow2_pos(s as nat);
    }
    let n0: u128 = q / p;
    let r: u128 = q % p;
    let h: u128 = p / 2;
    let up: bool = r > h || (r == h && (rem != 0 || n0 % 2 == 1));
    proof {
        lemma_round_from_quotient(
            n as nat, d as nat, x as int, q as nat, rem as nat, l as nat, j as nat, s as nat,
        );
        lemma_pow2_unfold(s as nat);
        lemma_fundamental_div_mod(q as int, p as int);
        lemma_pow2_le((l + 1) as nat, (24 + s) as nat);
        lemma_pow2_adds(24, s as nat);
        assert(n0 < 0x100_0000) by (nonlinear_arith)
            requires
                q == p * n0 + r,
                r >= 0,
                q < 0x100_0000 * p,
                p > 0,
        ;
    }
    let m: u64 = if up { (n0 + 1) as u64 } else { n0 as u64 };
    let bits: u64 = (j as u64) * 0x80_0000 + m;
    if bits >= 0x7f80_0000 {
        INF_BITS
    } else {
        bits as u32
    }
}

} // verus!
