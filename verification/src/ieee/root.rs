//! Rounding a square root to the nearest binary32 magnitude.

use vstd::prelude::*;
use vstd::arithmetic::div_mod::lemma_div_by_multiple;
use vstd::arithmetic::power2::{
    pow2, lemma_pow2_pos, lemma_pow2_adds, lemma_pow2_unfold, lemma2_to64, lemma2_to64_rest,
};
use crate::ieee::model::{floor_sqrt, is_floor_sqrt, root_quantum, round_root};
use crate::ieee::rounding::lemma_pow2_le;

verus! {

/// The integer part of a square root is the one number whose square, and
/// not its successor's, is at most the radicand.
pub proof fn lemma_floor_sqrt_unique(y: nat, r: nat)
    requires
        r * r <= y,
        y < (r + 1) * (r + 1),
    ensures
        floor_sqrt(y) == r,
{
    let c = floor_sqrt(y);
    assert(is_floor_sqrt(y, r));
    assert(is_floor_sqrt(y, c));
    assert(c == r) by (nonlinear_arith)
        requires
            r * r <= y,
            y < (r + 1) * (r + 1),
            c * c <= y,
            y < (c + 1) * (c + 1),
            c >= 0,
            r >= 0,
    ;
}

/// The quantum of a root is `j` where the radicand lies between `4^(23 + j)` and
/// `4^(24 + j)`.
pub proof fn lemma_root_quantum(x: nat, j: nat)
    requires
        j > 0,
        pow2(2 * (23 + j)) <= x,
        x < pow2(2 * (24 + j)),
    ensures
        root_quantum(x) == j,
    decreases j,
{
    let k = (j - 1) as nat;
    lemma2_to64();
    lemma2_to64_rest();
    lemma_pow2_adds(2, 2 * (23 + k));
    lemma_pow2_adds(2, 2 * (24 + k));
    lemma_pow2_le(48, 2 * (23 + j));
    assert(2 + 2 * (23 + k) == 2 * (23 + j));
    assert(2 + 2 * (24 + k) == 2 * (24 + j));
    assert(pow2(2 * (23 + k)) <= x / 4 && x / 4 < pow2(2 * (24 + k))) by {
        assert(pow2(2) == 4);
    }
    reveal_with_fuel(root_quantum, 2);
    if k > 0 {
        lemma_root_quantum(x / 4, k);
    }
}

/// The integer part of the square root of a number below `2^48`.
pub fn isqrt(v: u64) -> (r: u64)
    requires
        v < 0x1_0000_0000_0000,
    ensures
        r == floor_sqrt(v as nat),
        r * r <= v,
        v < (r + 1) * (r + 1),
        r < 0x100_0000,
{
    let mut r: u64 = 0;
    let mut w: u64 = 0x100_0000;
    let mut i: u32 = 24;
    proof {
        lemma2_to64();
        assert(pow2(24) == 0x100_0000);
    }
    while w > 1
        invariant
            i <= 24,
            w == pow2(i as nat),
            r * r <= v,
            v < (r + w) * (r + w),
            r + w <= 0x100_0000,
            v < 0x1_0000_0000_0000,
        decreases w,
    {
        proof {
            lemma2_to64();
            if i == 0 {
                assert(w == 1);
            }
            lemma_pow2_unfold(i as nat);
        }
        let bit: u64 = w / 2;
        let c: u64 = r + bit;
        assert(c * c <= 0x1_0000_0000_0000) by (nonlinear_arith)
            requires
                c <= 0x100_0000,
        ;
        if c * c <= v {
            proof {
                assert((c + bit) * (c + bit) == (r + w) * (r + w)) by (nonlinear_arith)
                    requires
                        c == r + bit,
                        w == 2 * bit,
                ;
            }
            r = c;
        } else {
            proof {
                assert((r + bit) * (r + bit) == c * c) by (nonlinear_arith)
                    requires
                        c == r + bit,
                ;
            }
        }
        w = bit;
        i = i - 1;
    }
    proof {
        lemma2_to64();
        if i > 0 {
            lemma_pow2_le(1, i as nat);
        }
        assert(w == 1);
        lemma_floor_sqrt_unique(v as nat, r as nat);
    }
    r
}

/// Rounds the square root of `m * 2^(e + 149)`, the unit being `2^-149`.
pub fn root_to_bits(m: u32, e: u32) -> (r: u32)
    requires
        0 < m < 0x100_0000,
        e <= 253,
    ensures
        r == round_root((m as nat) * pow2(e as nat) * pow2(149)),
{
    let t: u32 = e + 149;
    let odd = t % 2 == 1;
    let h: u32 = t / 2;
    let start: u64 = if odd { 2 * (m as u64) } else { m as u64 };
    let ghost x: nat = (m as nat) * pow2(e as nat) * pow2(149);
    proof {
        lemma2_to64();
        lemma2_to64_rest();
        lemma_pow2_adds(e as nat, 149);
        lemma_pow2_pos((2 * h) as nat);
        if odd {
            lemma_pow2_adds(1, (2 * h) as nat);
        }
        assert(x == start * pow2((2 * h) as nat)) by (nonlinear_arith)
            requires
                x == (m as nat) * pow2(e as nat) * pow2(149),
                pow2(e as nat) * pow2(149) == pow2(t as nat),
                odd ==> pow2(t as nat) == 2 * pow2((2 * h) as nat) && start == 2 * m,
                !odd ==> pow2(t as nat) == pow2((2 * h) as nat) && start == m,
        ;
    }
    let mut v: u64 = start;
    let mut k: u32 = 0;
    while v < 0x4000_0000_0000
        invariant
            0 < v < 0x1_0000_0000_0000,
            k <= 23,
            v * pow2((2 * (h - k)) as nat) == x,
            v >= pow2((2 * k) as nat),
            74 <= h <= 201,
        decreases 0x1_0000_0000_0000 - v,
    {
        proof {
            lemma2_to64();
            lemma2_to64_rest();
            if k == 23 {
                assert(pow2(46) == 0x4000_0000_0000);
            }
            let a = (2 * (h - k - 1)) as nat;
            lemma_pow2_adds(2, a);
            assert(2 + a == 2 * (h - k));
            assert((4 * v) * pow2(a) == x) by (nonlinear_arith)
                requires
                    v * pow2((2 * (h - k)) as nat) == x,
                    pow2((2 * (h - k)) as nat) == 4 * pow2(a),
            ;
            lemma_pow2_adds(2, (2 * k) as nat);
            assert(2 + 2 * k == 2 * (k + 1));
        }
        v = v * 4;
        k = k + 1;
    }
    let j: u32 = h - k;
    let r: u64 = isqrt(v);
    let up: bool = v - r * r > r;
    proof {
        let pj = pow2((2 * j) as nat);
        lemma_pow2_pos((2 * j) as nat);
        lemma2_to64();
        lemma2_to64_rest();
        lemma_pow2_adds(46, (2 * j) as nat);
        lemma_pow2_adds(48, (2 * j) as nat);
        assert(46 + 2 * j == 2 * (23 + j));
        assert(48 + 2 * j == 2 * (24 + j));
        assert(pow2(2 * (23 + j as nat)) <= x && x < pow2(2 * (24 + j as nat))) by (nonlinear_arith)
            requires
                x == v * pj,
                pow2(2 * (23 + j as nat)) == 0x4000_0000_0000 * pj,
                pow2(2 * (24 + j as nat)) == 0x1_0000_0000_0000 * pj,
                0x4000_0000_0000 <= v < 0x1_0000_0000_0000,
                pj > 0,
        ;
        lemma_root_quantum(x, j as nat);
        lemma_div_by_multiple(v as int, pj as int);
        assert(x / pj == v);
        let n = r as nat;
        assert(r >= 0x80_0000) by (nonlinear_arith)
            requires
                v < (r + 1) * (r + 1),
                v >= 0x4000_0000_0000,
                r >= 0,
        ;
        let odd = (2 * n + 1) * (2 * n + 1);
        assert(odd == 4 * (n * n + n) + 1) by (nonlinear_arith)
            requires
                odd == (2 * n + 1) * (2 * n + 1),
        ;
        assert((4 * x > odd * pj) <==> up) by (nonlinear_arith)
            requires
                x == v * pj,
                pj > 0,
                up <==> v - r * r > r,
                n == r,
                r * r <= v,
                odd == 4 * (n * n + n) + 1,
        ;
        // a square of an odd number is no multiple of 4: no tie arises
        assert(4 * x != odd * pj) by (nonlinear_arith)
            requires
                x == v * pj,
                pj > 0,
                4 * v != odd,
        ;
    }
    let n: u64 = if up { r + 1 } else { r };
    ((j as u64) * 0x80_0000 + n) as u32
}

} // verus!
