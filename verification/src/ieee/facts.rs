//! What holds of sums, products and quotients: bounds that rounding keeps,
//! and results that need no rounding.

use vstd::prelude::*;
use vstd::arithmetic::power2::{pow2, lemma_pow2_pos, lemma_pow2_adds, lemma2_to64};
use crate::ieee::exact::{
    lemma_magnitude_order, lemma_nearest_even_close, lemma_representable, lemma_round_exact,
};
use crate::ieee::model::{
    abs_bits, equal_bits, is_finite, is_infinite, is_nan, is_negative, is_zero, less_bits,
    magnitude, negated_bits, product_bits, quotient_bits, ratio_bits, round_magnitude, sum_bits,
    value, with_sign, INF_BITS,
};
use crate::ieee::order::lemma_round_monotone;
use crate::ieee::rounding::lemma_round_magnitude_scale;
use crate::ieee::single::Single;

verus! {

/// The unit of the model: the value of the number one.
pub open spec fn one() -> nat {
    pow2(149)
}

/// The unit is positive.
pub proof fn lemma_one_positive()
    ensures
        one() > 0,
{
    lemma_pow2_pos(149);
}

/// A signed magnitude has that sign and that magnitude.
pub proof fn lemma_with_sign(negative: bool, abs: nat)
    requires
        abs <= INF_BITS,
    ensures
        abs_bits(with_sign(negative, abs)) == abs,
        is_negative(with_sign(negative, abs)) == negative,
        !is_nan(with_sign(negative, abs)),
        value(with_sign(negative, abs)) == if negative {
            -(magnitude(abs as u32) as int)
        } else {
            magnitude(abs as u32) as int
        },
{
}

/// Zero has magnitude zero, and nothing else has.
pub proof fn lemma_zero_magnitude(b: u32)
    ensures
        is_zero(b) <==> magnitude(b) == 0,
{
    lemma_pow2_pos(crate::ieee::model::scale(b));
    let sig = crate::ieee::model::significand(b);
    let p = pow2(crate::ieee::model::scale(b));
    assert(sig == 0 ==> sig * p == 0) by (nonlinear_arith);
    assert(sig > 0 ==> sig * p > 0) by (nonlinear_arith)
        requires
            p > 0,
    ;
}

/// The negation of a number has the opposite value.
pub proof fn lemma_negated(b: u32)
    requires
        !is_nan(b),
    ensures
        !is_nan(negated_bits(b)),
        is_finite(b) ==> is_finite(negated_bits(b)),
        value(negated_bits(b)) == -value(b),
        abs_bits(negated_bits(b)) == abs_bits(b),
{
    lemma_with_sign(!is_negative(b), abs_bits(b));
}

/// Rounding the magnitude of a number that is not NaN gives its bit
/// pattern: of an infinity too.
pub proof fn lemma_round_own(b: u32)
    requires
        !is_nan(b),
    ensures
        round_magnitude(magnitude(b), 1) == abs_bits(b),
{
    if is_finite(b) {
        lemma_round_exact(b);
    } else {
        let m = magnitude(b);
        lemma2_to64();
        assert(crate::ieee::model::scale(b) == 254);
        assert(crate::ieee::model::significand(b) == 0x80_0000);
        lemma_pow2_adds(23, 254);
        lemma_pow2_adds(24, 253);
        assert(pow2(23) == 0x80_0000);
        assert(m == pow2(277)) by (nonlinear_arith)
            requires
                m == 0x80_0000 * pow2(254),
                pow2(277) == 0x80_0000 * pow2(254),
        ;
        assert(pow2(23 + 254) * 1 <= m && m < pow2(24 + 254) * 1) by {
            vstd::arithmetic::power2::lemma_pow2_strictly_increases(277, 278);
        }
        crate::ieee::rounding::lemma_quantum_positive(m, 1, 254);
        crate::ieee::order::lemma_rounded_significand(m, 1);
    }
}

/// The rounded magnitude of a quotient is at most a number that the
/// quotient is at most.
pub proof fn lemma_round_upper(num: nat, den: nat, hi: u32)
    requires
        den > 0,
        !is_nan(hi),
        num <= magnitude(hi) * den,
    ensures
        round_magnitude(num, den) <= abs_bits(hi),
        magnitude(round_magnitude(num, den) as u32) <= magnitude(hi),
{
    lemma_round_own(hi);
    assert(num * 1 <= magnitude(hi) * den) by (nonlinear_arith)
        requires
            num <= magnitude(hi) * den,
    ;
    lemma_round_monotone(num, den, magnitude(hi), 1);
    lemma_magnitude_order(round_magnitude(num, den) as u32, hi);
}

/// The rounded magnitude of a quotient is at least a number that the
/// quotient is at least.
pub proof fn lemma_round_lower(num: nat, den: nat, lo: u32)
    requires
        den > 0,
        !is_nan(lo),
        magnitude(lo) * den <= num,
    ensures
        abs_bits(lo) <= round_magnitude(num, den),
        magnitude(lo) <= magnitude(round_magnitude(num, den) as u32),
{
    lemma_round_own(lo);
    assert(magnitude(lo) * den <= num * 1) by (nonlinear_arith)
        requires
            magnitude(lo) * den <= num,
    ;
    lemma_round_monotone(magnitude(lo), 1, num, den);
    lemma_magnitude_order(lo, round_magnitude(num, den) as u32);
}

/// The rounded magnitude of a quotient lies between the numbers that the
/// quotient lies between.
pub proof fn lemma_round_between(num: nat, den: nat, lo: u32, hi: u32)
    requires
        den > 0,
        !is_nan(lo),
        !is_nan(hi),
        magnitude(lo) * den <= num,
        num <= magnitude(hi) * den,
    ensures
        abs_bits(lo) <= round_magnitude(num, den) <= abs_bits(hi),
        magnitude(lo) <= magnitude(round_magnitude(num, den) as u32) <= magnitude(hi),
{
    lemma_round_upper(num, den, hi);
    lemma_round_lower(num, den, lo);
}

/// A number is finite that lies between finite numbers.
pub proof fn lemma_finite_between(r: u32, lo: u32, hi: u32)
    requires
        !is_nan(r),
        is_finite(lo),
        is_finite(hi),
        value(lo) <= value(r) <= value(hi),
    ensures
        is_finite(r),
{
    lemma_magnitude_order(r, lo);
    lemma_magnitude_order(r, hi);
}

/// The sum of two finite numbers is not NaN, and has the sign of the exact
/// sum.
pub proof fn lemma_sum_sign(a: u32, b: u32)
    requires
        is_finite(a),
        is_finite(b),
    ensures
        !is_nan(sum_bits(a, b)),
        value(a) + value(b) >= 0 ==> value(sum_bits(a, b)) >= 0,
        value(a) + value(b) <= 0 ==> value(sum_bits(a, b)) <= 0,
        value(a) + value(b) == 0 ==> is_zero(sum_bits(a, b)),
        value(a) + value(b) > 0 ==> sum_bits(a, b) == round_magnitude(
            (value(a) + value(b)) as nat,
            1,
        ),
{
    reveal(sum_bits);
    let s = value(a) + value(b);
    if s == 0 {
        lemma_with_sign(is_negative(a) && is_negative(b), 0);
        lemma_zero_magnitude(sum_bits(a, b));
    } else if s < 0 {
        lemma_with_sign(true, round_magnitude((-s) as nat, 1));
    } else {
        lemma_with_sign(false, round_magnitude(s as nat, 1));
    }
}

/// The sum of two finite numbers is at most a number that their exact sum
/// is at most.
pub proof fn lemma_sum_at_most(a: u32, b: u32, hi: u32)
    requires
        is_finite(a),
        is_finite(b),
        !is_nan(hi),
        value(a) + value(b) <= value(hi),
    ensures
        !is_nan(sum_bits(a, b)),
        value(sum_bits(a, b)) <= value(hi),
{
    reveal(sum_bits);
    let s = value(a) + value(b);
    let r = sum_bits(a, b);
    lemma_sum_sign(a, b);
    if s < 0 {
        let n = (-s) as nat;
        lemma_with_sign(true, round_magnitude(n, 1));
        if value(hi) < 0 {
            assert(magnitude(hi) * 1 == magnitude(hi));
            lemma_round_lower(n, 1, hi);
        }
    } else if s > 0 {
        let n = s as nat;
        lemma_with_sign(false, round_magnitude(n, 1));
        assert(magnitude(hi) * 1 == magnitude(hi));
        lemma_round_upper(n, 1, hi);
    }
}

/// The sum of two finite numbers is at least a number that their exact sum
/// is at least.
pub proof fn lemma_sum_at_least(a: u32, b: u32, lo: u32)
    requires
        is_finite(a),
        is_finite(b),
        !is_nan(lo),
        value(lo) <= value(a) + value(b),
    ensures
        !is_nan(sum_bits(a, b)),
        value(lo) <= value(sum_bits(a, b)),
{
    reveal(sum_bits);
    let s = value(a) + value(b);
    let r = sum_bits(a, b);
    lemma_sum_sign(a, b);
    if s < 0 {
        let n = (-s) as nat;
        lemma_with_sign(true, round_magnitude(n, 1));
        assert(magnitude(lo) * 1 == magnitude(lo));
        lemma_round_upper(n, 1, lo);
    } else if s > 0 {
        let n = s as nat;
        lemma_with_sign(false, round_magnitude(n, 1));
        if value(lo) > 0 {
            assert(magnitude(lo) * 1 == magnitude(lo));
            lemma_round_lower(n, 1, lo);
        }
    }
}

/// The sum of two finite numbers lies between the numbers that their exact
/// sum lies between.
pub proof fn lemma_sum_between(a: u32, b: u32, lo: u32, hi: u32)
    requires
        is_finite(a),
        is_finite(b),
        is_finite(lo),
        is_finite(hi),
        value(lo) <= value(a) + value(b),
        value(a) + value(b) <= value(hi),
    ensures
        is_finite(sum_bits(a, b)),
        value(lo) <= value(sum_bits(a, b)) <= value(hi),
{
    lemma_sum_at_most(a, b, hi);
    lemma_sum_at_least(a, b, lo);
    lemma_finite_between(sum_bits(a, b), lo, hi);
}

/// Of two sums with the same first number, the one with the greater second
/// number is no smaller: rounding keeps the order.
pub proof fn lemma_sum_monotone(a: u32, b: u32, c: u32)
    requires
        is_finite(a),
        is_finite(b),
        is_finite(c),
        value(b) <= value(c),
    ensures
        !is_nan(sum_bits(a, b)),
        !is_nan(sum_bits(a, c)),
        value(sum_bits(a, b)) <= value(sum_bits(a, c)),
{
    reveal(sum_bits);
    let low = value(a) + value(b);
    let high = value(a) + value(c);
    lemma_sum_sign(a, b);
    lemma_sum_sign(a, c);
    if low > 0 {
        let m = round_magnitude(low as nat, 1);
        let n = round_magnitude(high as nat, 1);
        assert(low * 1 <= high * 1);
        lemma_round_monotone(low as nat, 1, high as nat, 1);
        lemma_with_sign(false, m);
        lemma_with_sign(false, n);
        lemma_magnitude_order(m as u32, n as u32);
    } else if high < 0 {
        let m = round_magnitude((-low) as nat, 1);
        let n = round_magnitude((-high) as nat, 1);
        assert((-high) * 1 <= (-low) * 1);
        lemma_round_monotone((-high) as nat, 1, (-low) as nat, 1);
        lemma_with_sign(true, m);
        lemma_with_sign(true, n);
        lemma_magnitude_order(n as u32, m as u32);
    }
}

/// A sum that is representable is exact.
pub proof fn lemma_sum_exact(a: u32, b: u32, m: nat, e: nat)
    requires
        is_finite(a),
        is_finite(b),
        m < 0x100_0000,
        e <= 253,
        value(a) + value(b) == m * pow2(e) || value(a) + value(b) == -(m * pow2(e)),
    ensures
        is_finite(sum_bits(a, b)),
        value(sum_bits(a, b)) == value(a) + value(b),
{
    reveal(sum_bits);
    let s = value(a) + value(b);
    let w = lemma_representable(m, e);
    if s == 0 {
        lemma_with_sign(is_negative(a) && is_negative(b), 0);
        lemma_zero_magnitude(sum_bits(a, b));
    } else {
        lemma_with_sign(s < 0, w as nat);
    }
}

/// The difference of two positive numbers of which the greater is at most
/// twice the smaller is representable, and so it is exact.
pub proof fn lemma_close_difference_exact(a: u32, b: u32)
    requires
        is_finite(a),
        is_finite(b),
        0 < value(b) <= value(a) <= 2 * value(b),
    ensures
        is_finite(sum_bits(a, negated_bits(b))),
        value(sum_bits(a, negated_bits(b))) == value(a) - value(b),
{
    let ma = crate::ieee::model::significand(a);
    let mb = crate::ieee::model::significand(b);
    let ea = crate::ieee::model::scale(a);
    let eb = crate::ieee::model::scale(b);
    crate::ieee::exact::lemma_abs_bits_parts(a);
    crate::ieee::exact::lemma_abs_bits_parts(b);
    lemma_magnitude_order(b, a);
    lemma_negated(b);
    assert(ea >= eb);
    let d = (ea - eb) as nat;
    let p = pow2(eb);
    lemma_pow2_pos(eb);
    lemma_pow2_pos(d);
    lemma_pow2_adds(d, eb);
    let wide = ma * pow2(d);
    assert(value(a) == wide * p) by (nonlinear_arith)
        requires
            value(a) == ma * pow2(ea),
            pow2(d) * p == pow2(ea),
            wide == ma * pow2(d),
    ;
    assert(wide >= mb && wide - mb <= mb) by (nonlinear_arith)
        requires
            value(a) == wide * p,
            value(b) == mb * p,
            value(b) <= value(a) <= 2 * value(b),
            p > 0,
    ;
    let k = (wide - mb) as nat;
    assert(value(a) + value(negated_bits(b)) == k * p) by (nonlinear_arith)
        requires
            value(a) == wide * p,
            value(negated_bits(b)) == -(mb * p),
            k == wide - mb,
    ;
    lemma_sum_exact(a, negated_bits(b), k, eb);
}

/// A number is greater than another where their difference, as computed,
/// is positive.
pub proof fn lemma_positive_difference(a: u32, b: u32)
    requires
        !is_nan(sum_bits(a, negated_bits(b))),
        value(sum_bits(a, negated_bits(b))) > 0,
    ensures
        !is_nan(a),
        !is_nan(b),
        value(a) > value(b),
{
    reveal(sum_bits);
    let back = negated_bits(b);
    if is_nan(a) || is_nan(b) {
        lemma_with_sign(!is_negative(b), abs_bits(b));
        assert(false);
    }
    lemma_negated(b);
    if is_finite(a) && is_finite(b) {
        lemma_sum_sign(a, back);
    } else {
        lemma_magnitude_order(a, b);
        lemma_magnitude_order(b, a);
        lemma_with_sign(!is_negative(b), abs_bits(b));
    }
}

/// The product of two finite numbers has a magnitude between the numbers
/// that the exact product lies between, and the sign that the signs of the
/// factors give.
pub proof fn lemma_product_between(a: u32, b: u32, lo: u32, hi: u32)
    requires
        is_finite(a),
        is_finite(b),
        !is_nan(lo),
        !is_nan(hi),
        magnitude(lo) * one() <= magnitude(a) * magnitude(b),
        magnitude(a) * magnitude(b) <= magnitude(hi) * one(),
    ensures
        !is_nan(product_bits(a, b)),
        is_negative(product_bits(a, b)) == (is_negative(a) != is_negative(b)),
        magnitude(lo) <= magnitude(product_bits(a, b)) <= magnitude(hi),
        abs_bits(lo) <= abs_bits(product_bits(a, b)) <= abs_bits(hi),
{
    reveal(product_bits);
    lemma_pow2_pos(149);
    let num = magnitude(a) * magnitude(b);
    lemma_round_between(num, one(), lo, hi);
    lemma_with_sign(is_negative(a) != is_negative(b), round_magnitude(num, one()));
}

/// The quotient of two finite numbers, the second not zero, has a magnitude
/// between the numbers that the exact quotient lies between, and the sign
/// that the signs of the two give.
pub proof fn lemma_quotient_between(a: u32, b: u32, lo: u32, hi: u32)
    requires
        is_finite(a),
        is_finite(b),
        !is_zero(b),
        !is_nan(lo),
        !is_nan(hi),
        magnitude(lo) * magnitude(b) <= magnitude(a) * one(),
        magnitude(a) * one() <= magnitude(hi) * magnitude(b),
    ensures
        !is_nan(quotient_bits(a, b)),
        is_negative(quotient_bits(a, b)) == (is_negative(a) != is_negative(b)),
        magnitude(lo) <= magnitude(quotient_bits(a, b)) <= magnitude(hi),
        abs_bits(lo) <= abs_bits(quotient_bits(a, b)) <= abs_bits(hi),
{
    reveal(quotient_bits);
    lemma_zero_magnitude(b);
    let num = magnitude(a) * one();
    lemma_round_between(num, magnitude(b), lo, hi);
    lemma_with_sign(is_negative(a) != is_negative(b), round_magnitude(num, magnitude(b)));
}

/// From a number that is not positive, taking away the product of two
/// numbers that are not negative gives none that is positive.
pub proof fn lemma_burn_after_empty(level: u32, rate: u32, time: u32)
    requires
        is_finite(level),
        value(level) <= 0,
        !is_nan(rate),
        !is_nan(time),
        value(rate) >= 0,
        value(time) >= 0,
    ensures
        is_nan(sum_bits(level, negated_bits(product_bits(rate, time)))) || value(
            sum_bits(level, negated_bits(product_bits(rate, time))),
        ) <= 0,
{
    reveal(product_bits);
    reveal(sum_bits);
    let burnt = product_bits(rate, time);
    lemma_zero_magnitude(rate);
    lemma_zero_magnitude(time);
    if is_nan(burnt) {
    } else {
        lemma_negated(burnt);
        let sign = is_negative(rate) != is_negative(time);
        if is_infinite(rate) || is_infinite(time) {
            lemma_with_sign(sign, INF_BITS as nat);
        } else {
            lemma_with_sign(sign, round_magnitude(magnitude(rate) * magnitude(time), pow2(149)));
            lemma_zero_magnitude(burnt);
            assert(value(burnt) >= 0) by {
                if sign {
                    assert(magnitude(rate) * magnitude(time) == 0) by (nonlinear_arith)
                        requires
                            magnitude(rate) == 0 || magnitude(time) == 0,
                    ;
                    lemma_pow2_pos(149);
                    crate::ieee::rounding::lemma_quantum_zero(0, pow2(149));
                    assert(pow2(149) * pow2(0) > 0) by {
                        lemma_pow2_pos(0);
                        assert(pow2(149) * pow2(0) > 0) by (nonlinear_arith)
                            requires
                                pow2(149) > 0,
                                pow2(0) > 0,
                        ;
                    }
                    vstd::arithmetic::div_mod::lemma_basic_div(0, (pow2(149) * pow2(0)) as int);
                    vstd::arithmetic::div_mod::lemma_small_mod(0, pow2(149) * pow2(0));
                }
            }
        }
        let back = negated_bits(burnt);
        if is_finite(back) {
            lemma_whole(0);
            lemma_sum_at_most(level, back, Single::whole(0).bits);
        } else {
            lemma_with_sign(!is_negative(burnt), abs_bits(burnt));
        }
    }
}

/// The number nearest to a whole number below `2^24` is that number.
pub proof fn lemma_whole(n: int)
    requires
        -0x100_0000 < n < 0x100_0000,
    ensures
        Single::whole(n).is_finite(),
        Single::whole(n).value() == n * one(),
        is_negative(Single::whole(n).bits) == (n < 0),
        n == 0 ==> Single::whole(n).bits == 0,
{
    reveal(ratio_bits);
    let m: nat = if n < 0 { (-n) as nat } else { n as nat };
    let w = lemma_representable(m, 149);
    lemma_with_sign(n < 0, w as nat);
    if n == 0 {
        assert(0 * pow2(149) == 0) by (nonlinear_arith);
        lemma_zero_magnitude(w);
    }
    assert(n < 0 ==> -(m * pow2(149)) == n * pow2(149)) by (nonlinear_arith)
        requires
            n < 0 ==> m == -n,
    ;
}

/// The number nearest to a whole number below `2^32` is finite, not
/// negative, and at most `2^32`.
pub proof fn lemma_whole_u32(n: int)
    requires
        0 <= n < 0x1_0000_0000,
    ensures
        Single::whole(n).is_finite(),
        !is_negative(Single::whole(n).bits),
        0 <= Single::whole(n).value() <= 0x1_0000_0000 * one(),
{
    reveal(ratio_bits);
    let p = one();
    let top = lemma_representable(0x80_0000, 158);
    lemma_pow2_adds(9, 149);
    lemma2_to64();
    assert(pow2(9) == 0x200);
    assert(magnitude(top) == 0x1_0000_0000 * p) by (nonlinear_arith)
        requires
            magnitude(top) == 0x80_0000 * pow2(158),
            pow2(158) == 0x200 * p,
    ;
    assert((n * p) as nat <= magnitude(top) * 1 && n * p >= 0) by (nonlinear_arith)
        requires
            magnitude(top) == 0x1_0000_0000 * p,
            0 <= n < 0x1_0000_0000,
            p >= 0,
    ;
    lemma_round_upper((n * p) as nat, 1, top);
    lemma_with_sign(false, round_magnitude((n * p) as nat, 1));
}

/// The number nearest to `2^32 - 1` is `2^32`.
pub proof fn lemma_whole_u32_max()
    ensures
        Single::whole(0xffff_ffff).is_finite(),
        !is_negative(Single::whole(0xffff_ffff).bits),
        Single::whole(0xffff_ffff).value() == 0x1_0000_0000 * one(),
{
    reveal(ratio_bits);
    let p = one();
    let h = pow2(157);
    let num = (0xffff_ffff * p) as nat;
    lemma_pow2_pos(149);
    lemma_pow2_adds(8, 149);
    lemma_pow2_adds(23, 157);
    lemma_pow2_adds(24, 157);
    lemma2_to64();
    assert(pow2(8) == 0x100 && pow2(23) == 0x80_0000 && pow2(24) == 0x100_0000);
    assert(pow2(23 + 157) * 1 <= num && num < pow2(24 + 157) * 1 && num == 0x100_0000 * h - p
        && 2 * p < h) by (nonlinear_arith)
        requires
            num == 0xffff_ffff * p,
            h == 0x100 * p,
            pow2(23 + 157) == 0x80_0000 * h,
            pow2(24 + 157) == 0x100_0000 * h,
            p > 0,
    ;
    crate::ieee::rounding::lemma_quantum_positive(num, 1, 157);
    lemma_nearest_even_close(0x100_0000, h, 0, p);
    assert(1 * h == h);
    let top = lemma_representable(0x80_0000, 158);
    lemma_pow2_adds(1, 157);
    assert(pow2(1) == 2);
    assert(magnitude(top) == 0x1_0000_0000 * p) by (nonlinear_arith)
        requires
            magnitude(top) == 0x80_0000 * pow2(158),
            pow2(158) == 2 * h,
            h == 0x100 * p,
    ;
    let r = round_magnitude(num, 1);
    assert(r == 157 * 0x80_0000 + 0x100_0000);
    crate::ieee::exact::lemma_round_exact(r as u32);
    let low = crate::ieee::exact::lemma_bits_of_parts(0x80_0000, 158);
    crate::ieee::exact::lemma_magnitude_order(r as u32, low);
    assert(low == top) by {
        crate::ieee::exact::lemma_magnitude_order(low, top);
    }
    lemma_with_sign(false, r);
}

/// The negation of the number nearest to a whole number, not zero, is the
/// number nearest to the opposite whole number.
pub proof fn lemma_whole_negation(n: int)
    requires
        n != 0,
    ensures
        Single::whole(n).negation() == Single::whole(-n),
{
    reveal(ratio_bits);
    let p = one();
    let m: nat = if n < 0 { (-n) as nat } else { n as nat };
    let r = round_magnitude(m * p, 1);
    lemma_with_sign(true, r);
    lemma_with_sign(false, r);
}

/// Whole numbers below `2^24` are ordered as numbers as they are as
/// integers.
pub proof fn lemma_whole_order(a: int, b: int)
    requires
        -0x100_0000 < a < 0x100_0000,
        -0x100_0000 < b < 0x100_0000,
    ensures
        Single::whole(a).less_than(Single::whole(b)) <==> a < b,
        Single::whole(a).equals(Single::whole(b)) <==> a == b,
        Single::whole(a).at_most(Single::whole(b)) <==> a <= b,
{
    reveal(less_bits);
    reveal(equal_bits);
    lemma_whole(a);
    lemma_whole(b);
    lemma_pow2_pos(149);
    let p = one();
    assert(a < b <==> a * p < b * p) by (nonlinear_arith)
        requires
            p > 0,
    ;
    assert(a == b <==> a * p == b * p) by (nonlinear_arith)
        requires
            p > 0,
    ;
}

/// The sum of whole numbers below `2^24` is the number nearest to their
/// sum as integers.
pub proof fn lemma_whole_plus(a: int, b: int)
    requires
        -0x100_0000 < a < 0x100_0000,
        -0x100_0000 < b < 0x100_0000,
    ensures
        Single::whole(a).plus(Single::whole(b)) == Single::whole(a + b),
{
    reveal(sum_bits);
    reveal(ratio_bits);
    lemma_whole(a);
    lemma_whole(b);
    lemma_pow2_pos(149);
    let p = one();
    assert(a * p + b * p == (a + b) * p) by (nonlinear_arith);
    assert(a + b < 0 <==> (a + b) * p < 0) by (nonlinear_arith)
        requires
            p > 0,
    ;
    assert(a + b == 0 <==> (a + b) * p == 0) by (nonlinear_arith)
        requires
            p > 0,
    ;
    assert(-((a + b) * p) == (-(a + b)) * p) by (nonlinear_arith);
    if a + b == 0 {
        lemma_whole(0);
    }
}

/// The difference of whole numbers below `2^24` is the number nearest to
/// their difference as integers.
pub proof fn lemma_whole_minus(a: int, b: int)
    requires
        -0x100_0000 < a < 0x100_0000,
        -0x100_0000 < b < 0x100_0000,
    ensures
        Single::whole(a).minus(Single::whole(b)) == Single::whole(a - b),
{
    reveal(sum_bits);
    reveal(ratio_bits);
    lemma_whole(a);
    lemma_whole(b);
    lemma_negated(Single::whole(b).bits);
    lemma_pow2_pos(149);
    let p = one();
    assert(a * p - b * p == (a - b) * p) by (nonlinear_arith);
    assert(a - b < 0 <==> (a - b) * p < 0) by (nonlinear_arith)
        requires
            p > 0,
    ;
    assert(a - b == 0 <==> (a - b) * p == 0) by (nonlinear_arith)
        requires
            p > 0,
    ;
    assert(-((a - b) * p) == (-(a - b)) * p) by (nonlinear_arith);
    if a - b == 0 {
        lemma_whole(0);
    }
}

/// The product of whole numbers below `2^24`, neither negative, is the
/// number nearest to their product as integers.
pub proof fn lemma_whole_times(a: int, b: int)
    requires
        0 <= a < 0x100_0000,
        0 <= b < 0x100_0000,
    ensures
        Single::whole(a).times(Single::whole(b)) == Single::whole(a * b),
{
    reveal(product_bits);
    reveal(ratio_bits);
    lemma_whole(a);
    lemma_whole(b);
    lemma_pow2_pos(149);
    let p = one();
    assert(a * b >= 0) by (nonlinear_arith)
        requires
            a >= 0,
            b >= 0,
    ;
    assert((a * p) * (b * p) == ((a * b) * p) * p) by (nonlinear_arith);
    assert(1 * p == p);
    lemma_round_magnitude_scale(((a * b) * p) as nat, 1, p);
}

/// The quotient of a whole number below `2^24` by a positive one that
/// divides it is the number nearest to their quotient as integers.
pub proof fn lemma_whole_over(a: int, b: int)
    requires
        0 <= a < 0x100_0000,
        0 < b < 0x100_0000,
        a % b == 0,
    ensures
        Single::whole(a).over(Single::whole(b)) == Single::whole(a / b),
{
    reveal(quotient_bits);
    reveal(ratio_bits);
    lemma_whole(a);
    lemma_whole(b);
    lemma_pow2_pos(149);
    let p = one();
    let q = a / b;
    vstd::arithmetic::div_mod::lemma_fundamental_div_mod(a, b);
    assert(q >= 0) by (nonlinear_arith)
        requires
            a == b * q,
            a >= 0,
            b > 0,
    ;
    assert(b * p > 0) by (nonlinear_arith)
        requires
            b > 0,
            p > 0,
    ;
    assert((a * p) * p == (q * p) * (b * p)) by (nonlinear_arith)
        requires
            a == b * q,
    ;
    assert(1 * (b * p) == b * p);
    lemma_zero_magnitude(Single::whole(b).bits);
    lemma_round_magnitude_scale((q * p) as nat, 1, (b * p) as nat);
}

/// The greater of two whole numbers below `2^24` is the number nearest to
/// the greater integer.
pub proof fn lemma_whole_maximum(a: int, b: int)
    requires
        -0x100_0000 < a < 0x100_0000,
        -0x100_0000 < b < 0x100_0000,
    ensures
        Single::whole(a).maximum(Single::whole(b)) == Single::whole(if a < b { b } else { a }),
{
    lemma_whole(a);
    lemma_whole(b);
    lemma_whole_order(a, b);
}

} // verus!
