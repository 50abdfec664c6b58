//! The number type of the simulation and its arithmetic.

use vstd::prelude::*;
use vstd::arithmetic::power2::{pow2, lemma_pow2_pos, lemma_pow2_adds, lemma2_to64};
use crate::ieee::model::{
    abs_bits, equal_bits, is_finite, is_nan, is_negative, is_zero, less_bits,
    magnitude, negated_bits, product_bits, quotient_bits, ratio_bits, root_bits, round_magnitude,
    scale, significand, sum_bits, truncated_bits, value, with_sign, HIDDEN_BIT, INF_BITS,
    NAN_BITS, SIGN_BIT,
};
use crate::ieee::exact::{lemma_abs_bits_parts, lemma_magnitude_increases, lemma_round_absorbs};
use crate::ieee::root::root_to_bits;
use crate::ieee::rounding::{
    lemma_pow2_le, lemma_round_magnitude_scale, pow2_u128, round_scaled, round_to_bits,
};

verus! {

/// An IEEE 754 binary32 number, held as its bit pattern.
#[derive(Clone, Copy, Debug)]
pub struct Single {
    pub bits: u32,
}

/// A finite number taken apart: its sign, integer significand and scale.
struct Parts {
    negative: bool,
    mantissa: u32,
    exponent: u32,
}

/// `(n / d) * 2^(e - k)` is the quotient of `n * 2^e` by `d * 2^k`.
proof fn lemma_round_scaled_ratio(n: nat, d: nat, e: nat, k: nat)
    requires
        d > 0,
    ensures
        round_scaled(n, d, e - k) == round_magnitude(n * pow2(e), d * pow2(k)),
{
    lemma_pow2_pos(e);
    lemma_pow2_pos(k);
    if e >= k {
        let x = (e - k) as nat;
        lemma_pow2_adds(x, k);
        assert((n * pow2(x)) * pow2(k) == n * pow2(e)) by (nonlinear_arith)
            requires
                pow2(x) * pow2(k) == pow2(e),
        ;
        lemma_round_magnitude_scale(n * pow2(x), d, pow2(k));
    } else {
        let x = (k - e) as nat;
        lemma_pow2_adds(x, e);
        lemma_pow2_pos(x);
        assert((d * pow2(x)) * pow2(e) == d * pow2(k)) by (nonlinear_arith)
            requires
                pow2(x) * pow2(e) == pow2(k),
        ;
        assert(d * pow2(x) > 0) by (nonlinear_arith)
            requires
                d > 0,
                pow2(x) > 0,
        ;
        lemma_round_magnitude_scale(n, d * pow2(x), pow2(e));
    }
}

/// The bit pattern read as a signed integer that is ordered as the numbers
/// are.
pub open spec fn order_key(b: u32) -> int {
    if is_negative(b) {
        -(abs_bits(b) as int)
    } else {
        abs_bits(b) as int
    }
}

/// Numbers are ordered as their keys are.
pub proof fn lemma_order_key(a: u32, b: u32)
    requires
        !is_nan(a),
        !is_nan(b),
    ensures
        value(a) < value(b) <==> order_key(a) < order_key(b),
        value(a) == value(b) <==> order_key(a) == order_key(b),
{
    if abs_bits(a) < abs_bits(b) {
        lemma_magnitude_increases(a, b);
    }
    if abs_bits(b) < abs_bits(a) {
        lemma_magnitude_increases(b, a);
    }
    lemma_pow2_pos(scale(a));
    lemma_pow2_pos(scale(b));
    assert(abs_bits(a) == 0 ==> magnitude(a) == 0) by (nonlinear_arith)
        requires
            abs_bits(a) == 0 ==> significand(a) == 0,
            magnitude(a) == significand(a) * pow2(scale(a)),
    ;
    assert(abs_bits(b) == 0 ==> magnitude(b) == 0) by (nonlinear_arith)
        requires
            abs_bits(b) == 0 ==> significand(b) == 0,
            magnitude(b) == significand(b) * pow2(scale(b)),
    ;
    assert(abs_bits(a) > 0 ==> magnitude(a) > 0) by (nonlinear_arith)
        requires
            abs_bits(a) > 0 ==> significand(a) > 0,
            pow2(scale(a)) > 0,
            magnitude(a) == significand(a) * pow2(scale(a)),
    ;
    assert(abs_bits(b) > 0 ==> magnitude(b) > 0) by (nonlinear_arith)
        requires
            abs_bits(b) > 0 ==> significand(b) > 0,
            pow2(scale(b)) > 0,
            magnitude(b) == significand(b) * pow2(scale(b)),
    ;
}

impl Single {
    /// Whether this is no number.
    pub open spec fn is_nan(self) -> bool {
        is_nan(self.bits)
    }

    /// Whether this is a number other than an infinity.
    pub open spec fn is_finite(self) -> bool {
        is_finite(self.bits)
    }

    /// The value in the unit `2^-149`, for a number that is not NaN.
    pub open spec fn value(self) -> int {
        value(self.bits)
    }

    /// The number nearest to `num / den`.
    pub open spec fn ratio(num: int, den: nat) -> Single {
        Single { bits: ratio_bits(num, den) }
    }

    /// The number nearest to the integer `n`.
    pub open spec fn whole(n: int) -> Single {
        Single { bits: ratio_bits(n, 1) }
    }

    /// The number with the opposite sign.
    pub open spec fn negation(self) -> Single {
        Single { bits: negated_bits(self.bits) }
    }

    /// The number without its sign.
    pub open spec fn absolute(self) -> Single {
        Single { bits: abs_bits(self.bits) as u32 }
    }

    /// The sum, rounded to the nearest number.
    pub open spec fn plus(self, rhs: Single) -> Single {
        Single { bits: sum_bits(self.bits, rhs.bits) }
    }

    /// The difference, rounded to the nearest number.
    pub open spec fn minus(self, rhs: Single) -> Single {
        self.plus(rhs.negation())
    }

    /// `self < rhs`; false where either is NaN.
    pub open spec fn less_than(self, rhs: Single) -> bool {
        less_bits(self.bits, rhs.bits)
    }

    /// `self == rhs`; false where either is NaN, true of the two zeros.
    pub open spec fn equals(self, rhs: Single) -> bool {
        equal_bits(self.bits, rhs.bits)
    }

    /// `self <= rhs`; false where either is NaN.
    pub open spec fn at_most(self, rhs: Single) -> bool {
        self.less_than(rhs) || self.equals(rhs)
    }

    /// `self > rhs`; false where either is NaN.
    pub open spec fn greater_than(self, rhs: Single) -> bool {
        rhs.less_than(self)
    }

    /// `self >= rhs`; false where either is NaN.
    pub open spec fn at_least(self, rhs: Single) -> bool {
        rhs.at_most(self)
    }

    /// The greater of two numbers; the other one where one is NaN.
    pub open spec fn maximum(self, rhs: Single) -> Single {
        if self.is_nan() {
            rhs
        } else if rhs.is_nan() {
            self
        } else if self.less_than(rhs) {
            rhs
        } else {
            self
        }
    }

    /// The smaller of two numbers; the other one where one is NaN.
    pub open spec fn minimum(self, rhs: Single) -> Single {
        if self.is_nan() {
            rhs
        } else if rhs.is_nan() {
            self
        } else if rhs.less_than(self) {
            rhs
        } else {
            self
        }
    }

    /// The number held between `lo` and `hi`.
    pub open spec fn clamped(self, lo: Single, hi: Single) -> Single {
        if self.less_than(lo) {
            lo
        } else if self.greater_than(hi) {
            hi
        } else {
            self
        }
    }

    /// The integer part as a `u32`, cut off at the ends of its range.
    pub open spec fn truncated(self) -> u32 {
        truncated_bits(self.bits)
    }

    /// The square root.
    pub open spec fn root(self) -> Single {
        Single { bits: root_bits(self.bits) }
    }

    /// The product, rounded to the nearest number.
    pub open spec fn times(self, rhs: Single) -> Single {
        Single { bits: product_bits(self.bits, rhs.bits) }
    }

    /// The quotient, rounded to the nearest number.
    pub open spec fn over(self, rhs: Single) -> Single {
        Single { bits: quotient_bits(self.bits, rhs.bits) }
    }

    /// The number with this bit pattern.
    pub fn from_bits(bits: u32) -> (r: Single)
        ensures
            r.bits == bits,
    {
        Single { bits }
    }

    /// The bit pattern of the number.
    pub fn to_bits(self) -> (r: u32)
        ensures
            r == self.bits,
    {
        self.bits
    }

    fn abs_of(self) -> (r: u32)
        ensures
            r == abs_bits(self.bits),
    {
        if self.bits >= SIGN_BIT {
            self.bits - SIGN_BIT
        } else {
            self.bits
        }
    }

    fn signed(negative: bool, abs: u32) -> (r: Single)
        requires
            abs < SIGN_BIT,
        ensures
            r.bits == with_sign(negative, abs as nat),
    {
        if negative {
            Single { bits: abs + SIGN_BIT }
        } else {
            Single { bits: abs }
        }
    }

    fn parts(self) -> (r: Parts)
        ensures
            r.negative == is_negative(self.bits),
            r.mantissa == significand(self.bits),
            r.exponent == scale(self.bits),
            r.mantissa < 0x100_0000,
            r.exponent <= 254,
            r.exponent > 0 ==> r.mantissa >= HIDDEN_BIT,
            r.mantissa == 0 <==> is_zero(self.bits),
    {
        let a = self.abs_of();
        let e = a / HIDDEN_BIT;
        let f = a % HIDDEN_BIT;
        if e == 0 {
            Parts { negative: self.bits >= SIGN_BIT, mantissa: f, exponent: 0 }
        } else {
            Parts { negative: self.bits >= SIGN_BIT, mantissa: HIDDEN_BIT + f, exponent: e - 1 }
        }
    }

    /// The number nearest to `num / den`.
    pub fn from_ratio(num: i32, den: u32) -> (r: Single)
        requires
            0 < den < 0x100_0000,
        ensures
            r == Single::ratio(num as int, den as nat),
    {
        proof {
            reveal(ratio_bits);
        }
        let negative = num < 0;
        let n: u64 = if negative { (-(num as i64)) as u64 } else { num as u64 };
        Single::signed(negative, round_to_bits(n, den, 149))
    }

    /// The number nearest to the integer `n`.
    pub fn from_u32(n: u32) -> (r: Single)
        ensures
            r == Single::whole(n as int),
    {
        proof {
            reveal(ratio_bits);
        }
        Single::signed(false, round_to_bits(n as u64, 1, 149))
    }

    /// The number nearest to the integer `n`.
    pub fn from_int(n: i32) -> (r: Single)
        ensures
            r == Single::whole(n as int),
    {
        Single::from_ratio(n, 1)
    }

    /// Positive zero.
    pub fn zero() -> (r: Single)
        ensures
            r.bits == 0,
    {
        Single { bits: 0 }
    }

    /// The number with the opposite sign.
    pub fn neg(self) -> (r: Single)
        ensures
            r == self.negation(),
    {
        if self.bits >= SIGN_BIT {
            Single { bits: self.bits - SIGN_BIT }
        } else {
            Single { bits: self.bits + SIGN_BIT }
        }
    }

    /// The number without its sign.
    pub fn abs(self) -> (r: Single)
        ensures
            r == self.absolute(),
    {
        Single { bits: self.abs_of() }
    }

    fn key(self) -> (k: i64)
        ensures
            k == order_key(self.bits),
    {
        if self.bits >= SIGN_BIT {
            -((self.bits - SIGN_BIT) as i64)
        } else {
            self.bits as i64
        }
    }

    /// Whether this is no number.
    pub fn check_nan(self) -> (r: bool)
        ensures
            r == self.is_nan(),
    {
        self.abs_of() > INF_BITS
    }

    /// `self < rhs`.
    pub fn lt(self, rhs: Single) -> (r: bool)
        ensures
            r == self.less_than(rhs),
    {
        proof {
            reveal(less_bits);
        }
        if self.check_nan() || rhs.check_nan() {
            return false;
        }
        proof {
            lemma_order_key(self.bits, rhs.bits);
        }
        self.key() < rhs.key()
    }

    /// `self == rhs`.
    pub fn eq(self, rhs: Single) -> (r: bool)
        ensures
            r == self.equals(rhs),
    {
        proof {
            reveal(equal_bits);
        }
        if self.check_nan() || rhs.check_nan() {
            return false;
        }
        proof {
            lemma_order_key(self.bits, rhs.bits);
        }
        self.key() == rhs.key()
    }

    /// `self <= rhs`.
    pub fn le(self, rhs: Single) -> (r: bool)
        ensures
            r == self.at_most(rhs),
    {
        proof {
            reveal(less_bits);
            reveal(equal_bits);
        }
        if self.check_nan() || rhs.check_nan() {
            return false;
        }
        proof {
            lemma_order_key(self.bits, rhs.bits);
        }
        self.key() <= rhs.key()
    }

    /// `self > rhs`.
    pub fn gt(self, rhs: Single) -> (r: bool)
        ensures
            r == self.greater_than(rhs),
    {
        rhs.lt(self)
    }

    /// `self >= rhs`.
    pub fn ge(self, rhs: Single) -> (r: bool)
        ensures
            r == self.at_least(rhs),
    {
        rhs.le(self)
    }

    /// The greater of two numbers; the other one where one is NaN.
    pub fn max(self, rhs: Single) -> (r: Single)
        ensures
            r == self.maximum(rhs),
    {
        if self.check_nan() {
            rhs
        } else if rhs.check_nan() {
            self
        } else if self.lt(rhs) {
            rhs
        } else {
            self
        }
    }

    /// The smaller of two numbers; the other one where one is NaN.
    pub fn min(self, rhs: Single) -> (r: Single)
        ensures
            r == self.minimum(rhs),
    {
        if self.check_nan() {
            rhs
        } else if rhs.check_nan() {
            self
        } else if rhs.lt(self) {
            rhs
        } else {
            self
        }
    }

    /// The number held between `lo` and `hi`; NaN stays NaN.
    pub fn clamp(self, lo: Single, hi: Single) -> (r: Single)
        ensures
            r == self.clamped(lo, hi),
    {
        if self.lt(lo) {
            lo
        } else if self.gt(hi) {
            hi
        } else {
            self
        }
    }

    /// The sum, rounded to the nearest number.
    pub fn add(self, rhs: Single) -> (r: Single)
        ensures
            r == self.plus(rhs),
    {
        proof {
            reveal(sum_bits);
        }
        let a = self.abs_of();
        let b = rhs.abs_of();
        if a > INF_BITS || b > INF_BITS {
            return Single { bits: NAN_BITS };
        }
        let na = self.bits >= SIGN_BIT;
        let nb = rhs.bits >= SIGN_BIT;
        if a == INF_BITS {
            if b == INF_BITS && na != nb {
                return Single { bits: NAN_BITS };
            }
            return self;
        }
        if b == INF_BITS {
            return rhs;
        }
        let big = if a >= b { self } else { rhs };
        let small = if a >= b { rhs } else { self };
        let x = big.parts();
        let y = small.parts();
        proof {
            lemma_abs_bits_parts(big.bits);
            lemma_abs_bits_parts(small.bits);
            lemma_pow2_pos(x.exponent as nat);
            lemma_pow2_pos(y.exponent as nat);
        }
        let d = x.exponent - y.exponent;
        let ghost ex = x.exponent as nat;
        let ghost ey = y.exponent as nat;
        let ghost top = magnitude(big.bits);
        let ghost low = magnitude(small.bits);
        if d > 30 {
            proof {
                lemma_pow2_le(ey + 26, ex);
                lemma_pow2_adds(26, ey);
                lemma2_to64();
                assert(4 * low < pow2(ex)) by (nonlinear_arith)
                    requires
                        low == y.mantissa * pow2(ey),
                        y.mantissa < 0x100_0000,
                        pow2(26) * pow2(ey) <= pow2(ex),
                        pow2(26) == 0x400_0000,
                        pow2(ey) > 0,
                ;
                lemma_round_absorbs(big.bits, low);
                assert(top > low) by (nonlinear_arith)
                    requires
                        top == x.mantissa * pow2(ex),
                        x.mantissa >= 0x80_0000,
                        4 * low < pow2(ex),
                ;
            }
            return big;
        }
        let shift: u64 = pow2_u128(d) as u64;
        proof {
            lemma_pow2_le(d as nat, 30);
            lemma2_to64();
            lemma_pow2_adds(d as nat, ey);
            assert(x.mantissa * shift < 0x40_0000_0000_0000) by (nonlinear_arith)
                requires
                    x.mantissa < 0x100_0000,
                    shift <= 0x4000_0000,
            ;
        }
        let hi: u64 = (x.mantissa as u64) * shift;
        proof {
            assert(top == hi * pow2(ey)) by (nonlinear_arith)
                requires
                    top == x.mantissa * pow2(ex),
                    hi == x.mantissa * shift,
                    shift * pow2(ey) == pow2(ex),
            ;
            if d > 0 {
                lemma_pow2_le(1, d as nat);
                assert(hi >= 0x100_0000) by (nonlinear_arith)
                    requires
                        hi == x.mantissa * shift,
                        x.mantissa >= 0x80_0000,
                        shift >= 2,
                ;
            } else {
                assert(hi == x.mantissa) by (nonlinear_arith)
                    requires
                        hi == x.mantissa * shift,
                        shift == 1,
                ;
            }
        }
        let s: u64 = if na == nb { hi + y.mantissa as u64 } else { hi - y.mantissa as u64 };
        proof {
            assert(na == nb ==> top + low == s * pow2(ey)) by (nonlinear_arith)
                requires
                    top == hi * pow2(ey),
                    low == y.mantissa * pow2(ey),
                    na == nb ==> s == hi + y.mantissa,
            ;
            assert(na != nb ==> top - low == s * pow2(ey)) by (nonlinear_arith)
                requires
                    top == hi * pow2(ey),
                    low == y.mantissa * pow2(ey),
                    na != nb ==> s == hi - y.mantissa,
            ;
            assert(s == 0 ==> s * pow2(ey) == 0) by (nonlinear_arith);
            assert(s > 0 ==> s * pow2(ey) > 0) by (nonlinear_arith)
                requires
                    pow2(ey) > 0,
            ;
        }
        if s == 0 {
            return Single::signed(na && nb, 0);
        }
        Single::signed(x.negative, round_to_bits(s, 1, y.exponent as i32))
    }

    /// The difference, rounded to the nearest number.
    pub fn sub(self, rhs: Single) -> (r: Single)
        ensures
            r == self.minus(rhs),
    {
        self.add(rhs.neg())
    }

    /// The integer part as a `u32`, cut off at the ends of its range.
    pub fn to_u32(self) -> (r: u32)
        ensures
            r == self.truncated(),
    {
        proof {
            reveal(truncated_bits);
        }
        let a = self.abs_of();
        if a > INF_BITS || self.bits >= SIGN_BIT {
            return 0;
        }
        let x = self.parts();
        let ghost e = x.exponent as nat;
        proof {
            lemma_pow2_pos(149);
            lemma_pow2_pos(e);
        }
        if x.exponent >= 149 {
            let k = x.exponent - 149;
            proof {
                lemma_pow2_adds(k as nat, 149);
                lemma_pow2_pos(k as nat);
                assert(magnitude(self.bits) == (x.mantissa * pow2(k as nat)) * pow2(149))
                    by (nonlinear_arith)
                    requires
                        magnitude(self.bits) == x.mantissa * pow2(e),
                        pow2(k as nat) * pow2(149) == pow2(e),
                ;
                vstd::arithmetic::div_mod::lemma_div_by_multiple(
                    (x.mantissa * pow2(k as nat)) as int,
                    pow2(149) as int,
                );
            }
            if k >= 32 {
                proof {
                    lemma_pow2_le(32, k as nat);
                    lemma2_to64();
                    assert(x.mantissa * pow2(k as nat) >= 0xffff_ffff) by (nonlinear_arith)
                        requires
                            x.mantissa >= 1,
                            pow2(k as nat) >= 0x1_0000_0000,
                    ;
                }
                return 0xffff_ffff;
            }
            let shift: u64 = pow2_u128(k) as u64;
            proof {
                lemma_pow2_le(k as nat, 31);
                vstd::arithmetic::power2::lemma2_to64();
                assert(x.mantissa * shift < 0x80_0000_0000_0000) by (nonlinear_arith)
                    requires
                        x.mantissa < 0x100_0000,
                        shift <= 0x8000_0000,
                ;
            }
            let v: u64 = (x.mantissa as u64) * shift;
            if v >= 0xffff_ffff {
                0xffff_ffff
            } else {
                v as u32
            }
        } else {
            let t = 149 - x.exponent;
            proof {
                lemma_pow2_adds(e, t as nat);
                lemma_pow2_pos(t as nat);
                vstd::arithmetic::div_mod::lemma_div_multiples_vanish_quotient(
                    pow2(e) as int,
                    x.mantissa as int,
                    pow2(t as nat) as int,
                );
                assert(magnitude(self.bits) == pow2(e) * x.mantissa) by (nonlinear_arith)
                    requires
                        magnitude(self.bits) == x.mantissa * pow2(e),
                ;
            }
            if t >= 24 {
                proof {
                    lemma_pow2_le(24, t as nat);
                    lemma2_to64();
                    vstd::arithmetic::div_mod::lemma_basic_div(
                        x.mantissa as int,
                        pow2(t as nat) as int,
                    );
                }
                return 0;
            }
            let shift: u32 = pow2_u128(t) as u32;
            proof {
                lemma_pow2_le(t as nat, 23);
                lemma2_to64();
            }
            x.mantissa / shift
        }
    }

    /// The square root, rounded to the nearest number.
    pub fn sqrt(self) -> (r: Single)
        ensures
            r == self.root(),
    {
        proof {
            reveal(root_bits);
        }
        let a = self.abs_of();
        if a > INF_BITS {
            return Single { bits: NAN_BITS };
        }
        if a == 0 {
            return self;
        }
        if self.bits >= SIGN_BIT {
            return Single { bits: NAN_BITS };
        }
        if a == INF_BITS {
            return self;
        }
        let x = self.parts();
        Single { bits: root_to_bits(x.mantissa, x.exponent) }
    }

    /// The product, rounded to the nearest number.
    pub fn mul(self, rhs: Single) -> (r: Single)
        ensures
            r == self.times(rhs),
    {
        proof {
            reveal(product_bits);
        }
        let a = self.abs_of();
        let b = rhs.abs_of();
        if a > INF_BITS || b > INF_BITS {
            return Single { bits: NAN_BITS };
        }
        let negative = (self.bits >= SIGN_BIT) != (rhs.bits >= SIGN_BIT);
        if a == INF_BITS || b == INF_BITS {
            if a == 0 || b == 0 {
                return Single { bits: NAN_BITS };
            }
            return Single::signed(negative, INF_BITS);
        }
        let x = self.parts();
        let y = rhs.parts();
        assert(x.mantissa * y.mantissa < 0x1_0000_0000_0000) by (nonlinear_arith)
            requires
                x.mantissa < 0x100_0000,
                y.mantissa < 0x100_0000,
        ;
        let p: u64 = (x.mantissa as u64) * (y.mantissa as u64);
        let e: i32 = (x.exponent + y.exponent) as i32 - 149;
        proof {
            let ea = x.exponent as nat;
            let eb = y.exponent as nat;
            lemma_pow2_adds(ea, eb);
            lemma2_to64();
            lemma_round_scaled_ratio(p as nat, 1, ea + eb, 149);
            assert(magnitude(self.bits) * magnitude(rhs.bits) == p * pow2(ea + eb))
                by (nonlinear_arith)
                requires
                    magnitude(self.bits) == x.mantissa * pow2(ea),
                    magnitude(rhs.bits) == y.mantissa * pow2(eb),
                    p == x.mantissa * y.mantissa,
                    pow2(ea) * pow2(eb) == pow2(ea + eb),
            ;
            assert(1 * pow2(149) == pow2(149));
        }
        Single::signed(negative, round_to_bits(p, 1, e))
    }

    /// The quotient, rounded to the nearest number.
    pub fn div(self, rhs: Single) -> (r: Single)
        ensures
            r == self.over(rhs),
    {
        proof {
            reveal(quotient_bits);
        }
        let a = self.abs_of();
        let b = rhs.abs_of();
        if a > INF_BITS || b > INF_BITS {
            return Single { bits: NAN_BITS };
        }
        let negative = (self.bits >= SIGN_BIT) != (rhs.bits >= SIGN_BIT);
        if a == INF_BITS {
            if b == INF_BITS {
                return Single { bits: NAN_BITS };
            }
            return Single::signed(negative, INF_BITS);
        }
        if b == INF_BITS {
            return Single::signed(negative, 0);
        }
        if b == 0 {
            if a == 0 {
                return Single { bits: NAN_BITS };
            }
            return Single::signed(negative, INF_BITS);
        }
        let x = self.parts();
        let y = rhs.parts();
        let e: i32 = (x.exponent + 149) as i32 - (y.exponent as i32);
        proof {
            let ea = x.exponent as nat;
            let eb = y.exponent as nat;
            lemma_pow2_adds(ea, 149);
            lemma_round_scaled_ratio(x.mantissa as nat, y.mantissa as nat, ea + 149, eb);
            assert(magnitude(self.bits) * pow2(149) == x.mantissa * pow2(ea + 149))
                by (nonlinear_arith)
                requires
                    magnitude(self.bits) == x.mantissa * pow2(ea),
                    pow2(ea) * pow2(149) == pow2(ea + 149),
            ;
        }
        Single::signed(negative, round_to_bits(x.mantissa as u64, y.mantissa, e))
    }
}

} // verus!
