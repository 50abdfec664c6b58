use fuel_drift::ieee::single::Single;

fn s(x: f32) -> Single {
    Single::from_bits(x.to_bits())
}

fn n(x: Single) -> f32 {
    f32::from_bits(x.to_bits())
}

/// Same number, or both NaN.
fn same(got: Single, want: f32) -> bool {
    if want.is_nan() {
        n(got).is_nan()
    } else {
        got.to_bits() == want.to_bits()
    }
}

struct Patterns {
    state: u64,
}

impl Patterns {
    fn next(&mut self) -> u32 {
        self.state ^= self.state << 13;
        self.state ^= self.state >> 7;
        self.state ^= self.state << 17;
        (self.state >> 16) as u32
    }

    /// A bit pattern; every few draws one with an exponent near that of
    /// `near`, so that sums cancel and quotients stay in range.
    fn pattern(&mut self, near: u32) -> u32 {
        let raw = self.next();
        match raw % 4 {
            0 => raw,
            1 => (near & 0xff80_0000) ^ (raw & 0x807f_ffff),
            2 => {
                let e = ((near >> 23) & 0xff) as i32 + (raw >> 28) as i32 - 8;
                let e = e.clamp(0, 255) as u32;
                (raw & 0x807f_ffff) | (e << 23)
            }
            _ => raw & 0x80ff_ffff,
        }
    }
}

const SPECIAL: [u32; 22] = [
    0x0000_0000, 0x8000_0000, 0x0000_0001, 0x8000_0001, 0x007f_ffff, 0x0080_0000, 0x0080_0001,
    0x00ff_ffff, 0x3f80_0000, 0xbf80_0000, 0x3f00_0000, 0x4000_0000, 0x7f7f_ffff, 0xff7f_ffff,
    0x7f80_0000, 0xff80_0000, 0x7fc0_0000, 0x7f80_0001, 0x4b00_0000, 0x4b7f_ffff, 0x3eaa_aaab,
    0x0040_0000,
];

#[test]
fn sum_agrees_with_hardware() {
    let mut g = Patterns { state: 0x9e37_79b9_7f4a_7c15 };
    for _ in 0..200_000 {
        let a = g.next();
        let b = g.pattern(a);
        let (x, y) = (f32::from_bits(a), f32::from_bits(b));
        assert!(same(s(x).add(s(y)), x + y), "{:08x} + {:08x}", a, b);
        assert!(same(s(x).sub(s(y)), x - y), "{:08x} - {:08x}", a, b);
    }
}

#[test]
fn product_agrees_with_hardware() {
    let mut g = Patterns { state: 0x2545_f491_4f6c_dd1d };
    for _ in 0..200_000 {
        let a = g.next();
        let b = g.pattern(0x7f00_0000u32.wrapping_sub(a & 0x7f80_0000));
        let (x, y) = (f32::from_bits(a), f32::from_bits(b));
        assert!(same(s(x).mul(s(y)), x * y), "{:08x} * {:08x}", a, b);
    }
}

#[test]
fn quotient_agrees_with_hardware() {
    let mut g = Patterns { state: 0xda94_2042_e4dd_58b5 };
    for _ in 0..200_000 {
        let a = g.next();
        let b = g.pattern(a);
        let (x, y) = (f32::from_bits(a), f32::from_bits(b));
        assert!(same(s(x).div(s(y)), x / y), "{:08x} / {:08x}", a, b);
    }
}

#[test]
fn special_values_agree_with_hardware() {
    for &a in SPECIAL.iter() {
        for &b in SPECIAL.iter() {
            let (x, y) = (f32::from_bits(a), f32::from_bits(b));
            assert!(same(s(x).add(s(y)), x + y), "{:08x} + {:08x}", a, b);
            assert!(same(s(x).sub(s(y)), x - y), "{:08x} - {:08x}", a, b);
            assert!(same(s(x).mul(s(y)), x * y), "{:08x} * {:08x}", a, b);
            assert!(same(s(x).div(s(y)), x / y), "{:08x} / {:08x}", a, b);
            assert_eq!(s(x).lt(s(y)), x < y, "{:08x} < {:08x}", a, b);
            assert_eq!(s(x).le(s(y)), x <= y, "{:08x} <= {:08x}", a, b);
            assert_eq!(s(x).gt(s(y)), x > y, "{:08x} > {:08x}", a, b);
            assert_eq!(s(x).ge(s(y)), x >= y, "{:08x} >= {:08x}", a, b);
            assert_eq!(s(x).eq(s(y)), x == y, "{:08x} == {:08x}", a, b);
        }
        let x = f32::from_bits(a);
        assert_eq!(s(x).to_u32(), x as u32, "{:08x} as u32", a);
        assert_eq!(s(x).neg().to_bits(), (-x).to_bits());
        assert_eq!(s(x).abs().to_bits(), x.abs().to_bits());
        assert_eq!(s(x).check_nan(), x.is_nan());
    }
}

#[test]
fn order_agrees_with_hardware() {
    let mut g = Patterns { state: 0x1234_5678_9abc_def1 };
    for _ in 0..200_000 {
        let a = g.next();
        let b = g.pattern(a);
        let (x, y) = (f32::from_bits(a), f32::from_bits(b));
        assert_eq!(s(x).lt(s(y)), x < y);
        assert_eq!(s(x).le(s(y)), x <= y);
        assert_eq!(s(x).eq(s(y)), x == y);
        if !x.is_nan() && !y.is_nan() && x != y {
            assert_eq!(n(s(x).max(s(y))), x.max(y));
            assert_eq!(n(s(x).min(s(y))), x.min(y));
        }
        assert_eq!(s(x).to_u32(), x as u32);
    }
}

#[test]
fn conversions_agree_with_hardware() {
    let mut g = Patterns { state: 0x0f0f_1234_8765_4321 };
    for _ in 0..100_000 {
        let raw = g.next();
        let v = (raw >> (raw % 32)) as i32;
        assert_eq!(Single::from_int(v).to_bits(), (v as f32).to_bits());
        assert_eq!(Single::from_int(-v).to_bits(), ((-v) as f32).to_bits());
    }
    assert_eq!(Single::from_int(i32::MIN).to_bits(), (i32::MIN as f32).to_bits());
    assert_eq!(Single::from_int(i32::MAX).to_bits(), (i32::MAX as f32).to_bits());
    assert_eq!(Single::from_ratio(3, 10).to_bits(), 0.3f32.to_bits());
    assert_eq!(Single::from_ratio(275, 1000).to_bits(), 0.275f32.to_bits());
    assert_eq!(Single::from_ratio(1, 2).to_bits(), 0.5f32.to_bits());
    assert_eq!(Single::from_ratio(-16, 1000).to_bits(), (-0.016f32).to_bits());
    assert_eq!(Single::from_ratio(1, 3).to_bits(), (1.0f32 / 3.0).to_bits());
    assert_eq!(Single::zero().to_bits(), 0.0f32.to_bits());
}

#[test]
fn clamp_holds_between_bounds() {
    let lo = s(-200.0);
    let hi = s(200.0);
    assert_eq!(n(s(250.0).clamp(lo, hi)), 200.0);
    assert_eq!(n(s(-250.0).clamp(lo, hi)), -200.0);
    assert_eq!(n(s(12.5).clamp(lo, hi)), 12.5);
    assert!(n(s(f32::NAN).clamp(lo, hi)).is_nan());
}

#[test]
fn root_agrees_with_hardware() {
    let mut g = Patterns { state: 0x7777_1234_0bad_cafe };
    for _ in 0..200_000 {
        let a = g.next();
        let x = f32::from_bits(a);
        assert!(same(s(x).sqrt(), x.sqrt()), "sqrt {:08x}", a);
        let y = f32::from_bits(a & 0x7fff_ffff);
        assert!(same(s(y).sqrt(), y.sqrt()), "sqrt {:08x}", a & 0x7fff_ffff);
    }
    for &a in SPECIAL.iter() {
        let x = f32::from_bits(a);
        assert!(same(s(x).sqrt(), x.sqrt()), "sqrt {:08x}", a);
    }
    assert_eq!(n(s(2.0).sqrt()), 1.4142135);
    assert_eq!(n(s(1600.0 + 100.0).sqrt()), 41.231056);
}

#[test]
fn unsigned_conversion_agrees_with_hardware() {
    let mut g = Patterns { state: 0x0123_4567_89ab_cdef };
    for _ in 0..100_000 {
        let raw = g.next();
        let v = raw >> (raw % 32);
        assert_eq!(Single::from_u32(v).to_bits(), (v as f32).to_bits());
    }
    assert_eq!(Single::from_u32(u32::MAX).to_bits(), (u32::MAX as f32).to_bits());
    assert_eq!(n(Single::from_u32(u32::MAX)), 4294967296.0);
    assert_eq!(n(Single::from_u32(16_777_217)), 16_777_216.0);
    assert_eq!(n(Single::from_u32(16_777_219)), 16_777_220.0);
}

#[test]
fn equality_is_that_of_numbers() {
    assert!(s(0.0) == s(-0.0));
    assert!(s(f32::NAN) != s(f32::NAN));
    assert!(s(1.5) == s(1.5));
    assert!(s(1.5) != s(-1.5));
}
