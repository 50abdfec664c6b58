//! The cave: a seeded stream of numbers and the tunnel segments drawn from
//! it.

use std::collections::VecDeque;
use vstd::prelude::*;
use vstd::arithmetic::power2::{pow2, lemma_pow2_pos, lemma_pow2_adds, lemma2_to64};
use crate::ieee::exact::{
    lemma_abs_bits_parts, lemma_bits_of_parts, lemma_granular, lemma_successor,
};
use crate::ieee::facts::{
    lemma_negated, lemma_product_between, lemma_quotient_between, lemma_sum_at_least,
    lemma_sum_between, lemma_sum_exact, lemma_sum_sign, lemma_whole, lemma_whole_maximum,
    lemma_whole_minus, lemma_whole_negation, lemma_whole_order, lemma_whole_over,
    lemma_whole_plus, lemma_whole_times, lemma_whole_u32, lemma_whole_u32_max,
    lemma_zero_magnitude, one,
};
use crate::ieee::model::{
    abs_bits, equal_bits, is_negative, less_bits, magnitude, scale, sum_bits, value,
};
use crate::ieee::rounding::lemma_pow2_le;
use crate::ieee::single::Single;
use crate::pickup::{PickupManager, PickupState};

verus! {

/// A vertical slice of the tunnel.
#[derive(Debug, Clone, Copy, PartialEq)]
pub struct CaveSegment {
    pub ceiling: Single,
    pub floor: Single,
    pub x_start: Single,
    pub width: Single,
}

impl CaveSegment {
    /// Where the segment ends.
    pub open spec fn end(self) -> Single {
        self.x_start.plus(self.width)
    }

    /// The height of the passage.
    pub open spec fn gap(self) -> Single {
        self.floor.minus(self.ceiling)
    }

    /// Whether the segment has a part in the span from `x_min` to `x_max`.
    pub open spec fn intersects(self, x_min: Single, x_max: Single) -> bool {
        self.x_start.less_than(x_max) && self.end().greater_than(x_min)
    }

    /// A segment with these heights, at this place.
    pub fn new(ceiling: Single, floor: Single, x_start: Single, width: Single) -> (r: Self)
        ensures
            r == (CaveSegment { ceiling, floor, x_start, width }),
    {
        Self { ceiling, floor, x_start, width }
    }

    /// The x-coordinate at which the segment ends.
    pub fn x_end(&self) -> (r: Single)
        ensures
            r == self.end(),
    {
        self.x_start.add(self.width)
    }

    /// The height of the passage between ceiling and floor.
    pub fn gap_height(&self) -> (r: Single)
        ensures
            r == self.gap(),
    {
        self.floor.sub(self.ceiling)
    }
}

/// Cave generation constants.
pub struct CaveConstants;

impl CaveConstants {
    /// The least height of the passage.
    pub fn min_gap() -> (r: Single)
        ensures
            r == Single::whole(150),
    {
        Single::from_int(150)
    }

    /// The width of each segment.
    pub fn segment_width() -> (r: Single)
        ensures
            r == Single::whole(50),
    {
        Single::from_int(50)
    }

    /// The most by which a wall departs from its base height.
    pub fn max_height_change() -> (r: Single)
        ensures
            r == Single::whole(5),
    {
        Single::from_int(5)
    }

    /// The ceiling of the first level.
    pub fn initial_ceiling() -> (r: Single)
        ensures
            r == Single::whole(50),
    {
        Single::from_int(50)
    }

    /// The floor of the first level.
    pub fn initial_floor() -> (r: Single)
        ensures
            r == Single::whole(450),
    {
        Single::from_int(450)
    }
}

/// A linear congruential generator: the same seed gives the same numbers.
#[derive(Debug, Clone, Copy)]
pub struct SimpleRng {
    seed: u32,
}

impl View for SimpleRng {
    type V = u32;

    closed spec fn view(&self) -> u32 {
        self.seed
    }
}

/// The state that follows `state`.
pub open spec fn next_state(state: u32) -> u32 {
    ((state * 1103515245 + 12345) % 0x1_0000_0000) as u32
}

/// The state after `n` draws.
pub open spec fn state_after(state: u32, n: nat) -> u32
    decreases n,
{
    if n == 0 {
        state
    } else {
        next_state(state_after(state, (n - 1) as nat))
    }
}

/// The number drawn on reaching `state`: the state as a part of `2^32`.
pub open spec fn unit(state: u32) -> Single {
    Single::whole(state as int).over(Single::whole(0xffff_ffff))
}

/// The number drawn between `min` and `max` on reaching `state`.
pub open spec fn ranged(state: u32, min: Single, max: Single) -> Single {
    min.plus(unit(state).times(max.minus(min)))
}

impl SimpleRng {
    /// A stream that starts from `seed`.
    pub fn new(seed: u32) -> (r: Self)
        ensures
            r@ == seed,
    {
        Self { seed }
    }

    /// Draws the next number of the stream.
    pub fn next_f32(&mut self) -> (r: Single)
        ensures
            final(self)@ == next_state(old(self)@),
            r == unit(final(self)@),
    {
        let wide: u64 = (self.seed as u64) * 1103515245 + 12345;
        self.seed = (wide % 0x1_0000_0000) as u32;
        Single::from_u32(self.seed).div(Single::from_u32(u32::MAX))
    }

    /// Draws the next number and maps it between `min` and `max`.
    pub fn range(&mut self, min: Single, max: Single) -> (r: Single)
        ensures
            final(self)@ == next_state(old(self)@),
            r == ranged(final(self)@, min, max),
    {
        let u = self.next_f32();
        min.add(u.mul(max.sub(min)))
    }
}

/// Two streams in the same state stay in step: after any number of draws
/// they are in the same state again, and so is every number they draw.
pub proof fn lemma_same_seed_same_stream(a: SimpleRng, b: SimpleRng, n: nat)
    requires
        a@ == b@,
    ensures
        state_after(a@, n) == state_after(b@, n),
        unit(state_after(a@, n)) == unit(state_after(b@, n)),
{
}

/// Every number drawn lies between 0 and 1, both included.
pub proof fn lemma_unit_bounds(state: u32)
    ensures
        unit(state).is_finite(),
        !is_negative(unit(state).bits),
        0 <= unit(state).value() <= one(),
        Single::whole(0).at_most(unit(state)),
        unit(state).at_most(Single::whole(1)),
{
    let a = Single::whole(state as int);
    let b = Single::whole(0xffff_ffff);
    let p = one();
    lemma_whole_u32(state as int);
    lemma_whole_u32_max();
    lemma_whole(0);
    lemma_whole(1);
    lemma_pow2_pos(149);
    lemma_zero_magnitude(b.bits);
    lemma_zero_magnitude(Single::whole(0).bits);
    assert(magnitude(Single::whole(0).bits) * magnitude(b.bits) <= magnitude(a.bits) * p
        && magnitude(a.bits) * p <= magnitude(Single::whole(1).bits) * magnitude(b.bits))
        by (nonlinear_arith)
        requires
            magnitude(Single::whole(0).bits) == 0,
            magnitude(Single::whole(1).bits) == 1 * p,
            magnitude(b.bits) == 0x1_0000_0000 * p,
            0 <= magnitude(a.bits) <= 0x1_0000_0000 * p,
            p > 0,
    ;
    lemma_quotient_between(a.bits, b.bits, Single::whole(0).bits, Single::whole(1).bits);
    crate::ieee::facts::lemma_finite_between(
        unit(state).bits,
        Single::whole(0).bits,
        Single::whole(1).bits,
    );
    reveal(less_bits);
    reveal(equal_bits);
}

/// The number nearest to a state below `0xFFFFFF80` is below `2^32`, and
/// the number nearest to a state from there on is `2^32`.
proof fn lemma_state_rounding(state: u32)
    ensures
        state < 0xffff_ff80 ==> magnitude(Single::whole(state as int).bits) <= 0xff_ffff * pow2(157),
        state >= 0xffff_ff80 ==> Single::whole(state as int) == Single::whole(0xffff_ffff),
{
    reveal(crate::ieee::model::ratio_bits);
    let p = one();
    let h = pow2(157);
    lemma_pow2_pos(149);
    lemma_pow2_adds(8, 149);
    lemma_pow2_adds(23, 157);
    lemma_pow2_adds(24, 157);
    lemma2_to64();
    assert(pow2(8) == 0x100 && pow2(23) == 0x80_0000 && pow2(24) == 0x100_0000);
    assert(h == 0x100 * p);
    assert(1 * h == h);
    let num = ((state as int) * p) as nat;
    lemma_whole_u32(state as int);
    if state < 0xffff_ff80 {
        let edge = (0xffff_ff7f * p) as nat;
        assert(pow2(23 + 157) * 1 <= edge && edge < pow2(24 + 157) * 1 && edge == 0xff_ffff * h
            + 0x7f * p && 2 * (0x7f * p) < h && num * 1 <= edge * 1) by (nonlinear_arith)
            requires
                edge == 0xffff_ff7f * p,
                num == state * p,
                state < 0xffff_ff80,
                h == 0x100 * p,
                pow2(23 + 157) == 0x80_0000 * h,
                pow2(24 + 157) == 0x100_0000 * h,
                p > 0,
        ;
        crate::ieee::rounding::lemma_quantum_positive(edge, 1, 157);
        crate::ieee::exact::lemma_nearest_even_close(0xff_ffff, h, (0x7f * p) as nat, 0);
        let top = lemma_bits_of_parts(0xff_ffff, 157);
        crate::ieee::order::lemma_round_monotone(num, 1, edge, 1);
        assert(crate::ieee::model::round_magnitude(edge, 1) == top);
        crate::ieee::facts::lemma_with_sign(false, crate::ieee::model::round_magnitude(num, 1));
        crate::ieee::exact::lemma_magnitude_order(Single::whole(state as int).bits, top);
    } else {
        let edge = (0xffff_ff80 * p) as nat;
        let half = pow2(156);
        lemma_pow2_adds(1, 156);
        assert(pow2(1) == 2);
        assert(pow2(23 + 157) * 1 <= edge && edge < pow2(24 + 157) * 1 && edge == 0xff_ffff * h + half
            && edge * 1 <= num * 1) by (nonlinear_arith)
            requires
                edge == 0xffff_ff80 * p,
                num == state * p,
                state >= 0xffff_ff80,
                h == 0x100 * p,
                h == 2 * half,
                pow2(23 + 157) == 0x80_0000 * h,
                pow2(24 + 157) == 0x100_0000 * h,
                p > 0,
        ;
        crate::ieee::rounding::lemma_quantum_positive(edge, 1, 157);
        vstd::arithmetic::div_mod::lemma_fundamental_div_mod_converse_div(
            edge as int,
            h as int,
            0xff_ffff,
            half as int,
        );
        vstd::arithmetic::div_mod::lemma_fundamental_div_mod_converse_mod(
            edge as int,
            h as int,
            0xff_ffff,
            half as int,
        );
        assert(crate::ieee::model::nearest_even(edge, h) == 0x100_0000);
        assert(crate::ieee::model::round_magnitude(edge, 1) == 157 * 0x80_0000 + 0x100_0000);
        crate::ieee::order::lemma_round_monotone(edge, 1, num, 1);
        lemma_whole_u32_max();
        let low = crate::ieee::model::round_magnitude(edge, 1) as u32;
        let got = Single::whole(state as int).bits;
        let max = Single::whole(0xffff_ffff).bits;
        crate::ieee::facts::lemma_with_sign(false, crate::ieee::model::round_magnitude(num, 1));
        crate::ieee::exact::lemma_round_exact(low);
        let far = lemma_bits_of_parts(0x80_0000, 158);
        assert(far == low);
        lemma_pow2_adds(1, 157);
        assert(magnitude(low) == 0x1_0000_0000 * p) by (nonlinear_arith)
            requires
                magnitude(low) == 0x80_0000 * pow2(158),
                pow2(158) == 2 * h,
                h == 0x100 * p,
        ;
        crate::ieee::exact::lemma_magnitude_order(low, got);
        crate::ieee::exact::lemma_magnitude_order(got, max);
        crate::ieee::exact::lemma_magnitude_order(low, max);
    }
}

/// A draw is below 1 unless the state is one of the 128 greatest: the
/// number nearest to such a state is `2^32`, and the draw is 1.
pub proof fn lemma_unit_below_one(state: u32)
    ensures
        state < 0xffff_ff80 ==> unit(state).less_than(Single::whole(1)),
        state >= 0xffff_ff80 ==> unit(state) == Single::whole(1),
{
    reveal(less_bits);
    reveal(crate::ieee::model::quotient_bits);
    reveal(crate::ieee::model::ratio_bits);
    let a = Single::whole(state as int);
    let b = Single::whole(0xffff_ffff);
    let p = one();
    lemma_state_rounding(state);
    lemma_whole_u32(state as int);
    lemma_whole_u32_max();
    lemma_whole(1);
    lemma_whole(0);
    lemma_pow2_pos(149);
    lemma_zero_magnitude(b.bits);
    lemma_zero_magnitude(Single::whole(0).bits);
    if state < 0xffff_ff80 {
        let hi = crate::ieee::exact::lemma_representable(0xff_ffff, 125);
        lemma_pow2_adds(32, 125);
        lemma_pow2_adds(24, 125);
        lemma2_to64();
        assert(pow2(32) == 0x1_0000_0000 && pow2(24) == 0x100_0000);
        assert(magnitude(Single::whole(0).bits) * magnitude(b.bits) <= magnitude(a.bits) * p
            && magnitude(a.bits) * p <= magnitude(hi) * magnitude(b.bits) && magnitude(hi) < p)
            by (nonlinear_arith)
            requires
                magnitude(Single::whole(0).bits) == 0,
                magnitude(hi) == 0xff_ffff * pow2(125),
                magnitude(b.bits) == 0x1_0000_0000 * p,
                0 <= magnitude(a.bits) <= 0xff_ffff * pow2(157),
                pow2(157) == 0x1_0000_0000 * pow2(125),
                p == 0x100_0000 * pow2(125),
                p > 0,
        ;
        lemma_quotient_between(a.bits, b.bits, Single::whole(0).bits, hi);
    } else {
        let m = magnitude(b.bits);
        assert(m * p == p * m && 1 * m == m) by (nonlinear_arith);
        crate::ieee::rounding::lemma_round_magnitude_scale(p, 1, m);
    }
}

/// A number drawn between `min` and `max` lies between them, both
/// included, where the span `max - min` is finite and was not rounded up.
pub proof fn lemma_ranged_bounds(state: u32, min: Single, max: Single)
    requires
        min.is_finite(),
        max.is_finite(),
        max.minus(min).is_finite(),
        0 <= max.minus(min).value() <= max.value() - min.value(),
    ensures
        ranged(state, min, max).is_finite(),
        min.value() <= ranged(state, min, max).value() <= max.value(),
        min.at_most(ranged(state, min, max)),
        ranged(state, min, max).at_most(max),
{
    let u = unit(state);
    let w = max.minus(min);
    let t = u.times(w);
    let p = one();
    lemma_unit_bounds(state);
    lemma_whole(0);
    lemma_pow2_pos(149);
    lemma_zero_magnitude(Single::whole(0).bits);
    assert(magnitude(u.bits) == u.value());
    assert(magnitude(Single::whole(0).bits) * p <= magnitude(u.bits) * magnitude(w.bits)
        && magnitude(u.bits) * magnitude(w.bits) <= magnitude(w.bits) * p) by (nonlinear_arith)
        requires
            magnitude(Single::whole(0).bits) == 0,
            0 <= magnitude(u.bits) <= p,
            magnitude(w.bits) >= 0,
    ;
    lemma_product_between(u.bits, w.bits, Single::whole(0).bits, w.bits);
    assert(0 <= t.value() <= w.value()) by {
        lemma_zero_magnitude(w.bits);
        lemma_zero_magnitude(t.bits);
    }
    lemma_sum_between(min.bits, t.bits, min.bits, max.bits);
    reveal(less_bits);
    reveal(equal_bits);
}

/// The number by which a wall departs from its base height lies between
/// -5 and 5.
pub proof fn lemma_variation_bounds(state: u32)
    ensures
        ranged(state, Single::whole(5).negation(), Single::whole(5)).is_finite(),
        -5 * one() <= ranged(state, Single::whole(5).negation(), Single::whole(5)).value() <= 5
            * one(),
{
    lemma_whole_negation(5);
    lemma_whole(5);
    lemma_whole(-5);
    lemma_whole(10);
    lemma_whole_minus(5, -5);
    lemma_ranged_bounds(state, Single::whole(-5), Single::whole(5));
}

/// What a cave holds: the retained segments, oldest first, the state of its
/// stream of numbers, the place where the next segment begins, the pickups,
/// and the base heights of the walls for the level.
pub struct CaveState {
    pub segments: Seq<CaveSegment>,
    pub rng: u32,
    pub next_x: Single,
    pub pickups: PickupState,
    pub base_ceiling: Single,
    pub base_floor: Single,
}

/// The height of the passage on a level as a whole number: 400 on the
/// first, 50 less on each level after it, and 150 from the sixth on.
pub open spec fn level_gap_whole(level_number: u32) -> int {
    if level_number <= 1 {
        400
    } else if level_number >= 6 {
        150
    } else {
        400 - 50 * (level_number - 1)
    }
}

/// Whether `c` and `f` are base heights of ceiling and floor that a cave
/// is given.
pub open spec fn base_heights(c: int, f: int) -> bool {
    0 <= c && f <= 1000 && (f - c >= 200 || (c == 225 && f == 375))
}

/// The height of the passage on a level, as the cave computes it.
pub open spec fn level_gap(level_number: u32) -> Single {
    let steps: int = if level_number - 1 < 5 { level_number - 1 } else { 5 };
    Single::whole(450).minus(Single::whole(50)).minus(
        Single::whole(steps).times(Single::whole(50)),
    ).maximum(Single::whole(150))
}

impl CaveState {
    /// The segments are contiguous: each begins where the one before it
    /// ends, and the next one will begin where the last one ends.
    pub open spec fn contiguous(self) -> bool {
        &&& forall|i: int| 0 < i < self.segments.len() ==> #[trigger] self.joined(i)
        &&& self.segments.len() > 0 ==> self.next_x == self.segments.last().end()
    }

    /// The segment at `i` begins where the one before it ends.
    pub open spec fn joined(self, i: int) -> bool {
        self.segments[i].x_start == self.segments[i - 1].end()
    }

    /// The base heights are those of a new cave or of a level: whole
    /// numbers with a passage of 200 or more between them, or the lowest
    /// passage, of 150 around the midline 300.
    pub open spec fn leveled(self) -> bool {
        exists|c: int, f: int| #[trigger] base_heights(c, f) && self.base_ceiling == Single::whole(c)
            && self.base_floor == Single::whole(f)
    }

    /// No retained segment has a passage lower than 150.
    pub open spec fn passable(self) -> bool {
        forall|i: int|
            0 <= i < self.segments.len() ==> (#[trigger] self.segments[i]).gap().at_least(
                Single::whole(150),
            )
    }

    /// At least one segment is retained, at most 100; they are contiguous,
    /// and none has a passage lower than 150. The cave has grown to the
    /// right of 0.
    pub open spec fn well_formed(self) -> bool {
        &&& 1 <= self.segments.len() <= 100
        &&& self.contiguous()
        &&& self.leveled()
        &&& self.passable()
        &&& self.next_x.at_least(Single::whole(0))
    }

    /// Whether the cave has grown as far as a view that ends at `x_max`
    /// asks: to one segment's width beyond it.
    pub open spec fn covers(self, x_max: Single) -> bool {
        !self.next_x.less_than(x_max.plus(Single::whole(50)))
    }

    /// Whether `n` is the number of segments by which the cave has to grow
    /// to cover a view that ends at `x_max`: the least that will do.
    pub open spec fn grows_to_cover(
        self,
        x_max: Single,
        fuel_spawn_distance: Single,
        n: nat,
    ) -> bool {
        &&& self.grown(n, fuel_spawn_distance).covers(x_max)
        &&& forall|k: nat| k < n ==> !(#[trigger] self.grown(k, fuel_spawn_distance)).covers(x_max)
    }

    /// The cave grown as far as a view that ends at `x_max` asks, and no
    /// further.
    pub open spec fn viewed(self, x_max: Single, fuel_spawn_distance: Single) -> CaveState {
        self.grown(
            choose|n: nat| self.grows_to_cover(x_max, fuel_spawn_distance, n),
            fuel_spawn_distance,
        )
    }

    /// The segments that have a part in the view from `x_min` to `x_max`,
    /// oldest first.
    pub open spec fn visible(self, x_min: Single, x_max: Single) -> Seq<CaveSegment> {
        self.segments.filter(|s: CaveSegment| s.intersects(x_min, x_max))
    }

    /// The cave begun anew at the base heights: one segment, at 0.
    pub open spec fn restarted(self) -> CaveState {
        let first = CaveSegment {
            ceiling: self.base_ceiling,
            floor: self.base_floor,
            x_start: Single::whole(0),
            width: Single::whole(50),
        };
        CaveState { segments: seq![first], next_x: first.end(), ..self }
    }

    /// A new cave.
    pub open spec fn initial(seed: u32) -> CaveState {
        (CaveState {
            segments: Seq::empty(),
            rng: seed,
            next_x: Single::whole(0),
            pickups: PickupState::initial(seed),
            base_ceiling: Single::whole(50),
            base_floor: Single::whole(450),
        }).restarted()
    }

    /// The cave set up for a level: the passage of that level's height
    /// around the midline 300, no pickups, and one segment.
    pub open spec fn configured(self, level_number: u32) -> CaveState {
        let half = level_gap(level_number).over(Single::whole(2));
        (CaveState {
            base_ceiling: Single::whole(300).minus(half),
            base_floor: Single::whole(300).plus(half),
            pickups: self.pickups.cleared(),
            ..self
        }).restarted()
    }

    /// The segment that comes next. Each wall departs from its base height
    /// by a number drawn between -5 and 5; a passage lower than 150 is set
    /// to 150 around its middle.
    pub open spec fn next_segment(self) -> CaveSegment {
        let first = next_state(self.rng);
        let second = next_state(first);
        let low = Single::whole(5).negation();
        let ceiling = self.base_ceiling.plus(ranged(first, low, Single::whole(5)));
        let floor = self.base_floor.plus(ranged(second, low, Single::whole(5)));
        let half = Single::whole(150).over(Single::whole(2));
        let middle = ceiling.plus(floor).over(Single::whole(2));
        if floor.minus(ceiling).less_than(Single::whole(150)) {
            CaveSegment {
                ceiling: middle.minus(half),
                floor: middle.plus(half),
                x_start: self.next_x,
                width: Single::whole(50),
            }
        } else {
            CaveSegment { ceiling, floor, x_start: self.next_x, width: Single::whole(50) }
        }
    }

    /// The cave grown by its next segment: the pickups learn of the
    /// segment's centre, and of more than 100 segments the oldest go.
    pub open spec fn generated(self, fuel_spawn_distance: Single) -> CaveState {
        let segment = self.next_segment();
        let centre = segment.x_start.plus(segment.width.over(Single::whole(2)));
        let all = self.segments.push(segment);
        CaveState {
            segments: if all.len() > 100 {
                all.skip(all.len() - 100)
            } else {
                all
            },
            rng: next_state(next_state(self.rng)),
            next_x: segment.end(),
            pickups: self.pickups.after_segment(
                centre,
                segment.ceiling,
                segment.floor,
                fuel_spawn_distance,
            ),
            ..self
        }
    }

    /// The cave grown by `n` segments.
    #[verifier::opaque]
    pub open spec fn grown(self, n: nat, fuel_spawn_distance: Single) -> CaveState
        decreases n,
    {
        if n == 0 {
            self
        } else {
            self.grown((n - 1) as nat, fuel_spawn_distance).generated(fuel_spawn_distance)
        }
    }
}

/// The passage on a level is the whole number that the level's formula
/// gives: 400 on the first level, 150 from the sixth on.
pub proof fn lemma_level_gap(level_number: u32)
    requires
        level_number >= 1,
    ensures
        level_gap(level_number) == Single::whole(level_gap_whole(level_number)),
{
    let steps: int = if level_number - 1 < 5 { level_number - 1 } else { 5 };
    lemma_whole_minus(450, 50);
    lemma_whole_times(steps, 50);
    lemma_whole_minus(400, steps * 50);
    lemma_whole_maximum(400 - steps * 50, 150);
}

/// A cave set up for a level is well formed, and the passage of its one
/// segment is that of the level.
pub proof fn lemma_configured(cave: CaveState, level_number: u32)
    requires
        level_number >= 1,
    ensures
        cave.configured(level_number).well_formed(),
        cave.configured(level_number).segments.len() == 1,
        cave.configured(level_number).segments[0].gap() == Single::whole(
            level_gap_whole(level_number),
        ),
{
    let g = level_gap_whole(level_number);
    let after = cave.configured(level_number);
    lemma_whole_plus(0, 50);
    lemma_whole_order(0, 50);
    lemma_level_gap(level_number);
    assert(g % 2 == 0 && 150 <= g <= 400);
    lemma_whole_over(g, 2);
    lemma_whole_minus(300, g / 2);
    lemma_whole_plus(300, g / 2);
    lemma_whole_minus(300 + g / 2, 300 - g / 2);
    lemma_whole_order(150, g);
    assert(base_heights(300 - g / 2, 300 + g / 2));
    assert(after.segments[0].gap() == Single::whole(g));
}

/// A new cave is well formed.
pub proof fn lemma_initial(seed: u32)
    ensures
        CaveState::initial(seed).well_formed(),
{
    lemma_whole_plus(0, 50);
    lemma_whole_order(0, 50);
    lemma_whole_minus(450, 50);
    lemma_whole_order(150, 400);
    assert(base_heights(50, 450));
}

/// The next segment of a cave with the base heights of a level has a
/// passage of at least 150: this is never relaxed.
pub proof fn lemma_next_segment_gap(cave: CaveState)
    requires
        cave.leveled(),
    ensures
        cave.next_segment().gap().at_least(Single::whole(150)),
{
    let (c, f): (int, int) = choose|c: int, f: int| #[trigger]
        base_heights(c, f) && cave.base_ceiling == Single::whole(c) && cave.base_floor
            == Single::whole(f);
    let p = one();
    let first = next_state(cave.rng);
    let second = next_state(first);
    let low = Single::whole(5).negation();
    let cv = ranged(first, low, Single::whole(5));
    let fv = ranged(second, low, Single::whole(5));
    let ceiling = cave.base_ceiling.plus(cv);
    let floor = cave.base_floor.plus(fv);
    let d = floor.minus(ceiling);
    lemma_pow2_pos(149);
    lemma_variation_bounds(first);
    lemma_variation_bounds(second);
    lemma_whole(c);
    lemma_whole(f);
    lemma_whole(c - 5);
    lemma_whole(c + 5);
    lemma_whole(f - 5);
    lemma_whole(f + 5);
    lemma_whole(f - c - 10);
    lemma_whole(f - c + 10);
    lemma_whole(150);
    assert((c - 5) * p == c * p - 5 * p && (c + 5) * p == c * p + 5 * p && (f - 5) * p == f * p - 5
        * p && (f + 5) * p == f * p + 5 * p && (f - c - 10) * p == f * p - c * p - 10 * p && (f - c
        + 10) * p == f * p - c * p + 10 * p) by (nonlinear_arith);
    lemma_sum_between(
        cave.base_ceiling.bits,
        cv.bits,
        Single::whole(c - 5).bits,
        Single::whole(c + 5).bits,
    );
    lemma_sum_between(
        cave.base_floor.bits,
        fv.bits,
        Single::whole(f - 5).bits,
        Single::whole(f + 5).bits,
    );
    lemma_negated(ceiling.bits);
    lemma_sum_between(
        floor.bits,
        ceiling.negation().bits,
        Single::whole(f - c - 10).bits,
        Single::whole(f - c + 10).bits,
    );
    reveal(less_bits);
    reveal(equal_bits);
    if d.less_than(Single::whole(150)) {
        assert(c == 225 && f == 375) by {
            if f - c >= 200 {
                assert((f - c - 10) * p >= 150 * p) by (nonlinear_arith)
                    requires
                        f - c >= 200,
                        p > 0,
                ;
            }
        }
        let total = ceiling.plus(floor);
        let middle = total.over(Single::whole(2));
        let half = Single::whole(150).over(Single::whole(2));
        lemma_whole(590);
        lemma_whole(610);
        lemma_whole(295);
        lemma_whole(305);
        lemma_whole(2);
        lemma_whole(75);
        lemma_whole_over(150, 2);
        lemma_sum_between(
            ceiling.bits,
            floor.bits,
            Single::whole(590).bits,
            Single::whole(610).bits,
        );
        lemma_zero_magnitude(Single::whole(2).bits);
        assert(magnitude(total.bits) == total.value());
        assert(magnitude(Single::whole(295).bits) * magnitude(Single::whole(2).bits) <= magnitude(
            total.bits,
        ) * p && magnitude(total.bits) * p <= magnitude(Single::whole(305).bits) * magnitude(
            Single::whole(2).bits,
        )) by (nonlinear_arith)
            requires
                magnitude(Single::whole(295).bits) == 295 * p,
                magnitude(Single::whole(305).bits) == 305 * p,
                magnitude(Single::whole(2).bits) == 2 * p,
                590 * p <= magnitude(total.bits) <= 610 * p,
                p > 0,
        ;
        lemma_quotient_between(
            total.bits,
            Single::whole(2).bits,
            Single::whole(295).bits,
            Single::whole(305).bits,
        );
        assert(middle.value() == magnitude(middle.bits));
        crate::ieee::facts::lemma_finite_between(
            middle.bits,
            Single::whole(295).bits,
            Single::whole(305).bits,
        );
        // the middle is a whole multiple of 2^-15
        let g = pow2(134);
        lemma_pow2_pos(134);
        lemma_pow2_adds(15, 134);
        lemma_pow2_adds(8, 149);
        lemma2_to64();
        assert(pow2(15) == 0x8000 && pow2(8) == 0x100);
        assert(p == 0x8000 * g);
        assert(magnitude(middle.bits) >= pow2(23 + 134)) by (nonlinear_arith)
            requires
                magnitude(middle.bits) >= 295 * p,
                pow2(23 + 134) == 0x100 * p,
                p > 0,
        ;
        let m = lemma_granular(middle.bits, 134);
        assert(295 * 0x8000 <= m <= 305 * 0x8000) by (nonlinear_arith)
            requires
                middle.value() == m * g,
                295 * p <= middle.value() <= 305 * p,
                p == 0x8000 * g,
                g > 0,
        ;
        let lower = (m - 75 * 0x8000) as nat;
        let upper = (m + 75 * 0x8000) as nat;
        assert(middle.value() - 75 * p == lower * g && middle.value() + 75 * p == upper * g)
            by (nonlinear_arith)
            requires
                middle.value() == m * g,
                p == 0x8000 * g,
                lower == m - 75 * 0x8000,
                upper == m + 75 * 0x8000,
        ;
        lemma_negated(Single::whole(75).bits);
        lemma_sum_exact(middle.bits, Single::whole(75).negation().bits, lower, 134);
        lemma_sum_exact(middle.bits, Single::whole(75).bits, upper, 134);
        let new_ceiling = middle.minus(half);
        let new_floor = middle.plus(half);
        lemma_negated(new_ceiling.bits);
        lemma_sum_exact(new_floor.bits, new_ceiling.negation().bits, 150, 149);
    }
}

/// In a segment with a passage of at least 150, the floor lies below the
/// ceiling: its coordinate is the greater one.
pub proof fn lemma_floor_below_ceiling(segment: CaveSegment)
    requires
        segment.gap().at_least(Single::whole(150)),
    ensures
        segment.floor.greater_than(segment.ceiling),
{
    reveal(less_bits);
    reveal(equal_bits);
    lemma_whole(150);
    crate::ieee::facts::lemma_one_positive();
    crate::ieee::facts::lemma_positive_difference(segment.floor.bits, segment.ceiling.bits);
}

/// The place `2^30`. Up to it the cave grows with each segment; from it on
/// a segment's width is less than half of the least difference between
/// numbers, and the cave would stay where it is.
pub open spec fn horizon() -> Single {
    Single { bits: 0x4e80_0000 }
}

/// Whether a view that ends at `x_max` can be covered: the place one
/// segment's width beyond it lies at the horizon or before it. A view whose
/// end is not a number is covered by every cave.
pub open spec fn coverable(x_max: Single) -> bool {
    x_max.plus(Single::whole(50)).is_nan() || x_max.plus(Single::whole(50)).at_most(horizon())
}

/// Below the horizon, the cave grows with each segment: the next segment
/// ends to the right of where it begins, by the smallest difference that
/// numbers there can have, or more.
pub proof fn lemma_growth(x: Single)
    requires
        x.at_least(Single::whole(0)),
        x.less_than(horizon()),
    ensures
        x.is_finite(),
        x.plus(Single::whole(50)).at_least(Single::whole(0)),
        x.plus(Single::whole(50)).value() >= x.value() + 1,
{
    reveal(less_bits);
    reveal(equal_bits);
    let p = one();
    let far = lemma_bits_of_parts(0x80_0000, 156);
    assert(far == horizon().bits);
    lemma_whole(0);
    lemma_whole(50);
    crate::ieee::exact::lemma_magnitude_order(x.bits, far);
    lemma_abs_bits_parts(x.bits);
    let e = scale(x.bits);
    let m = crate::ieee::model::significand(x.bits);
    lemma_pow2_pos(e);
    lemma_pow2_pos(149);
    lemma2_to64();
    if e >= 156 {
        lemma_pow2_le(156, e);
        assert(m * pow2(e) >= 0x80_0000 * pow2(156)) by (nonlinear_arith)
            requires
                m >= 0x80_0000,
                pow2(e) >= pow2(156),
        ;
        assert(false);
    }
    lemma_successor(x.bits);
    let next = (abs_bits(x.bits) + 1) as u32;
    assert(value(next) == x.value() + pow2(e));
    lemma_sum_at_least(x.bits, Single::whole(50).bits, Single::whole(0).bits);
    if e <= 154 {
        lemma_pow2_le(e, 154);
        lemma_pow2_adds(5, 149);
        assert(pow2(5) == 32);
        lemma_sum_at_least(x.bits, Single::whole(50).bits, next);
    } else {
        // numbers lie 64 apart here: 50 more is nearer to the next one
        let h = pow2(155);
        lemma_pow2_adds(6, 149);
        lemma_pow2_adds(23, 155);
        lemma_pow2_adds(24, 155);
        assert(pow2(6) == 64 && pow2(23) == 0x80_0000 && pow2(24) == 0x100_0000);
        let total = (x.value() + 50 * p) as nat;
        assert(pow2(23 + 155) * 1 <= total && total < pow2(24 + 155) * 1 && total == m * h + 50 * p
            && 50 * p < h && 2 * (50 * p) > h) by (nonlinear_arith)
            requires
                total == m * h + 50 * p,
                h == 64 * p,
                0x80_0000 <= m < 0x100_0000,
                pow2(23 + 155) == 0x80_0000 * h,
                pow2(24 + 155) == 0x100_0000 * h,
                p > 0,
        ;
        crate::ieee::rounding::lemma_quantum_positive(total, 1, 155);
        vstd::arithmetic::div_mod::lemma_fundamental_div_mod_converse_div(
            total as int,
            h as int,
            m as int,
            (50 * p) as int,
        );
        vstd::arithmetic::div_mod::lemma_fundamental_div_mod_converse_mod(
            total as int,
            h as int,
            m as int,
            (50 * p) as int,
        );
        assert(1 * h == h);
        assert(crate::ieee::model::nearest_even(total, h) == m + 1);
        lemma_sum_sign(x.bits, Single::whole(50).bits);
        assert(x.plus(Single::whole(50)).bits == next);
    }
}

/// How far the cave is from covering a view that ends at `x_max`, in the
/// unit of the model.
#[verifier::opaque]
pub open spec fn shortfall(cave: CaveState, x_max: Single) -> nat {
    let d = x_max.plus(Single::whole(50)).value() - cave.next_x.value();
    if d > 0 {
        d as nat
    } else {
        0
    }
}

/// A cave that does not yet cover a view below the horizon comes nearer to
/// covering it with each segment.
pub proof fn lemma_cover_progress(cave: CaveState, x_max: Single, fuel_spawn_distance: Single)
    requires
        cave.well_formed(),
        !cave.covers(x_max),
        coverable(x_max),
    ensures
        shortfall(cave, x_max) > 0,
        shortfall(cave.generated(fuel_spawn_distance), x_max) < shortfall(cave, x_max),
{
    reveal(less_bits);
    reveal(equal_bits);
    reveal(shortfall);
    lemma_growth(cave.next_x);
}

/// Growing keeps a cave well formed: the new segment begins where the last
/// one ended, its passage is no lower than 150, and no more than 100
/// segments are retained.
pub proof fn lemma_generated_well_formed(cave: CaveState, fuel_spawn_distance: Single)
    requires
        cave.well_formed(),
    ensures
        cave.generated(fuel_spawn_distance).well_formed(),
{
    let after = cave.generated(fuel_spawn_distance);
    let all = cave.segments.push(cave.next_segment());
    lemma_next_segment_gap(cave);
    assert(after.next_x.at_least(Single::whole(0))) by {
        reveal(less_bits);
        reveal(equal_bits);
        reveal(sum_bits);
        lemma_whole(0);
        lemma_whole(50);
        if cave.next_x.is_finite() {
            lemma_sum_at_least(cave.next_x.bits, Single::whole(50).bits, Single::whole(0).bits);
        }
    }
    let (c, f): (int, int) = choose|c: int, f: int| #[trigger]
        base_heights(c, f) && cave.base_ceiling == Single::whole(c) && cave.base_floor
            == Single::whole(f);
    assert(base_heights(c, f) && after.base_ceiling == Single::whole(c) && after.base_floor
        == Single::whole(f));
    assert forall|i: int| 0 < i < after.segments.len() implies #[trigger] after.joined(i) by {
        let k = if all.len() > 100 { all.len() - 100 } else { 0 };
        assert(after.segments[i] == all[i + k]);
        assert(after.segments[i - 1] == all[i + k - 1]);
        if i + k < cave.segments.len() {
            assert(cave.joined(i + k));
        }
    }
    assert forall|i: int| 0 <= i < after.segments.len() implies (#[trigger] after.segments[i]).gap().at_least(
        Single::whole(150),
    ) by {
        let k = if all.len() > 100 { all.len() - 100 } else { 0 };
        assert(after.segments[i] == all[i + k]);
        if i + k < cave.segments.len() {
            assert(all[i + k] == cave.segments[i + k]);
        }
    }
}

/// Only one number of segments makes a cave cover a view and no more: by
/// it the cave grows for the view.
pub proof fn lemma_viewed(cave: CaveState, x_max: Single, fuel_spawn_distance: Single, n: nat)
    requires
        cave.grows_to_cover(x_max, fuel_spawn_distance, n),
    ensures
        cave.viewed(x_max, fuel_spawn_distance) == cave.grown(n, fuel_spawn_distance),
{
    let m = choose|m: nat| cave.grows_to_cover(x_max, fuel_spawn_distance, m);
    assert(cave.grows_to_cover(x_max, fuel_spawn_distance, m));
    if m < n {
        assert(!cave.grown(m, fuel_spawn_distance).covers(x_max));
    }
    if n < m {
        assert(!cave.grown(n, fuel_spawn_distance).covers(x_max));
    }
}

/// Whatever is done to the pickups, the cave stays well formed.
pub proof fn lemma_pickups_apart(cave: CaveState, pickups: PickupState)
    requires
        cave.well_formed(),
    ensures
        (CaveState { pickups, ..cave }).well_formed(),
{
    let after = CaveState { pickups, ..cave };
    let (c, f): (int, int) = choose|c: int, f: int| #[trigger]
        base_heights(c, f) && cave.base_ceiling == Single::whole(c) && cave.base_floor
            == Single::whole(f);
    assert(base_heights(c, f) && after.base_ceiling == Single::whole(c) && after.base_floor
        == Single::whole(f));
    assert forall|i: int| 0 < i < after.segments.len() implies #[trigger] after.joined(i) by {
        assert(cave.joined(i));
    }
}

/// Growing by no segment changes nothing, and growing by one more is
/// growing once more.
pub proof fn lemma_grown_step(cave: CaveState, n: nat, fuel_spawn_distance: Single)
    ensures
        cave.grown(0, fuel_spawn_distance) == cave,
        cave.grown(n + 1, fuel_spawn_distance) == cave.grown(n, fuel_spawn_distance).generated(
            fuel_spawn_distance,
        ),
{
    reveal_with_fuel(CaveState::grown, 2);
}

/// However much a cave grows, it stays well formed.
pub proof fn lemma_grown_well_formed(cave: CaveState, n: nat, fuel_spawn_distance: Single)
    requires
        cave.well_formed(),
    ensures
        cave.grown(n, fuel_spawn_distance).well_formed(),
    decreases n,
{
    lemma_grown_step(cave, (n - 1) as nat, fuel_spawn_distance);
    if n > 0 {
        lemma_grown_well_formed(cave, (n - 1) as nat, fuel_spawn_distance);
        lemma_generated_well_formed(
            cave.grown((n - 1) as nat, fuel_spawn_distance),
            fuel_spawn_distance,
        );
    }
}

/// An endless tunnel, generated segment by segment as the view moves on.
#[derive(Debug)]
pub struct Cave {
    segments: VecDeque<CaveSegment>,
    rng: SimpleRng,
    next_x: Single,
    pickup_manager: PickupManager,
    base_ceiling: Single,
    base_floor: Single,
}

impl View for Cave {
    type V = CaveState;

    closed spec fn view(&self) -> CaveState {
        CaveState {
            segments: self.segments@,
            rng: self.rng@,
            next_x: self.next_x,
            pickups: self.pickup_manager@,
            base_ceiling: self.base_ceiling,
            base_floor: self.base_floor,
        }
    }
}

impl Cave {
    /// A cave with its first segment, at the heights of the first level.
    pub fn new(seed: u32) -> (r: Self)
        ensures
            r@ == CaveState::initial(seed),
            r@.well_formed(),
    {
        let mut cave = Self {
            segments: VecDeque::new(),
            rng: SimpleRng::new(seed),
            next_x: Single::from_int(0),
            pickup_manager: PickupManager::new(seed),
            base_ceiling: CaveConstants::initial_ceiling(),
            base_floor: CaveConstants::initial_floor(),
        };
        cave.generate_initial_segment();
        proof {
            lemma_initial(seed);
        }
        cave
    }

    /// Sets the cave up for a level. Nothing of the cave before survives:
    /// segments and pickups go, and one segment at the new heights begins
    /// the tunnel anew.
    pub fn configure_for_level(&mut self, level_number: u32)
        requires
            level_number >= 1,
        ensures
            final(self)@ == old(self)@.configured(level_number),
            final(self)@.well_formed(),
    {
        let initial_gap = CaveConstants::initial_floor().sub(CaveConstants::initial_ceiling());
        let steps: u32 = if level_number - 1 < 5 { level_number - 1 } else { 5 };
        let level_reduction = Single::from_u32(steps).mul(Single::from_int(50));
        let gap = initial_gap.sub(level_reduction).max(CaveConstants::min_gap());
        let center_y = Single::from_int(300);
        self.base_ceiling = center_y.sub(gap.div(Single::from_int(2)));
        self.base_floor = center_y.add(gap.div(Single::from_int(2)));
        self.segments.clear();
        self.pickup_manager.clear_all_pickups();
        self.next_x = Single::from_int(0);
        self.generate_initial_segment();
        proof {
            lemma_configured(old(self)@, level_number);
        }
    }

    fn generate_initial_segment(&mut self)
        requires
            old(self).segments@.len() == 0,
        ensures
            final(self)@ == old(self)@.restarted(),
    {
        let segment = CaveSegment::new(
            self.base_ceiling,
            self.base_floor,
            Single::from_int(0),
            CaveConstants::segment_width(),
        );
        self.segments.push_back(segment);
        self.next_x = segment.x_end();
        proof {
            assert(self.segments@ =~= seq![segment]);
        }
    }

    /// Draws the heights of the next segment.
    fn draw_segment(&mut self) -> (segment: CaveSegment)
        ensures
            segment == old(self)@.next_segment(),
            final(self)@ == (CaveState {
                rng: next_state(next_state(old(self)@.rng)),
                ..old(self)@
            }),
    {
        let five = CaveConstants::max_height_change();
        let ceiling_variation = self.rng.range(five.neg(), five);
        let floor_variation = self.rng.range(five.neg(), five);
        let mut new_ceiling = self.base_ceiling.add(ceiling_variation);
        let mut new_floor = self.base_floor.add(floor_variation);
        if new_floor.sub(new_ceiling).lt(CaveConstants::min_gap()) {
            let gap_center = new_ceiling.add(new_floor).div(Single::from_int(2));
            new_ceiling = gap_center.sub(CaveConstants::min_gap().div(Single::from_int(2)));
            new_floor = gap_center.add(CaveConstants::min_gap().div(Single::from_int(2)));
        }
        CaveSegment::new(new_ceiling, new_floor, self.next_x, CaveConstants::segment_width())
    }

    /// Appends a segment and lets the oldest go where more than 100 are
    /// retained.
    fn append_segment(&mut self, segment: CaveSegment)
        requires
            old(self).segments@.len() <= 100,
        ensures
            final(self)@ == (CaveState {
                segments: if old(self)@.segments.len() + 1 > 100 {
                    old(self)@.segments.push(segment).skip(old(self)@.segments.len() + 1 - 100)
                } else {
                    old(self)@.segments.push(segment)
                },
                next_x: segment.end(),
                ..old(self)@
            }),
    {
        self.segments.push_back(segment);
        self.next_x = segment.x_end();
        let ghost all = self.segments@;
        while self.segments.len() > 100
            invariant
                all.len() <= 101,
                self.segments@.len() <= all.len(),
                self.segments@ == all.skip(all.len() - self.segments@.len()),
                self.segments@.len() >= 100 || self.segments@.len() == all.len(),
                self.rng == old(self).rng,
                self.pickup_manager == old(self).pickup_manager,
                self.base_ceiling == old(self).base_ceiling,
                self.base_floor == old(self).base_floor,
                self.next_x == segment.end(),
            decreases self.segments@.len(),
        {
            self.segments.pop_front();
            proof {
                assert(self.segments@ =~= all.skip(all.len() - self.segments@.len()));
            }
        }
        proof {
            assert(all.skip(0) =~= all);
        }
    }

    /// Grows the cave by one segment.
    pub fn generate_next(&mut self, fuel_spawn_distance: Single)
        requires
            old(self)@.well_formed(),
        ensures
            final(self)@ == old(self)@.generated(fuel_spawn_distance),
            final(self)@.well_formed(),
    {
        let segment = self.draw_segment();
        let centre = segment.x_start.add(segment.width.div(Single::from_int(2)));
        if self.pickup_manager.should_spawn_pickup(centre, fuel_spawn_distance) {
            self.pickup_manager.spawn_fuel_pickup(centre, segment.ceiling, segment.floor);
        }
        self.append_segment(segment);
        proof {
            lemma_generated_well_formed(old(self)@, fuel_spawn_distance);
        }
    }

    /// Grows a cave that does not yet cover the view by one segment.
    fn extend(&mut self, x_max: Single, fuel_spawn_distance: Single)
        requires
            old(self)@.well_formed(),
            !old(self)@.covers(x_max),
            coverable(x_max),
        ensures
            final(self)@ == old(self)@.generated(fuel_spawn_distance),
            final(self)@.well_formed(),
            shortfall(old(self)@, x_max) > 0,
            shortfall(final(self)@, x_max) < shortfall(old(self)@, x_max),
    {
        proof {
            lemma_cover_progress(self@, x_max, fuel_spawn_distance);
        }
        self.generate_next(fuel_spawn_distance);
    }

    /// The segments that have a part in the view from `x_min` to `x_max`,
    /// oldest first. The cave first grows until it reaches one segment's
    /// width beyond the view: asking for a view changes the cave.
    pub fn segments_in_view(
        &mut self,
        x_min: Single,
        x_max: Single,
        fuel_spawn_distance: Single,
    ) -> (r: Vec<CaveSegment>)
        requires
            old(self)@.well_formed(),
            coverable(x_max),
        ensures
            final(self)@.well_formed(),
            exists|n: nat|
                old(self)@.grows_to_cover(x_max, fuel_spawn_distance, n) && final(self)@ == old(
                    self,
                )@.grown(n, fuel_spawn_distance),
            final(self)@ == old(self)@.viewed(x_max, fuel_spawn_distance),
            r@ == final(self)@.visible(x_min, x_max),
    {
        let target = x_max.add(CaveConstants::segment_width());
        let ghost n: nat = 0;
        proof {
            lemma_grown_step(self@, 0, fuel_spawn_distance);
        }
        while self.next_x.lt(target)
            invariant
                self@.well_formed(),
                target == x_max.plus(Single::whole(50)),
                coverable(x_max),
                self@ == old(self)@.grown(n, fuel_spawn_distance),
                forall|k: nat|
                    k < n ==> !(#[trigger] old(self)@.grown(k, fuel_spawn_distance)).covers(x_max),
            decreases shortfall(self@, x_max),
        {
            proof {
                lemma_grown_step(old(self)@, n, fuel_spawn_distance);
            }
            self.extend(x_max, fuel_spawn_distance);
            proof {
                n = n + 1;
            }
        }
        proof {
            assert(old(self)@.grows_to_cover(x_max, fuel_spawn_distance, n));
            lemma_viewed(old(self)@, x_max, fuel_spawn_distance, n);
        }
        let mut out: Vec<CaveSegment> = Vec::new();
        let ghost keep = |s: CaveSegment| s.intersects(x_min, x_max);
        let mut i: usize = 0;
        while i < self.segments.len()
            invariant
                i <= self.segments@.len(),
                keep == |s: CaveSegment| s.intersects(x_min, x_max),
                out@ == self.segments@.take(i as int).filter(keep),
            decreases self.segments@.len() - i,
        {
            let segment = self.segments[i];
            proof {
                crate::pickup::lemma_filter_step(self.segments@, i as int, keep);
            }
            if segment.x_start.lt(x_max) && segment.x_end().gt(x_min) {
                out.push(segment);
            }
            i = i + 1;
        }
        proof {
            assert(self.segments@.take(i as int) =~= self.segments@);
        }
        out
    }

    /// The retained segments, oldest first.
    pub fn segments(&self) -> (r: &VecDeque<CaveSegment>)
        ensures
            r@ == self@.segments,
    {
        &self.segments
    }

    /// The pickup manager.
    pub fn pickup_manager(&self) -> (r: &PickupManager)
        ensures
            r@ == self@.pickups,
    {
        &self.pickup_manager
    }

    /// The pickup manager, to change it: the cave is as before but for what
    /// is done to the pickups.
    pub fn pickup_manager_mut(&mut self) -> (r: &mut PickupManager)
        ensures
            r@ == old(self)@.pickups,
            final(self)@ == (CaveState { pickups: final(r)@, ..old(self)@ }),
    {
        &mut self.pickup_manager
    }
}

} // verus!
