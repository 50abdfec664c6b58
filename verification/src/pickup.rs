//! Pickups: where they spawn along the tunnel, how they are collected, and
//! how the tractor beam draws them toward the player.

use vstd::prelude::*;
use vstd::arithmetic::power2::{pow2, lemma_pow2_pos, lemma_pow2_adds, lemma2_to64};
use crate::cave::{next_state, ranged, unit, SimpleRng};
use crate::ieee::exact::lemma_representable;
use crate::ieee::facts::{lemma_product_between, lemma_whole, one};
use crate::ieee::model::magnitude;
use crate::collision::{aabb_overlap, Aabb};
use crate::constants::{PickupConstants, TractorBeamConstants};
use crate::ieee::single::Single;
use crate::tractor::TractorBeam;

verus! {

/// The kinds of pickup.
#[derive(Debug, Clone, Copy, PartialEq, Eq, Structural)]
pub enum PickupType {
    /// A fuel depot that refills the tank.
    Fuel,
}

/// A collectible item on a wall of the cave.
#[derive(Debug, Clone, Copy, PartialEq)]
pub struct Pickup {
    /// Position in world coordinates (x, y)
    pub position: (Single, Single),
    /// Where the pickup spawned, and to where it returns when attraction ends
    pub original_position: (Single, Single),
    pub pickup_type: PickupType,
    /// Whether the pickup hangs from the ceiling (true) or sits on the floor
    pub is_on_ceiling: bool,
    pub collected: bool,
    /// Whether a tractor beam is drawing the pickup
    pub being_attracted: bool,
}

impl Pickup {
    /// A pickup as it spawns.
    pub open spec fn fresh(
        position: (Single, Single),
        pickup_type: PickupType,
        is_on_ceiling: bool,
    ) -> Pickup {
        Pickup {
            position,
            original_position: position,
            pickup_type,
            is_on_ceiling,
            collected: false,
            being_attracted: false,
        }
    }

    /// The pickup back at the place where it spawned.
    pub open spec fn at_wall(self) -> Pickup {
        Pickup { position: self.original_position, being_attracted: false, ..self }
    }

    /// The pickup moved along `force` at `speed` for `dt` seconds; a
    /// collected pickup does not move.
    pub open spec fn pulled(self, force: (Single, Single), speed: Single, dt: Single) -> Pickup {
        if self.collected {
            self
        } else {
            Pickup {
                position: (
                    self.position.0.plus(force.0.times(speed).times(dt)),
                    self.position.1.plus(force.1.times(speed).times(dt)),
                ),
                being_attracted: true,
                ..self
            }
        }
    }

    /// The pickup drawn by the beam's force for `dt` seconds; it stays as it
    /// is where that force is the zero vector.
    pub open spec fn drawn(
        self,
        beam: TractorBeam,
        player: (Single, Single),
        dt: Single,
    ) -> Pickup {
        let force = beam.force(player, self.position);
        if force.0.equals(Single::whole(0)) && force.1.equals(Single::whole(0)) {
            self
        } else {
            self.pulled(force, Single::whole(200), dt)
        }
    }

    /// The pickup after one frame under the beam. Attraction starts in the
    /// narrow band only; it goes on in the wider band, and where the pickup
    /// has left that band, or the beam is off, the pickup returns to its
    /// wall.
    pub open spec fn attracted(
        self,
        beam: TractorBeam,
        player: (Single, Single),
        dt: Single,
    ) -> Pickup {
        if self.collected {
            self
        } else if beam.active {
            if self.being_attracted {
                if beam.holds(player, self.position) {
                    self.drawn(beam, player, dt)
                } else {
                    self.at_wall()
                }
            } else if beam.in_beam(player, self.position) {
                self.drawn(beam, player, dt)
            } else {
                self
            }
        } else if self.being_attracted {
            self.at_wall()
        } else {
            self
        }
    }

    /// The box that the pickup fills.
    pub open spec fn bounds(self) -> Aabb {
        Aabb {
            x: self.position.0,
            y: self.position.1,
            width: Single::whole(20),
            height: Single::whole(20),
        }
    }

    /// Whether the pickup is there to be collected between `x_min` and
    /// `x_max`, both included.
    pub open spec fn visible_in(self, x_min: Single, x_max: Single) -> bool {
        !self.collected && self.position.0.at_least(x_min) && self.position.0.at_most(x_max)
    }

    /// Whether cleaning up behind a camera at `camera_x` keeps the pickup:
    /// a collected pickup goes once it lies 1000 or more behind the camera.
    pub open spec fn kept_behind(self, camera_x: Single) -> bool {
        !self.collected || self.position.0.greater_than(camera_x.minus(Single::whole(1000)))
    }

    /// A pickup as it spawns.
    pub fn new(
        position: (Single, Single),
        pickup_type: PickupType,
        is_on_ceiling: bool,
    ) -> (r: Self)
        ensures
            r == Pickup::fresh(position, pickup_type, is_on_ceiling),
    {
        Self {
            position,
            original_position: position,
            pickup_type,
            is_on_ceiling,
            collected: false,
            being_attracted: false,
        }
    }

    /// Marks the pickup as collected.
    pub fn collect(&mut self)
        ensures
            *final(self) == (Pickup { collected: true, ..*old(self) }),
    {
        self.collected = true;
    }

    /// Puts the pickup back to where it spawned.
    pub fn reset_to_wall(&mut self)
        ensures
            *final(self) == old(self).at_wall(),
    {
        self.position = self.original_position;
        self.being_attracted = false;
    }

    /// Moves the pickup along `force`.
    pub fn apply_attraction(&mut self, force: (Single, Single), speed: Single, dt: Single)
        ensures
            *final(self) == old(self).pulled(force, speed, dt),
    {
        if !self.collected {
            self.position.0 = self.position.0.add(force.0.mul(speed).mul(dt));
            self.position.1 = self.position.1.add(force.1.mul(speed).mul(dt));
            self.being_attracted = true;
        }
    }
}

/// What a pickup manager holds: the pickups in the order in which they
/// spawned, the state of its stream of numbers, and the spawn cursor.
pub struct PickupState {
    pub pickups: Seq<Pickup>,
    pub rng: u32,
    pub last_pickup_x: Single,
    pub next_pickup_distance: Single,
}

impl PickupState {
    /// A manager without pickups whose first spawn comes after the initial
    /// delay: no pickup appears before 800.
    pub open spec fn initial(seed: u32) -> PickupState {
        PickupState {
            pickups: Seq::empty(),
            rng: ((seed + 42) % 0x1_0000_0000) as u32,
            last_pickup_x: Single::whole(0),
            next_pickup_distance: Single::whole(800),
        }
    }

    /// Whether a spawn is due at `x`.
    pub open spec fn spawn_due(self, x: Single) -> bool {
        x.at_least(self.last_pickup_x.plus(self.next_pickup_distance))
    }

    /// The distance to the spawn after the one for which the stream reached
    /// `state`: between 70% and 130% of `average_distance`.
    pub open spec fn spawn_gap(state: u32, average_distance: Single) -> Single {
        let variation = average_distance.times(Single::ratio(3, 10));
        ranged(state, average_distance.minus(variation), average_distance.plus(variation))
    }

    /// The manager after the question whether a spawn is due at `x`: a due
    /// spawn moves the cursor to `x` and draws the distance to the next one.
    pub open spec fn after_spawn_check(self, x: Single, average_distance: Single) -> PickupState {
        if self.spawn_due(x) {
            PickupState {
                rng: next_state(self.rng),
                last_pickup_x: x,
                next_pickup_distance: Self::spawn_gap(next_state(self.rng), average_distance),
                ..self
            }
        } else {
            self
        }
    }

    /// The fuel pickup that spawns at `x` on reaching `state`: on the ceiling
    /// where the number drawn is below one half, else on the floor, and clear
    /// of the wall.
    pub open spec fn spawn(state: u32, x: Single, ceiling_y: Single, floor_y: Single) -> Pickup {
        if unit(state).less_than(Single::ratio(1, 2)) {
            Pickup::fresh((x, ceiling_y.plus(Single::whole(5))), PickupType::Fuel, true)
        } else {
            Pickup::fresh(
                (x, floor_y.minus(Single::whole(20)).minus(Single::whole(5))),
                PickupType::Fuel,
                false,
            )
        }
    }

    /// The manager after a fuel pickup has spawned at `x`.
    pub open spec fn spawned(self, x: Single, ceiling_y: Single, floor_y: Single) -> PickupState {
        PickupState {
            pickups: self.pickups.push(Self::spawn(next_state(self.rng), x, ceiling_y, floor_y)),
            rng: next_state(self.rng),
            ..self
        }
    }

    /// The manager after the cave has grown by a segment whose centre is
    /// `x`: a due spawn puts a fuel pickup there.
    pub open spec fn after_segment(
        self,
        x: Single,
        ceiling_y: Single,
        floor_y: Single,
        average_distance: Single,
    ) -> PickupState {
        if self.spawn_due(x) {
            self.after_spawn_check(x, average_distance).spawned(x, ceiling_y, floor_y)
        } else {
            self
        }
    }

    /// Whether the pickup at `index` can be collected by a player in the box
    /// `player`.
    pub open spec fn hit(self, index: int, player: Aabb) -> bool {
        !self.pickups[index].collected && self.pickups[index].bounds().overlaps(player)
    }

    /// The index of the first pickup, from `from` on, that a player in the
    /// box `player` can collect.
    pub open spec fn first_hit_from(self, player: Aabb, from: int) -> Option<usize>
        decreases self.pickups.len() - from,
    {
        if from < 0 || from >= self.pickups.len() {
            None
        } else if self.hit(from, player) {
            Some(from as usize)
        } else {
            self.first_hit_from(player, from + 1)
        }
    }

    /// The index of the first pickup, in spawn order, that a player in the
    /// box `player` can collect.
    pub open spec fn first_hit(self, player: Aabb) -> Option<usize> {
        self.first_hit_from(player, 0)
    }

    /// The manager after the pickup at `index` was collected; nothing
    /// changes where it was collected before or no pickup has that index.
    pub open spec fn collected(self, index: usize) -> PickupState {
        if index < self.pickups.len() && !self.pickups[index as int].collected {
            PickupState {
                pickups: self.pickups.update(
                    index as int,
                    Pickup { collected: true, ..self.pickups[index as int] },
                ),
                ..self
            }
        } else {
            self
        }
    }

    /// The manager without the collected pickups that lie 1000 or more
    /// behind the camera.
    pub open spec fn cleaned(self, camera_x: Single) -> PickupState {
        PickupState {
            pickups: self.pickups.filter(|p: Pickup| p.kept_behind(camera_x)),
            ..self
        }
    }

    /// The manager after a frame under the beam.
    pub open spec fn attracted(
        self,
        beam: TractorBeam,
        player: (Single, Single),
        dt: Single,
    ) -> PickupState {
        PickupState {
            pickups: self.pickups.map_values(|p: Pickup| p.attracted(beam, player, dt)),
            ..self
        }
    }

    /// The manager without pickups, its cursor set so that the first spawn
    /// comes after the initial delay.
    pub open spec fn cleared(self) -> PickupState {
        PickupState {
            pickups: Seq::empty(),
            last_pickup_x: Single::whole(0),
            next_pickup_distance: Single::whole(800),
            ..self
        }
    }
}

/// On a new manager, and on one that was cleared, no spawn is due before
/// the initial delay of 800, and one is due from there on.
pub proof fn lemma_first_spawn_after_delay(seed: u32, state: PickupState, x: Single)
    ensures
        PickupState::initial(seed).spawn_due(x) <==> x.at_least(Single::whole(800)),
        state.cleared().spawn_due(x) <==> x.at_least(Single::whole(800)),
        x.less_than(Single::whole(800)) ==> !PickupState::initial(seed).spawn_due(x)
            && PickupState::initial(seed).after_spawn_check(x, Single::whole(300))
            == PickupState::initial(seed),
{
    crate::ieee::facts::lemma_whole_plus(0, 800);
    crate::ieee::facts::lemma_whole(800);
    reveal(crate::ieee::model::less_bits);
    reveal(crate::ieee::model::equal_bits);
}

/// Around a positive average whose upper end is finite, the band of spawn
/// distances is well behaved: both ends are finite, the lower one is not
/// negative and not above the upper one, and the span between them is
/// exact.
pub proof fn lemma_spawn_band(average_distance: Single)
    requires
        average_distance.is_finite(),
        average_distance.greater_than(Single::whole(0)),
        average_distance.plus(average_distance.times(Single::ratio(3, 10))).is_finite(),
    ensures
        ({
            let variation = average_distance.times(Single::ratio(3, 10));
            let low = average_distance.minus(variation);
            let high = average_distance.plus(variation);
            &&& low.is_finite()
            &&& high.is_finite()
            &&& high.minus(low).is_finite()
            &&& 0 <= low.value() <= high.value()
            &&& high.minus(low).value() == high.value() - low.value()
        }),
{
    reveal(crate::ieee::model::less_bits);
    reveal(crate::ieee::model::ratio_bits);
    reveal(crate::ieee::model::product_bits);
    let variation = average_distance.times(Single::ratio(3, 10));
    let low = average_distance.minus(variation);
    let high = average_distance.plus(variation);
    let d = average_distance.bits;
    let c = Single::ratio(3, 10).bits;
    let v = variation.bits;
    let p = one();
    let g = pow2(145);
    lemma_whole(0);
    lemma_pow2_pos(145);
    lemma_pow2_adds(4, 145);
    lemma_pow2_adds(2, 147);
    lemma2_to64();
    assert(pow2(4) == 16 && pow2(2) == 4);
    assert(p == 16 * g);
    // three tenths lies between a quarter and five sixteenths
    let quarter = lemma_representable(1, 147);
    let most = lemma_representable(5, 145);
    assert(magnitude(quarter) == pow2(147)) by {
        assert(1 * pow2(147) == pow2(147));
    }
    assert(magnitude(quarter) * 10 <= 3 * p && 3 * p <= magnitude(most) * 10) by (nonlinear_arith)
        requires
            magnitude(quarter) == pow2(147),
            magnitude(most) == 5 * g,
            p == 16 * g,
            p == 4 * pow2(147),
            g > 0,
    ;
    crate::ieee::facts::lemma_round_between((3 * p) as nat, 10, quarter, most);
    let part = crate::ieee::model::round_magnitude((3 * p) as nat, 10);
    crate::ieee::facts::lemma_with_sign(false, part);
    assert(c == part);
    let big = average_distance.value();
    assert(magnitude(d) == big && big >= 1);
    let factor = magnitude(c);
    assert(factor <= 5 * g);
    // the variation
    crate::ieee::facts::lemma_zero_magnitude(Single::whole(0).bits);
    assert(magnitude(Single::whole(0).bits) * p <= magnitude(d) * magnitude(c) && magnitude(d)
        * magnitude(c) <= magnitude(d) * p) by (nonlinear_arith)
        requires
            magnitude(Single::whole(0).bits) == 0,
            magnitude(c) <= 5 * g,
            p == 16 * g,
            g > 0,
            magnitude(d) >= 0,
    ;
    lemma_product_between(d, c, Single::whole(0).bits, d);
    let exact = magnitude(d) * magnitude(c);
    let rounded = crate::ieee::model::round_magnitude(exact, p);
    crate::ieee::facts::lemma_with_sign(false, rounded);
    assert(v == rounded);
    let small = magnitude(v);
    assert(variation.value() == small);
    crate::ieee::order::lemma_round_relative(exact, p);
    assert(16 * 0x100_0000 * small <= 5 * 0x100_0001 * big + 0x800_0000) by (nonlinear_arith)
        requires
            exact == big * factor,
            factor <= 5 * g,
            p == 16 * g,
            g > 0,
            big >= 1,
            small >= 0,
            2 * (small * p - exact) <= p || 0x100_0000 * (small * p - exact) <= exact,
    ;
    assert(small < big) by (nonlinear_arith)
        requires
            16 * 0x100_0000 * small <= 5 * 0x100_0001 * big + 0x800_0000,
            big >= 1,
    ;
    // the two ends
    crate::ieee::facts::lemma_negated(v);
    let down = (big - small) as nat;
    let up = (big + small) as nat;
    crate::ieee::facts::lemma_sum_sign(d, variation.negation().bits);
    crate::ieee::facts::lemma_sum_sign(d, v);
    crate::ieee::facts::lemma_sum_between(
        d,
        variation.negation().bits,
        Single::whole(0).bits,
        d,
    );
    crate::ieee::facts::lemma_sum_monotone(d, variation.negation().bits, v);
    let bottom = low.value();
    let top = high.value();
    assert(low.bits == crate::ieee::model::round_magnitude(down, 1));
    assert(high.bits == crate::ieee::model::round_magnitude(up, 1));
    assert(magnitude(low.bits) == bottom && magnitude(high.bits) == top);
    crate::ieee::order::lemma_round_relative(down, 1);
    crate::ieee::order::lemma_round_relative(up, 1);
    assert(bottom * 1 == bottom && top * 1 == top);
    assert(0x100_0000 * (down - bottom) <= down);
    crate::ieee::facts::lemma_negated(low.bits);
    if top < 0x100_0000 {
        assert(pow2(0) == 1);
        let span = (top - bottom) as nat;
        assert(span * pow2(0) == span);
        crate::ieee::facts::lemma_sum_exact(high.bits, low.negation().bits, span, 0);
    } else {
        assert(0x100_0000 * (top - up) <= up);
        assert(top <= 2 * bottom) by (nonlinear_arith)
            requires
                16 * 0x100_0000 * small <= 5 * 0x100_0001 * big + 0x800_0000,
                0x100_0000 * (down - bottom) <= down,
                0x100_0000 * (top - up) <= up,
                down == big - small,
                up == big + small,
                top >= 0x100_0000,
                small >= 0,
        ;
        crate::ieee::facts::lemma_close_difference_exact(high.bits, low.bits);
    }
}

/// The distance to the next spawn lies between the average less the
/// variation and the average plus the variation, for every positive
/// average whose upper end is finite.
pub proof fn lemma_spawn_gap_bounds(state: u32, average_distance: Single)
    requires
        average_distance.is_finite(),
        average_distance.greater_than(Single::whole(0)),
        average_distance.plus(average_distance.times(Single::ratio(3, 10))).is_finite(),
    ensures
        ({
            let variation = average_distance.times(Single::ratio(3, 10));
            let gap = PickupState::spawn_gap(state, average_distance);
            &&& gap.is_finite()
            &&& average_distance.minus(variation).at_most(gap)
            &&& gap.at_most(average_distance.plus(variation))
        }),
{
    let variation = average_distance.times(Single::ratio(3, 10));
    lemma_spawn_band(average_distance);
    crate::cave::lemma_ranged_bounds(
        state,
        average_distance.minus(variation),
        average_distance.plus(variation),
    );
}

/// After a spawn at `x0`, no spawn is due before `x0` plus the average less
/// the variation, and one is due from `x0` plus the average plus the
/// variation on: spawns lie apart by the average, give or take the
/// variation. This holds for every positive average whose upper end is
/// finite.
pub proof fn lemma_spawn_cadence(
    state: PickupState,
    x0: Single,
    average_distance: Single,
    x: Single,
)
    requires
        state.spawn_due(x0),
        x0.is_finite(),
        average_distance.is_finite(),
        average_distance.greater_than(Single::whole(0)),
        average_distance.plus(average_distance.times(Single::ratio(3, 10))).is_finite(),
    ensures
        ({
            let variation = average_distance.times(Single::ratio(3, 10));
            let low = average_distance.minus(variation);
            let high = average_distance.plus(variation);
            let after = state.after_spawn_check(x0, average_distance);
            &&& x.less_than(x0.plus(low)) ==> !after.spawn_due(x)
            &&& x.at_least(x0.plus(high)) ==> after.spawn_due(x)
        }),
{
    let variation = average_distance.times(Single::ratio(3, 10));
    let low = average_distance.minus(variation);
    let high = average_distance.plus(variation);
    let gap = PickupState::spawn_gap(next_state(state.rng), average_distance);
    lemma_spawn_band(average_distance);
    crate::cave::lemma_ranged_bounds(next_state(state.rng), low, high);
    crate::ieee::facts::lemma_sum_monotone(x0.bits, low.bits, gap.bits);
    crate::ieee::facts::lemma_sum_monotone(x0.bits, gap.bits, high.bits);
    reveal(crate::ieee::model::less_bits);
    reveal(crate::ieee::model::equal_bits);
}

/// Filtering one element more: the element is appended where it passes.
pub proof fn lemma_filter_step<A>(s: Seq<A>, i: int, keep: spec_fn(A) -> bool)
    requires
        0 <= i < s.len(),
    ensures
        s.take(i + 1).filter(keep) == if keep(s[i]) {
            s.take(i).filter(keep).push(s[i])
        } else {
            s.take(i).filter(keep)
        },
{
    reveal(Seq::filter);
    assert(s.take(i + 1).drop_last() =~= s.take(i));
    assert(s.take(i + 1).last() == s[i]);
}

/// Spawns pickups along the cave and keeps track of them.
#[derive(Debug)]
pub struct PickupManager {
    pickups: Vec<Pickup>,
    rng: SimpleRng,
    last_pickup_x: Single,
    next_pickup_distance: Single,
}

impl View for PickupManager {
    type V = PickupState;

    closed spec fn view(&self) -> PickupState {
        PickupState {
            pickups: self.pickups@,
            rng: self.rng@,
            last_pickup_x: self.last_pickup_x,
            next_pickup_distance: self.next_pickup_distance,
        }
    }
}

impl PickupManager {
    /// A manager whose stream is seeded apart from the cave's, and whose
    /// first pickup may appear only after the initial delay.
    pub fn new(seed: u32) -> (r: Self)
        ensures
            r@ == PickupState::initial(seed),
    {
        let offset: u64 = seed as u64 + PickupConstants::RNG_SEED_OFFSET as u64;
        Self {
            pickups: Vec::new(),
            rng: SimpleRng::new((offset % 0x1_0000_0000) as u32),
            last_pickup_x: Single::from_int(0),
            next_pickup_distance: PickupConstants::initial_spawn_delay(),
        }
    }

    /// The pickups, in the order in which they spawned.
    pub fn pickups(&self) -> (r: &Vec<Pickup>)
        ensures
            r@ == self@.pickups,
    {
        &self.pickups
    }

    /// The distance from the last spawn at which the next one is due.
    pub fn next_pickup_distance(&self) -> (r: Single)
        ensures
            r == self@.next_pickup_distance,
    {
        self.next_pickup_distance
    }

    /// Adds a pickup behind those that are there.
    pub fn insert_pickup(&mut self, pickup: Pickup)
        ensures
            final(self)@ == (PickupState { pickups: old(self)@.pickups.push(pickup), ..old(self)@ }),
    {
        self.pickups.push(pickup);
    }

    /// Moves the pickup at `index` to `position`; nothing changes where no
    /// pickup has that index.
    pub fn move_pickup(&mut self, index: usize, position: (Single, Single))
        ensures
            index < old(self)@.pickups.len() ==> final(self)@ == (PickupState {
                pickups: old(self)@.pickups.update(
                    index as int,
                    Pickup { position, ..old(self)@.pickups[index as int] },
                ),
                ..old(self)@
            }),
            index >= old(self)@.pickups.len() ==> final(self)@ == old(self)@,
    {
        if index < self.pickups.len() {
            let mut p = self.pickups[index];
            p.position = position;
            self.pickups.set(index, p);
        }
    }

    /// Asks whether a pickup should spawn at `x`. A spawn that is due moves
    /// the cursor to `x` and draws the distance to the next one, so the
    /// question is to be asked once for each place.
    pub fn should_spawn_pickup(&mut self, x: Single, average_distance: Single) -> (r: bool)
        ensures
            r == old(self)@.spawn_due(x),
            final(self)@ == old(self)@.after_spawn_check(x, average_distance),
    {
        if x.ge(self.last_pickup_x.add(self.next_pickup_distance)) {
            let variation = average_distance.mul(PickupConstants::spawn_distance_variation());
            self.next_pickup_distance = self.rng.range(
                average_distance.sub(variation),
                average_distance.add(variation),
            );
            self.last_pickup_x = x;
            true
        } else {
            false
        }
    }

    /// Spawns a fuel pickup at `x`, on the ceiling or on the floor as the
    /// stream decides.
    pub fn spawn_fuel_pickup(&mut self, x: Single, ceiling_y: Single, floor_y: Single)
        ensures
            final(self)@ == old(self)@.spawned(x, ceiling_y, floor_y),
    {
        let is_on_ceiling = self.rng.next_f32().lt(Single::from_ratio(1, 2));
        let y = if is_on_ceiling {
            ceiling_y.add(PickupConstants::wall_offset())
        } else {
            floor_y.sub(PickupConstants::size()).sub(PickupConstants::wall_offset())
        };
        let pickup = Pickup::new((x, y), PickupType::Fuel, is_on_ceiling);
        self.pickups.push(pickup);
    }

    /// The pickups that are not collected and lie between `x_min` and
    /// `x_max`, in spawn order.
    pub fn get_pickups_in_range(&self, x_min: Single, x_max: Single) -> (r: Vec<&Pickup>)
        ensures
            r@.map_values(|p: &Pickup| *p) == self@.pickups.filter(
                |p: Pickup| p.visible_in(x_min, x_max),
            ),
    {
        let mut out: Vec<&Pickup> = Vec::new();
        let ghost keep = |p: Pickup| p.visible_in(x_min, x_max);
        let ghost unref = |p: &Pickup| *p;
        let mut i: usize = 0;
        while i < self.pickups.len()
            invariant
                i <= self.pickups.len(),
                keep == |p: Pickup| p.visible_in(x_min, x_max),
                unref == |p: &Pickup| *p,
                out@.map_values(unref) == self.pickups@.take(i as int).filter(keep),
            decreases self.pickups.len() - i,
        {
            let p = &self.pickups[i];
            proof {
                lemma_filter_step(self.pickups@, i as int, keep);
            }
            if !p.collected && p.position.0.ge(x_min) && p.position.0.le(x_max) {
                proof {
                    assert(out@.push(p).map_values(unref) =~= out@.map_values(unref).push(*p));
                }
                out.push(p);
            }
            i = i + 1;
        }
        proof {
            assert(self.pickups@.take(i as int) =~= self.pickups@);
        }
        out
    }

    /// The index of the first pickup, in spawn order, that is not collected
    /// and whose box overlaps the player's.
    pub fn check_collision(
        &self,
        player_pos: (Single, Single),
        player_size: (Single, Single),
    ) -> (r: Option<usize>)
        ensures
            ({
                let player = Aabb {
                    x: player_pos.0,
                    y: player_pos.1,
                    width: player_size.0,
                    height: player_size.1,
                };
                &&& r == self@.first_hit(player)
                &&& match r {
                    Some(index) => index < self@.pickups.len() && self@.hit(index as int, player)
                        && forall|j: int| 0 <= j < index ==> !self@.hit(j, player),
                    None => forall|j: int| 0 <= j < self@.pickups.len() ==> !self@.hit(j, player),
                }
            }),
    {
        let pickup_size = (PickupConstants::size(), PickupConstants::size());
        let ghost player = Aabb {
            x: player_pos.0,
            y: player_pos.1,
            width: player_size.0,
            height: player_size.1,
        };
        let mut index: usize = 0;
        while index < self.pickups.len()
            invariant
                index <= self.pickups.len(),
                pickup_size == (Single::whole(20), Single::whole(20)),
                player == (Aabb {
                    x: player_pos.0,
                    y: player_pos.1,
                    width: player_size.0,
                    height: player_size.1,
                }),
                forall|j: int| 0 <= j < index ==> !self@.hit(j, player),
                self@.first_hit(player) == self@.first_hit_from(player, index as int),
            decreases self.pickups.len() - index,
        {
            let pickup = &self.pickups[index];
            if !pickup.collected && aabb_overlap(
                pickup.position,
                pickup_size,
                player_pos,
                player_size,
            ) {
                return Some(index);
            }
            index = index + 1;
        }
        None
    }

    /// Collects the pickup at `index` and returns its kind; `None` where it
    /// was collected before or no pickup has that index.
    pub fn collect_pickup(&mut self, index: usize) -> (r: Option<PickupType>)
        ensures
            final(self)@ == old(self)@.collected(index),
            r == if index < old(self)@.pickups.len() && !old(self)@.pickups[index as int].collected {
                Some(old(self)@.pickups[index as int].pickup_type)
            } else {
                None
            },
    {
        if index < self.pickups.len() {
            let mut pickup = self.pickups[index];
            if !pickup.collected {
                pickup.collect();
                self.pickups.set(index, pickup);
                return Some(pickup.pickup_type);
            }
        }
        None
    }

    /// Drops the collected pickups that lie 1000 or more behind the camera.
    /// A pickup that is not collected stays, however far behind.
    pub fn cleanup_old_pickups(&mut self, camera_x: Single)
        ensures
            final(self)@ == old(self)@.cleaned(camera_x),
    {
        let limit = camera_x.sub(Single::from_int(1000));
        let mut kept: Vec<Pickup> = Vec::new();
        let ghost keep = |p: Pickup| p.kept_behind(camera_x);
        let mut i: usize = 0;
        while i < self.pickups.len()
            invariant
                i <= self.pickups.len(),
                limit == camera_x.minus(Single::whole(1000)),
                keep == |p: Pickup| p.kept_behind(camera_x),
                kept@ == self.pickups@.take(i as int).filter(keep),
            decreases self.pickups.len() - i,
        {
            let p = self.pickups[i];
            proof {
                lemma_filter_step(self.pickups@, i as int, keep);
            }
            if !p.collected || p.position.0.gt(limit) {
                kept.push(p);
            }
            i = i + 1;
        }
        proof {
            assert(self.pickups@.take(i as int) =~= self.pickups@);
        }
        self.pickups = kept;
    }

    /// The number of pickups that are not collected.
    pub fn active_pickup_count(&self) -> (r: usize)
        ensures
            r == self@.pickups.filter(|p: Pickup| !p.collected).len(),
    {
        let ghost keep = |p: Pickup| !p.collected;
        let mut count: usize = 0;
        let mut i: usize = 0;
        while i < self.pickups.len()
            invariant
                i <= self.pickups.len(),
                count <= i,
                keep == |p: Pickup| !p.collected,
                count == self.pickups@.take(i as int).filter(keep).len(),
            decreases self.pickups.len() - i,
        {
            proof {
                lemma_filter_step(self.pickups@, i as int, keep);
            }
            if !self.pickups[i].collected {
                count = count + 1;
            }
            i = i + 1;
        }
        proof {
            assert(self.pickups@.take(i as int) =~= self.pickups@);
        }
        count
    }

    /// Moves every pickup by one frame under the beam: see
    /// `Pickup::attracted`.
    pub fn update_tractor_beam_attraction(
        &mut self,
        tractor_beam: &TractorBeam,
        player_pos: (Single, Single),
        dt: Single,
    )
        ensures
            final(self)@ == old(self)@.attracted(*tractor_beam, player_pos, dt),
    {
        let ghost before = self.pickups@;
        let mut i: usize = 0;
        while i < self.pickups.len()
            invariant
                i <= self.pickups.len(),
                self.pickups@.len() == before.len(),
                self.rng == old(self).rng,
                self.last_pickup_x == old(self).last_pickup_x,
                self.next_pickup_distance == old(self).next_pickup_distance,
                forall|j: int|
                    0 <= j < i ==> self.pickups@[j] == before[j].attracted(
                        *tractor_beam,
                        player_pos,
                        dt,
                    ),
                forall|j: int| i <= j < before.len() ==> self.pickups@[j] == before[j],
            decreases self.pickups.len() - i,
        {
            let mut pickup = self.pickups[i];
            if !pickup.collected {
                if tractor_beam.is_active() {
                    Self::update_pickup_attraction(&mut pickup, tractor_beam, player_pos, dt);
                } else if pickup.being_attracted {
                    pickup.reset_to_wall();
                }
            }
            self.pickups.set(i, pickup);
            i = i + 1;
        }
        proof {
            assert(self.pickups@ =~= before.map_values(
                |p: Pickup| p.attracted(*tractor_beam, player_pos, dt),
            ));
        }
    }

    fn update_pickup_attraction(
        pickup: &mut Pickup,
        tractor_beam: &TractorBeam,
        player_pos: (Single, Single),
        dt: Single,
    )
        requires
            !old(pickup).collected,
            tractor_beam.active,
        ensures
            *final(pickup) == old(pickup).attracted(*tractor_beam, player_pos, dt),
    {
        if pickup.being_attracted {
            Self::handle_ongoing_attraction(pickup, tractor_beam, player_pos, dt);
        } else {
            Self::handle_initial_attraction(pickup, tractor_beam, player_pos, dt);
        }
    }

    fn handle_ongoing_attraction(
        pickup: &mut Pickup,
        tractor_beam: &TractorBeam,
        player_pos: (Single, Single),
        dt: Single,
    )
        ensures
            *final(pickup) == if tractor_beam.holds(player_pos, old(pickup).position) {
                old(pickup).drawn(*tractor_beam, player_pos, dt)
            } else {
                old(pickup).at_wall()
            },
    {
        if tractor_beam.should_maintain_attraction(player_pos, pickup.position) {
            Self::apply_attraction_force(pickup, tractor_beam, player_pos, dt);
        } else {
            pickup.reset_to_wall();
        }
    }

    fn handle_initial_attraction(
        pickup: &mut Pickup,
        tractor_beam: &TractorBeam,
        player_pos: (Single, Single),
        dt: Single,
    )
        ensures
            *final(pickup) == if tractor_beam.in_beam(player_pos, old(pickup).position) {
                old(pickup).drawn(*tractor_beam, player_pos, dt)
            } else {
                *old(pickup)
            },
    {
        if tractor_beam.is_point_in_beam(player_pos, pickup.position) {
            Self::apply_attraction_force(pickup, tractor_beam, player_pos, dt);
        }
    }

    fn apply_attraction_force(
        pickup: &mut Pickup,
        tractor_beam: &TractorBeam,
        player_pos: (Single, Single),
        dt: Single,
    )
        ensures
            *final(pickup) == old(pickup).drawn(*tractor_beam, player_pos, dt),
    {
        let force = tractor_beam.get_attraction_force(player_pos, pickup.position);
        if !(force.0.eq(Single::from_int(0)) && force.1.eq(Single::from_int(0))) {
            pickup.apply_attraction(force, TractorBeamConstants::attraction_speed(), dt);
        }
    }

    /// The pickups that the beam is drawing, in spawn order.
    pub fn get_attracted_pickups(&self) -> (r: Vec<&Pickup>)
        ensures
            r@.map_values(|p: &Pickup| *p) == self@.pickups.filter(
                |p: Pickup| !p.collected && p.being_attracted,
            ),
    {
        let mut out: Vec<&Pickup> = Vec::new();
        let ghost keep = |p: Pickup| !p.collected && p.being_attracted;
        let ghost unref = |p: &Pickup| *p;
        let mut i: usize = 0;
        while i < self.pickups.len()
            invariant
                i <= self.pickups.len(),
                keep == |p: Pickup| !p.collected && p.being_attracted,
                unref == |p: &Pickup| *p,
                out@.map_values(unref) == self.pickups@.take(i as int).filter(keep),
            decreases self.pickups.len() - i,
        {
            let p = &self.pickups[i];
            proof {
                lemma_filter_step(self.pickups@, i as int, keep);
            }
            if !p.collected && p.being_attracted {
                proof {
                    assert(out@.push(p).map_values(unref) =~= out@.map_values(unref).push(*p));
                }
                out.push(p);
            }
            i = i + 1;
        }
        proof {
            assert(self.pickups@.take(i as int) =~= self.pickups@);
        }
        out
    }

    /// Whether the beam is active and some pickup that is not collected lies
    /// in its narrow band.
    pub fn has_pickups_in_beam_range(
        &self,
        tractor_beam: &TractorBeam,
        player_pos: (Single, Single),
    ) -> (r: bool)
        ensures
            r == (tractor_beam.active && exists|j: int|
                0 <= j < self@.pickups.len() && !(#[trigger] self@.pickups[j]).collected
                    && tractor_beam.in_beam(player_pos, self@.pickups[j].position)),
    {
        if !tractor_beam.is_active() {
            return false;
        }
        let mut i: usize = 0;
        while i < self.pickups.len()
            invariant
                i <= self.pickups.len(),
                forall|j: int|
                    0 <= j < i ==> !(!(#[trigger] self.pickups@[j]).collected
                        && tractor_beam.in_beam(player_pos, self.pickups@[j].position)),
            decreases self.pickups.len() - i,
        {
            let p = &self.pickups[i];
            if !p.collected && tractor_beam.is_point_in_beam(player_pos, p.position) {
                return true;
            }
            i = i + 1;
        }
        false
    }

    /// Drops all pickups and sets the cursor so that the first spawn comes
    /// after the initial delay.
    pub fn clear_all_pickups(&mut self)
        ensures
            final(self)@ == old(self)@.cleared(),
    {
        self.pickups.clear();
        self.last_pickup_x = Single::from_int(0);
        self.next_pickup_distance = PickupConstants::initial_spawn_delay();
    }
}

} // verus!
