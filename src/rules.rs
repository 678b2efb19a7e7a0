//! Pure decisions of the contests: tackle roll, weather at pickup, kick
//! accuracy, forward pass, offside, scrum drift.
use vstd::prelude::*;
use crate::geometry::cosine;
use crate::motion::{launch, launch_velocity};
use crate::model::BallThrow;

verus! {

/// A tackle succeeds when the percentage roll is below the tackler's accuracy.
pub open spec fn tackle_roll_wins(roll: int, accuracy: int) -> bool {
    roll < accuracy
}

/// A pickup fails when the percentage roll is below half the weather severity.
pub open spec fn weather_spoils(roll: int, weather: int) -> bool {
    roll < weather / 2
}

/// A pass towards `direction` goes forward for a side whose attacking sign is `sign`.
pub open spec fn forward_pass(sign: int, direction: int) -> bool {
    if sign > 0 {
        cosine(direction) > 0
    } else {
        cosine(direction) < 0
    }
}

/// The flight record of a kick at `speed` mm/s towards `dir` with elevation
/// `elev`; an inaccurate kick turns by `dev_h - 10` degrees, lifts by
/// `dev_v - 5` degrees and keeps `80 + loss` percent of its speed.
pub open spec fn kick_throw(speed: int, dir: int, elev: int, accurate: bool, dev_h: int, dev_v: int, loss: int) -> BallThrow {
    if accurate {
        launch(speed, dir, elev)
    } else {
        launch(speed * (80 + loss) / 100, (dir % 360 + 350 + dev_h) % 360, (elev + 355 + dev_v) % 360)
    }
}

/// The flight record of a kick asked at elevation `high` (at most 90 counts)
/// whose accuracy roll is `roll` against `p_foot`.
pub open spec fn kick_result(speed: int, dir: int, high: int, p_foot: int, roll: int, dev_h: int, dev_v: int, loss: int) -> BallThrow {
    let elev = if high > 90 { 90 } else { high };
    kick_throw(speed, dir, elev, roll < p_foot, dev_h, dev_v, loss)
}

/// Drift of the scrum ball in millimetres along x. The ball goes back
/// (against `sign_in`, the attacking sign of the side with the put-in) unless
/// the opposing pack is heavier and the roll, in basis points, falls below
/// twenty times the relative weight difference.
pub open spec fn scrum_drift_of(weight_in: int, weight_front: int, sign_in: int, roll: int) -> int {
    if weight_front > weight_in && roll * (weight_front + weight_in) < 200_000 * (weight_front - weight_in) {
        500 * sign_in
    } else {
        -500 * sign_in
    }
}

/// Whether a tackle with this percentage roll succeeds.
pub fn tackle_succeeds(roll: u64, accuracy: u64) -> (r: bool)
    ensures
        r == tackle_roll_wins(roll as int, accuracy as int),
{
    roll < accuracy
}

/// Whether the weather spoils a pickup with this percentage roll.
pub fn pickup_spoiled(roll: u64, weather: usize) -> (r: bool)
    ensures
        r == weather_spoils(roll as int, weather as int),
{
    roll < (weather / 2) as u64
}

/// Whether a pass towards `direction` is forward for attacking sign `sign`.
pub fn is_forward_pass(sign: i64, direction: u32) -> (r: bool)
    requires
        sign == 1 || sign == -1,
    ensures
        r == forward_pass(sign as int, direction as int),
{
    let c = crate::geometry::cos_deg(direction);
    if sign == 1 {
        c > 0
    } else {
        c < 0
    }
}

/// Drift of the scrum ball for the given pack weights and roll in basis points.
pub fn scrum_drift(weight_in: u64, weight_front: u64, sign_in: i64, roll: u64) -> (r: i64)
    requires
        weight_in <= 100_000_000,
        weight_front <= 100_000_000,
        roll < 10000,
        sign_in == 1 || sign_in == -1,
    ensures
        r == scrum_drift_of(weight_in as int, weight_front as int, sign_in as int, roll as int),
{
    if weight_front > weight_in {
        proof {
            assert(roll * (weight_front + weight_in) <= 10000 * 200_000_000) by (nonlinear_arith)
                requires roll < 10000, weight_front + weight_in <= 200_000_000;
        }
        let lhs: u128 = (roll as u128) * ((weight_front + weight_in) as u128);
        let rhs: u128 = 200_000u128 * ((weight_front - weight_in) as u128);
        if lhs < rhs {
            return 500 * sign_in;
        }
    }
    -500 * sign_in
}

/// More than half of the 10000 equally likely rolls drive the ball back
/// towards the heavier pack: every roll when that pack has the put-in, and
/// every roll up to 5000 (5001 rolls) when the other pack has it and the
/// weight gap is more than a fortieth of the total.
pub proof fn lemma_heavier_pack_wins_drift(weight_in: int, weight_front: int, sign_in: int, roll: int)
    requires
        0 <= weight_in,
        0 <= weight_front,
        0 <= roll < 10000,
        weight_in > weight_front || (weight_front > weight_in && 40 * (weight_front - weight_in) > weight_front + weight_in && roll <= 5000),
    ensures
        weight_in > weight_front ==> scrum_drift_of(weight_in, weight_front, sign_in, roll) == -500 * sign_in,
        weight_front > weight_in ==> scrum_drift_of(weight_in, weight_front, sign_in, roll) == 500 * sign_in,
{
    if weight_front > weight_in {
        assert(roll * (weight_front + weight_in) < 200_000 * (weight_front - weight_in)) by (nonlinear_arith)
            requires
                0 <= roll <= 5000,
                weight_front > weight_in >= 0,
                40 * (weight_front - weight_in) > weight_front + weight_in,
        ;
    }
}

/// The flight record of a kick; see `kick_throw`.
pub fn kick_launch(speed: i64, dir: u32, elev: u32, accurate: bool, dev_h: u64, dev_v: u64, loss: u64) -> (t: BallThrow)
    requires
        0 <= speed <= 4_000_000,
        elev <= 90,
        dev_h < 21,
        dev_v < 11,
        loss < 21,
    ensures
        t == kick_throw(speed as int, dir as int, elev as int, accurate, dev_h as int, dev_v as int, loss as int),
        -4_000_000 <= t.vx <= 4_000_000,
        -4_000_000 <= t.vy <= 4_000_000,
        -4_000_000 <= t.vz <= 4_000_000,
        t.active,
{
    if accurate {
        launch_velocity(speed, dir, elev)
    } else {
        proof {
            assert(0 <= speed * (80 + loss) <= speed * 100) by (nonlinear_arith)
                requires 0 <= speed, loss < 21;
            assert(speed * (80 + loss) / 100 <= speed * 100 / 100) by (nonlinear_arith)
                requires 0 <= speed * (80 + loss) <= speed * 100;
        }
        let s = speed * (80 + loss as i64) / 100;
        let d = (dir % 360 + 350 + dev_h as u32) % 360;
        let e = (elev + 355 + dev_v as u32) % 360;
        launch_velocity(s, d, e)
    }
}

} // verus!
