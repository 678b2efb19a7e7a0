//! Pure kinematics: running steps, launch speeds and launch velocities.
use vstd::prelude::*;
use crate::geometry::{cos_deg, cosine, isqrt, scale, scaled, sin_deg, sine, trunc_div};
use crate::model::{BallThrow, MAX_FOOT, MAX_SPEED, TICK_MS, WORLD};

verus! {

/// Walking speed in metres per hour.
pub const WALK_SPEED: u64 = 6400;
/// Nominal length of a pass, in millimetres.
pub const PASS_DIST: u64 = 20_000;
/// Elevation of a pass in degrees.
pub const PASS_HEIGHT: u32 = 1;

/// Millimetres covered in one tick at `speed` metres per hour.
pub open spec fn step_length(speed: int) -> int {
    speed * TICK_MS / 3600
}

/// Millimetres a ball moving at `v` mm/s covers in one tick.
pub open spec fn flight_step(v: int) -> int {
    trunc_div(v * TICK_MS, 1000)
}

/// `r` is the integer square root of `n`.
pub open spec fn is_sqrt_floor(r: int, n: int) -> bool {
    0 <= r && r * r <= n < (r + 1) * (r + 1)
}

/// Launch speed in mm/s of a kick of nominal length `power` mm:
/// the square root of `power × g`, divided by the correction 1.12.
pub open spec fn launch_speed_of(power: int) -> int {
    (choose|r: int| #[trigger] is_sqrt_floor(r, power * 9810)) * 100 / 112
}

/// The flight record of a ball launched at `speed` towards `dir` degrees with
/// elevation `elev` degrees.
pub open spec fn launch(speed: int, dir: int, elev: int) -> BallThrow {
    let flat = scaled(speed, cosine(elev));
    BallThrow {
        vx: scaled(flat, cosine(dir)) as i64,
        vy: scaled(flat, sine(dir)) as i64,
        vz: scaled(speed, sine(elev)) as i64,
        active: true,
    }
}

proof fn lemma_sqrt_unique(r: int, s: int, n: int)
    requires
        is_sqrt_floor(r, n),
        is_sqrt_floor(s, n),
    ensures
        r == s,
{
    if r < s {
        assert((r + 1) * (r + 1) <= s * s) by (nonlinear_arith)
            requires
                0 <= r,
                r + 1 <= s,
        ;
    } else if s < r {
        assert((s + 1) * (s + 1) <= r * r) by (nonlinear_arith)
            requires
                0 <= s,
                s + 1 <= r,
        ;
    }
}

/// Millimetres covered in one tick at `speed` metres per hour.
pub fn run_step(speed: u64) -> (r: i64)
    requires
        speed <= MAX_SPEED,
    ensures
        r == step_length(speed as int),
        0 <= r <= 1_000_000,
{
    (speed as i64) * TICK_MS / 3600
}

/// Displacement of one tick at `speed` metres per hour towards `direction` degrees.
pub fn displacement(speed: u64, direction: u32) -> (r: (i64, i64))
    requires
        speed <= MAX_SPEED,
    ensures
        r.0 == scaled(step_length(speed as int), cosine(direction as int)),
        r.1 == scaled(step_length(speed as int), sine(direction as int)),
        -WORLD <= r.0 <= WORLD,
        -WORLD <= r.1 <= WORLD,
{
    let step = run_step(speed);
    let c = cos_deg(direction);
    let s = sin_deg(direction);
    let dx = scale(step, c);
    let dy = scale(step, s);
    proof {
        assert(-1_000_000 * 10000 <= step * c <= 1_000_000 * 10000) by (nonlinear_arith)
            requires 0 <= step <= 1_000_000, -10000 <= c <= 10000;
        assert(-1_000_000 * 10000 <= step * s <= 1_000_000 * 10000) by (nonlinear_arith)
            requires 0 <= step <= 1_000_000, -10000 <= s <= 10000;
    }
    (dx, dy)
}

/// Launch speed in mm/s for a kick of nominal length `power` millimetres.
pub fn launch_speed(power: u64) -> (r: i64)
    requires
        power <= MAX_FOOT,
    ensures
        r == launch_speed_of(power as int),
        0 <= r <= 4_000_000,
{
    let root = isqrt(power * 9810);
    proof {
        assert(is_sqrt_floor(root as int, power * 9810));
        let c = choose|r: int| #[trigger] is_sqrt_floor(r, power * 9810);
        lemma_sqrt_unique(root as int, c, power * 9810);
        assert(root <= 4_000_000) by (nonlinear_arith)
            requires root * root <= 9_810_000_000_000;
    }
    (root as i64) * 100 / 112
}

/// Flight record of a ball launched at `speed` mm/s towards `dir` degrees with
/// elevation `elev` degrees.
pub fn launch_velocity(speed: i64, dir: u32, elev: u32) -> (t: BallThrow)
    requires
        0 <= speed <= 4_000_000,
    ensures
        t == launch(speed as int, dir as int, elev as int),
        -4_000_000 <= t.vx <= 4_000_000,
        -4_000_000 <= t.vy <= 4_000_000,
        -4_000_000 <= t.vz <= 4_000_000,
{
    let ce = cos_deg(elev);
    let se = sin_deg(elev);
    let flat = scale(speed, ce);
    proof {
        lemma_scaled_bound(speed as int, ce as int);
    }
    let cd = cos_deg(dir);
    let sd = sin_deg(dir);
    let vx = scale(flat, cd);
    let vy = scale(flat, sd);
    let vz = scale(speed, se);
    proof {
        lemma_scaled_bound(flat as int, cd as int);
        lemma_scaled_bound(flat as int, sd as int);
        lemma_scaled_bound(speed as int, se as int);
    }
    BallThrow { vx, vy, vz, active: true }
}

/// Scaling by a ratio of at most one keeps a bound.
pub proof fn lemma_scaled_bound(a: int, c: int)
    requires
        -4_000_000 <= a <= 4_000_000,
        -10000 <= c <= 10000,
    ensures
        -4_000_000 <= scaled(a, c) <= 4_000_000,
        a >= 0 && c >= 0 ==> scaled(a, c) >= 0,
{
    assert(-40_000_000_000 <= a * c <= 40_000_000_000) by (nonlinear_arith)
        requires -4_000_000 <= a <= 4_000_000, -10000 <= c <= 10000;
    assert(a >= 0 && c >= 0 ==> a * c >= 0) by (nonlinear_arith);
}

/// Millimetres a ball moving at `v` mm/s covers in one tick.
pub fn flight_distance(v: i64) -> (r: i64)
    requires
        -10_000_000 <= v <= 10_000_000,
    ensures
        r == flight_step(v as int),
        -2_500_000 <= r <= 2_500_000,
{
    let p = v * TICK_MS;
    if p >= 0 {
        p / 1000
    } else {
        -((-p) / 1000)
    }
}

} // verus!
