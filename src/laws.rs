//! Properties that hold of every well-formed match, stated once for readers.
use vstd::prelude::*;
use crate::geometry::quarter_sine;
use crate::actions::{ball_flown, flown_ball_x, flown_ball_y, flown_ball_z, passed};
use crate::phases::{penalised, played, rucked, scrummed};
use crate::setup::scrum_formed;
use crate::model::TICK;
use crate::breakdown::{pack_drift, ruck_gathered, scrum_drifted};
use crate::possession::clamp_world;
use crate::model::{attack_sign, first_with_number, GameState, Phase, Side, CARRY_OFFSET};
use crate::rules::{forward_pass, lemma_heavier_pack_wins_drift};

verus! {

/// At most one player carries the ball; a carried ball lies at its carrier's
/// position shifted by the carry offset towards the carrier's attacking end,
/// and a carried ball has a carrier.
pub proof fn lemma_single_carrier(g: GameState)
    requires
        g.wf(),
    ensures
        forall|s1: Side, i: int, s2: Side, j: int|
            #[trigger] g.carries(s1, i) && #[trigger] g.carries(s2, j) ==> s1 == s2 && i == j,
        forall|s: Side, i: int| #[trigger] g.carries(s, i) ==> {
            &&& g.ball.is_carried
            &&& g.ball.x == g.roster(s)[i].x + CARRY_OFFSET * attack_sign(g.field.home_direction_try, s)
            &&& g.ball.y == g.roster(s)[i].y
        },
        g.ball.is_carried ==> exists|s: Side, i: int| #[trigger] g.carries(s, i),
{
}

/// A ball in flight is not carried, and the ball is never below the ground.
pub proof fn lemma_flight_is_loose(g: GameState)
    requires
        g.wf(),
    ensures
        g.ball_throw.active ==> !g.ball.is_carried,
        g.ball.z >= 0,
{
}

/// Every quarter-turn sine past zero degrees is positive.
proof fn lemma_quarter_sine_positive(k: u32)
    requires
        1 <= k <= 90,
    ensures
        quarter_sine(k) > 0,
{
}

/// For the home side attacking north, a pass aimed strictly between 270 and
/// 90 degrees (through 0) goes forward, so the pass is refused and a scrum
/// is awarded to the other side.
pub proof fn lemma_forward_pass_north(direction: int)
    requires
        (270 < direction < 360) || (0 < direction < 90),
    ensures
        attack_sign('N', Side::Home) == 1,
        forward_pass(attack_sign('N', Side::Home), direction),
{
    if direction < 90 {
        assert((direction + 90) % 360 == direction + 90);
        lemma_quarter_sine_positive((90 - direction) as u32);
    } else {
        assert((direction + 90) % 360 == direction - 270);
        lemma_quarter_sine_positive((direction - 270) as u32);
    }
}

/// The home side attacking north passes towards a direction strictly
/// between 270 and 90 degrees (through 0): the pass never leaves the hand,
/// the batch stops, and a scrum goes to the away side.
pub proof fn lemma_forward_pass_refused(g: GameState, h: GameState, number: usize, direction: u32, forward: bool)
    requires
        passed(g, h, Side::Home, number, direction, forward),
        g.field.home_direction_try == 'N',
        match first_with_number(g.roster(Side::Home), number) {
            Some(i) => g.roster(Side::Home)[i as int].ball_pos,
            None => false,
        },
        (270 < direction < 360) || (0 < direction < 90),
    ensures
        forward,
        h.state.phase == Phase::Scrum,
        h.state.team == Side::Away,
        h.ball_free(),
{
    lemma_forward_pass_north(direction as int);
}

/// A pickup attempt at a ruck while a defender stands offside is refused
/// with a penalty to the side in possession; nobody gathers the ball.
pub proof fn lemma_offside_blocks_pickup(g: GameState, h: GameState, side: Side, number: usize, penalty: bool, j: int)
    requires
        ruck_gathered(g, h, side, number, penalty),
        g.is_offside(j),
        first_with_number(g.roster(side), number) is Some,
    ensures
        penalty,
        h.state.phase == Phase::Penalty,
        h.state.team == g.state.team,
        h.ball == g.ball,
        h.roster(Side::Home) == g.roster(Side::Home),
        h.roster(Side::Away) == g.roster(Side::Away),
{
}

/// With the home pack heavier, the scrum ball drifts towards the home side
/// (against the home attacking sign) on more than half of the 10000 equally
/// likely rolls: on every roll when home has the put-in, and on every roll
/// up to 5000 (5001 rolls) when away has it and the weight gap is more than
/// a fortieth of the total weight.
pub proof fn lemma_heavier_home_pack_drift(team: Side, w_h: int, w_a: int, sign_home: int, roll: int)
    requires
        0 <= w_a < w_h,
        sign_home == 1 || sign_home == -1,
        0 <= roll < 10000,
        team == Side::Home || (40 * (w_h - w_a) > w_h + w_a && roll <= 5000),
    ensures
        pack_drift(team, w_h, w_a, if team == Side::Home { sign_home } else { -sign_home }, roll) == -500 * sign_home,
{
    if team == Side::Home {
        lemma_heavier_pack_wins_drift(w_h, w_a, sign_home, roll);
    } else {
        lemma_heavier_pack_wins_drift(w_a, w_h, -sign_home, roll);
    }
}

/// Every processed batch advances the clock by exactly one tick, whatever
/// its commands: open play (even when a forward pass ends it early), scrum,
/// ruck and penalty alike.
pub proof fn lemma_clock_ticks(g: GameState, h: GameState, input: &str)
    requires
        played(g, h, input) || scrummed(g, h, input) || rucked(g, h, input) || penalised(g, h),
    ensures
        h.time == g.time + TICK,
{
}

/// Once a scrum is set, nobody carries the ball: it lies on the ground half
/// a metre behind the scrum point on the side of the put-in, and no flight
/// is armed.
pub proof fn lemma_scrum_ball_is_loose(g: GameState, h: GameState, team: Side, x: i64, y: i64)
    requires
        g.wf(),
        scrum_formed(g, h, team, x, y),
    ensures
        !h.ball.is_carried,
        forall|s: Side, i: int| !#[trigger] h.carries(s, i),
        h.ball.z == 0,
        h.ball.y == h.state.y,
        h.ball.x == h.state.x - CARRY_OFFSET * attack_sign(g.field.home_direction_try, team),
        !h.ball_throw.active,
{
    let sp = g.scrum_point_of(x as int, y as int);
    assert(-10_000 <= sp.0 <= 400_000_000);
    assert(-10_000 <= sp.1 <= 400_000_000);
}

/// A ball in flight that reaches or crosses the ground stops there: its
/// height is clamped to zero, the flight ends, and the landing point (the
/// planar position after the tick's movement) is the new reference point.
pub proof fn lemma_landing(g: GameState, h: GameState)
    requires
        ball_flown(g, h),
        g.ball_throw.active,
        flown_ball_z(g) <= 0,
    ensures
        h.ball.z == 0,
        !h.ball_throw.active,
        h.ball.x == flown_ball_x(g),
        h.ball.y == flown_ball_y(g),
        h.state.x == h.ball.x,
        h.state.y == h.ball.y,
{
}

/// In a scrum where the home side has the put-in and pushes more weight,
/// the loose ball drifts back towards the home side by half a metre,
/// whatever the roll.
pub proof fn lemma_home_put_in_drift(g: GameState, h: GameState, w_h: u64, w_a: u64)
    requires
        scrum_drifted(g, h, w_h, w_a),
        g.state.team == Side::Home,
        w_h > w_a,
        !g.ball.is_carried,
    ensures
        h.ball.x == clamp_world(g.ball.x - 500 * attack_sign(g.field.home_direction_try, Side::Home)),
        h.ball.y == g.ball.y,
        h.state == g.state,
{
    let roll = choose|roll: int| 0 <= roll < 10000 && h.ball.x == clamp_world(
        g.ball.x + #[trigger] pack_drift(Side::Home, w_h as int, w_a as int, g.sign(Side::Home), roll));
    lemma_heavier_pack_wins_drift(w_h as int, w_a as int, g.sign(Side::Home), roll);
}

} // verus!
