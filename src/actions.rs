//! What one command does to a player and the ball: running, ball flight,
//! loose-ball pickup, kicking and tackling.
use vstd::prelude::*;
use crate::dice::roll_below;
use crate::geometry::{cosine, dist_sq, distance_sq, scaled, sine};
use crate::model::{
    squads_kept,
    coord_ok, first_with_number, player_ok, roster_ok, Ball, GameState, Phase, Player,
    Side, State, CARRY_OFFSET, GRAVITY_STEP, MAX_BALL_SPEED, WORLD,
};
use crate::motion::{
    displacement, flight_distance, flight_step, launch, launch_speed, launch_speed_of,
    launch_velocity, step_length, PASS_DIST, PASS_HEIGHT, WALK_SPEED,
};
use crate::possession::{clamp_coord, clamp_world, handed_to, moved, without_ball};
use crate::setup::scrum_formed;
use crate::rules::{
    weather_spoils,
    forward_pass, is_forward_pass, kick_launch, kick_result, pickup_spoiled, tackle_succeeds,
};

verus! {

/// Highest ball that a player can still gather, in millimetres.
pub const PICKUP_HEIGHT: i64 = 3500;
/// A player gathers a ball closer than this, in millimetres.
pub const PICKUP_RANGE: i64 = 1000;
/// Reach of the arms above a player's height, in centimetres.
pub const ARM_REACH_CM: u64 = 50;
/// A tackler reaches a carrier closer than this, in millimetres.
pub const TACKLE_RANGE: i64 = 1200;
/// Contest radius of a scrum or ruck, in millimetres.
pub const SCRUM_SIZE: i64 = 4200;

/// The run or walk displacement of `p` towards `direction` for one tick.
pub open spec fn run_offset(p: Player, direction: int, running: bool) -> (int, int) {
    let speed = if running { p.speed as int } else { WALK_SPEED as int };
    (scaled(step_length(speed), cosine(direction)), scaled(step_length(speed), sine(direction)))
}

/// The ball and flight record after one tick of flight.
pub open spec fn flown_ball_x(g: GameState) -> int {
    clamp_world(g.ball.x + flight_step(g.ball_throw.vx as int))
}

pub open spec fn flown_ball_y(g: GameState) -> int {
    clamp_world(g.ball.y + flight_step(g.ball_throw.vy as int))
}

pub open spec fn flown_ball_z(g: GameState) -> int {
    g.ball.z + flight_step(g.ball_throw.vz as int)
}

/// Player `i` of `side` can gather the loose ball.
pub open spec fn can_gather(g: GameState, side: Side, i: int) -> bool {
    &&& 0 <= i < g.roster(side).len()
    &&& dist_sq(g.roster(side)[i].x as int, g.roster(side)[i].y as int, g.ball.x as int, g.ball.y as int)
        < PICKUP_RANGE * PICKUP_RANGE
    &&& g.ball.z <= g.roster(side)[i].size * 10 + ARM_REACH_CM * 10
}

impl GameState {
    /// Moves the first player of `side` wearing `number` one tick towards
    /// `direction` degrees, at their speed when running or at walking speed;
    /// a ball they carry moves with them. Nothing happens when no player wears
    /// that number.
    pub fn run(&mut self, side: Side, number: usize, direction: u32, is_running: bool)
        requires
            old(self).wf(),
        ensures
            final(self).wf(),
            ran(*old(self), *final(self), side, number, direction, is_running),
    {
        match self.find_player(side, number) {
            Some(i) => {
                let p = self.player(side, i);
                let speed = if is_running { p.speed } else { WALK_SPEED };
                let (dx, dy) = displacement(speed, direction);
                self.move_player(side, i, dx, dy);
            },
            None => {},
        }
    }

    /// Runs or walks in a ruck: a held player cannot move.
    pub fn run_ruck(&mut self, side: Side, number: usize, direction: u32, is_running: bool)
        requires
            old(self).wf(),
        ensures
            final(self).wf(),
            ran_in_ruck(*old(self), *final(self), side, number, direction, is_running),
    {
        match self.find_player(side, number) {
            Some(i) => {
                if !self.player(side, i).is_tackle {
                    self.run(side, number, direction, is_running);
                }
            },
            None => {},
        }
    }

    /// Advances a ball in flight by one tick: it moves by its velocity, gravity
    /// slows its climb, the reference point follows it, and on reaching the
    /// ground it stops there and the flight ends.
    pub fn update_ball_velocity(&mut self)
        requires
            old(self).wf(),
        ensures
            final(self).wf(),
            ball_flown(*old(self), *final(self)),
    {
        if self.ball_throw.active {
            let x = clamp_coord(self.ball.x + flight_distance(self.ball_throw.vx));
            let y = clamp_coord(self.ball.y + flight_distance(self.ball_throw.vy));
            let z = self.ball.z + flight_distance(self.ball_throw.vz);
            let vz = if self.ball_throw.vz - GRAVITY_STEP < -MAX_BALL_SPEED {
                -MAX_BALL_SPEED
            } else {
                self.ball_throw.vz - GRAVITY_STEP
            };
            let ghost g0 = *self;
            self.ball.x = x;
            self.ball.y = y;
            self.ball_throw.vz = vz;
            self.state.x = x;
            self.state.y = y;
            if z <= 0 {
                self.ball.z = 0;
                self.ball_throw.active = false;
            } else if z > WORLD {
                self.ball.z = WORLD;
            } else {
                self.ball.z = z;
            }
            assert forall|s: Side, i: int| !#[trigger] self.carries(s, i) by {
                if self.carries(s, i) {
                    assert(g0.carries(s, i));
                }
            }
        }
    }

    /// Whether player `i` of `side` is in reach of the loose ball and not
    /// spoiled by the weather with percentage roll `roll`.
    fn gathers_with(&self, side: Side, i: usize, roll: u64) -> (r: bool)
        requires
            self.wf(),
            i < self.roster(side).len(),
        ensures
            r == (can_gather(*self, side, i as int) && !weather_spoils(roll as int, self.field.weather as int)),
    {
        let p = self.player(side, i);
        assert(crate::model::player_ok(p));
        let d = distance_sq(p.x, p.y, self.ball.x, self.ball.y);
        let r2: i128 = 1_000_000;
        assert(r2 == PICKUP_RANGE * PICKUP_RANGE);
        d < r2
            && self.ball.z <= (p.size * 10 + ARM_REACH_CM * 10) as i64
            && !pickup_spoiled(roll, self.field.weather)
    }

    /// The first player, home side first and each side in roster order, who
    /// is in reach of the loose ball and whose weather roll (`rolls`, one per
    /// player in that order) does not spoil the pickup.
    pub fn pick_gatherer(&self, rolls: &Vec<u64>) -> (r: Option<(Side, usize)>)
        requires
            self.wf(),
            rolls@.len() == self.roster(Side::Home).len() + self.roster(Side::Away).len(),
        ensures
            match r {
                Some((s, i)) => first_gatherer(*self, rolls@, s, i as int),
                None => forall|s: Side, j: int| 0 <= j < self.roster(s).len() ==> !#[trigger] gathers(*self, rolls@, s, j),
            },
    {
        let nh = self.roster_len(Side::Home);
        let na = self.roster_len(Side::Away);
        let mut i: usize = 0;
        while i < nh
            invariant
                self.wf(),
                nh == self.roster(Side::Home).len(),
                na == self.roster(Side::Away).len(),
                rolls@.len() == nh + na,
                i <= nh,
                forall|j: int| 0 <= j < i ==> !#[trigger] gathers(*self, rolls@, Side::Home, j),
            decreases nh - i,
        {
            if self.gathers_with(Side::Home, i, rolls[i]) {
                proof {
                    assert forall|s2: Side, j: int| 0 <= j < self.roster(s2).len()
                        && scan_pos(*self, s2, j) < scan_pos(*self, Side::Home, i as int)
                        implies !#[trigger] gathers(*self, rolls@, s2, j) by {
                        assert(s2 == Side::Home);
                    }
                }
                return Some((Side::Home, i));
            }
            i = i + 1;
        }
        let mut k: usize = 0;
        while k < na
            invariant
                self.wf(),
                nh == self.roster(Side::Home).len(),
                na == self.roster(Side::Away).len(),
                rolls@.len() == nh + na,
                k <= na,
                forall|j: int| 0 <= j < nh ==> !#[trigger] gathers(*self, rolls@, Side::Home, j),
                forall|j: int| 0 <= j < k ==> !#[trigger] gathers(*self, rolls@, Side::Away, j),
            decreases na - k,
        {
            if self.gathers_with(Side::Away, k, rolls[nh + k]) {
                proof {
                    assert forall|s2: Side, j: int| 0 <= j < self.roster(s2).len()
                        && scan_pos(*self, s2, j) < scan_pos(*self, Side::Away, k as int)
                        implies !#[trigger] gathers(*self, rolls@, s2, j) by {
                        if s2 == Side::Away {
                            assert(j < k);
                        }
                    }
                }
                return Some((Side::Away, k));
            }
            k = k + 1;
        }
        proof {
            assert forall|s: Side, j: int| 0 <= j < self.roster(s).len() implies !#[trigger] gathers(*self, rolls@, s, j) by {
                match s {
                    Side::Home => {},
                    Side::Away => {},
                }
            }
        }
        None
    }

    /// Looks for a player to gather a loose ball low enough to catch: one
    /// weather roll is drawn per player, and the first player in reach (home
    /// side first, each in roster order) whose roll does not spoil it
    /// gathers the ball.
    pub fn update_ball_carrie(&mut self, rng: &mut rand::rngs::StdRng)
        requires
            old(self).wf(),
        ensures
            final(self).wf(),
            ball_gathered(*old(self), *final(self)),
    {
        if self.ball.is_carried || self.ball.z > PICKUP_HEIGHT {
            return;
        }
        let n = self.roster_len(Side::Home) + self.roster_len(Side::Away);
        let mut rolls: Vec<u64> = Vec::new();
        while rolls.len() < n
            invariant
                n == self.roster(Side::Home).len() + self.roster(Side::Away).len(),
                rolls@.len() <= n,
                forall|k: int| 0 <= k < rolls@.len() ==> #[trigger] rolls@[k] < 100,
            decreases n - rolls@.len(),
        {
            let r = roll_below(rng, 100);
            rolls.push(r);
        }
        let ghost g0 = *self;
        match self.pick_gatherer(&rolls) {
            Some((s, i)) => {
                proof {
                    assert(gathers(g0, rolls@, s, i as int));
                }
                self.give_ball(s, i);
                assert(gathered_with(g0, rolls@, *self));
            },
            None => {
                assert(gathered_with(g0, rolls@, *self));
            },
        }
        proof {
            if g0.field.weather < 2 && (exists|s: Side, i: int| #[trigger] can_gather(g0, s, i)) {
                let (s, i) = choose|s: Side, i: int| #[trigger] can_gather(g0, s, i);
                assert(gathers(g0, rolls@, s, i));
            }
        }
    }

    /// Index of the first player of `side` carrying the ball.
    pub fn find_carrier(&self, side: Side) -> (r: Option<usize>)
        ensures
            match r {
                Some(j) => self.carries(side, j as int),
                None => forall|j: int| !#[trigger] self.carries(side, j),
            },
    {
        let n = self.roster_len(side);
        let mut j: usize = 0;
        while j < n
            invariant
                n == self.roster(side).len(),
                j <= n,
                forall|k: int| 0 <= k < j ==> !#[trigger] self.carries(side, k),
            decreases n - j,
        {
            if self.player(side, j).ball_pos {
                return Some(j);
            }
            j = j + 1;
        }
        None
    }

    /// Sets the breakdown flags of player `i` of `side`.
    pub(crate) fn mark(&mut self, side: Side, i: usize, is_tackle: bool, is_tackler: bool)
        requires
            old(self).wf(),
            i < old(self).roster(side).len(),
        ensures
            final(self).wf(),
            final(self).roster(side) == old(self).roster(side).update(
                i as int,
                Player { is_tackle, is_tackler, ..old(self).roster(side)[i as int] },
            ),
            final(self).roster(side.opponent()) == old(self).roster(side.opponent()),
            final(self).state == old(self).state,
            final(self).field == old(self).field,
            final(self).time == old(self).time,
            final(self).ball == old(self).ball,
            final(self).ball_throw == old(self).ball_throw,
            squads_kept(*old(self), *final(self)),
    {
        let mut p = self.player(side, i);
        p.is_tackle = is_tackle;
        p.is_tackler = is_tackler;
        self.put_player(side, i, p);
        assert forall|s: Side, j: int| #[trigger] self.carries(s, j) == old(self).carries(s, j)
            && (self.carries(s, j) ==> self.carried_at(s, j) == old(self).carried_at(s, j)) by {
            if s != side {
                assert(s == side.opponent());
            }
        }
        assert forall|s: Side| roster_ok(#[trigger] self.roster(s)) by {
            assert forall|j: int| 0 <= j < self.roster(s).len() implies player_ok(#[trigger] self.roster(s)[j]) by {
                assert(player_ok(old(self).roster(s)[j]));
                if s != side {
                    assert(s == side.opponent());
                }
            }
        }
        assert(roster_ok(self.roster(Side::Home)));
        assert(roster_ok(self.roster(Side::Away)));
        if self.ball.is_carried {
            let ghost (s0, i0) = choose|s: Side, j: int| old(self).carries(s, j);
            assert(self.carries(s0, i0));
        }
    }

    /// Forms a ruck at `(x, y)` for `team`: the ball lies on the ground just
    /// behind the tackled carrier of `carrier_side`, nobody carries it, and
    /// the reference point is the tackle point.
    pub fn set_ruck(&mut self, x: i64, y: i64, team: Side, carrier_side: Side)
        requires
            old(self).wf(),
            coord_ok(x),
            coord_ok(y),
        ensures
            final(self).wf(),
            final(self).ball_free(),
            final(self).state == (State { phase: Phase::Ruck, team, size: SCRUM_SIZE, x, y }),
            final(self).ball == (Ball {
                x: (x - CARRY_OFFSET * old(self).sign(carrier_side)) as i64,
                y,
                z: 0,
                is_carried: false,
            }),
            !final(self).ball_throw.active,
            final(self).ball_throw.vx == old(self).ball_throw.vx,
            final(self).ball_throw.vy == old(self).ball_throw.vy,
            final(self).ball_throw.vz == old(self).ball_throw.vz,
            squads_kept(*old(self), *final(self)),
            forall|s: Side| #[trigger] final(self).roster(s).len() == old(self).roster(s).len(),
            forall|s: Side, i: int| 0 <= i < old(self).roster(s).len() ==>
                #[trigger] final(self).roster(s)[i] == without_ball(old(self).roster(s)[i]),
            final(self).field == old(self).field,
            final(self).time == old(self).time,
    {
        self.release_ball();
        let off = CARRY_OFFSET * self.sign_of(carrier_side);
        self.ball = Ball { x: x - off, y, z: 0, is_carried: false };
        self.ball_throw.active = false;
        self.state = State { phase: Phase::Ruck, team, size: SCRUM_SIZE, x, y };
    }

    /// The player of `side` wearing `number` tries to tackle the carrier, who
    /// must be on the other side and within reach. On a successful roll the
    /// tackled carrier is held, the tackler must release, and a ruck forms at
    /// the carrier's position with possession to the tackler's side.
    pub fn tackle(&mut self, side: Side, number: usize, rng: &mut rand::rngs::StdRng)
        requires
            old(self).wf(),
        ensures
            final(self).wf(),
            tackle_tried(*old(self), *final(self), side, number),
    {
        if !self.ball.is_carried {
            assert forall|i: int, j: int| !#[trigger] tackle_in_reach(*self, side, number, i, j) by {
                if tackle_in_reach(*self, side, number, i, j) {
                    assert(self.carries(side.opponent(), j));
                }
            }
            return;
        }
        match self.find_carrier(side) {
            Some(k) => {
                assert forall|i: int, j: int| !#[trigger] tackle_in_reach(*self, side, number, i, j) by {
                    assert(self.carries(side, k as int));
                }
                return;
            },
            None => {},
        }
        let other = side.other();
        let ghost g0 = *self;
        match self.find_player(side, number) {
            Some(i) => match self.find_carrier(other) {
                Some(j) => {
                    let p = self.player(side, i);
                    let o = self.player(other, j);
                    let d = distance_sq(p.x, p.y, o.x, o.y);
                    proof {
                        assert forall|i2: int, j2: int| #[trigger] tackle_in_reach(g0, side, number, i2, j2) implies i2 == i && j2 == j by {
                            assert(g0.carries(other, j as int));
                            assert(g0.carries(other, j2));
                        }
                    }
                    if d < (TACKLE_RANGE as i128) * (TACKLE_RANGE as i128) {
                        let roll = roll_below(rng, 100);
                        if tackle_succeeds(roll, p.p_tackle) {
                            assert(tackle_in_reach(g0, side, number, i as int, j as int));
                            self.mark(side, i, p.is_tackle, true);
                            let ghost m1 = *self;
                            self.mark(other, j, true, o.is_tackler);
                            let ghost m2 = *self;
                            self.set_ruck(o.x, o.y, side, other);
                            proof {
                                assert forall|s: Side, k: int| 0 <= k < g0.roster(s).len() implies
                                    #[trigger] kept_place(g0.roster(s)[k], self.roster(s)[k]) by {
                                    assert(self.roster(s)[k] == without_ball(m2.roster(s)[k]));
                                    if s == side {
                                        assert(m2.roster(s) == m1.roster(s));
                                    } else {
                                        assert(s == other);
                                        assert(m1.roster(s) == g0.roster(s));
                                    }
                                }
                                assert forall|s: Side| #[trigger] self.roster(s).len() == g0.roster(s).len() by {
                                    if s != side {
                                        assert(s == other);
                                    }
                                }
                            }
                            assert(tackled(g0, *self, side, i as int, j as int));
                        }
                    }
                },
                None => {
                    assert forall|i2: int, j2: int| !#[trigger] tackle_in_reach(g0, side, number, i2, j2) by {
                        if tackle_in_reach(g0, side, number, i2, j2) {
                            assert(g0.carries(other, j2));
                        }
                    }
                },
            },
            None => {},
        }
    }

    /// The player of `side` wearing `number` kicks the ball they carry towards
    /// `direction` degrees at elevation `high` (at most 90). The launch speed
    /// comes from their kicking power; a roll at or above their accuracy turns
    /// the kick by up to ten degrees, tilts it by up to five and takes up to a
    /// fifth of its speed. The ball leaves from the ground.
    pub fn kick(&mut self, side: Side, number: usize, direction: u32, high: u32, rng: &mut rand::rngs::StdRng)
        requires
            old(self).wf(),
        ensures
            final(self).wf(),
            kicked(*old(self), *final(self), side, number, direction, high),
    {
        let elev = if high > 90 { 90 } else { high };
        match self.find_player(side, number) {
            Some(i) => {
                let p = self.player(side, i);
                if p.ball_pos {
                    self.release_ball();
                    self.ball.z = 0;
                    let speed = launch_speed(p.foot);
                    let roll = roll_below(rng, 100);
                    let accurate = roll < p.p_foot;
                    let (dh, dv, dl) = if accurate {
                        (0, 0, 0)
                    } else {
                        (roll_below(rng, 21), roll_below(rng, 11), roll_below(rng, 21))
                    };
                    self.ball_throw = kick_launch(speed, direction, elev, accurate, dh, dv, dl);
                    assert(self.ball_throw == kick_result(
                        launch_speed_of(p.foot as int), direction as int, high as int, p.p_foot as int,
                        roll as int, dh as int, dv as int, dl as int));
                }
            },
            None => {},
        }
    }

    /// The player of `side` wearing `number` passes the ball they carry
    /// towards `direction` degrees. A forward pass does not leave the hand:
    /// a scrum goes to the other side at the passer's position and the result
    /// is `true`. Otherwise the ball flies at the pass speed and elevation.
    pub fn pass(&mut self, side: Side, number: usize, direction: u32) -> (forward: bool)
        requires
            old(self).wf(),
        ensures
            final(self).wf(),
            passed(*old(self), *final(self), side, number, direction, forward),
    {
        match self.find_player(side, number) {
            Some(i) => {
                let p = self.player(side, i);
                if p.ball_pos {
                    let sign = self.sign_of(side);
                    if is_forward_pass(sign, direction) {
                        self.setup_scrum(side.other(), p.x, p.y);
                        return true;
                    }
                    self.release_ball();
                    let speed = launch_speed(PASS_DIST);
                    self.ball_throw = launch_velocity(speed, direction, PASS_HEIGHT);
                }
            },
            None => {},
        }
        false
    }
}

/// Player `i` of `side`, the first wearing `number`, is within reach of the
/// carrier `j` of the other side, and `side` does not carry the ball.
pub open spec fn tackle_in_reach(g: GameState, side: Side, number: usize, i: int, j: int) -> bool {
    &&& 0 <= i < g.roster(side).len()
    &&& first_with_number(g.roster(side), number) == Some(i as usize)
    &&& g.carries(side.opponent(), j)
    &&& forall|k: int| !#[trigger] g.carries(side, k)
    &&& dist_sq(
        g.roster(side)[i].x as int,
        g.roster(side)[i].y as int,
        g.roster(side.opponent())[j].x as int,
        g.roster(side.opponent())[j].y as int,
    ) < TACKLE_RANGE * TACKLE_RANGE
}

/// `h` is `g` after player `i` of `side` tackled carrier `j`.
pub open spec fn tackled(g: GameState, h: GameState, side: Side, i: int, j: int) -> bool {
    let o = g.roster(side.opponent())[j];
    &&& h.state == (State { phase: Phase::Ruck, team: side, size: SCRUM_SIZE, x: o.x, y: o.y })
    &&& h.ball_free()
    &&& h.ball.x == o.x - CARRY_OFFSET * g.sign(side.opponent())
    &&& h.ball.y == o.y
    &&& h.ball.z == 0
    &&& h.roster(side)[i].is_tackler
    &&& h.roster(side.opponent())[j].is_tackle
    &&& forall|s: Side| #[trigger] h.roster(s).len() == g.roster(s).len()
    &&& forall|s: Side, k: int| 0 <= k < g.roster(s).len() ==> #[trigger] kept_place(g.roster(s)[k], h.roster(s)[k])
    &&& h.ball_throw.vx == g.ball_throw.vx && h.ball_throw.vy == g.ball_throw.vy && h.ball_throw.vz == g.ball_throw.vz
}

/// `q` stands where `p` stood and has its number and attributes.
pub open spec fn kept_place(p: Player, q: Player) -> bool {
    &&& q.x == p.x
    &&& q.y == p.y
    &&& q.number == p.number
    &&& q.size == p.size
    &&& q.pound == p.pound
    &&& q.speed == p.speed
    &&& q.foot == p.foot
    &&& q.p_foot == p.p_foot
    &&& q.p_tackle == p.p_tackle
}

/// `h` is `g` after the first player of `side` wearing `number` ran (or walked) one tick towards `direction`.
pub open spec fn ran(g: GameState, h: GameState, side: Side, number: usize, direction: u32, is_running: bool) -> bool {
    &&& (match crate::model::first_with_number(g.roster(side), number) {
        Some(i) => {
            let p = g.roster(side)[i as int];
            let d = run_offset(p, direction as int, is_running);
            &&& h.roster(side) == g.roster(side).update(i as int, moved(p, d.0, d.1))
            &&& h.roster(side.opponent()) == g.roster(side.opponent())
            &&& (p.ball_pos ==> h.carried_at(side, i as int))
            &&& (!p.ball_pos ==> h.ball == g.ball)
            &&& h.ball.z == g.ball.z
            &&& h.ball.is_carried == g.ball.is_carried
            &&& h.state == g.state
            &&& h.ball_throw == g.ball_throw
        },
        None => h == g,
    })
    &&& (h.time == g.time)
    &&& (h.field == g.field)
    &&& squads_kept(g, h)
}

/// `h` is `g` after a run or walk in a ruck, where a held player stays put.
pub open spec fn ran_in_ruck(g: GameState, h: GameState, side: Side, number: usize, direction: u32, is_running: bool) -> bool {
    &&& squads_kept(g, h)
    &&& (h.time == g.time)
    &&& (h.field == g.field)
    &&& (h.state == g.state)
    &&& (match crate::model::first_with_number(g.roster(side), number) {
        Some(i) => {
            let p = g.roster(side)[i as int];
            let d = run_offset(p, direction as int, is_running);
            if p.is_tackle {
                h == g
            } else {
                &&& h.roster(side) == g.roster(side).update(i as int, moved(p, d.0, d.1))
                &&& h.roster(side.opponent()) == g.roster(side.opponent())
                &&& h.ball_throw == g.ball_throw
                &&& (p.ball_pos ==> h.carried_at(side, i as int) && h.ball.z == g.ball.z && h.ball.is_carried == g.ball.is_carried)
                &&& (!p.ball_pos ==> h.ball == g.ball)
            }
        },
        None => h == g,
    })
}

/// `h` is `g` after one tick of ball flight.
pub open spec fn ball_flown(g: GameState, h: GameState) -> bool {
    &&& squads_kept(g, h)
    &&& (g.ball_throw.active ==> {
        &&& h.ball.x == flown_ball_x(g)
        &&& h.ball.y == flown_ball_y(g)
        &&& h.ball.z == if flown_ball_z(g) <= 0 { 0 } else if flown_ball_z(g) > WORLD { WORLD as int } else { flown_ball_z(g) }
        &&& h.ball_throw.active == (flown_ball_z(g) > 0)
        &&& h.ball_throw.vx == g.ball_throw.vx
        &&& h.ball_throw.vy == g.ball_throw.vy
        &&& h.ball_throw.vz == if g.ball_throw.vz - GRAVITY_STEP < -MAX_BALL_SPEED { -MAX_BALL_SPEED as int } else { g.ball_throw.vz - GRAVITY_STEP }
        &&& h.state.x == h.ball.x
        &&& h.state.y == h.ball.y
    })
    &&& (!g.ball_throw.active ==> h == g)
    &&& (h.roster(Side::Home) == g.roster(Side::Home))
    &&& (h.roster(Side::Away) == g.roster(Side::Away))
    &&& (h.ball.is_carried == g.ball.is_carried)
    &&& (h.state.phase == g.state.phase)
    &&& (h.state.team == g.state.team)
    &&& (h.state.size == g.state.size)
    &&& (h.time == g.time)
    &&& (h.field == g.field)
}

/// `h` is `g` after the loose-ball pickup check, whatever the weather rolls were.
pub open spec fn ball_gathered(g: GameState, h: GameState) -> bool {
    &&& (g.ball.is_carried || g.ball.z > PICKUP_HEIGHT ==> h == g)
    &&& (!g.ball.is_carried && g.ball.z <= PICKUP_HEIGHT ==> exists|rolls: Seq<u64>|
        rolls.len() == g.roster(Side::Home).len() + g.roster(Side::Away).len()
        && (forall|k: int| 0 <= k < rolls.len() ==> #[trigger] rolls[k] < 100)
        && #[trigger] gathered_with(g, rolls, h))
    &&& (!g.ball.is_carried && g.ball.z <= PICKUP_HEIGHT && g.field.weather < 2
        && (exists|s: Side, i: int| #[trigger] can_gather(g, s, i))
        ==> h.ball.is_carried)
}

/// Position of player `i` of `side` in the pickup scan: the home side
/// first, each side in roster order.
pub open spec fn scan_pos(g: GameState, side: Side, i: int) -> int {
    if side == Side::Home {
        i
    } else {
        g.roster(Side::Home).len() + i
    }
}

/// Player `i` of `side` is in reach and their weather roll in `rolls` does
/// not spoil the pickup.
pub open spec fn gathers(g: GameState, rolls: Seq<u64>, side: Side, i: int) -> bool {
    &&& can_gather(g, side, i)
    &&& !weather_spoils(rolls[scan_pos(g, side, i)] as int, g.field.weather as int)
}

/// Player `i` of `side` is the first in scan order who gathers.
pub open spec fn first_gatherer(g: GameState, rolls: Seq<u64>, side: Side, i: int) -> bool {
    &&& gathers(g, rolls, side, i)
    &&& forall|s2: Side, j: int| 0 <= j < g.roster(s2).len() && scan_pos(g, s2, j) < scan_pos(g, side, i)
        ==> !#[trigger] gathers(g, rolls, s2, j)
}

/// `h` is `g` after the pickup scan with these weather rolls: the first
/// gatherer holds the ball, or nothing changes when nobody gathers.
pub open spec fn gathered_with(g: GameState, rolls: Seq<u64>, h: GameState) -> bool {
    if exists|s: Side, i: int| #[trigger] first_gatherer(g, rolls, s, i) {
        exists|s: Side, i: int| #[trigger] first_gatherer(g, rolls, s, i) && handed_to(g, h, s, i, g.state.phase)
    } else {
        h == g
    }
}

/// `h` is `g` after the player of `side` wearing `number` tried to tackle, whatever the roll was.
pub open spec fn tackle_tried(g: GameState, h: GameState, side: Side, number: usize) -> bool {
    &&& squads_kept(g, h)
    &&& (h.time == g.time)
    &&& (h.field == g.field)
    &&& (h == g || exists|i: int, j: int| #[trigger] tackle_in_reach(g, side, number, i, j)
        && tackled(g, h, side, i, j))
    &&& (forall|i: int, j: int| #[trigger] tackle_in_reach(g, side, number, i, j)
        && g.roster(side)[i].p_tackle >= 100 ==> tackled(g, h, side, i, j))
    &&& (forall|i: int, j: int| #[trigger] tackle_in_reach(g, side, number, i, j)
        && g.roster(side)[i].p_tackle == 0 ==> h == g)
}

/// `h` is `g` after the player of `side` wearing `number` kicked, whatever the rolls were.
pub open spec fn kicked(g: GameState, h: GameState, side: Side, number: usize, direction: u32, high: u32) -> bool {
    &&& squads_kept(g, h)
    &&& (h.time == g.time)
    &&& (h.field == g.field)
    &&& (h.state == g.state)
    &&& (match first_with_number(g.roster(side), number) {
        Some(i) => if g.roster(side)[i as int].ball_pos {
            let p = g.roster(side)[i as int];
            &&& h.ball_free()
            &&& h.ball == (Ball { z: 0, is_carried: false, ..g.ball })
            &&& forall|s: Side| #[trigger] h.roster(s).len() == g.roster(s).len()
            &&& forall|s: Side, k: int| 0 <= k < g.roster(s).len() ==> #[trigger] h.roster(s)[k] == without_ball(g.roster(s)[k])
            &&& exists|roll: int, dh: int, dv: int, dl: int|
                0 <= roll < 100 && 0 <= dh < 21 && 0 <= dv < 11 && 0 <= dl < 21
                && h.ball_throw == #[trigger] kick_result(
                    launch_speed_of(p.foot as int), direction as int, high as int, p.p_foot as int, roll, dh, dv, dl)
        } else {
            h == g
        },
        None => h == g,
    })
}

/// `h` is `g` after the player of `side` wearing `number` passed; `forward` tells whether it was refused as forward.
pub open spec fn passed(g: GameState, h: GameState, side: Side, number: usize, direction: u32, forward: bool) -> bool {
    &&& squads_kept(g, h)
    &&& (h.time == g.time)
    &&& (h.field == g.field)
    &&& (match first_with_number(g.roster(side), number) {
        Some(i) => if g.roster(side)[i as int].ball_pos {
            let p = g.roster(side)[i as int];
            if forward_pass(g.sign(side), direction as int) {
                &&& forward
                &&& scrum_formed(g, h, side.opponent(), p.x, p.y)
            } else {
                &&& !forward
                &&& h.ball_free()
                &&& h.ball == (Ball { is_carried: false, ..g.ball })
                &&& forall|s: Side| #[trigger] h.roster(s).len() == g.roster(s).len()
                &&& forall|s: Side, k: int| 0 <= k < g.roster(s).len() ==> #[trigger] h.roster(s)[k] == without_ball(g.roster(s)[k])
                &&& h.ball_throw == launch(launch_speed_of(PASS_DIST as int), direction as int, PASS_HEIGHT as int)
                &&& h.state == g.state
            }
        } else {
            !forward && h == g
        },
        None => !forward && h == g,
    })
}

} // verus!
