//! Scrum and ruck contests: gathering at the base, offside, the tackler's
//! release, the push for the ball, the drift of the scrum ball.
use vstd::prelude::*;
use crate::actions::{PICKUP_RANGE, SCRUM_SIZE};
use crate::dice::roll_below;
use crate::geometry::{dist_sq, distance_sq};
use crate::model::{first_with_number, lemma_wf_keeps, lemma_wf_loose_ball, player_ok, GameState, Phase, Player, Side, MAX_POUND};
use crate::possession::{clamp_coord, handed_to};
use crate::possession::clamp_world;
use crate::rules::{scrum_drift, scrum_drift_of};

verus! {

/// How far ahead of the reference point the offside line lies, in millimetres.
pub const OFFSIDE_MARGIN: i64 = 1000;
/// A tackler closer than this to the tackle point has not released, in millimetres.
pub const RELEASE_RANGE: i64 = 1000;

impl GameState {
    /// Squared distance from player `i` of `side` to the reference point.
    pub open spec fn dist_to_mark(self, side: Side, i: int) -> int {
        dist_sq(self.roster(side)[i].x as int, self.roster(side)[i].y as int, self.state.x as int, self.state.y as int)
    }

    /// Squared distance from player `i` of `side` to the ball.
    pub open spec fn dist_to_ball(self, side: Side, i: int) -> int {
        dist_sq(self.roster(side)[i].x as int, self.roster(side)[i].y as int, self.ball.x as int, self.ball.y as int)
    }

    /// Defender `j` (of the side without possession) stands outside the
    /// contest radius on the wrong side of the offside line.
    pub open spec fn is_offside(self, j: int) -> bool {
        let d = self.state.team.opponent();
        let p = self.roster(d)[j];
        &&& 0 <= j < self.roster(d).len()
        &&& self.dist_to_mark(d, j) >= self.state.size * self.state.size
        &&& if self.sign(self.state.team) == 1 {
            p.x < self.state.x + OFFSIDE_MARGIN
        } else {
            p.x > self.state.x - OFFSIDE_MARGIN
        }
    }

    /// Player `i` of `side` pushes in the contest: inside the radius and not held.
    pub open spec fn in_contest(self, side: Side, i: int) -> bool {
        &&& 0 <= i < self.roster(side).len()
        &&& self.dist_to_mark(side, i) < self.state.size * self.state.size
        &&& !self.roster(side)[i].is_tackle
    }

    /// Total weight of the first `n` players of `side` that push in the contest.
    pub open spec fn contest_weight(self, side: Side, n: int) -> int
        decreases n,
    {
        if n <= 0 {
            0
        } else {
            self.contest_weight(side, n - 1) + if self.in_contest(side, n - 1) {
                self.roster(side)[n - 1].pound as int
            } else {
                0int
            }
        }
    }

    /// Player `j` of `side` is the first of those nearest to the reference
    /// point among the players of `side` in the contest.
    pub open spec fn nearest_in_contest(self, side: Side, j: int) -> bool {
        &&& self.in_contest(side, j)
        &&& forall|k: int| #[trigger] self.in_contest(side, k) ==> self.dist_to_mark(side, j) <= self.dist_to_mark(side, k)
        &&& forall|k: int| 0 <= k < j && #[trigger] self.in_contest(side, k) ==> self.dist_to_mark(side, j) < self.dist_to_mark(side, k)
    }

    /// Player `i` of `side` flagged as tackler is still at the tackle point.
    pub open spec fn tackler_stays(self, side: Side, i: int) -> bool {
        &&& 0 <= i < self.roster(side).len()
        &&& self.roster(side)[i].is_tackler
        &&& self.dist_to_mark(side, i) < RELEASE_RANGE * RELEASE_RANGE
    }

    /// Whether a defender is offside at the ruck.
    pub fn check_offside(&self) -> (r: bool)
        requires
            self.wf(),
        ensures
            r == exists|j: int| #[trigger] self.is_offside(j),
    {
        let d = self.state.team.other();
        let sign = self.sign_of(self.state.team);
        let n = self.roster_len(d);
        proof {
            assert(0 <= self.state.size * self.state.size <= 1_000_000_000 * 1_000_000_000) by (nonlinear_arith)
                requires 0 <= self.state.size <= 1_000_000_000;
        }
        let size2: i128 = (self.state.size as i128) * (self.state.size as i128);
        let mut j: usize = 0;
        while j < n
            invariant
                self.wf(),
                d == self.state.team.opponent(),
                sign == self.sign(self.state.team),
                n == self.roster(d).len(),
                size2 == self.state.size * self.state.size,
                j <= n,
                forall|k: int| 0 <= k < j ==> !#[trigger] self.is_offside(k),
            decreases n - j,
        {
            let p = self.player(d, j);
            assert(player_ok(p));
            let dist = distance_sq(p.x, p.y, self.state.x, self.state.y);
            let beyond = if sign == 1 {
                p.x < self.state.x + OFFSIDE_MARGIN
            } else {
                p.x > self.state.x - OFFSIDE_MARGIN
            };
            if dist >= size2 && beyond {
                assert(self.is_offside(j as int));
                return true;
            }
            j = j + 1;
        }
        false
    }

    /// Awards a penalty to `team` at the current reference point.
    pub fn award_penalty(&mut self, team: Side)
        requires
            old(self).wf(),
        ensures
            final(self).wf(),
            final(self).state.phase == Phase::Penalty,
            final(self).state.team == team,
            final(self).state.x == old(self).state.x,
            final(self).state.y == old(self).state.y,
            final(self).state.size == old(self).state.size,
            final(self).roster(Side::Home) == old(self).roster(Side::Home),
            final(self).roster(Side::Away) == old(self).roster(Side::Away),
            final(self).ball == old(self).ball,
            final(self).ball_throw == old(self).ball_throw,
            final(self).field == old(self).field,
            final(self).time == old(self).time,
    {
        let ghost g0 = *self;
        self.state.phase = Phase::Penalty;
        self.state.team = team;
        proof {
            lemma_wf_keeps(g0, *self);
        }
    }

    /// A scrum-half or number eight of `side` wearing `number` picks the ball
    /// at the base of the scrum when it is in reach; play resumes.
    pub fn try_catch_ball_in_scrum(&mut self, side: Side, number: usize)
        requires
            old(self).wf(),
        ensures
            final(self).wf(),
            scrum_gathered(*old(self), *final(self), side, number),
    {
        match self.find_player(side, number) {
            Some(i) => {
                let p = self.player(side, i);
                assert(player_ok(p));
                let d = distance_sq(p.x, p.y, self.ball.x, self.ball.y);
                if d < (PICKUP_RANGE as i128) * (PICKUP_RANGE as i128) {
                    self.give_ball(side, i);
                    let ghost g1 = *self;
                    self.state.phase = Phase::Play;
                    proof {
                        lemma_wf_keeps(g1, *self);
                    }
                }
            },
            None => {},
        }
    }

    /// A player of `side` wearing `number` tries to pick the ball from the
    /// ruck. An offside defender turns the attempt into a penalty for the
    /// side in possession (result `true`); otherwise a player within reach of
    /// the ball and clear of the tackle point gathers it and play resumes.
    pub fn try_catch_ball_in_ruck(&mut self, side: Side, number: usize) -> (penalty: bool)
        requires
            old(self).wf(),
        ensures
            final(self).wf(),
            ruck_gathered(*old(self), *final(self), side, number, penalty),
    {
        let offside = self.check_offside();
        match self.find_player(side, number) {
            Some(i) => {
                if offside {
                    let team = self.state.team;
                    self.award_penalty(team);
                    return true;
                }
                let p = self.player(side, i);
                assert(player_ok(p));
                let db = distance_sq(p.x, p.y, self.ball.x, self.ball.y);
                let dm = distance_sq(p.x, p.y, self.state.x, self.state.y);
                let r2 = (PICKUP_RANGE as i128) * (PICKUP_RANGE as i128);
                if db < r2 && dm >= r2 {
                    self.give_ball(side, i);
                    let ghost g1 = *self;
                    self.state.phase = Phase::Play;
                    proof {
                        lemma_wf_keeps(g1, *self);
                    }
                }
            },
            None => {},
        }
        false
    }

    /// Clears the flag of every tackler of `side` who has left the tackle
    /// point; the result tells whether one is still there.
    fn clear_released(&mut self, side: Side) -> (stays: bool)
        requires
            old(self).wf(),
        ensures
            final(self).wf(),
            stays == exists|i: int| #[trigger] old(self).tackler_stays(side, i),
            final(self).roster(side).len() == old(self).roster(side).len(),
            forall|i: int| 0 <= i < old(self).roster(side).len() ==> #[trigger] final(self).roster(side)[i] == released(*old(self), side, i),
            final(self).roster(side.opponent()) == old(self).roster(side.opponent()),
            final(self).state == old(self).state,
            final(self).ball == old(self).ball,
            final(self).ball_throw == old(self).ball_throw,
            final(self).field == old(self).field,
            final(self).time == old(self).time,
    {
        let n = self.roster_len(side);
        let mut stays = false;
        let r2: i128 = 1_000_000;
        assert(r2 == RELEASE_RANGE * RELEASE_RANGE);
        let mut i: usize = 0;
        while i < n
            invariant
                self.wf(),
                n == old(self).roster(side).len(),
                i <= n,
                self.roster(side).len() == n,
                r2 == RELEASE_RANGE * RELEASE_RANGE,
                stays == exists|k: int| 0 <= k < i && #[trigger] old(self).tackler_stays(side, k),
                forall|k: int| 0 <= k < i ==> #[trigger] self.roster(side)[k] == released(*old(self), side, k),
                forall|k: int| i <= k < n ==> #[trigger] self.roster(side)[k] == old(self).roster(side)[k],
                self.roster(side.opponent()) == old(self).roster(side.opponent()),
                self.state == old(self).state,
                self.ball == old(self).ball,
                self.ball_throw == old(self).ball_throw,
                self.field == old(self).field,
                self.time == old(self).time,
            decreases n - i,
        {
            let p = self.player(side, i);
            assert(p == old(self).roster(side)[i as int]);
            if p.is_tackler {
                assert(player_ok(p));
                let d = distance_sq(p.x, p.y, self.state.x, self.state.y);
                if d < r2 {
                    stays = true;
                    assert(old(self).tackler_stays(side, i as int));
                } else {
                    self.set_tackler_flag(side, i);
                }
            }
            i = i + 1;
        }
        stays
    }

    /// Clears the tackler flag of player `i` of `side`.
    fn set_tackler_flag(&mut self, side: Side, i: usize)
        requires
            old(self).wf(),
            i < old(self).roster(side).len(),
        ensures
            final(self).wf(),
            final(self).roster(side) == old(self).roster(side).update(
                i as int,
                Player { is_tackler: false, ..old(self).roster(side)[i as int] },
            ),
            final(self).roster(side.opponent()) == old(self).roster(side.opponent()),
            final(self).state == old(self).state,
            final(self).field == old(self).field,
            final(self).time == old(self).time,
            final(self).ball == old(self).ball,
            final(self).ball_throw == old(self).ball_throw,
    {
        let p = self.player(side, i);
        self.mark(side, i, p.is_tackle, false);
    }

    /// After a ruck tick: a tackler still at the tackle point concedes a
    /// penalty to the other side (home tacklers are looked at first); the
    /// flag of every tackler who has left is cleared.
    pub fn check_tackler(&mut self)
        requires
            old(self).wf(),
        ensures
            final(self).wf(),
            tackler_checked(*old(self), *final(self)),
    {
        let h = self.clear_released(Side::Home);
        let ghost mid = *self;
        let a = self.clear_released(Side::Away);
        let ghost cleared = *self;
        if h {
            self.award_penalty(Side::Away);
        } else if a {
            self.award_penalty(Side::Home);
        }
        proof {
            assert forall|s: Side, i: int| 0 <= i < old(self).roster(s).len() implies #[trigger] self.roster(s)[i] == released(*old(self), s, i) by {
                match s {
                    Side::Home => {
                        assert(mid.roster(Side::Home)[i] == released(*old(self), s, i));
                    },
                    Side::Away => {
                        assert(cleared.roster(Side::Away)[i] == released(mid, s, i));
                        assert(mid.roster(Side::Away) == old(self).roster(Side::Away));
                    },
                }
            }
            assert(forall|s: Side| #[trigger] self.roster(s).len() == old(self).roster(s).len()) by {
                assert(self.roster(Side::Home).len() == old(self).roster(Side::Home).len());
                assert(self.roster(Side::Away).len() == old(self).roster(Side::Away).len());
            }
            if !h && a {
                let i0 = choose|i: int| #[trigger] mid.tackler_stays(Side::Away, i);
                assert(old(self).tackler_stays(Side::Away, i0));
            }
            if !h && !a {
                assert forall|s: Side, i: int| !#[trigger] old(self).tackler_stays(s, i) by {
                    match s {
                        Side::Home => {},
                        Side::Away => { assert(!mid.tackler_stays(Side::Away, i)); },
                    }
                }
            }
        }
    }

    /// Total weight of the players of `side` pushing in the contest.
    pub fn contest_total(&self, side: Side) -> (w: u64)
        requires
            self.wf(),
        ensures
            w == self.contest_weight(side, self.roster(side).len() as int),
            w <= 15 * MAX_POUND,
    {
        let n = self.roster_len(side);
        let size2: i128 = self.size_sq();
        let mut w: u64 = 0;
        let mut i: usize = 0;
        while i < n
            invariant
                self.wf(),
                n == self.roster(side).len(),
                n <= 15,
                size2 == self.state.size * self.state.size,
                i <= n,
                w == self.contest_weight(side, i as int),
                w <= i * MAX_POUND,
            decreases n - i,
        {
            let p = self.player(side, i);
            assert(player_ok(p));
            let d = distance_sq(p.x, p.y, self.state.x, self.state.y);
            if d < size2 && !p.is_tackle {
                w = w + p.pound;
            }
            i = i + 1;
        }
        w
    }

    /// The square of the contest radius.
    fn size_sq(&self) -> (r: i128)
        requires
            self.wf(),
        ensures
            r == self.state.size * self.state.size,
    {
        proof {
            assert(0 <= self.state.size * self.state.size <= 1_000_000_000 * 1_000_000_000) by (nonlinear_arith)
                requires 0 <= self.state.size <= 1_000_000_000;
        }
        (self.state.size as i128) * (self.state.size as i128)
    }

    /// The first of the players of `side` in the contest nearest to the
    /// reference point, if any is in the contest.
    pub fn nearest_contestant(&self, side: Side) -> (r: Option<usize>)
        requires
            self.wf(),
        ensures
            match r {
                Some(j) => self.nearest_in_contest(side, j as int),
                None => forall|k: int| !#[trigger] self.in_contest(side, k),
            },
    {
        let n = self.roster_len(side);
        let size2 = self.size_sq();
        let mut best: Option<usize> = None;
        let mut best_d: i128 = 0;
        let mut i: usize = 0;
        while i < n
            invariant
                self.wf(),
                n == self.roster(side).len(),
                size2 == self.state.size * self.state.size,
                i <= n,
                match best {
                    Some(b) => {
                        &&& b < i
                        &&& self.in_contest(side, b as int)
                        &&& best_d == self.dist_to_mark(side, b as int)
                        &&& forall|k: int| 0 <= k < i && #[trigger] self.in_contest(side, k) ==> best_d <= self.dist_to_mark(side, k)
                        &&& forall|k: int| 0 <= k < b && #[trigger] self.in_contest(side, k) ==> best_d < self.dist_to_mark(side, k)
                    },
                    None => forall|k: int| 0 <= k < i ==> !#[trigger] self.in_contest(side, k),
                },
            decreases n - i,
        {
            let p = self.player(side, i);
            assert(player_ok(p));
            let d = distance_sq(p.x, p.y, self.state.x, self.state.y);
            if d < size2 && !p.is_tackle {
                match best {
                    Some(b) => {
                        if d < best_d {
                            best = Some(i);
                            best_d = d;
                        }
                    },
                    None => {
                        best = Some(i);
                        best_d = d;
                    },
                }
            }
            i = i + 1;
        }
        best
    }

    /// After a ruck tick: when the side without possession pushes more weight
    /// in the contest, its player nearest to the tackle point wins the ball
    /// and play resumes there.
    pub fn check_scrap(&mut self)
        requires
            old(self).wf(),
        ensures
            final(self).wf(),
            scrap_checked(*old(self), *final(self)),
    {
        let t = self.state.team;
        let o = t.other();
        let w_in = self.contest_total(t);
        let w_front = self.contest_total(o);
        if w_front > w_in {
            match self.nearest_contestant(o) {
                Some(j) => {
                    let ghost g0 = *self;
                    self.give_ball(o, j);
                    let ghost g1 = *self;
                    self.state.phase = Phase::Play;
                    proof {
                        lemma_wf_keeps(g1, *self);
                        assert(g0.nearest_in_contest(o, j as int));
                        assert(handed_to(g0, *self, o, j as int, Phase::Play));
                    }
                },
                None => {
                    proof {
                        lemma_weight_needs_contestant(*self, o, self.roster(o).len() as int);
                    }
                },
            }
        }
    }

    /// After a scrum tick the loose ball drifts half a metre: back towards
    /// the side with the put-in, unless the other pack is heavier and the
    /// roll (in basis points) reverses it. A carried ball does not drift.
    pub fn update_ball_position_scrum(&mut self, scrum_h_pound: u64, scrum_a_pound: u64, rng: &mut rand::rngs::StdRng)
        requires
            old(self).wf(),
            scrum_h_pound <= 100_000_000,
            scrum_a_pound <= 100_000_000,
        ensures
            final(self).wf(),
            scrum_drifted(*old(self), *final(self), scrum_h_pound, scrum_a_pound),
    {
        if self.ball.is_carried {
            return;
        }
        let t = self.state.team;
        let (w_in, w_front) = if t == Side::Home { (scrum_h_pound, scrum_a_pound) } else { (scrum_a_pound, scrum_h_pound) };
        let roll = roll_below(rng, 10000);
        let drift = scrum_drift(w_in, w_front, self.sign_of(t), roll);
        let ghost g0 = *self;
        self.ball.x = clamp_coord(self.ball.x + drift);
        proof {
            lemma_wf_loose_ball(g0, *self);
            assert(self.ball.x == clamp_world(g0.ball.x + pack_drift(t, scrum_h_pound as int, scrum_a_pound as int, g0.sign(t), roll as int)));
        }
    }

    /// A loose ball that has left the scrum by its contest radius ends the
    /// scrum: play resumes with the reference point at the ball.
    pub fn check_ball_out_of_scrum(&mut self)
        requires
            old(self).wf(),
        ensures
            final(self).wf(),
            scrum_left(*old(self), *final(self)),
    {
        let d = distance_sq(self.ball.x, self.ball.y, self.state.x, self.state.y);
        let r2: i128 = 17_640_000;
        assert(r2 == SCRUM_SIZE * SCRUM_SIZE);
        if !self.ball.is_carried && d >= r2 {
            let ghost g0 = *self;
            self.state.phase = Phase::Play;
            self.state.x = self.ball.x;
            self.state.y = self.ball.y;
            proof {
                lemma_wf_keeps(g0, *self);
            }
        }
    }
}

/// Drift of the scrum ball when `team` has the put-in and the home and away
/// packs push `h` and `a`.
pub open spec fn pack_drift(team: Side, h: int, a: int, sign: int, roll: int) -> int {
    if team == Side::Home {
        scrum_drift_of(h, a, sign, roll)
    } else {
        scrum_drift_of(a, h, sign, roll)
    }
}

/// A positive contest weight has a player in the contest.
proof fn lemma_weight_needs_contestant(g: GameState, side: Side, n: int)
    requires
        0 <= n <= g.roster(side).len(),
        forall|k: int| !#[trigger] g.in_contest(side, k),
    ensures
        g.contest_weight(side, n) == 0,
    decreases n,
{
    if n > 0 {
        lemma_weight_needs_contestant(g, side, n - 1);
        assert(!g.in_contest(side, n - 1));
    }
}

/// Player `i` of `side` after the release check: a tackler who has left the
/// tackle point loses the flag.
pub open spec fn released(g: GameState, side: Side, i: int) -> Player {
    let p = g.roster(side)[i];
    if p.is_tackler && !g.tackler_stays(side, i) {
        Player { is_tackler: false, ..p }
    } else {
        p
    }
}

/// `h` is `g` after a gathering attempt at the base of the scrum.
pub open spec fn scrum_gathered(g: GameState, h: GameState, side: Side, number: usize) -> bool {
    &&& (h.time == g.time)
    &&& (h.field == g.field)
    &&& (match first_with_number(g.roster(side), number) {
        Some(i) => if g.dist_to_ball(side, i as int) < PICKUP_RANGE * PICKUP_RANGE {
            handed_to(g, h, side, i as int, Phase::Play)
        } else {
            h == g
        },
        None => h == g,
    })
}

/// `h` is `g` after a gathering attempt at the ruck; `penalty` tells whether it was refused for offside.
pub open spec fn ruck_gathered(g: GameState, h: GameState, side: Side, number: usize, penalty: bool) -> bool {
    &&& (h.time == g.time)
    &&& (h.field == g.field)
    &&& (match first_with_number(g.roster(side), number) {
        Some(i) => if exists|j: int| #[trigger] g.is_offside(j) {
            &&& penalty
            &&& h.state.phase == Phase::Penalty
            &&& h.state.team == g.state.team
            &&& h.ball == g.ball
            &&& h.ball_throw == g.ball_throw
            &&& h.roster(Side::Home) == g.roster(Side::Home)
            &&& h.roster(Side::Away) == g.roster(Side::Away)
        } else if g.dist_to_ball(side, i as int) < PICKUP_RANGE * PICKUP_RANGE
            && g.dist_to_mark(side, i as int) >= PICKUP_RANGE * PICKUP_RANGE {
            &&& !penalty
            &&& handed_to(g, h, side, i as int, Phase::Play)
        } else {
            !penalty && h == g
        },
        None => !penalty && h == g,
    })
}

/// `h` is `g` after the tackler release check.
pub open spec fn tackler_checked(g: GameState, h: GameState) -> bool {
    &&& (forall|s: Side| #[trigger] h.roster(s).len() == g.roster(s).len())
    &&& (forall|s: Side, i: int| 0 <= i < g.roster(s).len() ==> #[trigger] h.roster(s)[i] == released(g, s, i))
    &&& ((exists|s: Side, i: int| #[trigger] g.tackler_stays(s, i)) ==> {
        &&& h.state.phase == Phase::Penalty
        &&& exists|s: Side, i: int| #[trigger] g.tackler_stays(s, i) && h.state.team == s.opponent()
    })
    &&& (!(exists|s: Side, i: int| #[trigger] g.tackler_stays(s, i)) ==> h.state == g.state)
    &&& (h.state.x == g.state.x)
    &&& (h.state.y == g.state.y)
    &&& (h.ball == g.ball)
    &&& (h.ball_throw == g.ball_throw)
    &&& (h.field == g.field)
    &&& (h.time == g.time)
}

/// `h` is `g` after the push for the ball at the ruck.
pub open spec fn scrap_checked(g: GameState, h: GameState) -> bool {
    &&& (h.time == g.time)
    &&& (h.field == g.field)
    &&& ({
        let t = g.state.team;
        let o = t.opponent();
        if g.contest_weight(o, g.roster(o).len() as int)
            > g.contest_weight(t, g.roster(t).len() as int) {
            &&& exists|j: int| #[trigger] g.nearest_in_contest(o, j) && handed_to(g, h, o, j, Phase::Play)
        } else {
            h == g
        }
    })
}

/// `h` is `g` after the scrum ball drifted for these pack weights, whatever the roll was.
pub open spec fn scrum_drifted(g: GameState, h: GameState, scrum_h_pound: u64, scrum_a_pound: u64) -> bool {
    &&& (g.ball.is_carried ==> h == g)
    &&& (!g.ball.is_carried ==> {
        let t = g.state.team;
        &&& exists|roll: int| 0 <= roll < 10000 && h.ball.x == clamp_world(
            g.ball.x + #[trigger] pack_drift(t, scrum_h_pound as int, scrum_a_pound as int, g.sign(t), roll))
        &&& h.ball == (crate::model::Ball { x: h.ball.x, ..g.ball })
        &&& h.roster(Side::Home) == g.roster(Side::Home)
        &&& h.roster(Side::Away) == g.roster(Side::Away)
        &&& h.state == g.state
        &&& h.ball_throw == g.ball_throw
    })
    &&& (h.time == g.time)
    &&& (h.field == g.field)
}

/// `h` is `g` after the check for a ball out of the scrum.
pub open spec fn scrum_left(g: GameState, h: GameState) -> bool {
    &&& (if !g.ball.is_carried && dist_sq(g.ball.x as int, g.ball.y as int,
        g.state.x as int, g.state.y as int) >= SCRUM_SIZE * SCRUM_SIZE {
        &&& h.state.phase == Phase::Play
        &&& h.state.x == g.ball.x
        &&& h.state.y == g.ball.y
        &&& h.state.team == g.state.team
        &&& h.state.size == g.state.size
        &&& h.ball == g.ball
        &&& h.roster(Side::Home) == g.roster(Side::Home)
        &&& h.roster(Side::Away) == g.roster(Side::Away)
        &&& h.ball_throw == g.ball_throw
            } else {
        h == g
    })
    &&& (h.time == g.time)
    &&& (h.field == g.field)
}

} // verus!
