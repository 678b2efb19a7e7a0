//! The single place where the carrier flags and the ball change together,
//! and the movement of a player (with the ball when they carry it).
use vstd::prelude::*;
use crate::model::{
    squads_kept, Phase,
    coord_ok, player_ok, roster_ok, Ball, GameState, Player, Side, State, CARRY_HEIGHT, CARRY_OFFSET,
    WORLD,
};

verus! {

/// `h` is `g` once player `i` of `side` holds the ball: the single carrier,
/// the ball at their carry offset and height, no flight, possession and the
/// reference point with the ball, the phase `phase`; nothing else changed.
pub open spec fn handed_to(g: GameState, h: GameState, side: Side, i: int, phase: Phase) -> bool {
    &&& forall|s: Side| #[trigger] h.roster(s).len() == g.roster(s).len()
    &&& forall|s: Side, j: int| 0 <= j < g.roster(s).len() ==>
        #[trigger] h.roster(s)[j] == (Player { ball_pos: s == side && j == i, ..g.roster(s)[j] })
    &&& h.carries(side, i)
    &&& h.ball.is_carried
    &&& h.carried_at(side, i)
    &&& h.ball.z == CARRY_HEIGHT
    &&& !h.ball_throw.active
    &&& h.state == (State { phase, team: side, x: h.ball.x, y: h.ball.y, size: g.state.size })
    &&& h.field == g.field
    &&& h.time == g.time
    &&& squads_kept(g, h)
}

/// `v` clamped to the world bounds.
pub open spec fn clamp_world(v: int) -> int {
    if v < -WORLD {
        -WORLD as int
    } else if v > WORLD {
        WORLD as int
    } else {
        v
    }
}

/// `p` without the ball.
pub open spec fn without_ball(p: Player) -> Player {
    Player { ball_pos: false, ..p }
}

/// `p` moved by `(dx, dy)`, clamped to the world bounds.
pub open spec fn moved(p: Player, dx: int, dy: int) -> Player {
    Player { x: clamp_world(p.x + dx) as i64, y: clamp_world(p.y + dy) as i64, ..p }
}

pub fn clamp_coord(v: i64) -> (r: i64)
    requires
        -2 * WORLD - 2 * CARRY_OFFSET <= v <= 2 * WORLD + 2 * CARRY_OFFSET,
    ensures
        r == clamp_world(v as int),
        coord_ok(r),
{
    if v < -WORLD {
        -WORLD
    } else if v > WORLD {
        WORLD
    } else {
        v
    }
}

impl GameState {
    /// Nobody carries the ball and the ball is not carried.
    pub open spec fn ball_free(self) -> bool {
        &&& !self.ball.is_carried
        &&& forall|s: Side, i: int| !#[trigger] self.carries(s, i)
    }

    /// +1 when `side` attacks towards increasing x, -1 otherwise.
    pub fn sign_of(&self, side: Side) -> (r: i64)
        ensures
            r == self.sign(side),
    {
        if (self.field.home_direction_try == 'N') == (side == Side::Home) {
            1
        } else {
            -1
        }
    }

    fn clear_flags(&mut self, side: Side)
        ensures
            final(self).roster(side).len() == old(self).roster(side).len(),
            forall|i: int| 0 <= i < old(self).roster(side).len() ==>
                #[trigger] final(self).roster(side)[i] == without_ball(old(self).roster(side)[i]),
            final(self).roster(side.opponent()) == old(self).roster(side.opponent()),
            final(self).state == old(self).state,
            final(self).field == old(self).field,
            final(self).time == old(self).time,
            final(self).ball == old(self).ball,
            final(self).ball_throw == old(self).ball_throw,
            squads_kept(*old(self), *final(self)),
    {
        let n = self.roster_len(side);
        let mut i: usize = 0;
        while i < n
            invariant
                n == old(self).roster(side).len(),
                i <= n,
                self.roster(side).len() == n,
                forall|j: int| 0 <= j < i ==> #[trigger] self.roster(side)[j] == without_ball(old(self).roster(side)[j]),
                forall|j: int| i <= j < n ==> #[trigger] self.roster(side)[j] == old(self).roster(side)[j],
                self.roster(side.opponent()) == old(self).roster(side.opponent()),
                self.state == old(self).state,
                self.field == old(self).field,
                self.time == old(self).time,
                self.ball == old(self).ball,
                self.ball_throw == old(self).ball_throw,
                squads_kept(*old(self), *self),
            decreases n - i,
        {
            let mut p = self.player(side, i);
            p.ball_pos = false;
            self.put_player(side, i, p);
            i = i + 1;
        }
    }

    /// Takes the ball from whoever carries it and leaves it loose where it is.
    pub fn release_ball(&mut self)
        requires
            old(self).wf(),
        ensures
            final(self).wf(),
            final(self).ball_free(),
            forall|s: Side| #[trigger] final(self).roster(s).len() == old(self).roster(s).len(),
            forall|s: Side, i: int| 0 <= i < old(self).roster(s).len() ==>
                #[trigger] final(self).roster(s)[i] == without_ball(old(self).roster(s)[i]),
            final(self).ball == (Ball { is_carried: false, ..old(self).ball }),
            final(self).state == old(self).state,
            final(self).field == old(self).field,
            final(self).time == old(self).time,
            final(self).ball_throw == old(self).ball_throw,
            squads_kept(*old(self), *final(self)),
    {
        self.clear_flags(Side::Home);
        self.clear_flags(Side::Away);
        self.ball.is_carried = false;
        assert forall|s: Side, i: int| 0 <= i < old(self).roster(s).len() implies
            #[trigger] self.roster(s)[i] == without_ball(old(self).roster(s)[i]) by {
            match s {
                Side::Home => {},
                Side::Away => {},
            }
        }
        assert forall|s: Side, i: int| !#[trigger] self.carries(s, i) by {
            if 0 <= i < self.roster(s).len() {
                assert(self.roster(s)[i] == without_ball(old(self).roster(s)[i]));
            }
        }
        assert forall|s: Side| roster_ok(#[trigger] self.roster(s)) by {
            assert forall|i: int| 0 <= i < self.roster(s).len() implies player_ok(#[trigger] self.roster(s)[i]) by {
                assert(self.roster(s)[i] == without_ball(old(self).roster(s)[i]));
                assert(player_ok(old(self).roster(s)[i]));
            }
        }
        assert(roster_ok(self.roster(Side::Home)));
        assert(roster_ok(self.roster(Side::Away)));
    }

    /// Puts the ball in the hands of player `i` of `side`: the single
    /// carrier, the ball at their carry offset and height, the flight over.
    pub fn hand_ball(&mut self, side: Side, i: usize)
        requires
            old(self).wf(),
            i < old(self).roster(side).len(),
        ensures
            final(self).wf(),
            forall|s: Side| #[trigger] final(self).roster(s).len() == old(self).roster(s).len(),
            forall|s: Side, j: int| 0 <= j < old(self).roster(s).len() ==>
                #[trigger] final(self).roster(s)[j] == (Player {
                    ball_pos: s == side && j == i,
                    ..old(self).roster(s)[j]
                }),
            final(self).carries(side, i as int),
            final(self).ball.is_carried,
            final(self).carried_at(side, i as int),
            final(self).ball.z == CARRY_HEIGHT,
            !final(self).ball_throw.active,
            final(self).state == old(self).state,
            final(self).field == old(self).field,
            final(self).time == old(self).time,
            squads_kept(*old(self), *final(self)),
    {
        self.release_ball();
        let ghost mid = *self;
        let mut p = self.player(side, i);
        p.ball_pos = true;
        self.put_player(side, i, p);
        let off = CARRY_OFFSET * self.sign_of(side);
        self.ball = Ball { x: p.x + off, y: p.y, z: CARRY_HEIGHT, is_carried: true };
        self.ball_throw.active = false;
        assert forall|s: Side, j: int| 0 <= j < old(self).roster(s).len() implies
            #[trigger] self.roster(s)[j] == (Player { ball_pos: s == side && j == i, ..old(self).roster(s)[j] }) by {
            assert(mid.roster(s)[j] == without_ball(old(self).roster(s)[j]));
            if s != side {
                assert(s == side.opponent());
            }
        }
        assert forall|s: Side, j: int| #[trigger] self.carries(s, j) implies s == side && j == i by {
            assert(self.roster(s)[j] == (Player { ball_pos: s == side && j == i, ..old(self).roster(s)[j] }));
        }
        assert(self.carries(side, i as int));
        assert forall|s: Side| roster_ok(#[trigger] self.roster(s)) by {
            assert forall|j: int| 0 <= j < self.roster(s).len() implies player_ok(#[trigger] self.roster(s)[j]) by {
                assert(player_ok(old(self).roster(s)[j]));
            }
        }
        assert(roster_ok(self.roster(Side::Home)));
        assert(roster_ok(self.roster(Side::Away)));
    }

    /// Hands the ball to player `i` of `side` (see `hand_ball`); possession
    /// and the reference point go with the ball.
    pub fn give_ball(&mut self, side: Side, i: usize)
        requires
            old(self).wf(),
            i < old(self).roster(side).len(),
        ensures
            final(self).wf(),
            forall|s: Side| #[trigger] final(self).roster(s).len() == old(self).roster(s).len(),
            forall|s: Side, j: int| 0 <= j < old(self).roster(s).len() ==>
                #[trigger] final(self).roster(s)[j] == (Player {
                    ball_pos: s == side && j == i,
                    ..old(self).roster(s)[j]
                }),
            final(self).carries(side, i as int),
            final(self).ball.is_carried,
            final(self).carried_at(side, i as int),
            final(self).ball.z == CARRY_HEIGHT,
            !final(self).ball_throw.active,
            final(self).state == (State {
                team: side,
                x: final(self).ball.x,
                y: final(self).ball.y,
                ..old(self).state
            }),
            final(self).field == old(self).field,
            final(self).time == old(self).time,
            squads_kept(*old(self), *final(self)),
            handed_to(*old(self), *final(self), side, i as int, old(self).state.phase),
    {
        self.hand_ball(side, i);
        let ghost g0 = *self;
        self.state.team = side;
        self.state.x = self.ball.x;
        self.state.y = self.ball.y;
        proof {
            crate::model::lemma_wf_keeps(g0, *self);
        }
    }

    /// Moves player `i` of `side` by `(dx, dy)`, clamped to the world; a ball
    /// they carry moves with them.
    pub fn move_player(&mut self, side: Side, i: usize, dx: i64, dy: i64)
        requires
            old(self).wf(),
            i < old(self).roster(side).len(),
            -WORLD <= dx <= WORLD,
            -WORLD <= dy <= WORLD,
        ensures
            final(self).wf(),
            final(self).roster(side) == old(self).roster(side).update(
                i as int,
                moved(old(self).roster(side)[i as int], dx as int, dy as int),
            ),
            final(self).roster(side.opponent()) == old(self).roster(side.opponent()),
            old(self).roster(side)[i as int].ball_pos ==> final(self).carried_at(side, i as int),
            !old(self).roster(side)[i as int].ball_pos ==> final(self).ball == old(self).ball,
            final(self).ball.z == old(self).ball.z,
            final(self).ball.is_carried == old(self).ball.is_carried,
            final(self).ball_throw == old(self).ball_throw,
            final(self).state == old(self).state,
            final(self).field == old(self).field,
            final(self).time == old(self).time,
            squads_kept(*old(self), *final(self)),
    {
        let p = self.player(side, i);
        let x = clamp_coord(p.x + dx);
        let y = clamp_coord(p.y + dy);
        self.place_player(side, i, x, y);
    }

    /// Puts player `i` of `side` at `(x, y)`; a ball they carry goes with them.
    pub fn place_player(&mut self, side: Side, i: usize, x: i64, y: i64)
        requires
            old(self).wf(),
            i < old(self).roster(side).len(),
            coord_ok(x),
            coord_ok(y),
        ensures
            final(self).wf(),
            final(self).roster(side) == old(self).roster(side).update(
                i as int,
                Player { x, y, ..old(self).roster(side)[i as int] },
            ),
            final(self).roster(side.opponent()) == old(self).roster(side.opponent()),
            old(self).roster(side)[i as int].ball_pos ==> final(self).carried_at(side, i as int),
            !old(self).roster(side)[i as int].ball_pos ==> final(self).ball == old(self).ball,
            final(self).ball.z == old(self).ball.z,
            final(self).ball.is_carried == old(self).ball.is_carried,
            final(self).ball_throw == old(self).ball_throw,
            final(self).state == old(self).state,
            final(self).field == old(self).field,
            final(self).time == old(self).time,
            squads_kept(*old(self), *final(self)),
    {
        let mut p = self.player(side, i);
        p.x = x;
        p.y = y;
        self.put_player(side, i, p);
        if p.ball_pos {
            let off = CARRY_OFFSET * self.sign_of(side);
            self.ball.x = p.x + off;
            self.ball.y = p.y;
        }
        assert forall|s: Side, j: int| #[trigger] self.carries(s, j) implies old(self).carries(s, j) by {
            if s != side {
                assert(s == side.opponent());
            }
        }
        assert forall|s: Side, j: int| #[trigger] self.carries(s, j) implies self.ball.is_carried && self.carried_at(s, j) by {
            assert(old(self).carries(s, j));
            if s != side {
                assert(s == side.opponent());
                if p.ball_pos {
                    assert(old(self).carries(side, i as int));
                }
            } else if j != i {
                if p.ball_pos {
                    assert(old(self).carries(side, i as int));
                }
            }
        }
        if self.ball.is_carried {
            let ghost (s0, i0) = choose|s: Side, j: int| old(self).carries(s, j);
            assert(self.carries(s0, i0)) by {
                if s0 != side {
                    assert(s0 == side.opponent());
                }
            }
        }
        assert forall|s: Side| roster_ok(#[trigger] self.roster(s)) by {
            assert forall|j: int| 0 <= j < self.roster(s).len() implies player_ok(#[trigger] self.roster(s)[j]) by {
                assert(player_ok(old(self).roster(s)[j]));
                if s != side {
                    assert(s == side.opponent());
                }
            }
        }
        assert(roster_ok(self.roster(Side::Home)));
        assert(roster_ok(self.roster(Side::Away)));
    }
}

} // verus!
