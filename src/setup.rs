//! Setting a scrum: the scrum point, the ball at the mouth, both packs bound
//! behind it, wings on the touchlines and the backs in two lines.
use vstd::prelude::*;
use crate::actions::SCRUM_SIZE;
use crate::geometry::{clamp_between, clamp_to, fraction, trunc_div};
use crate::model::{
    squads_kept,
    ball_coord_ok, player_ok, roster_ok, Ball, GameState, Phase, Player, Side, State, CARRY_OFFSET,
};
use crate::possession::without_ball;

verus! {

/// Distance of a scrum point from the touchlines and try lines, in millimetres.
pub const SCRUM_MARGIN: i64 = 5000;
/// Distance of a wing from their touchline, in millimetres.
pub const WING_LINE: i64 = 10_000;
/// Distance from the touchline where the backline ends, in millimetres.
pub const BACKLINE_EDGE: i64 = 15_000;

/// Where the pack member wearing `number` binds, relative to the scrum point,
/// for a side attacking towards increasing x: (distance behind, lateral).
pub open spec fn pack_offset(number: usize) -> Option<(int, int)> {
    if number == 1 { Some((500, -1000)) }
    else if number == 2 { Some((500, 0)) }
    else if number == 3 { Some((500, 1000)) }
    else if number == 4 { Some((1500, -500)) }
    else if number == 5 { Some((1500, 500)) }
    else if number == 6 { Some((1500, -1500)) }
    else if number == 7 { Some((1500, 1500)) }
    else if number == 8 { Some((2500, 0)) }
    else if number == 9 { Some((500, 2500)) }
    else if number == 11 { Some((17000, -1000)) }
    else if number == 14 { Some((17000, 1000)) }
    else { None }
}

/// A back who lines up behind the scrum (not a wing).
pub open spec fn is_back(p: Player) -> bool {
    p.number >= 10 && p.number != 11 && p.number != 14
}

/// Number of backs among the first `i` players of `s`.
pub open spec fn back_rank(s: Seq<Player>, i: int) -> int
    decreases i,
{
    if i <= 0 {
        0
    } else {
        back_rank(s, i - 1) + if is_back(s[i - 1]) { 1int } else { 0int }
    }
}

/// The scrum point: `(x, y)` kept `SCRUM_MARGIN` inside the field of play.
pub open spec fn scrum_point(width: int, height: int, try_size: int, x: int, y: int) -> (int, int) {
    (
        clamp_between(x, try_size * 1000 + SCRUM_MARGIN, (width + try_size) * 1000 - SCRUM_MARGIN),
        clamp_between(y, SCRUM_MARGIN as int, height * 1000 - SCRUM_MARGIN),
    )
}

/// Lateral position of the back of rank `k` (0 to 3) on the line from the scrum
/// point towards the far touchline.
pub open spec fn backline_y(ry: int, height_mm: int, half_mm: int, k: int) -> int {
    let y2 = if ry < half_mm { height_mm - BACKLINE_EDGE } else { BACKLINE_EDGE as int };
    ry + trunc_div((y2 - ry) * (k + 1), 4)
}

/// Where player `p` stands in a scrum at `(rx, ry)`: `sign` is their side's
/// attacking sign, `att` that of the side with the put-in, `rank` their rank
/// among the backs of their side. Players with no place keep theirs.
pub open spec fn formation_pos(p: Player, rank: int, sign: int, att: int, rx: int, ry: int, height_mm: int, half_mm: int) -> (int, int) {
    match pack_offset(p.number) {
        Some(o) => {
            let x = if sign == 1 { rx - o.0 } else { rx + o.0 };
            let y = if p.number == 9 {
                if ry <= half_mm { ry + o.1 } else { ry - o.1 }
            } else if p.number == 11 {
                if sign == 1 { WING_LINE as int } else { height_mm - WING_LINE }
            } else if p.number == 14 {
                if sign == 1 { height_mm - WING_LINE } else { WING_LINE as int }
            } else if sign == 1 {
                ry + o.1
            } else {
                ry - o.1
            };
            (x, y)
        },
        None => if is_back(p) && rank < 4 {
            let depth = if sign == att { -(5000 + 2500 * (rank + 1)) } else { 5000 };
            (if att == 1 { rx + depth } else { rx - depth }, backline_y(ry, height_mm, half_mm, rank))
        } else {
            (p.x as int, p.y as int)
        },
    }
}

fn pack_offset_exec(number: usize) -> (r: Option<(i64, i64)>)
    ensures
        match r {
            Some(o) => pack_offset(number) == Some((o.0 as int, o.1 as int)) && 0 <= o.0 <= 17000 && -2500 <= o.1 <= 2500,
            None => pack_offset(number) is None,
        },
{
    match number {
        1 => Some((500, -1000)),
        2 => Some((500, 0)),
        3 => Some((500, 1000)),
        4 => Some((1500, -500)),
        5 => Some((1500, 500)),
        6 => Some((1500, -1500)),
        7 => Some((1500, 1500)),
        8 => Some((2500, 0)),
        9 => Some((500, 2500)),
        11 => Some((17000, -1000)),
        14 => Some((17000, 1000)),
        _ => None,
    }
}

impl GameState {
    /// The scrum point of the current field for a stoppage at `(x, y)`.
    pub open spec fn scrum_point_of(self, x: int, y: int) -> (int, int) {
        scrum_point(self.field.width as int, self.field.height as int, self.field.try_size as int, x, y)
    }

    /// Where player `i` of `side` stands once a scrum for `team` is set at `(rx, ry)`.
    pub open spec fn formation_of(self, side: Side, i: int, team: Side, rx: int, ry: int) -> (int, int) {
        formation_pos(
            self.roster(side)[i],
            back_rank(self.roster(side), i),
            self.sign(side),
            self.sign(team),
            rx,
            ry,
            self.field.height * 1000,
            (self.field.height / 2) * 1000,
        )
    }

    /// Sets every player of `side` in the scrum formation.
    fn place_side(&mut self, side: Side, team: Side, rx: i64, ry: i64)
        requires
            old(self).wf(),
            old(self).ball_free(),
            old(self).field.try_size * 1000 - 10 * SCRUM_MARGIN <= rx <= (old(self).field.width + old(self).field.try_size) * 1000 + 10 * SCRUM_MARGIN,
            -10 * SCRUM_MARGIN <= ry <= old(self).field.height * 1000 + 10 * SCRUM_MARGIN,
        ensures
            final(self).wf(),
            final(self).ball_free(),
            final(self).roster(side).len() == old(self).roster(side).len(),
            forall|i: int| 0 <= i < old(self).roster(side).len() ==> {
                let pos = #[trigger] old(self).formation_of(side, i, team, rx as int, ry as int);
                final(self).roster(side)[i] == (Player { x: pos.0 as i64, y: pos.1 as i64, ..old(self).roster(side)[i] })
            },
            final(self).roster(side.opponent()) == old(self).roster(side.opponent()),
            final(self).state == old(self).state,
            final(self).field == old(self).field,
            final(self).time == old(self).time,
            final(self).ball == old(self).ball,
            final(self).ball_throw == old(self).ball_throw,
            squads_kept(*old(self), *final(self)),
    {
        let height_mm = (self.field.height as i64) * 1000;
        let half_mm = ((self.field.height / 2) as i64) * 1000;
        let sign = self.sign_of(side);
        let att = self.sign_of(team);
        let y2 = if ry < half_mm { height_mm - BACKLINE_EDGE } else { BACKLINE_EDGE };
        let n = self.roster_len(side);
        let mut i: usize = 0;
        let mut k: i64 = 0;
        while i < n
            invariant
                n == old(self).roster(side).len(),
                i <= n,
                k == back_rank(old(self).roster(side), i as int),
                old(self).field.try_size * 1000 - 10 * SCRUM_MARGIN <= rx <= (old(self).field.width + old(self).field.try_size) * 1000 + 10 * SCRUM_MARGIN,
                -10 * SCRUM_MARGIN <= ry <= old(self).field.height * 1000 + 10 * SCRUM_MARGIN,
                0 <= k <= i,
                height_mm == old(self).field.height * 1000,
                half_mm == (old(self).field.height / 2) * 1000,
                sign == old(self).sign(side),
                att == old(self).sign(team),
                y2 == if ry < half_mm { height_mm - BACKLINE_EDGE } else { BACKLINE_EDGE as int },
                self.wf(),
                self.ball_free(),
                self.roster(side).len() == n,
                forall|j: int| 0 <= j < i ==> {
                    let pos = #[trigger] old(self).formation_of(side, j, team, rx as int, ry as int);
                    self.roster(side)[j] == (Player { x: pos.0 as i64, y: pos.1 as i64, ..old(self).roster(side)[j] })
                },
                forall|j: int| i <= j < n ==> #[trigger] self.roster(side)[j] == old(self).roster(side)[j],
                self.roster(side.opponent()) == old(self).roster(side.opponent()),
                self.state == old(self).state,
                self.field == old(self).field,
                self.time == old(self).time,
                self.ball == old(self).ball,
                self.ball_throw == old(self).ball_throw,
                squads_kept(*old(self), *self),
            decreases n - i,
        {
            let mut p = self.player(side, i);
            let ghost p0 = p;
            let back = p.number >= 10 && p.number != 11 && p.number != 14;

            let ghost pos = old(self).formation_of(side, i as int, team, rx as int, ry as int);
            assert(player_ok(p));
            assert(!self.carries(side, i as int));
            let ghost before = *self;
            match pack_offset_exec(p.number) {
                Some(o) => {
                    p.x = if sign == 1 { rx - o.0 } else { rx + o.0 };
                    p.y = if p.number == 9 {
                        if ry <= half_mm { ry + o.1 } else { ry - o.1 }
                    } else if p.number == 11 {
                        if sign == 1 { WING_LINE } else { height_mm - WING_LINE }
                    } else if p.number == 14 {
                        if sign == 1 { height_mm - WING_LINE } else { WING_LINE }
                    } else {
                        if sign == 1 { ry + o.1 } else { ry - o.1 }
                    };
                },
                None => {
                    if p.number >= 10 && p.number != 11 && p.number != 14 && k < 4 {
                        let y = ry + fraction(y2 - ry, k + 1, 4);
                        if sign == att {
                            p.x = if att == 1 { rx - (5000 + 2500 * (k + 1)) } else { rx + (5000 + 2500 * (k + 1)) };
                        } else {
                            p.x = if att == 1 { rx + 5000 } else { rx - 5000 };
                        }
                        p.y = y;
                    }
                },
            }
            assert(p == (Player { x: pos.0 as i64, y: pos.1 as i64, ..p0 }));
            self.put_player(side, i, p);
            proof {
                assert forall|s: Side, j: int| !#[trigger] self.carries(s, j) by {
                    assert(!before.carries(s, j));
                    if s != side {
                        assert(s == side.opponent());
                    }
                }
                assert forall|s: Side| roster_ok(#[trigger] self.roster(s)) by {
                    if s != side {
                        assert(s == side.opponent());
                    }
                }
            }
            if back {
                k = k + 1;
            }
            i = i + 1;
        }
    }

    /// Sets a scrum for `team` at the stoppage point `(x, y)`: the scrum point
    /// is kept inside the field, the loose ball lies half a metre behind it on
    /// the side of `team`, every player takes their place in the formation,
    /// and the phase becomes a scrum with its contest radius.
    pub fn setup_scrum(&mut self, team: Side, x: i64, y: i64)
        requires
            old(self).wf(),
            ball_coord_ok(x),
            ball_coord_ok(y),
        ensures
            final(self).wf(),
            scrum_formed(*old(self), *final(self), team, x, y),
    {
        self.release_ball();
        let ghost mid = *self;
        let w = self.field.width as i64;
        let h = self.field.height as i64;
        let t = self.field.try_size as i64;
        let rx = clamp_to(x, t * 1000 + SCRUM_MARGIN, (w + t) * 1000 - SCRUM_MARGIN);
        let ry = clamp_to(y, SCRUM_MARGIN, h * 1000 - SCRUM_MARGIN);
        self.state = State { phase: Phase::Scrum, team, size: SCRUM_SIZE, x: rx, y: ry };
        let off = CARRY_OFFSET * self.sign_of(team);
        self.ball = Ball { x: rx - off, y: ry, z: 0, is_carried: false };
        self.ball_throw.active = false;
        let ghost staged = *self;
        self.place_side(Side::Home, team, rx, ry);
        let ghost after_home = *self;
        self.place_side(Side::Away, team, rx, ry);
        proof {
            assert forall|s: Side, i: int| 0 <= i < old(self).roster(s).len() implies {
                let pos = #[trigger] old(self).formation_of(s, i, team, rx as int, ry as int);
                self.roster(s)[i] == (Player { x: pos.0 as i64, y: pos.1 as i64, ball_pos: false, ..old(self).roster(s)[i] })
            } by {
                lemma_back_rank_numbers(old(self).roster(s), staged.roster(s), i);
                assert(staged.roster(s)[i] == without_ball(old(self).roster(s)[i]));
                assert(staged.formation_of(s, i, team, rx as int, ry as int) == old(self).formation_of(s, i, team, rx as int, ry as int));
                match s {
                    Side::Home => {
                        assert(self.roster(s) == after_home.roster(Side::Home));
                    },
                    Side::Away => {
                        assert(after_home.roster(Side::Away) == staged.roster(Side::Away));
                        assert(after_home.formation_of(s, i, team, rx as int, ry as int) == staged.formation_of(s, i, team, rx as int, ry as int));
                    },
                }
            }
        }
    }
}

/// Ranks among the backs depend on the jersey numbers alone.
proof fn lemma_back_rank_numbers(a: Seq<Player>, b: Seq<Player>, i: int)
    requires
        a.len() == b.len(),
        0 <= i <= a.len(),
        forall|j: int| 0 <= j < a.len() ==> (#[trigger] a[j]).number == b[j].number,
    ensures
        back_rank(a, i) == back_rank(b, i),
    decreases i,
{
    if i > 0 {
        lemma_back_rank_numbers(a, b, i - 1);
        assert(a[i - 1].number == b[i - 1].number);
    }
}

/// `h` is `g` once a scrum for `team` is set at the stoppage point `(x, y)`.
pub open spec fn scrum_formed(g: GameState, h: GameState, team: Side, x: i64, y: i64) -> bool {
    &&& h.ball_free()
    &&& ({
        let sp = g.scrum_point_of(x as int, y as int);
        &&& h.state == (State { phase: Phase::Scrum, team, size: SCRUM_SIZE, x: sp.0 as i64, y: sp.1 as i64 })
        &&& h.ball == (Ball {
            x: (sp.0 - CARRY_OFFSET * g.sign(team)) as i64,
            y: sp.1 as i64,
            z: 0,
            is_carried: false,
        })
        &&& forall|s: Side, i: int| 0 <= i < g.roster(s).len() ==> {
            let pos = #[trigger] g.formation_of(s, i, team, sp.0, sp.1);
            h.roster(s)[i] == (Player { x: pos.0 as i64, y: pos.1 as i64, ball_pos: false, ..g.roster(s)[i] })
        }
    })
    &&& forall|s: Side| #[trigger] h.roster(s).len() == g.roster(s).len()
    &&& !h.ball_throw.active
    &&& h.field == g.field
    &&& h.time == g.time
    &&& squads_kept(g, h)
}

} // verus!
