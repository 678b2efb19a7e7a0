//! A read-only snapshot of a match for a renderer.
use vstd::prelude::*;
use vstd::string::StringExecFns;
use crate::model::{GameState, Phase, Side};
use crate::report::phase_text;

verus! {

/// A point in millimetres.
#[derive(PartialEq, Eq, Structural, Clone, Copy, Debug)]
pub struct Position {
    pub x: i64,
    pub y: i64,
}

#[derive(PartialEq, Eq, Structural, Clone, Copy, Debug)]
pub struct DrawPlayer {
    pub pos: Position,
    pub number: usize,
}

/// The set piece on show: reference point, name and contest radius.
#[derive(Clone, Debug)]
pub struct DrawState {
    pub pos: Position,
    pub name: String,
    pub size: i64,
}

#[derive(Clone, Debug)]
pub struct Drawable {
    pub ball: Position,
    pub state: DrawState,
    pub home_players: Vec<DrawPlayer>,
    pub away_players: Vec<DrawPlayer>,
    pub time: u64,
}

impl Drawable {
    /// A snapshot with the ball at `(x, y)`, no players, no set piece, clock 0.
    pub fn new(x: i64, y: i64) -> (d: Drawable)
        ensures
            d.ball == (Position { x, y }),
            d.state.pos == (Position { x: 0, y: 0 }),
            d.state.name@ == Seq::<char>::empty(),
            d.state.size == 0,
            d.home_players@.len() == 0,
            d.away_players@.len() == 0,
            d.time == 0,
    {
        Drawable {
            ball: Position { x, y },
            state: DrawState { pos: Position { x: 0, y: 0 }, name: String::new(), size: 0 },
            home_players: Vec::new(),
            away_players: Vec::new(),
            time: 0,
        }
    }

    pub fn add_home_player(&mut self, x: i64, y: i64, number: usize)
        ensures
            final(self).home_players@ == old(self).home_players@.push(DrawPlayer { pos: Position { x, y }, number }),
            final(self).away_players@ == old(self).away_players@,
            final(self).ball == old(self).ball,
            final(self).time == old(self).time,
            final(self).state == old(self).state,
    {
        self.home_players.push(DrawPlayer { pos: Position { x, y }, number });
    }

    pub fn add_away_player(&mut self, x: i64, y: i64, number: usize)
        ensures
            final(self).away_players@ == old(self).away_players@.push(DrawPlayer { pos: Position { x, y }, number }),
            final(self).home_players@ == old(self).home_players@,
            final(self).ball == old(self).ball,
            final(self).time == old(self).time,
            final(self).state == old(self).state,
    {
        self.away_players.push(DrawPlayer { pos: Position { x, y }, number });
    }

    pub fn set_state(&mut self, x: i64, y: i64, name: String, size: i64)
        ensures
            final(self).state.pos == (Position { x, y }),
            final(self).state.name@ == name@,
            final(self).state.size == size,
            final(self).home_players@ == old(self).home_players@,
            final(self).away_players@ == old(self).away_players@,
            final(self).ball == old(self).ball,
            final(self).time == old(self).time,
    {
        self.state = DrawState { pos: Position { x, y }, name, size };
    }

    pub fn set_time(&mut self, time: u64)
        ensures
            final(self).time == time,
            final(self).home_players@ == old(self).home_players@,
            final(self).away_players@ == old(self).away_players@,
            final(self).ball == old(self).ball,
            final(self).state == old(self).state,
    {
        self.time = time;
    }
}

impl GameState {
    /// The snapshot of the match: ball, every player with their number, the
    /// reference point and radius of a scrum or ruck, and the clock.
    pub fn get_drawable(&self) -> (d: Drawable)
        ensures
            d.ball == (Position { x: self.ball.x, y: self.ball.y }),
            d.home_players@.len() == self.roster(Side::Home).len(),
            d.away_players@.len() == self.roster(Side::Away).len(),
            forall|i: int| 0 <= i < d.home_players@.len() ==> #[trigger] d.home_players@[i] == (DrawPlayer {
                pos: Position { x: self.roster(Side::Home)[i].x, y: self.roster(Side::Home)[i].y },
                number: self.roster(Side::Home)[i].number,
            }),
            forall|i: int| 0 <= i < d.away_players@.len() ==> #[trigger] d.away_players@[i] == (DrawPlayer {
                pos: Position { x: self.roster(Side::Away)[i].x, y: self.roster(Side::Away)[i].y },
                number: self.roster(Side::Away)[i].number,
            }),
            (self.state.phase == Phase::Scrum || self.state.phase == Phase::Ruck) ==> {
                &&& d.state.pos == (Position { x: self.state.x, y: self.state.y })
                &&& d.state.name@ == phase_text(self.state.phase)
                &&& d.state.size == self.state.size
            },
            !(self.state.phase == Phase::Scrum || self.state.phase == Phase::Ruck) ==> {
                &&& d.state.pos == (Position { x: 0, y: 0 })
                &&& d.state.name@ == Seq::<char>::empty()
                &&& d.state.size == 0
            },
            d.time == self.time,
    {
        let mut d = Drawable::new(self.ball.x, self.ball.y);
        let n = self.roster_len(Side::Home);
        let mut i: usize = 0;
        while i < n
            invariant
                n == self.roster(Side::Home).len(),
                i <= n,
                d.ball == (Position { x: self.ball.x, y: self.ball.y }),
                d.state.size == 0,
                d.state.pos == (Position { x: 0, y: 0 }),
                d.state.name@ == Seq::<char>::empty(),
                d.time == 0,
                d.away_players@.len() == 0,
                d.home_players@.len() == i,
                forall|k: int| 0 <= k < i ==> #[trigger] d.home_players@[k] == (DrawPlayer {
                    pos: Position { x: self.roster(Side::Home)[k].x, y: self.roster(Side::Home)[k].y },
                    number: self.roster(Side::Home)[k].number,
                }),
            decreases n - i,
        {
            let p = self.player(Side::Home, i);
            d.add_home_player(p.x, p.y, p.number);
            i = i + 1;
        }
        let m = self.roster_len(Side::Away);
        let mut j: usize = 0;
        while j < m
            invariant
                m == self.roster(Side::Away).len(),
                n == self.roster(Side::Home).len(),
                j <= m,
                d.ball == (Position { x: self.ball.x, y: self.ball.y }),
                d.state.size == 0,
                d.state.pos == (Position { x: 0, y: 0 }),
                d.state.name@ == Seq::<char>::empty(),
                d.time == 0,
                d.home_players@.len() == n,
                forall|k: int| 0 <= k < n ==> #[trigger] d.home_players@[k] == (DrawPlayer {
                    pos: Position { x: self.roster(Side::Home)[k].x, y: self.roster(Side::Home)[k].y },
                    number: self.roster(Side::Home)[k].number,
                }),
                d.away_players@.len() == j,
                forall|k: int| 0 <= k < j ==> #[trigger] d.away_players@[k] == (DrawPlayer {
                    pos: Position { x: self.roster(Side::Away)[k].x, y: self.roster(Side::Away)[k].y },
                    number: self.roster(Side::Away)[k].number,
                }),
            decreases m - j,
        {
            let p = self.player(Side::Away, j);
            d.add_away_player(p.x, p.y, p.number);
            j = j + 1;
        }
        if self.state.phase == Phase::Scrum || self.state.phase == Phase::Ruck {
            let name = if self.state.phase == Phase::Scrum {
                String::from_str({ proof { reveal_strlit("scrum"); } "scrum" })
            } else {
                String::from_str({ proof { reveal_strlit("ruck"); } "ruck" })
            };
            d.set_state(self.state.x, self.state.y, name, self.state.size);
        }
        d.set_time(self.time);
        d
    }
}

} // verus!
