//! The match data: field, players, teams, ball, flight record, phase, and the
//! well-formedness that every handler preserves.
use vstd::prelude::*;

verus! {

/// Hundredths of a second that one processed command batch advances the clock.
pub const TICK: u64 = 25;
/// Length of one tick in milliseconds.
pub const TICK_MS: i64 = 250;
/// Gravity in millimetres per second squared.
pub const GRAVITY_MM_S2: i64 = 9810;
/// Loss of vertical speed (mm/s) over one tick: 9810 mm/s² for 250 ms.
pub const GRAVITY_STEP: i64 = 2452;
/// Every coordinate of a player stays within this many millimetres of the origin.
pub const WORLD: i64 = 1_000_000_000;
/// Largest speed component of a ball in flight, in mm/s.
pub const MAX_BALL_SPEED: i64 = 10_000_000;
/// Distance from a carrier to the ball, towards the carrier's attacking end.
pub const CARRY_OFFSET: i64 = 500;
/// Height of a carried ball.
pub const CARRY_HEIGHT: i64 = 1000;
/// At most this many players take part for a side.
pub const MAX_ACTIVE: usize = 15;
/// Upper bounds of the player attributes.
pub const MAX_SIZE_CM: u64 = 1000;
pub const MAX_POUND: u64 = 1_000_000;
pub const MAX_SPEED: u64 = 10_000_000;
pub const MAX_FOOT: u64 = 1_000_000_000;
pub const MAX_PERCENT: u64 = 100;
/// Upper bound of each field dimension, in metres.
pub const MAX_FIELD_M: usize = 100_000;

#[derive(PartialEq, Eq, Structural, Clone, Copy, Debug)]
pub enum Side {
    Home,
    Away,
}

impl Side {
    pub open spec fn opponent(self) -> Side {
        match self {
            Side::Home => Side::Away,
            Side::Away => Side::Home,
        }
    }

    /// The other side.
    pub fn other(self) -> (r: Side)
        ensures
            r == self.opponent(),
    {
        match self {
            Side::Home => Side::Away,
            Side::Away => Side::Home,
        }
    }

    /// The letter that names the side in commands and reports.
    pub fn letter(self) -> (r: char)
        ensures
            r == side_letter(self),
    {
        match self {
            Side::Home => 'H',
            Side::Away => 'A',
        }
    }
}

pub open spec fn side_letter(s: Side) -> char {
    match s {
        Side::Home => 'H',
        Side::Away => 'A',
    }
}

/// +1 when `side` attacks towards increasing x, -1 otherwise. The home side
/// attacks towards increasing x exactly when the field says 'N'.
pub open spec fn attack_sign(home_direction: char, side: Side) -> int {
    if (home_direction == 'N') == (side == Side::Home) {
        1
    } else {
        -1
    }
}

/// The rules context of the match.
#[derive(PartialEq, Eq, Structural, Clone, Copy, Debug)]
pub enum Phase {
    Start,
    Play,
    Scrum,
    Ruck,
    Penalty,
    FreeKick,
    PenaltyKick,
}

#[derive(Clone, Debug)]
pub struct Field {
    /// Length of the field of play between the try lines, in metres.
    pub width: usize,
    /// Width of the field between the touchlines, in metres.
    pub height: usize,
    /// Depth of each in-goal area, in metres.
    pub try_size: usize,
    /// 'N' when the home side attacks towards increasing x.
    pub home_direction_try: char,
    pub is_switch: bool,
    pub switch_time: usize,
    pub switch_home: Vec<(usize, usize)>,
    pub switch_away: Vec<(usize, usize)>,
    pub wind_strength: usize,
    /// Degrees, 0 to 360.
    pub wind_direction: usize,
    /// Rain severity, 0 to 100.
    pub weather: usize,
}

#[derive(PartialEq, Eq, Structural, Clone, Copy, Debug)]
pub struct Player {
    /// Position in millimetres.
    pub x: i64,
    pub y: i64,
    pub number: usize,
    /// Carries the ball.
    pub ball_pos: bool,
    /// Height in centimetres.
    pub size: u64,
    /// Weight that counts in pushing contests.
    pub pound: u64,
    /// Running speed in metres per hour.
    pub speed: u64,
    /// Kicking power, in millimetres of the nominal kick length.
    pub foot: u64,
    /// Kicking accuracy, percent.
    pub p_foot: u64,
    /// Tackling accuracy, percent.
    pub p_tackle: u64,
    /// Held in a ruck after being tackled.
    pub is_tackle: bool,
    /// Made the tackle and must release.
    pub is_tackler: bool,
}

#[derive(Clone, Debug)]
pub struct Team {
    pub players: Vec<Player>,
    pub bench: Vec<Player>,
    pub score: u32,
    pub try_scored: u32,
    pub transformation: u32,
    pub penalty: u32,
}

#[derive(PartialEq, Eq, Structural, Clone, Copy, Debug)]
pub struct Ball {
    /// Position in millimetres; `z` is the height.
    pub x: i64,
    pub y: i64,
    pub z: i64,
    pub is_carried: bool,
}

/// The flight record of a kicked or passed ball; velocities in mm/s.
#[derive(PartialEq, Eq, Structural, Clone, Copy, Debug)]
pub struct BallThrow {
    pub vx: i64,
    pub vy: i64,
    pub vz: i64,
    pub active: bool,
}

/// The phase, the side it favours, its reference point and contest radius.
#[derive(PartialEq, Eq, Structural, Clone, Copy, Debug)]
pub struct State {
    pub phase: Phase,
    pub team: Side,
    /// Contest radius in millimetres.
    pub size: i64,
    pub x: i64,
    pub y: i64,
}

#[derive(Clone, Debug)]
pub struct GameState {
    pub state: State,
    pub field: Field,
    /// Match clock in hundredths of a second.
    pub time: u64,
    pub home_team: Team,
    pub away_team: Team,
    pub ball: Ball,
    pub ball_throw: BallThrow,
}

/// `h` has the benches and the score counters of `g`.
pub open spec fn squads_kept(g: GameState, h: GameState) -> bool {
    &&& h.home_team.bench@ == g.home_team.bench@
    &&& h.away_team.bench@ == g.away_team.bench@
    &&& h.home_team.score == g.home_team.score
    &&& h.home_team.try_scored == g.home_team.try_scored
    &&& h.home_team.transformation == g.home_team.transformation
    &&& h.home_team.penalty == g.home_team.penalty
    &&& h.away_team.score == g.away_team.score
    &&& h.away_team.try_scored == g.away_team.try_scored
    &&& h.away_team.transformation == g.away_team.transformation
    &&& h.away_team.penalty == g.away_team.penalty
}

pub open spec fn coord_ok(v: i64) -> bool {
    -WORLD <= v <= WORLD
}

/// Bound of the ball and of reference points: a player's reach plus the carry offset.
pub open spec fn ball_coord_ok(v: i64) -> bool {
    -(WORLD + CARRY_OFFSET) <= v <= WORLD + CARRY_OFFSET
}

pub open spec fn player_ok(p: Player) -> bool {
    &&& coord_ok(p.x)
    &&& coord_ok(p.y)
    &&& p.size <= MAX_SIZE_CM
    &&& p.pound <= MAX_POUND
    &&& p.speed <= MAX_SPEED
    &&& p.foot <= MAX_FOOT
    &&& p.p_foot <= MAX_PERCENT
    &&& p.p_tackle <= MAX_PERCENT
}

pub open spec fn roster_ok(s: Seq<Player>) -> bool {
    &&& s.len() <= MAX_ACTIVE
    &&& forall|i: int| 0 <= i < s.len() ==> player_ok(#[trigger] s[i])
}

pub open spec fn field_ok(f: Field) -> bool {
    &&& f.width <= MAX_FIELD_M
    &&& f.height <= MAX_FIELD_M
    &&& f.try_size <= MAX_FIELD_M
    &&& f.weather <= 100
}

impl GameState {
    /// The active players of `side`.
    pub open spec fn roster(self, side: Side) -> Seq<Player> {
        match side {
            Side::Home => self.home_team.players@,
            Side::Away => self.away_team.players@,
        }
    }

    /// +1 when `side` attacks towards increasing x.
    pub open spec fn sign(self, side: Side) -> int {
        attack_sign(self.field.home_direction_try, side)
    }

    /// Player `i` of `side` carries the ball.
    pub open spec fn carries(self, side: Side, i: int) -> bool {
        0 <= i < self.roster(side).len() && self.roster(side)[i].ball_pos
    }

    /// Where the ball sits when player `i` of `side` carries it.
    pub open spec fn carried_at(self, side: Side, i: int) -> bool {
        &&& self.ball.x == self.roster(side)[i].x + CARRY_OFFSET * self.sign(side)
        &&& self.ball.y == self.roster(side)[i].y
    }

    /// At most one carrier; a carried ball has one and sits at its offset.
    pub open spec fn possession_ok(self) -> bool {
        &&& forall|s1: Side, i: int, s2: Side, j: int|
            #[trigger] self.carries(s1, i) && #[trigger] self.carries(s2, j) ==> s1 == s2 && i == j
        &&& forall|s: Side, i: int|
            #[trigger] self.carries(s, i) ==> self.ball.is_carried && self.carried_at(s, i)
        &&& self.ball.is_carried ==> exists|s: Side, i: int| #[trigger] self.carries(s, i)
    }

    /// An active flight has a loose ball; the ball never goes below the ground.
    pub open spec fn flight_ok(self) -> bool {
        &&& self.ball_throw.active ==> !self.ball.is_carried
        &&& 0 <= self.ball.z <= WORLD
        &&& -MAX_BALL_SPEED <= self.ball_throw.vx <= MAX_BALL_SPEED
        &&& -MAX_BALL_SPEED <= self.ball_throw.vy <= MAX_BALL_SPEED
        &&& -MAX_BALL_SPEED <= self.ball_throw.vz <= MAX_BALL_SPEED
    }

    pub open spec fn wf(self) -> bool {
        &&& roster_ok(self.roster(Side::Home))
        &&& roster_ok(self.roster(Side::Away))
        &&& field_ok(self.field)
        &&& ball_coord_ok(self.ball.x)
        &&& ball_coord_ok(self.ball.y)
        &&& ball_coord_ok(self.state.x)
        &&& ball_coord_ok(self.state.y)
        &&& 0 <= self.state.size <= WORLD
        &&& self.possession_ok()
        &&& self.flight_ok()
    }

    /// Player `i` of `side`.
    pub fn player(&self, side: Side, i: usize) -> (p: Player)
        requires
            i < self.roster(side).len(),
        ensures
            p == self.roster(side)[i as int],
    {
        match side {
            Side::Home => self.home_team.players[i],
            Side::Away => self.away_team.players[i],
        }
    }

    /// Number of active players of `side`.
    pub fn roster_len(&self, side: Side) -> (n: usize)
        ensures
            n == self.roster(side).len(),
    {
        match side {
            Side::Home => self.home_team.players.len(),
            Side::Away => self.away_team.players.len(),
        }
    }

    /// Replaces player `i` of `side`, leaving everything else as it was.
    pub(crate) fn put_player(&mut self, side: Side, i: usize, p: Player)
        requires
            i < old(self).roster(side).len(),
        ensures
            final(self).roster(side) == old(self).roster(side).update(i as int, p),
            final(self).roster(side.opponent()) == old(self).roster(side.opponent()),
            final(self).state == old(self).state,
            final(self).field == old(self).field,
            final(self).time == old(self).time,
            final(self).ball == old(self).ball,
            final(self).ball_throw == old(self).ball_throw,
            squads_kept(*old(self), *final(self)),
    {
        match side {
            Side::Home => self.home_team.players.set(i, p),
            Side::Away => self.away_team.players.set(i, p),
        }
    }

    /// Index of the first player of `side` wearing `number`.
    pub fn find_player(&self, side: Side, number: usize) -> (r: Option<usize>)
        ensures
            r == first_with_number(self.roster(side), number),
            match r {
                Some(i) => i < self.roster(side).len() && self.roster(side)[i as int].number == number,
                None => true,
            },
    {
        let n = self.roster_len(side);
        let mut i: usize = 0;
        while i < n
            invariant
                n == self.roster(side).len(),
                i <= n,
                forall|j: int| 0 <= j < i ==> (#[trigger] self.roster(side)[j]).number != number,
            decreases n - i,
        {
            if self.player(side, i).number == number {
                proof {
                    lemma_first_with_number(self.roster(side), number, i as int);
                }
                return Some(i);
            }
            i = i + 1;
        }
        proof {
            lemma_no_number(self.roster(side), number);
        }
        None
    }
}

/// Well-formedness does not depend on the phase tag nor on the side it favours.
pub proof fn lemma_wf_keeps(g: GameState, h: GameState)
    requires
        g.wf(),
        h.roster(Side::Home) == g.roster(Side::Home),
        h.roster(Side::Away) == g.roster(Side::Away),
        h.ball == g.ball,
        h.ball_throw == g.ball_throw,
        h.field == g.field,
        ball_coord_ok(h.state.x),
        ball_coord_ok(h.state.y),
        0 <= h.state.size <= WORLD,
    ensures
        h.wf(),
{
    assert forall|s: Side, i: int| #[trigger] h.carries(s, i) == g.carries(s, i) && h.roster(s) == g.roster(s) by {
        match s {
            Side::Home => {},
            Side::Away => {},
        }
    }
    assert forall|s: Side, i: int| #[trigger] h.carries(s, i) implies h.ball.is_carried && h.carried_at(s, i) by {
        assert(g.carries(s, i));
        assert(h.roster(s) == g.roster(s));
    }
    if h.ball.is_carried {
        let (s0, i0) = choose|s: Side, i: int| #[trigger] g.carries(s, i);
        assert(h.carries(s0, i0));
    }
}

/// A loose ball may move anywhere within bounds without breaking well-formedness.
pub proof fn lemma_wf_loose_ball(g: GameState, h: GameState)
    requires
        g.wf(),
        !g.ball.is_carried,
        !h.ball.is_carried,
        h.roster(Side::Home) == g.roster(Side::Home),
        h.roster(Side::Away) == g.roster(Side::Away),
        h.ball_throw == g.ball_throw,
        h.field == g.field,
        ball_coord_ok(h.ball.x),
        ball_coord_ok(h.ball.y),
        0 <= h.ball.z <= WORLD,
        ball_coord_ok(h.state.x),
        ball_coord_ok(h.state.y),
        0 <= h.state.size <= WORLD,
    ensures
        h.wf(),
{
    assert forall|s: Side, i: int| !#[trigger] h.carries(s, i) by {
        match s {
            Side::Home => { assert(!g.carries(s, i)); },
            Side::Away => { assert(!g.carries(s, i)); },
        }
    }
}

/// Index of the first player in `s` wearing `number`.
pub open spec fn first_with_number(s: Seq<Player>, number: usize) -> Option<usize>
    decreases s.len(),
{
    if s.len() == 0 {
        None
    } else {
        match first_with_number(s.drop_last(), number) {
            Some(i) => Some(i),
            None => if s.last().number == number && s.len() - 1 <= usize::MAX {
                Some((s.len() - 1) as usize)
            } else {
                None
            },
        }
    }
}

proof fn lemma_first_with_number(s: Seq<Player>, number: usize, i: int)
    requires
        0 <= i < s.len(),
        i <= usize::MAX,
        s[i].number == number,
        forall|j: int| 0 <= j < i ==> (#[trigger] s[j]).number != number,
    ensures
        first_with_number(s, number) == Some(i as usize),
    decreases s.len(),
{
    if i < s.len() - 1 {
        lemma_first_with_number(s.drop_last(), number, i);
    } else {
        lemma_no_number(s.drop_last(), number);
    }
}

proof fn lemma_no_number(s: Seq<Player>, number: usize)
    requires
        forall|j: int| 0 <= j < s.len() ==> (#[trigger] s[j]).number != number,
    ensures
        first_with_number(s, number) == None::<usize>,
    decreases s.len(),
{
    if s.len() > 0 {
        assert forall|j: int| 0 <= j < s.drop_last().len() implies (#[trigger] s.drop_last()[j]).number != number by {
            assert(s.drop_last()[j] == s[j]);
        }
        lemma_no_number(s.drop_last(), number);
    }
}

} // verus!
