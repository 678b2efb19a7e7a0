//! Creating a match and setting it up from its descriptors: the field, the
//! two attribute lists, and an optional restart state.
use vstd::prelude::*;
use crate::commands::{after, before, first_at, holds_byte, split_once};
use vstd::string::StringSliceAdditionalSpecFns;
use crate::model::{
    attack_sign, CARRY_OFFSET,
    squads_kept, CARRY_HEIGHT,
    field_ok, player_ok, roster_ok, Ball, BallThrow, Field, GameState, Phase, Player, Side, State,
    Team, first_with_number, lemma_wf_keeps, lemma_wf_loose_ball, coord_ok, WORLD,
    MAX_ACTIVE, MAX_FIELD_M, MAX_FOOT, MAX_POUND, MAX_SIZE_CM, MAX_SPEED,
};
use crate::text::{milli_of, number_of, parse_milli, parse_number};
use crate::geometry::clamp_between;
use vstd::utf8::encode_utf8;
use crate::possession::without_ball;
use crate::tokens::{measure, read_measure, read_setting, setting, token_at, token_of, value_in, value_of};

verus! {

/// The pair `a-b` of two numbers.
pub open spec fn pair_of(p: Seq<u8>) -> Option<(usize, usize)> {
    match (number_of(before(p, 45)), number_of(before(after(p, 45), 45))) {
        (Some(a), Some(b)) => if holds_byte(p, 45) && a <= usize::MAX && b <= usize::MAX {
            Some((a as usize, b as usize))
        } else {
            None
        },
        _ => None,
    }
}

/// The pairs `a-b` of a `/`-separated list; pieces that are no pair are skipped.
pub open spec fn pairs_of(v: Seq<u8>) -> Seq<(usize, usize)>
    decreases v.len(),
    via pairs_of_decreases
{
    let head = match pair_of(before(v, 47)) {
        Some(q) => seq![q],
        None => Seq::empty(),
    };
    if holds_byte(v, 47) {
        head + pairs_of(after(v, 47))
    } else {
        head
    }
}

#[via_fn]
proof fn pairs_of_decreases(v: Seq<u8>) {
    lemma_after_shorter(v, 47);
}

/// What follows the first `c` is shorter than the whole.
pub proof fn lemma_after_shorter(v: Seq<u8>, c: u8)
    ensures
        holds_byte(v, c) ==> after(v, c).len() < v.len(),
{
    if holds_byte(v, c) {
        let j = choose|j: int| 0 <= j < v.len() && v[j] == c;
        lemma_first_exists(v, c, j);
        let k = choose|k: int| first_at(v, c, k);
        assert(first_at(v, c, k));
    }
}

/// A byte that occurs has a first occurrence.
proof fn lemma_first_exists(v: Seq<u8>, c: u8, j: int)
    requires
        0 <= j < v.len(),
        v[j] == c,
    ensures
        exists|k: int| first_at(v, c, k),
    decreases j,
{
    if exists|i: int| 0 <= i < j && v[i] == c {
        let i = choose|i: int| 0 <= i < j && v[i] == c;
        lemma_first_exists(v, c, i);
    } else {
        assert(first_at(v, c, j));
    }
}

/// The attacking letter of the home side named by the descriptor: 'S' when
/// its value starts with `S`, 'N' otherwise.
pub open spec fn direction_setting(s: Seq<u8>) -> char {
    match token_of(s, 95, 3) {
        Some(t) => match value_of(t) {
            Some(v) => if v.len() > 0 && v[0] == 83 { 'S' } else { 'N' },
            None => 'N',
        },
        None => 'N',
    }
}

/// The switch flag: the value `true`.
pub open spec fn switch_setting(s: Seq<u8>) -> bool {
    match token_of(s, 95, 4) {
        Some(t) => match value_of(t) {
            Some(v) => v == seq![116u8, 114u8, 117u8, 101u8],
            None => false,
        },
        None => false,
    }
}

/// The switch points listed by the value of the `i`-th token.
pub open spec fn switch_points(s: Seq<u8>, i: nat) -> Seq<(usize, usize)> {
    match token_of(s, 95, i) {
        Some(t) => match value_of(t) {
            Some(v) => pairs_of(v),
            None => Seq::empty(),
        },
        None => Seq::empty(),
    }
}

/// The field described by `s`: `key=value` tokens joined by `_`, in the
/// order width, height, try depth, direction, switch flag, switch time,
/// home and away switch points, wind strength, wind direction, weather.
pub open spec fn field_of(s: Seq<u8>) -> Field {
    Field {
        width: setting(s, 0, 100, MAX_FIELD_M as int) as usize,
        height: setting(s, 1, 70, MAX_FIELD_M as int) as usize,
        try_size: setting(s, 2, 10, MAX_FIELD_M as int) as usize,
        home_direction_try: direction_setting(s),
        is_switch: switch_setting(s),
        switch_time: setting(s, 5, 40, MAX_FIELD_M as int) as usize,
        switch_home: arbitrary(),
        switch_away: arbitrary(),
        wind_strength: setting(s, 8, 0, MAX_FIELD_M as int) as usize,
        wind_direction: setting(s, 9, 0, 360) as usize,
        weather: setting(s, 10, 0, 100) as usize,
    }
}

/// The player described by attribute record `s` (size in cm, weight, speed
/// in km/h, kicking power in m, kicking and tackling accuracy in percent)
/// standing at `(x, y)` with jersey `number`.
pub open spec fn player_of(s: Seq<u8>, x: i64, y: i64, number: usize) -> Player {
    Player {
        x,
        y,
        number,
        ball_pos: false,
        size: (measure(s, 0, 180_000, MAX_SIZE_CM * 1000) / 1000) as u64,
        pound: (measure(s, 1, 100_000, MAX_POUND * 1000) / 1000) as u64,
        speed: measure(s, 2, 10_000, MAX_SPEED as int) as u64,
        foot: measure(s, 3, 10_000, MAX_FOOT as int) as u64,
        p_foot: (measure(s, 4, 10_000, 100_000) / 1000) as u64,
        p_tackle: (measure(s, 5, 10_000, 100_000) / 1000) as u64,
        is_tackle: false,
        is_tackler: false,
    }
}

/// The pairs of a `/`-separated list.
fn parse_pairs(v: &[u8]) -> (r: Vec<(usize, usize)>)
    ensures
        r@ == pairs_of(v@),
{
    let mut out: Vec<(usize, usize)> = Vec::new();
    let mut rest = v;
    loop
        invariant
            out@ + pairs_of(rest@) == pairs_of(v@),
        decreases rest@.len(),
    {
        let (head, tail) = split_once(rest, 47);
        let (a, b_part) = split_once(head, 45);
        let (b, _) = split_once(b_part, 45);
        let has_dash = crate::commands::find_byte(head, 45).is_some();
        match (parse_number(a), parse_number(b)) {
            (Some(x), Some(y)) => {
                if has_dash && x <= usize::MAX as u64 && y <= usize::MAX as u64 {
                    out.push((x as usize, y as usize));
                }
            },
            _ => {},
        }
        let more = crate::commands::find_byte(rest, 47).is_some();
        proof {
            lemma_after_shorter(rest@, 47);
            assert(out@ + pairs_of(tail@) =~= pairs_of(v@)) by {
                if more {
                    assert(pairs_of(rest@) == match pair_of(before(rest@, 47)) {
                        Some(q) => seq![q],
                        None => Seq::<(usize, usize)>::empty(),
                    } + pairs_of(after(rest@, 47)));
                }
            }
        }
        if !more {
            proof {
                assert(out@ =~= pairs_of(v@));
            }
            return out;
        }
        rest = tail;
    }
}

/// The switch points of the `i`-th token of `s`.
fn read_switch_points(s: &[u8], i: usize) -> (r: Vec<(usize, usize)>)
    ensures
        r@ == switch_points(s@, i as nat),
{
    match token_at(s, 95, i) {
        Some(t) => match value_in(t) {
            Some(v) => parse_pairs(v),
            None => Vec::new(),
        },
        None => Vec::new(),
    }
}

/// Reads the field descriptor.
pub fn parse_field(s: &[u8]) -> (f: Field)
    ensures
        f == (Field { switch_home: f.switch_home, switch_away: f.switch_away, ..field_of(s@) }),
        f.switch_home@ == switch_points(s@, 6),
        f.switch_away@ == switch_points(s@, 7),
        field_ok(f),
{
    let dir = match token_at(s, 95, 3) {
        Some(t) => match value_in(t) {
            Some(v) => if v.len() > 0 && v[0] == 83 { 'S' } else { 'N' },
            None => 'N',
        },
        None => 'N',
    };
    let switch = match token_at(s, 95, 4) {
        Some(t) => match value_in(t) {
            Some(v) => {
                let yes = v.len() == 4 && v[0] == 116 && v[1] == 114 && v[2] == 117 && v[3] == 101;
                proof {
                    if yes {
                        assert(v@ =~= seq![116u8, 114u8, 117u8, 101u8]);
                    }
                }
                yes
            },
            None => false,
        },
        None => false,
    };
    Field {
        width: read_setting(s, 0, 100, MAX_FIELD_M as u64) as usize,
        height: read_setting(s, 1, 70, MAX_FIELD_M as u64) as usize,
        try_size: read_setting(s, 2, 10, MAX_FIELD_M as u64) as usize,
        home_direction_try: dir,
        is_switch: switch,
        switch_time: read_setting(s, 5, 40, MAX_FIELD_M as u64) as usize,
        switch_home: read_switch_points(s, 6),
        switch_away: read_switch_points(s, 7),
        wind_strength: read_setting(s, 8, 0, MAX_FIELD_M as u64) as usize,
        wind_direction: read_setting(s, 9, 0, 360) as usize,
        weather: read_setting(s, 10, 0, 100) as usize,
    }
}

/// Reads a player's attribute record.
pub fn parse_player(s: &[u8], x: i64, y: i64, number: usize) -> (p: Player)
    ensures
        p == player_of(s@, x, y, number),
{
    Player {
        x,
        y,
        number,
        ball_pos: false,
        size: (read_measure(s, 0, 180_000, (MAX_SIZE_CM * 1000) as i64) / 1000) as u64,
        pound: (read_measure(s, 1, 100_000, (MAX_POUND * 1000) as i64) / 1000) as u64,
        speed: read_measure(s, 2, 10_000, MAX_SPEED as i64) as u64,
        foot: read_measure(s, 3, 10_000, MAX_FOOT as i64) as u64,
        p_foot: (read_measure(s, 4, 10_000, 100_000) / 1000) as u64,
        p_tackle: (read_measure(s, 5, 10_000, 100_000) / 1000) as u64,
        is_tackle: false,
        is_tackler: false,
    }
}

/// Width of the gap between two players of the initial line-up, in millimetres.
pub const LINE_UP_GAP: i64 = 3000;

/// Lateral position of the `i`-th listed player at kick-off.
pub open spec fn line_up_y(i: int) -> int {
    6000 + LINE_UP_GAP * (if i < 1000 { i } else { 1000 })
}

/// Where the home side lines up: two metres short of halfway.
pub open spec fn home_line(f: Field) -> int {
    if f.width / 2 + f.try_size >= 2 { (f.width / 2 + f.try_size - 2) * 1000 } else { 0 }
}

/// Where the away side lines up: three quarters down the whole length.
pub open spec fn away_line(f: Field) -> int {
    ((f.width + 2 * f.try_size) * 3 / 4) * 1000
}

/// The bytes of a `String`.
pub open spec fn bytes_of(s: String) -> Seq<u8> {
    encode_utf8(s@)
}

/// The `i`-th word of the header token of a restart descriptor.
pub open spec fn header_word(st: Seq<u8>, i: nat) -> Option<Seq<u8>> {
    match token_of(st, 95, 0) {
        Some(t) => token_of(t, 32, i),
        None => None,
    }
}

/// The phase named by a word.
pub open spec fn phase_named(w: Seq<u8>) -> Phase {
    if w == seq![112u8, 108u8, 97u8, 121u8] {
        Phase::Play
    } else if w == seq![115u8, 99u8, 114u8, 117u8, 109u8] {
        Phase::Scrum
    } else if w == seq![114u8, 117u8, 99u8, 107u8] {
        Phase::Ruck
    } else if w == seq![112u8, 101u8, 110u8, 97u8, 108u8, 116u8, 121u8] {
        Phase::Penalty
    } else if w == seq![102u8, 114u8, 101u8, 101u8, 107u8, 105u8, 99u8, 107u8] {
        Phase::FreeKick
    } else if w == seq![112u8, 101u8, 110u8, 97u8, 108u8, 116u8, 121u8, 107u8, 105u8, 99u8, 107u8] {
        Phase::PenaltyKick
    } else {
        Phase::Start
    }
}

/// A coordinate word of the header, in millimetres, kept in the world.
pub open spec fn header_coord(st: Seq<u8>, i: nat) -> int {
    match header_word(st, i) {
        Some(w) => match milli_of(w) {
            Some(m) => clamp_between(m, -WORLD as int, WORLD as int),
            None => 0,
        },
        None => 0,
    }
}

/// A player named `H<n>` or `A<n>`.
pub open spec fn player_id(w: Seq<u8>) -> Option<(Side, usize)> {
    if w.len() >= 1 && (w[0] == 72 || w[0] == 65) {
        match number_of(w.subrange(1, w.len() as int)) {
            Some(n) => Some((if w[0] == 72 { Side::Home } else { Side::Away }, n as usize)),
            None => None,
        }
    } else {
        None
    }
}

/// The phase state that a restart descriptor's header names: phase, side,
/// reference point and contest radius (defaults: start, home, origin, 0).
pub open spec fn header_state(st: Seq<u8>) -> State {
    State {
        phase: match header_word(st, 0) {
            Some(w) => phase_named(w),
            None => Phase::Start,
        },
        team: match header_word(st, 1) {
            Some(w) => if w.len() > 0 && w[0] == 65 { Side::Away } else { Side::Home },
            None => Side::Home,
        },
        x: header_coord(st, 2) as i64,
        y: header_coord(st, 3) as i64,
        size: clamp_between(header_coord(st, 4), 0, WORLD as int) as i64,
    }
}

/// The player that a header word names, in a ruck descriptor.
pub open spec fn ruck_mark(st: Seq<u8>, i: nat) -> Option<(Side, usize)> {
    if header_state(st).phase == Phase::Ruck {
        match header_word(st, i) {
            Some(w) => player_id(w),
            None => None,
        }
    } else {
        None
    }
}

/// Same attributes and jersey number.
pub open spec fn same_attributes(p: Player, q: Player) -> bool {
    &&& p.number == q.number
    &&& p.size == q.size
    &&& p.pound == q.pound
    &&& p.speed == q.speed
    &&& p.foot == q.foot
    &&& p.p_foot == q.p_foot
    &&& p.p_tackle == q.p_tackle
}

/// Reads a player name.
fn read_player_id(w: &[u8]) -> (r: Option<(Side, usize)>)
    ensures
        r == player_id(w@),
{
    if w.len() >= 1 && (w[0] == 72 || w[0] == 65) {
        match parse_number(&w[1..w.len()]) {
            Some(n) => Some((if w[0] == 72 { Side::Home } else { Side::Away }, n as usize)),
            None => None,
        }
    } else {
        None
    }
}

/// Reads a coordinate word in millimetres, kept in the world; 0 when absent.
fn read_coord(w: Option<&[u8]>) -> (r: i64)
    ensures
        r == match w {
            Some(w) => match milli_of(w@) {
                Some(m) => clamp_between(m, -WORLD as int, WORLD as int),
                None => 0,
            },
            None => 0int,
        },
        coord_ok(r),
{
    match w {
        Some(w) => match parse_milli(w) {
            Some(m) => if m < -WORLD { -WORLD } else if m > WORLD { WORLD } else { m },
            None => 0,
        },
        None => 0,
    }
}

/// Names a phase from its word.
fn read_phase(w: &[u8]) -> (r: Phase)
    ensures
        r == phase_named(w@),
{
    let n = w.len();
    let play = n == 4 && w[0] == 112 && w[1] == 108 && w[2] == 97 && w[3] == 121;
    let scrum = n == 5 && w[0] == 115 && w[1] == 99 && w[2] == 114 && w[3] == 117 && w[4] == 109;
    let ruck = n == 4 && w[0] == 114 && w[1] == 117 && w[2] == 99 && w[3] == 107;
    let pen = n == 7 && w[0] == 112 && w[1] == 101 && w[2] == 110 && w[3] == 97 && w[4] == 108 && w[5] == 116 && w[6] == 121;
    let free = n == 8 && w[0] == 102 && w[1] == 114 && w[2] == 101 && w[3] == 101 && w[4] == 107 && w[5] == 105 && w[6] == 99 && w[7] == 107;
    let pkick = n == 11 && w[0] == 112 && w[1] == 101 && w[2] == 110 && w[3] == 97 && w[4] == 108 && w[5] == 116 && w[6] == 121
        && w[7] == 107 && w[8] == 105 && w[9] == 99 && w[10] == 107;
    proof {
        if free { assert(w@ =~= seq![102u8, 114u8, 101u8, 101u8, 107u8, 105u8, 99u8, 107u8]); }
        if pkick { assert(w@ =~= seq![112u8, 101u8, 110u8, 97u8, 108u8, 116u8, 121u8, 107u8, 105u8, 99u8, 107u8]); }
        if play { assert(w@ =~= seq![112u8, 108u8, 97u8, 121u8]); }
        if scrum { assert(w@ =~= seq![115u8, 99u8, 114u8, 117u8, 109u8]); }
        if ruck { assert(w@ =~= seq![114u8, 117u8, 99u8, 107u8]); }
        if pen { assert(w@ =~= seq![112u8, 101u8, 110u8, 97u8, 108u8, 116u8, 121u8]); }
    }
    if play {
        Phase::Play
    } else if scrum {
        Phase::Scrum
    } else if ruck {
        Phase::Ruck
    } else if pen {
        Phase::Penalty
    } else if free {
        Phase::FreeKick
    } else if pkick {
        Phase::PenaltyKick
    } else {
        Phase::Start
    }
}

/// Builds the active players and the bench of one side from their records:
/// the first fifteen play, standing on line `x` one gap apart, numbered from 1.
fn line_up(records: &Vec<String>, x: i64) -> (r: (Vec<Player>, Vec<Player>))
    requires
        coord_ok(x),
    ensures
        r.0@.len() == if records@.len() < 15 { records@.len() } else { 15 },
        r.1@.len() == records@.len() - r.0@.len(),
        forall|i: int| 0 <= i < r.0@.len() ==> #[trigger] r.0@[i] == player_of(
            bytes_of(records@[i]), x, line_up_y(i) as i64, (i + 1) as usize),
        forall|i: int| 0 <= i < r.1@.len() ==> #[trigger] r.1@[i] == player_of(
            bytes_of(records@[i + 15]), x, line_up_y(i + 15) as i64, (i + 16) as usize),
        roster_ok(r.0@),
{
    let mut players: Vec<Player> = Vec::new();
    let mut bench: Vec<Player> = Vec::new();
    let mut i: usize = 0;
    while i < records.len()
        invariant
            coord_ok(x),
            i <= records@.len(),
            players@.len() == if i < 15 { i as int } else { 15 },
            bench@.len() == i - players@.len(),
            forall|k: int| 0 <= k < players@.len() ==> #[trigger] players@[k] == player_of(
                bytes_of(records@[k]), x, line_up_y(k) as i64, (k + 1) as usize),
            forall|k: int| 0 <= k < bench@.len() ==> #[trigger] bench@[k] == player_of(
                bytes_of(records@[k + 15]), x, line_up_y(k + 15) as i64, (k + 16) as usize),
            forall|k: int| 0 <= k < players@.len() ==> player_ok(#[trigger] players@[k]),
        decreases records@.len() - i,
    {
        let step: i64 = if i < 1000 { i as i64 } else { 1000 };
        let y = 6000 + LINE_UP_GAP * step;
        let p = parse_player(records[i].as_str().as_bytes(), x, y, i + 1);
        if i < MAX_ACTIVE {
            players.push(p);
        } else {
            bench.push(p);
        }
        i = i + 1;
    }
    (players, bench)
}

impl GameState {
    /// A match before set-up: start phase for the home side, empty rosters,
    /// the ball loose at (50 m, 35 m), one metre up.
    pub fn new() -> (g: GameState)
        ensures
            g.wf(),
            g.state == (State { phase: Phase::Start, team: Side::Home, size: 0, x: 0, y: 0 }),
            g.time == 0,
            g.roster(Side::Home).len() == 0,
            g.roster(Side::Away).len() == 0,
            g.ball == (Ball { x: 50_000, y: 35_000, z: 1000, is_carried: false }),
            !g.ball_throw.active,
            g.field == (Field {
                width: 0,
                height: 0,
                try_size: 0,
                home_direction_try: 'N',
                is_switch: false,
                switch_time: 0,
                switch_home: g.field.switch_home,
                switch_away: g.field.switch_away,
                wind_strength: 0,
                wind_direction: 0,
                weather: 0,
            }),
            g.field.switch_home@.len() == 0,
            g.field.switch_away@.len() == 0,
            g.home_team.bench@.len() == 0,
            g.away_team.bench@.len() == 0,
    {
        let field = Field {
            width: 0,
            height: 0,
            try_size: 0,
            home_direction_try: 'N',
            is_switch: false,
            switch_time: 0,
            switch_home: Vec::new(),
            switch_away: Vec::new(),
            wind_strength: 0,
            wind_direction: 0,
            weather: 0,
        };
        let home_team = Team { players: Vec::new(), bench: Vec::new(), score: 0, try_scored: 0, transformation: 0, penalty: 0 };
        let away_team = Team { players: Vec::new(), bench: Vec::new(), score: 0, try_scored: 0, transformation: 0, penalty: 0 };
        let g = GameState {
            state: State { phase: Phase::Start, team: Side::Home, size: 0, x: 0, y: 0 },
            field,
            time: 0,
            home_team,
            away_team,
            ball: Ball { x: 50_000, y: 35_000, z: 1000, is_carried: false },
            ball_throw: BallThrow { vx: 0, vy: 0, vz: 0, active: false },
        };
        assert forall|s: Side, i: int| !#[trigger] g.carries(s, i) by {}
        g
    }

    /// Applies one placement token of a restart descriptor: `B x y` puts the
    /// ball loose on the ground; `<Side><Number> x y` moves that player, and a
    /// trailing `/B ...` hands them the ball.
    fn apply_placement(&mut self, t: &[u8])
        requires
            old(self).wf(),
        ensures
            final(self).wf(),
            keeps_identities(*old(self), *final(self)),
            final(self).state == old(self).state,
            final(self).field == old(self).field,
            final(self).time == old(self).time,
            placed(*old(self), t@, *final(self)),
    {
        if t.len() >= 2 && t[0] == 66 && t[1] == 32 {
            let bx = read_coord(token_at(t, 32, 1));
            let by = read_coord(token_at(t, 32, 2));
            self.release_ball();
            let ghost g0 = *self;
            self.ball.x = bx;
            self.ball.y = by;
            self.ball.z = 0;
            proof {
                lemma_wf_loose_ball(g0, *self);
            }
            return;
        }
        let (part, ball_part) = split_once(t, 47);
        let carrier = crate::commands::find_byte(t, 47).is_some() && ball_part.len() > 0 && ball_part[0] == 66;
        let id = match token_at(part, 32, 0) {
            Some(w) => read_player_id(w),
            None => None,
        };
        let x = read_coord(token_at(part, 32, 1));
        let y = read_coord(token_at(part, 32, 2));
        match id {
            Some((side, n)) => match self.find_player(side, n) {
                Some(i) => {
                    self.place_player(side, i, x, y);
                    if carrier {
                        self.hand_ball(side, i);
                    }
                },
                None => {},
            },
            None => {},
        }
    }

    /// Sets the flags of the player named by `w` (if any is on the field).
    fn mark_named(&mut self, w: Option<&[u8]>, held: bool)
        requires
            old(self).wf(),
        ensures
            final(self).wf(),
            keeps_identities(*old(self), *final(self)),
            forall|s: Side, i: int| 0 <= i < old(self).roster(s).len() && #[trigger] old(self).roster(s)[i].is_tackle ==> final(self).roster(s)[i].is_tackle,
            forall|s: Side, i: int| 0 <= i < old(self).roster(s).len() && #[trigger] old(self).roster(s)[i].is_tackler ==> final(self).roster(s)[i].is_tackler,
            match w {
                Some(w) => match player_id(w@) {
                    Some((s, n)) => match first_with_number(old(self).roster(s), n) {
                        Some(i) => if held { final(self).roster(s)[i as int].is_tackle } else { final(self).roster(s)[i as int].is_tackler },
                        None => true,
                    },
                    None => true,
                },
                None => true,
            },
            final(self).state == old(self).state,
            final(self).ball == old(self).ball,
            final(self).field == old(self).field,
            final(self).time == old(self).time,
            mark_step(*old(self), opt_view(w), held, *final(self)),
    {
        match w {
            Some(w) => match read_player_id(w) {
                Some((side, n)) => match self.find_player(side, n) {
                    Some(i) => {
                        let p = self.player(side, i);
                        if held {
                            self.mark(side, i, true, p.is_tackler);
                        } else {
                            self.mark(side, i, p.is_tackle, true);
                        }
                        proof {
                            assert forall|s: Side, j: int| 0 <= j < old(self).roster(s).len() implies
                                same_attributes(#[trigger] self.roster(s)[j], old(self).roster(s)[j]) by {
                                if s != side { assert(s == side.opponent()); }
                            }
                            assert forall|s: Side| #[trigger] self.roster(s).len() == old(self).roster(s).len() by {
                                if s != side { assert(s == side.opponent()); }
                            }
                            assert forall|s: Side, j: int| 0 <= j < old(self).roster(s).len() && #[trigger] old(self).roster(s)[j].is_tackle implies self.roster(s)[j].is_tackle by {
                                if s != side { assert(s == side.opponent()); }
                            }
                            assert forall|s: Side, j: int| 0 <= j < old(self).roster(s).len() && #[trigger] old(self).roster(s)[j].is_tackler implies self.roster(s)[j].is_tackler by {
                                if s != side { assert(s == side.opponent()); }
                            }
                        }
                    },
                    None => {},
                },
                None => {},
            },
            None => {},
        }
    }

    /// Applies a restart descriptor: its placement tokens in order, then its
    /// header (phase, side, reference point, radius and, for a ruck, the held
    /// player and the tackler).
    #[verifier::rlimit(80)]
    pub fn init_state(&mut self, st: &[u8])
        requires
            old(self).wf(),
        ensures
            final(self).wf(),
            keeps_identities(*old(self), *final(self)),
            final(self).state == header_state(st@),
            match ruck_mark(st@, 5) {
                Some((s, n)) => match first_with_number(final(self).roster(s), n) {
                    Some(i) => final(self).roster(s)[i as int].is_tackle,
                    None => true,
                },
                None => true,
            },
            match ruck_mark(st@, 6) {
                Some((s, n)) => match first_with_number(final(self).roster(s), n) {
                    Some(i) => final(self).roster(s)[i as int].is_tackler,
                    None => true,
                },
                None => true,
            },
            final(self).field == old(self).field,
            final(self).time == old(self).time,
            restarted(*old(self), st@, *final(self)),
    {
        let ghost g0 = *self;
        let ghost mut trace: Seq<GameState> = seq![*self];
        let ghost mut k: nat = 0;
        if crate::commands::find_byte(st, 95).is_some() {
            let (_, mut rest) = split_once(st, 95);
            proof {
                assert forall|j: nat| #[trigger] token_of(rest@, 95, j) == token_of(st@, 95, (j + 1) as nat) by {}
            }
            loop
                invariant_except_break
                    forall|j: nat| #[trigger] token_of(rest@, 95, j) == token_of(st@, 95, (k + 1 + j) as nat),
                invariant
                    self.wf(),
                    keeps_identities(g0, *self),
                    g0 == *old(self),
                    self.state == old(self).state,
                    self.field == old(self).field,
                    self.time == old(self).time,
                    placements(g0, st@, trace, k),
                    trace.last() == *self,
                ensures
                    placement_token(st@, k) is None,
                decreases rest@.len(),
            {
                let (t, tail) = split_once(rest, 95);
                let more = crate::commands::find_byte(rest, 95).is_some();
                let ghost before_step = *self;
                proof {
                    assert(token_of(rest@, 95, 0) == token_of(st@, 95, (k + 1) as nat));
                }
                self.apply_placement(t);
                proof {
                    lemma_keeps_trans(g0, before_step, *self);
                    lemma_after_shorter(rest@, 95);
                    let t2 = trace.push(*self);
                    assert(placements(g0, st@, t2, k + 1)) by {
                        assert forall|i: int| 0 <= i < k + 1 implies #[trigger] placement_token(st@, i as nat) is Some by {
                            if i < k {
                                assert(placements(g0, st@, trace, k));
                            }
                        }
                        assert forall|i: int| 0 <= i < k + 1 implies #[trigger] placed(t2[i], placement_token(st@, i as nat)->0, t2[i + 1]) by {
                            if i < k {
                                assert(t2[i] == trace[i]);
                                assert(t2[i + 1] == trace[i + 1]);
                                assert(placements(g0, st@, trace, k));
                            }
                        }
                    }
                    trace = t2;
                }
                if !more {
                    proof {
                        assert(token_of(rest@, 95, 1) is None);
                        k = k + 1;
                    }
                    break;
                }
                proof {
                    assert forall|j: nat| #[trigger] token_of(tail@, 95, j) == token_of(st@, 95, (k + 2 + j) as nat) by {
                        assert(token_of(rest@, 95, (j + 1) as nat) == token_of(tail@, 95, j));
                    }
                    k = k + 1;
                }
                rest = tail;
            }
        } else {
            proof {
                assert(token_of(st@, 95, 1) is None);
                assert(placements(g0, st@, trace, k));
            }
        }
        let ghost placed = *self;
        assert(placement_token(st@, k) is None);
        assert(placements(g0, st@, trace, k));
        assert(placed == trace[k as int]);
        let header = match token_at(st, 95, 0) {
            Some(h) => h,
            None => st,
        };
        let phase = match token_at(header, 32, 0) {
            Some(w) => read_phase(w),
            None => Phase::Start,
        };
        let team = match token_at(header, 32, 1) {
            Some(w) => if w.len() > 0 && w[0] == 65 { Side::Away } else { Side::Home },
            None => Side::Home,
        };
        let x = read_coord(token_at(header, 32, 2));
        let y = read_coord(token_at(header, 32, 3));
        let size_raw = read_coord(token_at(header, 32, 4));
        let size = if size_raw < 0 { 0 } else { size_raw };
        self.state = State { phase, team, size, x, y };
        proof {
            lemma_wf_keeps(placed, *self);
            assert(self.state == header_state(st@));
        }
        if phase == Phase::Ruck {
            let ghost s1 = *self;
            self.mark_named(token_at(header, 32, 5), true);
            let ghost s2 = *self;
            self.mark_named(token_at(header, 32, 6), false);
            proof {
                lemma_keeps_trans(g0, placed, s1);
                lemma_keeps_trans(g0, s1, s2);
                lemma_keeps_trans(g0, s2, *self);
                lemma_first_same(s1, s2);
                lemma_first_same(s2, *self);
                assert(header_word(st@, 5) == token_of(header@, 32, 5));
                assert(header_word(st@, 6) == token_of(header@, 32, 6));
                match ruck_mark(st@, 5) {
                    Some((s, n)) => match first_with_number(s1.roster(s), n) {
                        Some(i) => {
                            lemma_first_in_range(s1.roster(s), n);
                            assert(s2.roster(s)[i as int].is_tackle);
                            assert(self.roster(s)[i as int].is_tackle);
                        },
                        None => {},
                    },
                    None => {},
                }
                assert(s1 == (GameState { state: header_state(st@), ..placed }));
                assert(mark_step(s1, header_word(st@, 5), true, s2));
                assert(headed(placed, st@, *self));
                assert(restarted(g0, st@, *self));
            }
        } else {
            proof {
                lemma_keeps_trans(g0, placed, *self);
                assert(headed(placed, st@, *self));
                assert(restarted(g0, st@, *self));
            }
        }
    }

    /// Sets the match up: the field, the two line-ups (the home number 10
    /// holds the ball), then the restart descriptor.
    #[verifier::rlimit(80)]
    pub fn initialize(&mut self, field: &str, home_players: &Vec<String>, away_players: &Vec<String>, state: &str)
        ensures
            final(self).wf(),
            final(self).field == (Field {
                switch_home: final(self).field.switch_home,
                switch_away: final(self).field.switch_away,
                ..field_of(field.spec_bytes())
            }),
            final(self).roster(Side::Home).len() == if home_players@.len() < 15 { home_players@.len() } else { 15 },
            final(self).roster(Side::Away).len() == if away_players@.len() < 15 { away_players@.len() } else { 15 },
            forall|i: int| 0 <= i < final(self).roster(Side::Home).len() ==> same_attributes(
                #[trigger] final(self).roster(Side::Home)[i], player_of(bytes_of(home_players@[i]), 0, 0, (i + 1) as usize)),
            forall|i: int| 0 <= i < final(self).roster(Side::Away).len() ==> same_attributes(
                #[trigger] final(self).roster(Side::Away)[i], player_of(bytes_of(away_players@[i]), 0, 0, (i + 1) as usize)),
            final(self).state == header_state(state.spec_bytes()),
            match ruck_mark(state.spec_bytes(), 5) {
                Some((s, n)) => match first_with_number(final(self).roster(s), n) {
                    Some(i) => final(self).roster(s)[i as int].is_tackle,
                    None => true,
                },
                None => true,
            },
            match ruck_mark(state.spec_bytes(), 6) {
                Some((s, n)) => match first_with_number(final(self).roster(s), n) {
                    Some(i) => final(self).roster(s)[i as int].is_tackler,
                    None => true,
                },
                None => true,
            },
            final(self).time == old(self).time,
            exists|g: GameState| #[trigger] lined_up(final(self).field, home_players@, away_players@, old(self).time, g)
                && restarted(g, state.spec_bytes(), *final(self)),
            final(self).field.switch_home@ == switch_points(field.spec_bytes(), 6),
            final(self).field.switch_away@ == switch_points(field.spec_bytes(), 7),
    {
        let f = parse_field(field.as_bytes());
        let hx: i64 = if f.width / 2 + f.try_size >= 2 { ((f.width / 2 + f.try_size - 2) as i64) * 1000 } else { 0 };
        let ax: i64 = (((f.width + 2 * f.try_size) * 3 / 4) as i64) * 1000;
        let (hp, hb) = line_up(home_players, hx);
        let (ap, ab) = line_up(away_players, ax);
        let mut g = GameState {
            state: State { phase: Phase::Start, team: Side::Home, size: 0, x: 0, y: 0 },
            field: f,
            time: self.time,
            home_team: Team { players: hp, bench: hb, score: 0, try_scored: 0, transformation: 0, penalty: 0 },
            away_team: Team { players: ap, bench: ab, score: 0, try_scored: 0, transformation: 0, penalty: 0 },
            ball: Ball { x: 50_000, y: 35_000, z: 1000, is_carried: false },
            ball_throw: BallThrow { vx: 0, vy: 0, vz: 0, active: false },
        };
        proof {
            assert forall|s: Side, i: int| !#[trigger] g.carries(s, i) by {
                match s {
                    Side::Home => { if 0 <= i < g.roster(s).len() { assert(g.roster(s)[i] == hp@[i]); } },
                    Side::Away => { if 0 <= i < g.roster(s).len() { assert(g.roster(s)[i] == ap@[i]); } },
                }
            }
        }
        let ghost g1 = g;
        assert(hx == home_line(f));
        assert(ax == away_line(f));
        if g.roster_len(Side::Home) > 9 {
            g.hand_ball(Side::Home, 9);
        }
        let ghost g2 = g;
        proof {
            assert forall|i: int| 0 <= i < g2.roster(Side::Home).len() implies #[trigger] g2.roster(Side::Home)[i] == (Player {
                ball_pos: i == 9,
                ..player_of(bytes_of(home_players@[i]), home_line(f) as i64, line_up_y(i) as i64, (i + 1) as usize)
            }) by {
                assert(g1.roster(Side::Home)[i] == hp@[i]);
            }
            assert forall|i: int| 0 <= i < g2.roster(Side::Away).len() implies #[trigger] g2.roster(Side::Away)[i]
                == player_of(bytes_of(away_players@[i]), away_line(f) as i64, line_up_y(i) as i64, (i + 1) as usize) by {
                assert(g1.roster(Side::Away)[i] == ap@[i]);
            }
            assert(lined_up(f, home_players@, away_players@, self.time, g2));
        }
        g.init_state(state.as_bytes());
        proof {
            assert(keeps_identities(g1, g2)) by {
                assert forall|s: Side, j: int| 0 <= j < g1.roster(s).len() implies
                    same_attributes(#[trigger] g2.roster(s)[j], g1.roster(s)[j]) by {}
            }
            lemma_keeps_trans(g1, g2, g);
            assert forall|i: int| 0 <= i < g.roster(Side::Home).len() implies same_attributes(
                #[trigger] g.roster(Side::Home)[i], player_of(bytes_of(home_players@[i]), 0, 0, (i + 1) as usize)) by {
                assert(same_attributes(g.roster(Side::Home)[i], g1.roster(Side::Home)[i]));
            }
            assert forall|i: int| 0 <= i < g.roster(Side::Away).len() implies same_attributes(
                #[trigger] g.roster(Side::Away)[i], player_of(bytes_of(away_players@[i]), 0, 0, (i + 1) as usize)) by {
                assert(same_attributes(g.roster(Side::Away)[i], g1.roster(Side::Away)[i]));
            }
        }
        *self = g;
    }
}

/// `g` is a match just lined up on field `f` from the attribute records
/// `home` and `away`, at clock `time`: the first fifteen of each side on
/// their line one gap apart, numbered from 1, the rest on that side's bench
/// numbered from 16; home number 10 holds the ball; no flight; the start
/// phase for the home side.
pub open spec fn lined_up(f: Field, home: Seq<String>, away: Seq<String>, time: u64, g: GameState) -> bool {
    let nh = if home.len() < 15 { home.len() as int } else { 15 };
    let na = if away.len() < 15 { away.len() as int } else { 15 };
    &&& g.field == f
    &&& g.time == time
    &&& g.state == (State { phase: Phase::Start, team: Side::Home, size: 0, x: 0, y: 0 })
    &&& !g.ball_throw.active
    &&& g.roster(Side::Home).len() == nh
    &&& g.roster(Side::Away).len() == na
    &&& forall|i: int| 0 <= i < nh ==> #[trigger] g.roster(Side::Home)[i] == (Player {
        ball_pos: i == 9,
        ..player_of(bytes_of(home[i]), home_line(f) as i64, line_up_y(i) as i64, (i + 1) as usize)
    })
    &&& forall|i: int| 0 <= i < na ==> #[trigger] g.roster(Side::Away)[i]
        == player_of(bytes_of(away[i]), away_line(f) as i64, line_up_y(i) as i64, (i + 1) as usize)
    &&& g.home_team.bench@.len() == home.len() - nh
    &&& g.away_team.bench@.len() == away.len() - na
    &&& forall|k: int| 0 <= k < g.home_team.bench@.len() ==> #[trigger] g.home_team.bench@[k]
        == player_of(bytes_of(home[k + 15]), home_line(f) as i64, line_up_y(k + 15) as i64, (k + 16) as usize)
    &&& forall|k: int| 0 <= k < g.away_team.bench@.len() ==> #[trigger] g.away_team.bench@[k]
        == player_of(bytes_of(away[k + 15]), away_line(f) as i64, line_up_y(k + 15) as i64, (k + 16) as usize)
    &&& g.ball == if nh > 9 {
        Ball {
            x: (home_line(f) + CARRY_OFFSET * attack_sign(f.home_direction_try, Side::Home)) as i64,
            y: line_up_y(9) as i64,
            z: CARRY_HEIGHT,
            is_carried: true,
        }
    } else {
        Ball { x: 50_000, y: 35_000, z: 1000, is_carried: false }
    }
}

/// The view of an optional slice.
pub open spec fn opt_view(w: Option<&[u8]>) -> Option<Seq<u8>> {
    match w {
        Some(w) => Some(w@),
        None => None,
    }
}

/// Coordinate word `i` of `t`, in millimetres, kept in the world; 0 when absent.
pub open spec fn word_coord(t: Seq<u8>, i: nat) -> int {
    match token_of(t, 32, i) {
        Some(w) => match milli_of(w) {
            Some(m) => clamp_between(m, -WORLD as int, WORLD as int),
            None => 0,
        },
        None => 0,
    }
}

/// `h` is `g` after placement token `t` of a restart descriptor:
/// `B x y` leaves the ball loose on the ground at `(x, y)`;
/// `<Side><Number> x y` puts the first player wearing that number at
/// `(x, y)` (a ball they carry goes with them), and a trailing `/B` hands
/// them the ball, taking it from any other carrier. A token naming nobody
/// changes nothing.
pub open spec fn placed(g: GameState, t: Seq<u8>, h: GameState) -> bool {
    &&& h.state == g.state
    &&& h.field == g.field
    &&& h.time == g.time
    &&& squads_kept(g, h)
    &&& if t.len() >= 2 && t[0] == 66 && t[1] == 32 {
        &&& forall|s: Side| #[trigger] h.roster(s).len() == g.roster(s).len()
        &&& forall|s: Side, k: int| 0 <= k < g.roster(s).len() ==> #[trigger] h.roster(s)[k] == without_ball(g.roster(s)[k])
        &&& h.ball == (Ball { x: word_coord(t, 1) as i64, y: word_coord(t, 2) as i64, z: 0, is_carried: false })
        &&& h.ball_throw == g.ball_throw
    } else {
        let part = before(t, 47);
        let carrier = holds_byte(t, 47) && after(t, 47).len() > 0 && after(t, 47)[0] == 66;
        let x = word_coord(part, 1) as i64;
        let y = word_coord(part, 2) as i64;
        match (match token_of(part, 32, 0) { Some(w) => player_id(w), None => None }) {
            Some((side, n)) => match first_with_number(g.roster(side), n) {
                Some(i) => if carrier {
                    &&& forall|s: Side| #[trigger] h.roster(s).len() == g.roster(s).len()
                    &&& forall|s: Side, k: int| 0 <= k < g.roster(s).len() ==> #[trigger] h.roster(s)[k] == (
                        if s == side && k == i {
                            Player { x, y, ball_pos: true, ..g.roster(s)[k] }
                        } else {
                            without_ball(g.roster(s)[k])
                        })
                    &&& h.ball.is_carried
                    &&& h.carried_at(side, i as int)
                    &&& h.ball.z == CARRY_HEIGHT
                    &&& !h.ball_throw.active
                } else {
                    let p = g.roster(side)[i as int];
                    &&& h.roster(side) == g.roster(side).update(i as int, Player { x, y, ..p })
                    &&& h.roster(side.opponent()) == g.roster(side.opponent())
                    &&& (p.ball_pos ==> h.carried_at(side, i as int))
                    &&& (!p.ball_pos ==> h.ball == g.ball)
                    &&& h.ball.z == g.ball.z
                    &&& h.ball.is_carried == g.ball.is_carried
                    &&& h.ball_throw == g.ball_throw
                },
                None => h == g,
            },
            None => h == g,
        }
    }
}

/// `h` is `g` after marking the player named by word `w` as held (`held`)
/// or as the tackler; a word naming nobody changes nothing.
pub open spec fn mark_step(g: GameState, w: Option<Seq<u8>>, held: bool, h: GameState) -> bool {
    &&& h.state == g.state
    &&& h.ball == g.ball
    &&& h.ball_throw == g.ball_throw
    &&& h.field == g.field
    &&& h.time == g.time
    &&& squads_kept(g, h)
    &&& match (match w { Some(w) => player_id(w), None => None }) {
        Some((s, n)) => match first_with_number(g.roster(s), n) {
            Some(i) => {
                let p = g.roster(s)[i as int];
                &&& h.roster(s) == g.roster(s).update(i as int, Player {
                    is_tackle: held || p.is_tackle,
                    is_tackler: !held || p.is_tackler,
                    ..p
                })
                &&& h.roster(s.opponent()) == g.roster(s.opponent())
            },
            None => h.roster(Side::Home) == g.roster(Side::Home) && h.roster(Side::Away) == g.roster(Side::Away),
        },
        None => h.roster(Side::Home) == g.roster(Side::Home) && h.roster(Side::Away) == g.roster(Side::Away),
    }
}

/// Placement token `i` of a restart descriptor (the tokens after the header).
pub open spec fn placement_token(st: Seq<u8>, i: nat) -> Option<Seq<u8>> {
    token_of(st, 95, i + 1)
}

/// `trace` applies the first `n` placement tokens of `st` to `g`, one by one.
pub open spec fn placements(g: GameState, st: Seq<u8>, trace: Seq<GameState>, n: nat) -> bool {
    &&& trace.len() == n + 1
    &&& trace[0] == g
    &&& forall|i: int| 0 <= i < n ==> #[trigger] placement_token(st, i as nat) is Some
    &&& forall|i: int| 0 <= i < n ==> #[trigger] placed(trace[i], placement_token(st, i as nat)->0, trace[i + 1])
}

/// `h` is `g` with the header of `st` applied: its phase state and, in a
/// ruck, the held player and the tackler it names.
pub open spec fn headed(g: GameState, st: Seq<u8>, h: GameState) -> bool {
    let g1 = GameState { state: header_state(st), ..g };
    if header_state(st).phase == Phase::Ruck {
        exists|m: GameState| #[trigger] mark_step(g1, header_word(st, 5), true, m) && mark_step(m, header_word(st, 6), false, h)
    } else {
        h == g1
    }
}

/// `h` is `g` after the restart descriptor `st`: every placement token in
/// order, then the header.
pub open spec fn restarted(g: GameState, st: Seq<u8>, h: GameState) -> bool {
    exists|trace: Seq<GameState>, n: nat| #[trigger] placements(g, st, trace, n)
        && placement_token(st, n) is None && headed(trace[n as int], st, h)
}

/// `h` has the players of `g`, in the same order, with the same numbers and
/// attributes, and keeps their breakdown flags.
pub open spec fn keeps_identities(g: GameState, h: GameState) -> bool {
    &&& forall|s: Side| #[trigger] h.roster(s).len() == g.roster(s).len()
    &&& forall|s: Side, i: int| 0 <= i < g.roster(s).len() ==> same_attributes(#[trigger] h.roster(s)[i], g.roster(s)[i])
}

proof fn lemma_keeps_trans(a: GameState, b: GameState, c: GameState)
    requires
        keeps_identities(a, b),
        keeps_identities(b, c),
    ensures
        keeps_identities(a, c),
{
    assert forall|s: Side, i: int| 0 <= i < a.roster(s).len() implies same_attributes(#[trigger] c.roster(s)[i], a.roster(s)[i]) by {
        assert(b.roster(s).len() == a.roster(s).len());
        assert(same_attributes(b.roster(s)[i], a.roster(s)[i]));
        assert(same_attributes(c.roster(s)[i], b.roster(s)[i]));
    }
}

/// Rosters with the same numbers agree on the first player wearing a number.
proof fn lemma_first_same(g: GameState, h: GameState)
    requires
        keeps_identities(g, h),
    ensures
        forall|s: Side, n: usize| #[trigger] first_with_number(h.roster(s), n) == first_with_number(g.roster(s), n),
{
    assert forall|s: Side, n: usize| #[trigger] first_with_number(h.roster(s), n) == first_with_number(g.roster(s), n) by {
        lemma_first_numbers(g.roster(s), h.roster(s), n);
    }
}

proof fn lemma_first_in_range(a: Seq<Player>, n: usize)
    ensures
        match first_with_number(a, n) {
            Some(i) => i < a.len() && a[i as int].number == n,
            None => true,
        },
    decreases a.len(),
{
    if a.len() > 0 {
        lemma_first_in_range(a.drop_last(), n);
    }
}

proof fn lemma_first_numbers(a: Seq<Player>, b: Seq<Player>, n: usize)
    requires
        a.len() == b.len(),
        forall|i: int| 0 <= i < a.len() ==> (#[trigger] b[i]).number == a[i].number,
    ensures
        first_with_number(b, n) == first_with_number(a, n),
    decreases a.len(),
{
    if a.len() > 0 {
        assert forall|i: int| 0 <= i < a.drop_last().len() implies (#[trigger] b.drop_last()[i]).number == a.drop_last()[i].number by {
            assert(b.drop_last()[i] == b[i]);
            assert(a.drop_last()[i] == a[i]);
        }
        lemma_first_numbers(a.drop_last(), b.drop_last(), n);
        assert(b.last().number == a.last().number);
    }
}

} // verus!
