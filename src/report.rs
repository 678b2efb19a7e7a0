//! The client-facing text report of a match and the read-only snapshot
//! handed to a renderer.
use vstd::prelude::*;
use vstd::string::StringExecFns;
use crate::model::{side_letter, Ball, GameState, Phase, Player, Side};

verus! {

/// The character of decimal digit `d`.
pub open spec fn digit_char(d: int) -> char {
    ((48 + d) as u8) as char
}

/// Decimal text of a natural number.
pub open spec fn int_text(n: nat) -> Seq<char>
    decreases n,
{
    if n < 10 {
        seq![digit_char(n as int)]
    } else {
        int_text(n / 10) + seq![digit_char((n % 10) as int)]
    }
}

/// Text of a length in millimetres as metres: at most three decimals, no
/// trailing zeros, no decimal point for whole metres.
pub open spec fn milli_text(v: int) -> Seq<char> {
    let a = if v < 0 { -v } else { v };
    let sign = if v < 0 { seq!['-'] } else { Seq::<char>::empty() };
    let f = a % 1000;
    let frac = if f == 0 {
        Seq::<char>::empty()
    } else if f % 100 == 0 {
        seq!['.', digit_char(f / 100)]
    } else if f % 10 == 0 {
        seq!['.', digit_char(f / 100), digit_char((f / 10) % 10)]
    } else {
        seq!['.', digit_char(f / 100), digit_char((f / 10) % 10), digit_char(f % 10)]
    };
    sign + int_text((a / 1000) as nat) + frac
}

/// Name of a phase in reports.
pub open spec fn phase_text(p: Phase) -> Seq<char> {
    match p {
        Phase::Start => seq!['s', 't', 'a', 'r', 't'],
        Phase::Play => seq!['p', 'l', 'a', 'y'],
        Phase::Scrum => seq!['s', 'c', 'r', 'u', 'm'],
        Phase::Ruck => seq!['r', 'u', 'c', 'k'],
        Phase::Penalty => seq!['p', 'e', 'n', 'a', 'l', 't', 'y'],
        Phase::FreeKick => seq!['f', 'r', 'e', 'e', 'k', 'i', 'c', 'k'],
        Phase::PenaltyKick => seq!['p', 'e', 'n', 'a', 'l', 't', 'y', 'k', 'i', 'c', 'k'],
    }
}

/// `<x> <y>` of a point in millimetres, as metres.
pub open spec fn point_text(x: int, y: int) -> Seq<char> {
    milli_text(x) + seq![' '] + milli_text(y)
}

/// The report line of a player; a carrier's line also gives the ball.
pub open spec fn player_line(letter: char, p: Player, ball: Ball) -> Seq<char> {
    seq![letter] + int_text(p.number as nat) + seq![':', ' '] + point_text(p.x as int, p.y as int)
        + if p.ball_pos {
            seq!['/', 'B', ':', ' '] + point_text(ball.x as int, ball.y as int) + seq!['\n']
        } else {
            seq!['\n']
        }
}

/// The lines of the first `n` players of `s`.
pub open spec fn roster_text(letter: char, s: Seq<Player>, ball: Ball, n: int) -> Seq<char>
    decreases n,
{
    if n <= 0 {
        Seq::empty()
    } else {
        roster_text(letter, s, ball, n - 1) + player_line(letter, s[n - 1], ball)
    }
}

/// The position lines of a match: the loose ball, then every home and away player.
pub open spec fn positions_text(g: GameState) -> Seq<char> {
    (if g.ball.is_carried {
        Seq::empty()
    } else {
        seq!['B', ':', ' '] + point_text(g.ball.x as int, g.ball.y as int) + seq!['\n']
    })
        + roster_text('H', g.roster(Side::Home), g.ball, g.roster(Side::Home).len() as int)
        + roster_text('A', g.roster(Side::Away), g.ball, g.roster(Side::Away).len() as int)
}

/// The response after a tick: phase and side, the clock, the positions.
pub open spec fn response_text(g: GameState) -> Seq<char> {
    phase_text(g.state.phase) + seq![' ', side_letter(g.state.team), '\n'] + seq!['t', 'i', 'm', 'e', ':']
        + int_text(g.time as nat) + seq!['\n'] + positions_text(g)
}

fn digit_str(d: u64) -> (r: &'static str)
    requires
        d < 10,
    ensures
        r@ == seq![digit_char(d as int)],
{
    match d {
        0 => { proof { reveal_strlit("0"); } "0" },
        1 => { proof { reveal_strlit("1"); } "1" },
        2 => { proof { reveal_strlit("2"); } "2" },
        3 => { proof { reveal_strlit("3"); } "3" },
        4 => { proof { reveal_strlit("4"); } "4" },
        5 => { proof { reveal_strlit("5"); } "5" },
        6 => { proof { reveal_strlit("6"); } "6" },
        7 => { proof { reveal_strlit("7"); } "7" },
        8 => { proof { reveal_strlit("8"); } "8" },
        _ => { proof { reveal_strlit("9"); } "9" },
    }
}

/// Appends the decimal text of `n`.
fn push_uint(out: &mut String, n: u64)
    ensures
        final(out)@ == old(out)@ + int_text(n as nat),
    decreases n,
{
    if n >= 10 {
        push_uint(out, n / 10);
    }
    out.append(digit_str(n % 10));
}

/// Appends a length in millimetres as metres.
fn push_milli(out: &mut String, v: i64)
    requires
        -1_000_000_000_000 <= v <= 1_000_000_000_000,
    ensures
        final(out)@ == old(out)@ + milli_text(v as int),
{
    let ghost start = out@;
    if v < 0 {
        out.append({ proof { reveal_strlit("-"); } "-" });
    }
    let a: u64 = if v < 0 { (-v) as u64 } else { v as u64 };
    push_uint(out, a / 1000);
    let f = a % 1000;
    if f != 0 {
        out.append({ proof { reveal_strlit("."); } "." });
        out.append(digit_str(f / 100));
        if f % 100 != 0 {
            out.append(digit_str((f / 10) % 10));
            if f % 10 != 0 {
                out.append(digit_str(f % 10));
            }
        }
    }
    assert(out@ =~= start + milli_text(v as int));
}

/// Appends `<x> <y>`.
fn push_point(out: &mut String, x: i64, y: i64)
    requires
        -1_000_000_000_000 <= x <= 1_000_000_000_000,
        -1_000_000_000_000 <= y <= 1_000_000_000_000,
    ensures
        final(out)@ == old(out)@ + point_text(x as int, y as int),
{
    let ghost start = out@;
    push_milli(out, x);
    out.append({ proof { reveal_strlit(" "); } " " });
    push_milli(out, y);
    assert(out@ =~= start + point_text(x as int, y as int));
}

fn phase_str(p: Phase) -> (r: &'static str)
    ensures
        r@ == phase_text(p),
{
    match p {
        Phase::Start => { proof { reveal_strlit("start"); } "start" },
        Phase::Play => { proof { reveal_strlit("play"); } "play" },
        Phase::Scrum => { proof { reveal_strlit("scrum"); } "scrum" },
        Phase::Ruck => { proof { reveal_strlit("ruck"); } "ruck" },
        Phase::Penalty => { proof { reveal_strlit("penalty"); } "penalty" },
        Phase::FreeKick => { proof { reveal_strlit("freekick"); } "freekick" },
        Phase::PenaltyKick => { proof { reveal_strlit("penaltykick"); } "penaltykick" },
    }
}

/// Appends the report line of player `p`.
fn push_player_line(out: &mut String, letter_str: &str, letter: Ghost<char>, p: Player, ball: Ball)
    requires
        letter_str@ == seq![letter@],
        crate::model::player_ok(p),
        crate::model::ball_coord_ok(ball.x),
        crate::model::ball_coord_ok(ball.y),
    ensures
        final(out)@ == old(out)@ + player_line(letter@, p, ball),
{
    let ghost before = out@;
    out.append(letter_str);
    push_uint(out, p.number as u64);
    out.append({ proof { reveal_strlit(": "); } ": " });
    push_point(out, p.x, p.y);
    if p.ball_pos {
        out.append({ proof { reveal_strlit("/B: "); } "/B: " });
        push_point(out, ball.x, ball.y);
    }
    out.append({ proof { reveal_strlit("\n"); } "\n" });
    assert(out@ =~= before + player_line(letter@, p, ball));
}

impl GameState {
    /// Appends the lines of the players of `side`.
    fn push_roster(&self, out: &mut String, side: Side)
        requires
            self.wf(),
        ensures
            final(out)@ == old(out)@ + roster_text(side_letter(side), self.roster(side), self.ball, self.roster(side).len() as int),
    {
        let n = self.roster_len(side);
        let letter_str = match side {
            Side::Home => { proof { reveal_strlit("H"); } "H" },
            Side::Away => { proof { reveal_strlit("A"); } "A" },
        };
        let ghost start = old(out)@;
        let mut i: usize = 0;
        while i < n
            invariant
                self.wf(),
                n == self.roster(side).len(),
                i <= n,
                letter_str@ == seq![side_letter(side)],
                out@ == start + roster_text(side_letter(side), self.roster(side), self.ball, i as int),
            decreases n - i,
        {
            let p = self.player(side, i);
            assert(crate::model::player_ok(p));
            push_player_line(out, letter_str, Ghost(side_letter(side)), p, self.ball);
            assert(roster_text(side_letter(side), self.roster(side), self.ball, i + 1)
                == roster_text(side_letter(side), self.roster(side), self.ball, i as int) + player_line(side_letter(side), p, self.ball));
            i = i + 1;
        }
    }

    /// The position lines: `B: <x> <y>` for a loose ball, then one line per
    /// player, `<Side><Number>: <x> <y>`, a carrier's line ending with
    /// `/B: <x> <y>`. Lengths are in metres.
    pub fn positions(&self) -> (r: String)
        requires
            self.wf(),
        ensures
            r@ == positions_text(*self),
    {
        let mut out = String::new();
        if !self.ball.is_carried {
            out.append({ proof { reveal_strlit("B: "); } "B: " });
            push_point(&mut out, self.ball.x, self.ball.y);
            out.append({ proof { reveal_strlit("\n"); } "\n" });
        }
        let ghost head = out@;
        self.push_roster(&mut out, Side::Home);
        self.push_roster(&mut out, Side::Away);
        assert(out@ =~= positions_text(*self));
        out
    }

    /// The response after a tick: `<phase> <side>`, `time:<clock>`, then the
    /// position lines.
    pub fn response(&self) -> (r: String)
        requires
            self.wf(),
        ensures
            r@ == response_text(*self),
    {
        let mut out = String::new();
        out.append(phase_str(self.state.phase));
        out.append({ proof { reveal_strlit(" "); } " " });
        match self.state.team {
            Side::Home => out.append({ proof { reveal_strlit("H"); } "H" }),
            Side::Away => out.append({ proof { reveal_strlit("A"); } "A" }),
        }
        out.append({ proof { reveal_strlit("\ntime:"); } "\ntime:" });
        push_uint(&mut out, self.time);
        out.append({ proof { reveal_strlit("\n"); } "\n" });
        let p = self.positions();
        out.append(p.as_str());
        assert(out@ =~= response_text(*self));
        out
    }
}

} // verus!
