//! The per-tick command language: one `<Side><Number>:<Code><Payload>` token
//! per line.
use vstd::prelude::*;
use crate::geometry::{clamp_between, trunc_div};
use crate::model::Side;
use crate::text::{angle_of, milli_of, number_of, parse_angle, parse_milli, parse_number};

verus! {

/// What a player is told to do for one tick.
#[derive(PartialEq, Eq, Structural, Clone, Copy, Debug)]
pub enum Action {
    /// Run towards a direction in degrees.
    Run(u32),
    /// Walk towards a direction in degrees.
    Walk(u32),
    /// Tackle the carrier, or gather the ball at a set piece.
    Tackle,
    /// Kick towards a direction at an elevation, both in degrees.
    Kick(u32, u32),
    /// Pass towards a direction in degrees.
    Pass(u32),
    /// Stand still; in a scrum, push.
    Stay,
}

#[derive(PartialEq, Eq, Structural, Clone, Copy, Debug)]
pub struct Command {
    pub side: Side,
    pub number: usize,
    pub action: Action,
}

/// `s` holds the byte `c`.
pub open spec fn holds_byte(s: Seq<u8>, c: u8) -> bool {
    exists|k: int| 0 <= k < s.len() && s[k] == c
}

/// `k` is the position of the first `c` in `s`.
pub open spec fn first_at(s: Seq<u8>, c: u8, k: int) -> bool {
    &&& 0 <= k < s.len()
    &&& s[k] == c
    &&& forall|j: int| 0 <= j < k ==> s[j] != c
}

/// The part of `s` before its first `c`; all of `s` when there is none.
pub open spec fn before(s: Seq<u8>, c: u8) -> Seq<u8> {
    if holds_byte(s, c) {
        s.subrange(0, choose|k: int| first_at(s, c, k))
    } else {
        s
    }
}

/// The part of `s` after its first `c`; empty when there is none.
pub open spec fn after(s: Seq<u8>, c: u8) -> Seq<u8> {
    if holds_byte(s, c) {
        s.subrange((choose|k: int| first_at(s, c, k)) + 1, s.len() as int)
    } else {
        Seq::empty()
    }
}

/// An elevation in whole degrees, `0..=90`; text that is no decimal reads as 0.
pub open spec fn elevation_of(s: Seq<u8>) -> int {
    match milli_of(s) {
        Some(m) => clamp_between(trunc_div(m, 1000), 0, 90),
        None => 0,
    }
}

/// The action of a code letter and its payload. A direction or elevation
/// must be a decimal, and a kick must give both (`dir/elev`); any other
/// payload makes no action.
pub open spec fn action_of(a: Seq<u8>) -> Option<Action> {
    if a.len() == 0 {
        None
    } else {
        let p = a.subrange(1, a.len() as int);
        let c = a[0];
        let d = before(p, 47);
        let e = before(after(p, 47), 47);
        if c == 82 {
            if milli_of(p) is Some { Some(Action::Run(angle_of(p) as u32)) } else { None }
        } else if c == 87 {
            if milli_of(p) is Some { Some(Action::Walk(angle_of(p) as u32)) } else { None }
        } else if c == 84 {
            Some(Action::Tackle)
        } else if c == 83 {
            Some(Action::Stay)
        } else if c == 80 {
            if milli_of(d) is Some { Some(Action::Pass(angle_of(d) as u32)) } else { None }
        } else if c == 75 {
            if holds_byte(p, 47) && milli_of(d) is Some && milli_of(e) is Some {
                Some(Action::Kick(angle_of(d) as u32, elevation_of(e) as u32))
            } else {
                None
            }
        } else {
            None
        }
    }
}

/// The command on one line: `H` or `A`, a jersey number, `:`, a code letter
/// (R, W, T, S, P, K) and its payload. Anything else is no command.
pub open spec fn command_of(line: Seq<u8>) -> Option<Command> {
    let who = before(line, 58);
    let act = after(line, 58);
    if !holds_byte(line, 58) || who.len() == 0 || !(who[0] == 72 || who[0] == 65) {
        None
    } else {
        match (number_of(who.subrange(1, who.len() as int)), action_of(act)) {
            (Some(n), Some(a)) => Some(Command {
                side: if who[0] == 72 { Side::Home } else { Side::Away },
                number: n as usize,
                action: a,
            }),
            _ => None,
        }
    }
}

/// Position of the first `c` in `s`.
pub fn find_byte(s: &[u8], c: u8) -> (r: Option<usize>)
    ensures
        match r {
            Some(k) => first_at(s@, c, k as int),
            None => !holds_byte(s@, c),
        },
{
    let mut i: usize = 0;
    while i < s.len()
        invariant
            i <= s@.len(),
            forall|j: int| 0 <= j < i ==> s@[j] != c,
        decreases s@.len() - i,
    {
        if s[i] == c {
            return Some(i);
        }
        i = i + 1;
    }
    None
}

proof fn lemma_first_unique(s: Seq<u8>, c: u8, a: int, b: int)
    requires
        first_at(s, c, a),
        first_at(s, c, b),
    ensures
        a == b,
{
}

/// Splits `s` at its first `c`: the part before and the part after.
pub fn split_once<'a>(s: &'a [u8], c: u8) -> (r: (&'a [u8], &'a [u8]))
    ensures
        r.0@ == before(s@, c),
        r.1@ == after(s@, c),
{
    match find_byte(s, c) {
        Some(k) => {
            let n = s.len();
            assert(k < n);
            proof {
                let k0 = choose|k: int| first_at(s@, c, k);
                lemma_first_unique(s@, c, k0, k as int);
            }
            (&s[0..k], &s[k + 1..n])
        },
        None => {
            proof {
                assert(s@.subrange(0, s@.len() as int) =~= s@);
            }
            (&s[0..s.len()], &s[0..0])
        },
    }
}

/// Reads an elevation in whole degrees, `0..=90`.
pub fn parse_elevation(s: &[u8]) -> (r: u32)
    ensures
        r == elevation_of(s@),
{
    match parse_milli(s) {
        Some(m) => {
            let w = if m >= 0 { m / 1000 } else { -((-m) / 1000) };
            if w < 0 { 0 } else if w > 90 { 90 } else { w as u32 }
        },
        None => 0,
    }
}

/// Reads the action of a code letter and its payload.
pub fn parse_action(a: &[u8]) -> (r: Option<Action>)
    ensures
        r == action_of(a@),
{
    if a.len() == 0 {
        return None;
    }
    let p = &a[1..a.len()];
    let c = a[0];
    let (dir, rest) = split_once(p, 47);
    let (high, _) = split_once(rest, 47);
    if c == 82 {
        if parse_milli(p).is_some() { Some(Action::Run(parse_angle(p))) } else { None }
    } else if c == 87 {
        if parse_milli(p).is_some() { Some(Action::Walk(parse_angle(p))) } else { None }
    } else if c == 84 {
        Some(Action::Tackle)
    } else if c == 83 {
        Some(Action::Stay)
    } else if c == 80 {
        if parse_milli(dir).is_some() { Some(Action::Pass(parse_angle(dir))) } else { None }
    } else if c == 75 {
        let slash = find_byte(p, 47).is_some();
        if slash && parse_milli(dir).is_some() && parse_milli(high).is_some() {
            Some(Action::Kick(parse_angle(dir), parse_elevation(high)))
        } else {
            None
        }
    } else {
        None
    }
}

/// Reads the command on one line.
pub fn parse_command(line: &[u8]) -> (r: Option<Command>)
    ensures
        r == command_of(line@),
{
    let has_colon = find_byte(line, 58).is_some();
    let (who, act) = split_once(line, 58);
    if !has_colon || who.len() == 0 || !(who[0] == 72 || who[0] == 65) {
        return None;
    }
    let n = parse_number(&who[1..who.len()]);
    let a = parse_action(act);
    match (n, a) {
        (Some(n), Some(a)) => {
            Some(Command { side: if who[0] == 72 { Side::Home } else { Side::Away }, number: n as usize, action: a })
        },
        _ => None,
    }
}

} // verus!
