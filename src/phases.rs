//! The per-tick handlers of each phase: they read one batch of commands,
//! apply them in order, then run the phase's physics and checks.
use vstd::prelude::*;
use crate::actions::SCRUM_SIZE;
use crate::commands::{command_of, find_byte, parse_command, split_once, Action, Command};
use crate::actions::{ball_flown, ball_gathered, kicked, passed, ran, ran_in_ruck, tackle_tried};
use crate::breakdown::{ruck_gathered, scrap_checked, scrum_drifted, scrum_gathered, scrum_left, tackler_checked};
use crate::init::lemma_after_shorter;
use crate::model::{first_with_number, State};
use crate::tokens::token_of;
use vstd::string::StringSliceAdditionalSpecFns;
use crate::model::{lemma_wf_keeps, lemma_wf_loose_ball, GameState, Phase, Side, TICK};
use crate::geometry::{clamp_between, clamp_to};

verus! {

/// Scrum weights stop growing here.
pub const MAX_PACK_WEIGHT: u64 = 100_000_000;

impl GameState {
    /// Advances the clock by one tick.
    fn tick_clock(&mut self)
        requires
            old(self).wf(),
            old(self).time <= u64::MAX - TICK,
        ensures
            final(self).wf(),
            *final(self) == (GameState { time: (old(self).time + TICK) as u64, ..*old(self) }),
    {
        let ghost g0 = *self;
        self.time = self.time + TICK;
        proof {
            lemma_wf_keeps(g0, *self);
        }
    }

    /// Sets the phase tag.
    fn set_phase(&mut self, phase: Phase)
        requires
            old(self).wf(),
        ensures
            final(self).wf(),
            *final(self) == (GameState { state: State { phase, ..old(self).state }, ..*old(self) }),
    {
        let ghost g0 = *self;
        self.state.phase = phase;
        proof {
            lemma_wf_keeps(g0, *self);
        }
    }

    /// Keeps a loose ball on the playing area, in-goal areas included.
    pub fn check_ball_position(&mut self)
        requires
            old(self).wf(),
        ensures
            final(self).wf(),
            ball_kept_in(*old(self), *final(self)),
    {
        if self.ball.is_carried {
            return;
        }
        let ghost g0 = *self;
        let length = ((self.field.width + 2 * self.field.try_size) as i64) * 1000;
        let breadth = (self.field.height as i64) * 1000;
        self.ball.x = clamp_to(self.ball.x, 0, length);
        self.ball.y = clamp_to(self.ball.y, 0, breadth);
        proof {
            lemma_wf_loose_ball(g0, *self);
        }
    }

    /// One tick of open play. Commands run in order, one per line; a forward
    /// pass ends the batch at once (with the scrum it awards). Otherwise the
    /// ball then flies, a loose ball may be gathered, and it is kept on the
    /// playing area. The first tick of a match turns the start into open play.
    #[verifier::rlimit(80)]
    pub fn play(&mut self, input: &str, rng: &mut rand::rngs::StdRng)
        requires
            old(self).wf(),
            old(self).time <= u64::MAX - TICK,
        ensures
            final(self).wf(),
            played(*old(self), *final(self), input),
    {
        self.tick_clock();
        if self.state.phase == Phase::Start {
            self.set_phase(Phase::Play);
        }
        let ghost g0 = *self;
        assert(g0 == opened(*old(self)));
        let bytes = input.as_bytes();
        let mut rest = bytes;
        let ghost mut k: nat = 0;
        let ghost mut trace: Seq<GameState> = seq![*self];
        loop
            invariant_except_break
                forall|j: nat| #[trigger] token_of(rest@, 10, j) == token_of(bytes@, 10, (k + j) as nat),
                play_steps(g0, bytes@, trace, k, false),
            invariant
                self.wf(),
                self.time == old(self).time + TICK,
                self.field == old(self).field,
                self.state.phase != Phase::Start,
                g0 == opened(*old(self)),
                bytes@ == input.spec_bytes(),
                trace.last() == *self,
            ensures
                play_steps(g0, bytes@, trace, k, false),
                token_of(bytes@, 10, k) is None,
            decreases rest@.len(),
        {
            let (line, tail) = split_once(rest, 10);
            let more = find_byte(rest, 10).is_some();
            proof {
                assert(token_of(rest@, 10, 0) == token_of(bytes@, 10, k));
                lemma_after_shorter(rest@, 10);
            }
            let ghost before = *self;
            let mut stop = false;
            match parse_command(line) {
                Some(c) => match c.action {
                    Action::Run(d) => self.run(c.side, c.number, d, true),
                    Action::Walk(d) => self.run(c.side, c.number, d, false),
                    Action::Tackle => self.tackle(c.side, c.number, rng),
                    Action::Kick(d, h) => self.kick(c.side, c.number, d, h, rng),
                    Action::Pass(d) => {
                        stop = self.pass(c.side, c.number, d);
                    },
                    Action::Stay => {},
                },
                None => {},
            }
            proof {
                assert(play_step(before, command_at(bytes@, k), *self, stop));
                let t2 = trace.push(*self);
                assert(play_steps(g0, bytes@, t2, (k + 1) as nat, stop)) by {
                    assert forall|i: int| 0 <= i < k + 1 implies #[trigger] token_of(bytes@, 10, i as nat) is Some by {
                        if i < k {
                            assert(play_steps(g0, bytes@, trace, k, false));
                        }
                    }
                    assert forall|i: int| 0 <= i < k + 1 implies #[trigger] play_line(bytes@, t2, i, (k + 1) as nat, stop) by {
                        if i < k {
                            assert(t2[i] == trace[i]);
                            assert(t2[i + 1] == trace[i + 1]);
                            assert(play_line(bytes@, trace, i, k, false));
                        }
                    }
                }
                trace = t2;
            }
            if stop {
                assert(play_batch(g0, bytes@, trace, (k + 1) as nat, true));
                return;
            }
            assert(play_steps(g0, bytes@, trace, (k + 1) as nat, false));
            if !more {
                proof {
                    assert(token_of(rest@, 10, 1) is None);
                    assert(token_of(bytes@, 10, (k + 1) as nat) is None);
                }
                proof {
                    k = k + 1;
                }
                break;
            }
            proof {
                assert forall|j: nat| #[trigger] token_of(tail@, 10, j) == token_of(bytes@, 10, (k + 1 + j) as nat) by {
                    assert(token_of(rest@, 10, (j + 1) as nat) == token_of(tail@, 10, j));
                }
            }
            rest = tail;
            proof {
                k = k + 1;
            }
        }
        let ghost last = *self;
        self.update_ball_velocity();
        let ghost m1 = *self;
        self.update_ball_carrie(rng);
        let ghost m2 = *self;
        self.check_ball_position();
        assert(play_batch(g0, bytes@, trace, k, false));
        assert(ball_flown(trace[k as int], m1));
        assert(ball_gathered(m1, m2));
    }

    /// One tick of a scrum. The first eight of a side push with `S` (their
    /// weights add up); the eighth to fifteenth may run or walk; the eighth
    /// and ninth may gather the ball at the base with `T`. Then the loose ball
    /// drifts and a ball out of the scrum restarts open play.
    #[verifier::rlimit(80)]
    pub fn scrum(&mut self, input: &str, rng: &mut rand::rngs::StdRng)
        requires
            old(self).wf(),
            old(self).time <= u64::MAX - TICK,
        ensures
            final(self).wf(),
            scrummed(*old(self), *final(self), input),
    {
        self.tick_clock();
        let ghost g1 = *self;
        self.state.size = SCRUM_SIZE;
        proof {
            lemma_wf_keeps(g1, *self);
        }
        let ghost g0 = *self;
        let mut h_pound: u64 = 0;
        let mut a_pound: u64 = 0;
        let bytes = input.as_bytes();
        let mut rest = bytes;
        let ghost mut k: nat = 0;
        let ghost mut trace: Seq<GameState> = seq![*self];
        let ghost mut weights: Seq<(u64, u64)> = seq![(0u64, 0u64)];
        loop
            invariant_except_break
                forall|j: nat| #[trigger] token_of(rest@, 10, j) == token_of(bytes@, 10, (k + j) as nat),
                scrum_steps(g0, bytes@, trace, weights, k),
            invariant
                self.wf(),
                self.time == old(self).time + TICK,
                self.field == old(self).field,
                g0 == scrum_set(*old(self)),
                bytes@ == input.spec_bytes(),
                trace.last() == *self,
                weights.last() == (h_pound, a_pound),
                h_pound <= MAX_PACK_WEIGHT,
                a_pound <= MAX_PACK_WEIGHT,
            ensures
                scrum_steps(g0, bytes@, trace, weights, k),
                token_of(bytes@, 10, k) is None,
            decreases rest@.len(),
        {
            let (line, tail) = split_once(rest, 10);
            let more = find_byte(rest, 10).is_some();
            proof {
                assert(token_of(rest@, 10, 0) == token_of(bytes@, 10, k));
                lemma_after_shorter(rest@, 10);
            }
            let ghost before = *self;
            let ghost w0 = (h_pound, a_pound);
            match parse_command(line) {
                Some(c) => {
                    let idx = match self.find_player(c.side, c.number) {
                        Some(i) => i,
                        None => 15,
                    };
                    match c.action {
                        Action::Run(d) => {
                            if idx >= 7 && idx < 15 {
                                self.run(c.side, c.number, d, true);
                            }
                        },
                        Action::Walk(d) => {
                            if idx >= 7 && idx < 15 {
                                self.run(c.side, c.number, d, false);
                            }
                        },
                        Action::Tackle => {
                            if idx == 7 || idx == 8 {
                                self.try_catch_ball_in_scrum(c.side, c.number);
                            }
                        },
                        Action::Stay => {
                            if idx <= 7 && idx < self.roster_len(c.side) {
                                let w = self.player(c.side, idx).pound;
                                assert(crate::model::player_ok(self.roster(c.side)[idx as int]));
                                match c.side {
                                    Side::Home => {
                                        h_pound = if h_pound + w > MAX_PACK_WEIGHT { MAX_PACK_WEIGHT } else { h_pound + w };
                                    },
                                    Side::Away => {
                                        a_pound = if a_pound + w > MAX_PACK_WEIGHT { MAX_PACK_WEIGHT } else { a_pound + w };
                                    },
                                }
                            }
                        },
                        _ => {},
                    }
                },
                None => {},
            }
            proof {
                assert(scrum_step(before, w0, command_at(bytes@, k), *self, (h_pound, a_pound)));
                let t2 = trace.push(*self);
                let w2 = weights.push((h_pound, a_pound));
                assert(scrum_steps(g0, bytes@, t2, w2, (k + 1) as nat)) by {
                    assert forall|i: int| 0 <= i < k + 1 implies #[trigger] token_of(bytes@, 10, i as nat) is Some by {
                        if i < k {
                            assert(scrum_steps(g0, bytes@, trace, weights, k));
                        }
                    }
                    assert forall|i: int| 0 <= i < k + 1 implies #[trigger] scrum_step(t2[i], w2[i], command_at(bytes@, i as nat), t2[i + 1], w2[i + 1]) by {
                        if i < k {
                            assert(t2[i] == trace[i]);
                            assert(t2[i + 1] == trace[i + 1]);
                            assert(w2[i] == weights[i]);
                            assert(w2[i + 1] == weights[i + 1]);
                        }
                    }
                }
                trace = t2;
                weights = w2;
            }
            if !more {
                proof {
                    assert(token_of(rest@, 10, 1) is None);
                    assert(token_of(bytes@, 10, (k + 1) as nat) is None);
                }
                proof {
                    k = k + 1;
                }
                break;
            }
            proof {
                assert forall|j: nat| #[trigger] token_of(tail@, 10, j) == token_of(bytes@, 10, (k + 1 + j) as nat) by {
                    assert(token_of(rest@, 10, (j + 1) as nat) == token_of(tail@, 10, j));
                }
            }
            rest = tail;
            proof {
                k = k + 1;
            }
        }
        assert(scrum_batch(g0, bytes@, trace, weights, k));
        self.update_ball_position_scrum(h_pound, a_pound, rng);
        let ghost m = *self;
        self.check_ball_out_of_scrum();
        assert(scrum_drifted(trace[k as int], m, weights[k as int].0, weights[k as int].1));
    }

    /// One tick of a ruck. Players run or walk (a held player cannot move) and
    /// try to pick the ball with `T`. Then a tackler still at the tackle point
    /// concedes a penalty, and the heavier push of the side without possession
    /// wins the ball.
    #[verifier::rlimit(80)]
    pub fn ruck(&mut self, input: &str)
        requires
            old(self).wf(),
            old(self).time <= u64::MAX - TICK,
        ensures
            final(self).wf(),
            rucked(*old(self), *final(self), input),
    {
        self.tick_clock();
        let ghost g0 = *self;
        let bytes = input.as_bytes();
        let mut rest = bytes;
        let ghost mut k: nat = 0;
        let ghost mut trace: Seq<GameState> = seq![*self];
        loop
            invariant_except_break
                forall|j: nat| #[trigger] token_of(rest@, 10, j) == token_of(bytes@, 10, (k + j) as nat),
                ruck_steps(g0, bytes@, trace, k),
            invariant
                self.wf(),
                self.time == old(self).time + TICK,
                self.field == old(self).field,
                g0 == ticked(*old(self)),
                bytes@ == input.spec_bytes(),
                trace.last() == *self,
            ensures
                ruck_steps(g0, bytes@, trace, k),
                token_of(bytes@, 10, k) is None,
            decreases rest@.len(),
        {
            let (line, tail) = split_once(rest, 10);
            let more = find_byte(rest, 10).is_some();
            proof {
                assert(token_of(rest@, 10, 0) == token_of(bytes@, 10, k));
                lemma_after_shorter(rest@, 10);
            }
            let ghost before = *self;
            match parse_command(line) {
                Some(c) => match c.action {
                    Action::Run(d) => self.run_ruck(c.side, c.number, d, true),
                    Action::Walk(d) => self.run_ruck(c.side, c.number, d, false),
                    Action::Tackle => {
                        let pen = self.try_catch_ball_in_ruck(c.side, c.number);
                        assert(ruck_gathered(before, *self, c.side, c.number, pen));
                    },
                    _ => {},
                },
                None => {},
            }
            proof {
                assert(ruck_step(before, command_at(bytes@, k), *self));
                let t2 = trace.push(*self);
                assert(ruck_steps(g0, bytes@, t2, (k + 1) as nat)) by {
                    assert forall|i: int| 0 <= i < k + 1 implies #[trigger] token_of(bytes@, 10, i as nat) is Some by {
                        if i < k {
                            assert(ruck_steps(g0, bytes@, trace, k));
                        }
                    }
                    assert forall|i: int| 0 <= i < k + 1 implies #[trigger] ruck_step(t2[i], command_at(bytes@, i as nat), t2[i + 1]) by {
                        if i < k {
                            assert(t2[i] == trace[i]);
                            assert(t2[i + 1] == trace[i + 1]);
                        }
                    }
                }
                trace = t2;
            }
            if !more {
                proof {
                    assert(token_of(rest@, 10, 1) is None);
                    assert(token_of(bytes@, 10, (k + 1) as nat) is None);
                }
                proof {
                    k = k + 1;
                }
                break;
            }
            proof {
                assert forall|j: nat| #[trigger] token_of(tail@, 10, j) == token_of(bytes@, 10, (k + 1 + j) as nat) by {
                    assert(token_of(rest@, 10, (j + 1) as nat) == token_of(tail@, 10, j));
                }
            }
            rest = tail;
            proof {
                k = k + 1;
            }
        }
        assert(ruck_batch(g0, bytes@, trace, k));
        self.check_tackler();
        let ghost m = *self;
        self.check_scrap();
        assert(tackler_checked(trace[k as int], m));
    }

    /// One tick of a penalty: no command acts yet; the breakdown checks run
    /// as after a ruck.
    pub fn penalty(&mut self, _input: &str)
        requires
            old(self).wf(),
            old(self).time <= u64::MAX - TICK,
        ensures
            final(self).wf(),
            penalised(*old(self), *final(self)),
    {
        self.tick_clock();
        let ghost g0 = *self;
        self.check_tackler();
        let ghost m = *self;
        self.check_scrap();
        assert(tackler_checked(g0, m));
    }
}

/// `g` one tick later.
pub open spec fn ticked(g: GameState) -> GameState {
    GameState { time: (g.time + TICK) as u64, ..g }
}

/// `g` one tick later, a match at its start turned into open play.
pub open spec fn opened(g: GameState) -> GameState {
    let t = ticked(g);
    if g.state.phase == Phase::Start {
        GameState { state: State { phase: Phase::Play, ..t.state }, ..t }
    } else {
        t
    }
}

/// `g` one tick later with the scrum's contest radius.
pub open spec fn scrum_set(g: GameState) -> GameState {
    let t = ticked(g);
    GameState { state: State { size: SCRUM_SIZE, ..t.state }, ..t }
}

/// The command on line `i` of a batch.
pub open spec fn command_at(bytes: Seq<u8>, i: nat) -> Option<Command> {
    match token_of(bytes, 10, i) {
        Some(line) => command_of(line),
        None => None,
    }
}

/// `h` is `g` after command `c` in open play; `stop` tells whether the
/// command was a refused forward pass.
pub open spec fn play_step(g: GameState, c: Option<Command>, h: GameState, stop: bool) -> bool {
    match c {
        Some(c) => match c.action {
            Action::Run(d) => ran(g, h, c.side, c.number, d, true) && !stop,
            Action::Walk(d) => ran(g, h, c.side, c.number, d, false) && !stop,
            Action::Tackle => tackle_tried(g, h, c.side, c.number) && !stop,
            Action::Kick(d, e) => kicked(g, h, c.side, c.number, d, e) && !stop,
            Action::Pass(d) => passed(g, h, c.side, c.number, d, stop),
            Action::Stay => h == g && !stop,
        },
        None => h == g && !stop,
    }
}

/// `trace` runs the first `n` lines of an open-play batch from `g0`, each
/// line as its command says; only the last of them may have been a refused
/// forward pass, and only when `stopped`.
pub open spec fn play_steps(g0: GameState, bytes: Seq<u8>, trace: Seq<GameState>, n: nat, stopped: bool) -> bool {
    &&& trace.len() == n + 1
    &&& trace[0] == g0
    &&& forall|i: int| 0 <= i < n ==> #[trigger] token_of(bytes, 10, i as nat) is Some
    &&& forall|i: int| 0 <= i < n ==> #[trigger] play_line(bytes, trace, i, n, stopped)
}

/// Line `i` of `n` took `trace[i]` to `trace[i + 1]`; it stopped the batch
/// only if it is the last and `stopped`.
pub open spec fn play_line(bytes: Seq<u8>, trace: Seq<GameState>, i: int, n: nat, stopped: bool) -> bool {
    play_step(trace[i], command_at(bytes, i as nat), trace[i + 1], stopped && i == n - 1)
}

/// A whole open-play batch: it ran to its last line, or it `stopped` at a
/// refused forward pass.
pub open spec fn play_batch(g0: GameState, bytes: Seq<u8>, trace: Seq<GameState>, n: nat, stopped: bool) -> bool {
    &&& play_steps(g0, bytes, trace, n, stopped)
    &&& stopped ==> n >= 1
    &&& !stopped ==> token_of(bytes, 10, n) is None
}

/// The index of the first player of `side` wearing `number`; 15 when none does.
pub open spec fn roster_index(g: GameState, side: Side, number: usize) -> int {
    match first_with_number(g.roster(side), number) {
        Some(i) => i as int,
        None => 15,
    }
}

/// `(h, wb)` is `(g, wa)` after command `c` in a scrum, `wa` and `wb` the
/// home and away pushing weights.
pub open spec fn scrum_step(g: GameState, wa: (u64, u64), c: Option<Command>, h: GameState, wb: (u64, u64)) -> bool {
    match c {
        Some(c) => {
            let idx = roster_index(g, c.side, c.number);
            match c.action {
                Action::Run(d) => wb == wa && if 7 <= idx < 15 { ran(g, h, c.side, c.number, d, true) } else { h == g },
                Action::Walk(d) => wb == wa && if 7 <= idx < 15 { ran(g, h, c.side, c.number, d, false) } else { h == g },
                Action::Tackle => wb == wa && if idx == 7 || idx == 8 { scrum_gathered(g, h, c.side, c.number) } else { h == g },
                Action::Stay => h == g && if idx <= 7 && idx < g.roster(c.side).len() {
                    let w = g.roster(c.side)[idx].pound as int;
                    match c.side {
                        Side::Home => wb == (capped(wa.0 + w), wa.1),
                        Side::Away => wb == (wa.0, capped(wa.1 + w)),
                    }
                } else {
                    wb == wa
                },
                _ => h == g && wb == wa,
            }
        },
        None => h == g && wb == wa,
    }
}

/// A pushing weight, kept at most `MAX_PACK_WEIGHT`.
pub open spec fn capped(w: int) -> u64 {
    if w > MAX_PACK_WEIGHT { MAX_PACK_WEIGHT } else { w as u64 }
}

/// `trace` and `weights` run the first `n` lines of a scrum batch from `g0`.
pub open spec fn scrum_steps(g0: GameState, bytes: Seq<u8>, trace: Seq<GameState>, weights: Seq<(u64, u64)>, n: nat) -> bool {
    &&& trace.len() == n + 1
    &&& weights.len() == n + 1
    &&& trace[0] == g0
    &&& weights[0] == (0u64, 0u64)
    &&& forall|i: int| 0 <= i < n ==> #[trigger] token_of(bytes, 10, i as nat) is Some
    &&& forall|i: int| 0 <= i < n ==> #[trigger] scrum_step(trace[i], weights[i], command_at(bytes, i as nat), trace[i + 1], weights[i + 1])
}

/// `trace` and `weights` run every line of a scrum batch from `g0`.
pub open spec fn scrum_batch(g0: GameState, bytes: Seq<u8>, trace: Seq<GameState>, weights: Seq<(u64, u64)>, n: nat) -> bool {
    &&& scrum_steps(g0, bytes, trace, weights, n)
    &&& token_of(bytes, 10, n) is None
}

/// `h` is `g` after command `c` in a ruck.
pub open spec fn ruck_step(g: GameState, c: Option<Command>, h: GameState) -> bool {
    match c {
        Some(c) => match c.action {
            Action::Run(d) => ran_in_ruck(g, h, c.side, c.number, d, true),
            Action::Walk(d) => ran_in_ruck(g, h, c.side, c.number, d, false),
            Action::Tackle => exists|pen: bool| #[trigger] ruck_gathered(g, h, c.side, c.number, pen),
            _ => h == g,
        },
        None => h == g,
    }
}

/// `trace` runs the first `n` lines of a ruck batch from `g0`.
pub open spec fn ruck_steps(g0: GameState, bytes: Seq<u8>, trace: Seq<GameState>, n: nat) -> bool {
    &&& trace.len() == n + 1
    &&& trace[0] == g0
    &&& forall|i: int| 0 <= i < n ==> #[trigger] token_of(bytes, 10, i as nat) is Some
    &&& forall|i: int| 0 <= i < n ==> #[trigger] ruck_step(trace[i], command_at(bytes, i as nat), trace[i + 1])
}

/// `trace` runs every line of a ruck batch from `g0`.
pub open spec fn ruck_batch(g0: GameState, bytes: Seq<u8>, trace: Seq<GameState>, n: nat) -> bool {
    &&& ruck_steps(g0, bytes, trace, n)
    &&& token_of(bytes, 10, n) is None
}

/// `h` is `g` with a loose ball kept on the playing area.
pub open spec fn ball_kept_in(g: GameState, h: GameState) -> bool {
    &&& (g.ball.is_carried ==> h == g)
    &&& (!g.ball.is_carried ==> {
        &&& h.ball.x == clamp_between(g.ball.x as int, 0,
            (g.field.width + 2 * g.field.try_size) * 1000)
        &&& h.ball.y == clamp_between(g.ball.y as int, 0, g.field.height * 1000)
        &&& h.ball.z == g.ball.z
        &&& !h.ball.is_carried
        &&& h.state == g.state
        &&& h.roster(Side::Home) == g.roster(Side::Home)
        &&& h.roster(Side::Away) == g.roster(Side::Away)
        &&& h.ball_throw == g.ball_throw
    })
    &&& (h.field == g.field)
    &&& (h.time == g.time)
}

/// `h` is `g` after one tick of open play on the batch `input`.
pub open spec fn played(g: GameState, h: GameState, input: &str) -> bool {
    &&& (h.time == g.time + TICK)
    &&& (h.field == g.field)
    &&& (h.state.phase != Phase::Start)
    &&& (exists|trace: Seq<GameState>, n: nat, stopped: bool| #[trigger] play_batch(
        opened(g), input.spec_bytes(), trace, n, stopped)
        && if stopped {
            h == trace[n as int]
        } else {
            exists|m1: GameState, m2: GameState| #[trigger] ball_flown(trace[n as int], m1)
                && #[trigger] ball_gathered(m1, m2) && ball_kept_in(m2, h)
        })
}

/// `h` is `g` after one tick of a scrum on the batch `input`.
pub open spec fn scrummed(g: GameState, h: GameState, input: &str) -> bool {
    &&& (h.time == g.time + TICK)
    &&& (h.field == g.field)
    &&& (exists|trace: Seq<GameState>, weights: Seq<(u64, u64)>, n: nat| #[trigger] scrum_batch(
        scrum_set(g), input.spec_bytes(), trace, weights, n)
        && exists|m: GameState| #[trigger] scrum_drifted(trace[n as int], m, weights[n as int].0, weights[n as int].1)
            && scrum_left(m, h))
}

/// `h` is `g` after one tick of a ruck on the batch `input`.
pub open spec fn rucked(g: GameState, h: GameState, input: &str) -> bool {
    &&& (h.time == g.time + TICK)
    &&& (h.field == g.field)
    &&& (exists|trace: Seq<GameState>, n: nat| #[trigger] ruck_batch(
        ticked(g), input.spec_bytes(), trace, n)
        && exists|m: GameState| #[trigger] tackler_checked(trace[n as int], m) && scrap_checked(m, h))
}

/// `h` is `g` after one tick of a penalty.
pub open spec fn penalised(g: GameState, h: GameState) -> bool {
    &&& (h.time == g.time + TICK)
    &&& (h.field == g.field)
    &&& (exists|m: GameState| #[trigger] tackler_checked(ticked(g), m) && scrap_checked(m, h))
}

} // verus!
