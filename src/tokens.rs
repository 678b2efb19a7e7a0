//! Tokens of the setup descriptors: `_`-separated fields, `key=value`
//! pairs, space-separated words.
use vstd::prelude::*;
use crate::commands::{after, before, holds_byte, split_once};
use crate::text::{milli_of, number_of, parse_milli, parse_number};

verus! {

/// The `i`-th piece of `s` cut at every `c`, if `s` has that many.
pub open spec fn token_of(s: Seq<u8>, c: u8, i: nat) -> Option<Seq<u8>>
    decreases i,
{
    if i == 0 {
        Some(before(s, c))
    } else if holds_byte(s, c) {
        token_of(after(s, c), c, (i - 1) as nat)
    } else {
        None
    }
}

/// The value of a `key=value` token: the text after the first `=` and
/// before any further one.
pub open spec fn value_of(t: Seq<u8>) -> Option<Seq<u8>> {
    if holds_byte(t, 61) {
        Some(before(after(t, 61), 61))
    } else {
        None
    }
}

/// The number held by the value of the `i`-th `_` token of `s`, when it is
/// at most `max`; `default` otherwise.
pub open spec fn setting(s: Seq<u8>, i: nat, default: int, max: int) -> int {
    match token_of(s, 95, i) {
        Some(t) => match value_of(t) {
            Some(v) => match number_of(v) {
                Some(n) => if n <= max { n } else { default },
                None => default,
            },
            None => default,
        },
        None => default,
    }
}

/// The decimal (in thousandths) held by the value of the `i`-th `_` token of
/// `s`, when it lies in `0..=max`; `default` otherwise.
pub open spec fn measure(s: Seq<u8>, i: nat, default: int, max: int) -> int {
    match token_of(s, 95, i) {
        Some(t) => match value_of(t) {
            Some(v) => match milli_of(v) {
                Some(m) => if 0 <= m <= max { m } else { default },
                None => default,
            },
            None => default,
        },
        None => default,
    }
}

/// The `i`-th piece of `s` cut at every `c`.
pub fn token_at<'a>(s: &'a [u8], c: u8, i: usize) -> (r: Option<&'a [u8]>)
    ensures
        match r {
            Some(t) => token_of(s@, c, i as nat) == Some(t@),
            None => token_of(s@, c, i as nat) is None,
        },
{
    let mut rest = s;
    let mut k: usize = 0;
    while k < i
        invariant
            k <= i,
            token_of(s@, c, i as nat) == token_of(rest@, c, (i - k) as nat),
        decreases i - k,
    {
        let found = crate::commands::find_byte(rest, c).is_some();
        if !found {
            return None;
        }
        let (_, tail) = split_once(rest, c);
        rest = tail;
        k = k + 1;
    }
    let (head, _) = split_once(rest, c);
    Some(head)
}

/// The value of a `key=value` token.
pub fn value_in<'a>(t: &'a [u8]) -> (r: Option<&'a [u8]>)
    ensures
        match r {
            Some(v) => value_of(t@) == Some(v@),
            None => value_of(t@) is None,
        },
{
    if crate::commands::find_byte(t, 61).is_none() {
        return None;
    }
    let (_, tail) = split_once(t, 61);
    let (v, _) = split_once(tail, 61);
    Some(v)
}

/// See `setting`.
pub fn read_setting(s: &[u8], i: usize, default: u64, max: u64) -> (r: u64)
    requires
        default <= max,
    ensures
        r == setting(s@, i as nat, default as int, max as int),
        r <= max,
{
    match token_at(s, 95, i) {
        Some(t) => match value_in(t) {
            Some(v) => match parse_number(v) {
                Some(n) => if n <= max { n } else { default },
                None => default,
            },
            None => default,
        },
        None => default,
    }
}

/// See `measure`.
pub fn read_measure(s: &[u8], i: usize, default: i64, max: i64) -> (r: i64)
    requires
        0 <= default <= max,
    ensures
        r == measure(s@, i as nat, default as int, max as int),
        0 <= r <= max,
{
    match token_at(s, 95, i) {
        Some(t) => match value_in(t) {
            Some(v) => match parse_milli(v) {
                Some(m) => if 0 <= m && m <= max { m } else { default },
                None => default,
            },
            None => default,
        },
        None => default,
    }
}

} // verus!
