//! Reading numbers out of ASCII text: jersey numbers, decimals in
//! thousandths, angles in whole degrees.
use vstd::prelude::*;
use crate::geometry::trunc_div;

verus! {

pub open spec fn is_digit(b: u8) -> bool {
    48 <= b <= 57
}

pub open spec fn all_digits(s: Seq<u8>) -> bool {
    forall|i: int| 0 <= i < s.len() ==> is_digit(#[trigger] s[i])
}

/// The value of a string of decimal digits.
pub open spec fn digits_val(s: Seq<u8>) -> int
    decreases s.len(),
{
    if s.len() == 0 {
        0
    } else {
        digits_val(s.drop_last()) * 10 + (s.last() - 48)
    }
}

/// An unsigned decimal of 1 to 18 digits.
pub open spec fn number_of(s: Seq<u8>) -> Option<int> {
    if 1 <= s.len() <= 18 && all_digits(s) {
        Some(digits_val(s))
    } else {
        None
    }
}

/// `k` is the length of the run of digits that starts `s`.
pub open spec fn digit_run(s: Seq<u8>, k: int) -> bool {
    &&& 0 <= k <= s.len()
    &&& forall|j: int| 0 <= j < k ==> is_digit(#[trigger] s[j])
    &&& (k == s.len() || !is_digit(s[k]))
}

/// The digit at `i` of `f` counted as a decimal place, 0 past the end.
pub open spec fn place(f: Seq<u8>, i: int) -> int {
    if i < f.len() {
        f[i] - 48
    } else {
        0
    }
}

/// A decimal `[-]digits[.digits]` (1 to 12 whole digits) in thousandths,
/// places past the third dropped.
pub open spec fn milli_of(s: Seq<u8>) -> Option<int> {
    let neg = s.len() > 0 && s[0] == 45;
    let body = if neg { s.subrange(1, s.len() as int) } else { s };
    let k = choose|k: int| digit_run(body, k);
    let rest = body.subrange(k, body.len() as int);
    let frac = if rest.len() > 0 { rest.subrange(1, rest.len() as int) } else { Seq::<u8>::empty() };
    if 1 <= k <= 12 && (rest.len() == 0 || (rest[0] == 46 && all_digits(frac))) {
        let v = digits_val(body.subrange(0, k)) * 1000 + place(frac, 0) * 100 + place(frac, 1) * 10 + place(frac, 2);
        Some(if neg { -v } else { v })
    } else {
        None
    }
}

/// An angle in whole degrees, `0..360`; text that is no decimal reads as 0.
pub open spec fn angle_of(s: Seq<u8>) -> int {
    match milli_of(s) {
        Some(m) => trunc_div(m, 1000) % 360,
        None => 0,
    }
}

proof fn lemma_digit_run_unique(s: Seq<u8>, a: int, b: int)
    requires
        digit_run(s, a),
        digit_run(s, b),
    ensures
        a == b,
{
    if a < b {
        assert(is_digit(s[a]));
    } else if b < a {
        assert(is_digit(s[b]));
    }
}

proof fn lemma_digits_bound(s: Seq<u8>)
    requires
        all_digits(s),
    ensures
        0 <= digits_val(s) < pow10(s.len() as nat),
    decreases s.len(),
{
    if s.len() > 0 {
        assert(all_digits(s.drop_last())) by {
            assert forall|i: int| 0 <= i < s.drop_last().len() implies is_digit(#[trigger] s.drop_last()[i]) by {
                assert(s.drop_last()[i] == s[i]);
            }
        }
        lemma_digits_bound(s.drop_last());
        assert(is_digit(s[s.len() - 1]));
    }
}

pub open spec fn pow10(n: nat) -> int
    decreases n,
{
    if n == 0 {
        1
    } else {
        10 * pow10((n - 1) as nat)
    }
}

/// Value of the digits `s[start..end]`, at most 18 of them.
fn digits_at(s: &[u8], start: usize, end: usize) -> (r: u64)
    requires
        start <= end <= s@.len(),
        end - start <= 18,
        all_digits(s@.subrange(start as int, end as int)),
    ensures
        r == digits_val(s@.subrange(start as int, end as int)),
{
    let mut v: u64 = 0;
    let mut i = start;
    while i < end
        invariant
            start <= i <= end <= s@.len(),
            end - start <= 18,
            all_digits(s@.subrange(start as int, end as int)),
            v == digits_val(s@.subrange(start as int, i as int)),
        decreases end - i,
    {
        let ghost pre = s@.subrange(start as int, i as int);
        let ghost next = s@.subrange(start as int, i as int + 1);
        proof {
            assert(next.drop_last() =~= pre);
            assert(s@.subrange(start as int, end as int)[i - start] == s@[i as int]);
            assert(all_digits(pre)) by {
                assert forall|j: int| 0 <= j < pre.len() implies is_digit(#[trigger] pre[j]) by {
                    assert(pre[j] == s@.subrange(start as int, end as int)[j]);
                }
            }
            lemma_digits_bound(pre);
            assert(pow10(pre.len() as nat) <= pow10(17)) by {
                lemma_pow10_mono(pre.len() as nat, 17);
            }
            reveal_with_fuel(pow10, 18);
            assert(pow10(17) == 100_000_000_000_000_000);
        }
        v = v * 10 + (s[i] - 48) as u64;
        i = i + 1;
    }
    v
}

proof fn lemma_pow10_mono(a: nat, b: nat)
    requires
        a <= b,
    ensures
        pow10(a) <= pow10(b),
        pow10(a) >= 1,
    decreases b,
{
    if b > 0 {
        if a < b {
            lemma_pow10_mono(a, (b - 1) as nat);
        } else {
            lemma_pow10_mono((b - 1) as nat, (b - 1) as nat);
        }
    }
}

/// Length of the run of digits of `s` from `start`.
fn digit_run_at(s: &[u8], start: usize) -> (k: usize)
    requires
        start <= s@.len(),
    ensures
        digit_run(s@.subrange(start as int, s@.len() as int), k as int),
{
    let mut i = start;
    while i < s.len() && s[i] >= 48 && s[i] <= 57
        invariant
            start <= i <= s@.len(),
            forall|j: int| start <= j < i ==> is_digit(#[trigger] s@[j]),
        decreases s@.len() - i,
    {
        i = i + 1;
    }
    let ghost body = s@.subrange(start as int, s@.len() as int);
    assert forall|j: int| 0 <= j < i - start implies is_digit(#[trigger] body[j]) by {
        assert(body[j] == s@[start + j]);
    }
    if i < s.len() {
        assert(body[i - start] == s@[i as int]);
    }
    i - start
}

/// Reads an unsigned decimal of 1 to 18 digits.
pub fn parse_number(s: &[u8]) -> (r: Option<u64>)
    ensures
        match r {
            Some(v) => number_of(s@) == Some(v as int),
            None => number_of(s@) is None,
        },
{
    if s.len() == 0 || s.len() > 18 {
        return None;
    }
    let k = digit_run_at(s, 0);
    proof {
        assert(s@.subrange(0, s@.len() as int) =~= s@);
    }
    if k != s.len() {
        proof {
            assert(!is_digit(s@[k as int]));
        }
        return None;
    }
    Some(digits_at(s, 0, s.len()))
}

/// Reads a decimal `[-]digits[.digits]` in thousandths.
#[verifier::rlimit(60)]
pub fn parse_milli(s: &[u8]) -> (r: Option<i64>)
    ensures
        match r {
            Some(v) => milli_of(s@) == Some(v as int) && -1_000_000_000_000_000 <= v <= 1_000_000_000_000_000,
            None => milli_of(s@) is None,
        },
{
    let neg = s.len() > 0 && s[0] == 45;
    let start: usize = if neg { 1 } else { 0 };
    let ghost body = if neg { s@.subrange(1, s@.len() as int) } else { s@ };
    proof {
        assert(body =~= s@.subrange(start as int, s@.len() as int));
    }
    let k = digit_run_at(s, start);
    proof {
        let c = choose|k: int| digit_run(body, k);
        lemma_digit_run_unique(body, c, k as int);
    }
    if k < 1 || k > 12 {
        return None;
    }
    let dot = start + k;
    let ghost rest = body.subrange(k as int, body.len() as int);
    let ghost frac = if rest.len() > 0 { rest.subrange(1, rest.len() as int) } else { Seq::<u8>::empty() };
    let mut f: i64 = 0;
    if dot < s.len() {
        assert(rest[0] == s@[dot as int]);
        if s[dot] != 46 {
            return None;
        }
        let m = digit_run_at(s, dot + 1);
        proof {
            assert(frac =~= s@.subrange(dot + 1, s@.len() as int));
        }
        if dot + 1 + m != s.len() {
            proof {
                assert(!is_digit(frac[m as int]));
            }
            return None;
        }
        let d0: i64 = if m > 0 { (s[dot + 1] - 48) as i64 } else { 0 };
        let d1: i64 = if m > 1 { (s[dot + 2] - 48) as i64 } else { 0 };
        let d2: i64 = if m > 2 { (s[dot + 3] - 48) as i64 } else { 0 };
        proof {
            if m > 0 { assert(frac[0] == s@[dot + 1]); }
            if m > 1 { assert(frac[1] == s@[dot + 2]); }
            if m > 2 { assert(frac[2] == s@[dot + 3]); }
        }
        f = d0 * 100 + d1 * 10 + d2;
    } else {
        assert(rest.len() == 0);
    }
    proof {
        assert(body.subrange(0, k as int) =~= s@.subrange(start as int, dot as int));
        assert(all_digits(s@.subrange(start as int, dot as int))) by {
            assert forall|j: int| 0 <= j < k implies is_digit(#[trigger] s@.subrange(start as int, dot as int)[j]) by {
                assert(s@.subrange(start as int, dot as int)[j] == body[j]);
            }
        }
        lemma_digits_bound(s@.subrange(start as int, dot as int));
        lemma_pow10_mono(k as nat, 12);
        reveal_with_fuel(pow10, 13);
        assert(pow10(12) == 1_000_000_000_000);
    }
    let whole = digits_at(s, start, dot);
    let v = (whole as i64) * 1000 + f;
    Some(if neg { -v } else { v })
}

/// Reads an angle in whole degrees, `0..360`; anything else reads as 0.
pub fn parse_angle(s: &[u8]) -> (r: u32)
    ensures
        r == angle_of(s@),
        r < 360,
{
    match parse_milli(s) {
        Some(m) => {
            if m >= 0 {
                ((m / 1000) % 360) as u32
            } else {
                let w = ((-m) / 1000) % 360;
                proof {
                    let t = (-m) / 1000;
                    assert(trunc_div(m as int, 1000) == -t);
                    lemma_neg_mod(t, 360);
                }
                if w == 0 { 0 } else { (360 - w) as u32 }
            }
        },
        None => 0,
    }
}

proof fn lemma_neg_mod(t: int, d: int)
    requires
        t >= 0,
        d > 0,
    ensures
        (-t) % d == if t % d == 0 { 0 } else { d - t % d },
{
    let q = t / d;
    let r = t % d;
    assert(t == q * d + r) by (nonlinear_arith) requires d > 0, q == t / d, r == t % d;
    if r == 0 {
        assert(-t == (-q) * d) by (nonlinear_arith) requires t == q * d + r, r == 0;
        assert((-t) % d == 0) by (nonlinear_arith) requires -t == (-q) * d, d > 0;
    } else {
        assert(-t == (-q - 1) * d + (d - r)) by (nonlinear_arith) requires t == q * d + r;
        assert((-t) % d == d - r) by (nonlinear_arith) requires -t == (-q - 1) * d + (d - r), 0 < d - r < d, d > 0;
    }
}

} // verus!
