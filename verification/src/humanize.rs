//! Time distances, written for people.
use vstd::prelude::*;
use vstd::string::*;

use crate::text::{decimal, digit_char, push_decimal, push_two_digits, two_digits};

verus! {

/// A distance in time below zero counts as none.
pub open spec fn clamped(secs: int) -> nat {
    if secs < 0 {
        0
    } else {
        secs as nat
    }
}

/// How a distance of `secs` seconds is written: `45s`, `2m14s`, `1h05m`.
pub open spec fn humanized(secs: int) -> Seq<char> {
    let s = clamped(secs);
    if s < 60 {
        decimal(s) + "s"@
    } else if s < 3600 {
        decimal(s / 60) + "m"@ + two_digits(s % 60) + "s"@
    } else {
        decimal(s / 3600) + "h"@ + two_digits(s % 3600 / 60) + "m"@
    }
}

/// What the text of a distance tells of it: every second below an hour, whole
/// minutes from an hour on.
pub open spec fn told(secs: int) -> nat {
    let s = clamped(secs);
    if s < 3600 {
        s
    } else {
        s / 60 * 60
    }
}

/// Writes a distance in time as `45s`, `2m14s` or `1h05m`.
pub fn humanize_delta(secs: i64) -> (text: String)
    ensures
        text@ == humanized(secs as int),
{
    let secs: u64 = if secs < 0 { 0 } else { secs as u64 };
    let mut text = String::new();
    if secs < 60 {
        push_decimal(&mut text, secs);
        text.append("s");
    } else if secs < 3600 {
        push_decimal(&mut text, secs / 60);
        text.append("m");
        push_two_digits(&mut text, secs % 60);
        text.append("s");
    } else {
        push_decimal(&mut text, secs / 3600);
        text.append("h");
        push_two_digits(&mut text, (secs % 3600) / 60);
        text.append("m");
    }
    assert(text@ =~= humanized(secs as int));
    text
}

/// Two distances are written alike exactly when they agree in every second
/// below an hour, and in whole minutes from an hour on.
pub proof fn law_text_tells_distance(a: int, b: int)
    ensures
        humanized(a) == humanized(b) <==> told(a) == told(b),
{
    let (s, t) = (clamped(a), clamped(b));
    if told(a) == told(b) {
        if s >= 3600 {
            assert(s / 60 == t / 60);
            assert(s / 3600 == s / 60 / 60 && t / 3600 == t / 60 / 60);
            assert(s % 3600 / 60 == s / 60 % 60 && t % 3600 / 60 == t / 60 % 60);
        }
    }
    if humanized(a) == humanized(b) {
        reveal_strlit("s");
        reveal_strlit("m");
        reveal_strlit("h");
        let (x, u) = lemma_humanized_parts(s);
        let (y, v) = lemma_humanized_parts(t);
        assert(decimal(x) + u == decimal(y) + v);
        lemma_decimal_then_letter(x, u, y, v);
        lemma_decimal_injective(x, y);
        if s >= 60 {
            let (p, q) = if s < 3600 {
                (s % 60, t % 60)
            } else {
                (s % 3600 / 60, t % 3600 / 60)
            };
            lemma_two_digits_len(p);
            lemma_two_digits_len(q);
            assert(two_digits(p) =~= u.subrange(1, u.len() - 1));
            assert(two_digits(q) =~= v.subrange(1, v.len() - 1));
            lemma_two_digits_injective(p, q);
        }
        if s >= 3600 {
            assert(s / 60 == s / 3600 * 60 + s % 3600 / 60);
            assert(t / 60 == t / 3600 * 60 + t % 3600 / 60);
        }
    }
}

/// The text of a distance: a number, then what follows, which begins with the
/// letter of its unit.
proof fn lemma_humanized_parts(s: nat) -> (parts: (nat, Seq<char>))
    ensures
        humanized(s as int) == decimal(parts.0) + parts.1,
        parts.0 == if s < 60 { s } else if s < 3600 { s / 60 } else { s / 3600 },
        s < 60 ==> parts.1 == "s"@,
        60 <= s < 3600 ==> parts.1 == "m"@ + two_digits(s % 60) + "s"@,
        3600 <= s ==> parts.1 == "h"@ + two_digits(s % 3600 / 60) + "m"@,
        parts.1.len() > 0,
        s < 60 ==> parts.1.first() == 's',
        60 <= s < 3600 ==> parts.1.first() == 'm',
        3600 <= s ==> parts.1.first() == 'h',
{
    reveal_strlit("s");
    reveal_strlit("m");
    reveal_strlit("h");
    let parts = if s < 60 {
        (s, "s"@)
    } else if s < 3600 {
        (s / 60, "m"@ + two_digits(s % 60) + "s"@)
    } else {
        (s / 3600, "h"@ + two_digits(s % 3600 / 60) + "m"@)
    };
    assert(humanized(s as int) =~= decimal(parts.0) + parts.1);
    parts
}

/// A decimal number is made of the digits `0` to `9`, one at least.
proof fn lemma_decimal_digits(n: nat)
    ensures
        decimal(n).len() > 0,
        forall|i: int| 0 <= i < decimal(n).len() ==> '0' <= #[trigger] decimal(n)[i] <= '9',
    decreases n,
{
    if n >= 10 {
        lemma_decimal_digits(n / 10);
    }
}

/// Two numbers with the same digits are the same.
proof fn lemma_decimal_injective(a: nat, b: nat)
    requires
        decimal(a) == decimal(b),
    ensures
        a == b,
    decreases a,
{
    lemma_decimal_digits(a / 10);
    lemma_decimal_digits(b / 10);
    assert(decimal(a).last() == digit_char((a % 10) as int));
    assert(decimal(b).last() == digit_char((b % 10) as int));
    if a >= 10 {
        assert(decimal(a).drop_last() =~= decimal(a / 10));
        assert(decimal(b).len() >= 2);
        assert(decimal(b).drop_last() =~= decimal(b / 10));
        lemma_decimal_injective(a / 10, b / 10);
    }
}

/// Two digits write every number below 100 differently.
proof fn lemma_two_digits_injective(a: nat, b: nat)
    requires
        a < 100,
        b < 100,
        two_digits(a) == two_digits(b),
    ensures
        a == b,
{
    assert(two_digits(a)[0] == digit_char((a / 10) as int) && two_digits(a)[1] == digit_char(
        (a % 10) as int,
    )) by {
        reveal_with_fuel(decimal, 2);
    }
    assert(two_digits(b)[0] == digit_char((b / 10) as int) && two_digits(b)[1] == digit_char(
        (b % 10) as int,
    )) by {
        reveal_with_fuel(decimal, 2);
    }
}

/// Below 100 two digits are two characters.
proof fn lemma_two_digits_len(a: nat)
    requires
        a < 100,
    ensures
        two_digits(a).len() == 2,
{
    reveal_with_fuel(decimal, 2);
}

/// A number and the letter after it can be told apart.
proof fn lemma_decimal_then_letter(x: nat, u: Seq<char>, y: nat, v: Seq<char>)
    requires
        u.len() > 0,
        v.len() > 0,
        u.first() > '9',
        v.first() > '9',
        decimal(x) + u == decimal(y) + v,
    ensures
        decimal(x) == decimal(y),
        u == v,
{
    lemma_decimal_digits(x);
    lemma_decimal_digits(y);
    let (dx, dy) = (decimal(x), decimal(y));
    let all = dx + u;
    assert(all[dx.len() as int] == u.first());
    assert(all[dy.len() as int] == v.first());
    if dx.len() < dy.len() {
        assert(all[dx.len() as int] == dy[dx.len() as int]);
    }
    if dy.len() < dx.len() {
        assert(all[dy.len() as int] == dx[dy.len() as int]);
    }
    assert(dx =~= all.take(dx.len() as int));
    assert(dy =~= all.take(dx.len() as int));
    assert(u =~= all.skip(dx.len() as int));
    assert(v =~= all.skip(dx.len() as int));
}

/// Less than a minute is written as its seconds, and nothing is written of a
/// distance below zero.
pub proof fn law_seconds_are_written(seconds: nat, less: int)
    requires
        seconds < 60,
        less < 0,
    ensures
        humanized(seconds as int) == decimal(seconds) + seq!['s'],
        humanized(less) == seq!['0', 's'],
{
    reveal_strlit("s");
    assert("s"@ =~= seq!['s']);
    assert(humanized(less) =~= seq!['0', 's']);
}

/// Less than an hour is written as its minutes and seconds, the seconds in two
/// digits.
pub proof fn law_minutes_are_written(minutes: nat, seconds: nat)
    requires
        1 <= minutes < 60,
        seconds < 60,
    ensures
        humanized((60 * minutes + seconds) as int) == decimal(minutes) + seq!['m'] + two_digits(seconds)
            + seq!['s'],
{
    reveal_strlit("m");
    reveal_strlit("s");
    assert("m"@ =~= seq!['m'] && "s"@ =~= seq!['s']);
    let s = 60 * minutes + seconds;
    assert(s / 60 == minutes && s % 60 == seconds);
}

/// An hour and more is written as its hours and minutes, the minutes in two
/// digits, whatever the seconds.
pub proof fn law_hours_are_written(hours: nat, minutes: nat, seconds: nat)
    requires
        hours >= 1,
        minutes < 60,
        seconds < 60,
    ensures
        humanized((3600 * hours + 60 * minutes + seconds) as int) == decimal(hours) + seq!['h']
            + two_digits(minutes) + seq!['m'],
{
    reveal_strlit("h");
    reveal_strlit("m");
    assert("h"@ =~= seq!['h'] && "m"@ =~= seq!['m']);
    let s = 3600 * hours + 60 * minutes + seconds;
    assert(s / 3600 == hours && s % 3600 == 60 * minutes + seconds);
    assert(s % 3600 / 60 == minutes);
}

} // verus!
