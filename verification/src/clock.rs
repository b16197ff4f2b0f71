//! Times of day and spans of time as text.

use vstd::prelude::*;
use crate::number::to_two_digits;
#[allow(unused_imports)]
use crate::number::{decimal, two_digits};

verus! {

/// The seconds by which Beijing is ahead of UTC, at any time of the year.
pub const BEIJING_OFFSET: u64 = 28800;

/// The seconds of a day.
pub const DAY: u64 = 86400;

/// Hours, minutes and seconds, each with two digits at least.
pub open spec fn hms(seconds: nat) -> Seq<char> {
    two_digits(seconds / 3600) + ":"@ + two_digits((seconds % 3600) / 60) + ":"@ + two_digits(
        seconds % 60,
    )
}

/// The time of day in Beijing at a number of seconds after the Unix epoch.
pub open spec fn beijing_time(unix_seconds: nat) -> Seq<char> {
    hms((unix_seconds + BEIJING_OFFSET as nat) % DAY as nat)
}

/// A span of time as hours, minutes and seconds.
pub fn format_duration(seconds: u64) -> (text: String)
    ensures
        text@ == hms(seconds as nat),
{
    let mut text: String = to_two_digits(seconds / 3600);
    text.append(":");
    text.append(to_two_digits((seconds % 3600) / 60).as_str());
    text.append(":");
    text.append(to_two_digits(seconds % 60).as_str());
    text
}

/// The time of day in Beijing, at a number of seconds after the Unix epoch.
pub fn beijing_clock(unix_seconds: u64) -> (text: String)
    ensures
        text@ == beijing_time(unix_seconds as nat),
{
    let day: u64 = (unix_seconds % DAY + BEIJING_OFFSET) % DAY;
    proof {
        vstd::arithmetic::div_mod::lemma_add_mod_noop(
            unix_seconds as int,
            BEIJING_OFFSET as int,
            DAY as int,
        );
    }
    format_duration(day)
}

/// A time of day is eight characters long.
pub proof fn law_time_of_day_has_eight_characters(unix_seconds: nat)
    ensures
        beijing_time(unix_seconds).len() == 8,
{
    reveal_strlit(":");
    let day = (unix_seconds + BEIJING_OFFSET as nat) % DAY as nat;
    lemma_two_digits(day / 3600);
    lemma_two_digits((day % 3600) / 60);
    lemma_two_digits(day % 60);
}

/// The clock shows the same a day later.
pub proof fn law_clock_repeats_daily(unix_seconds: nat)
    ensures
        beijing_time(unix_seconds + DAY as nat) == beijing_time(unix_seconds),
{
    let now = (unix_seconds + BEIJING_OFFSET) as int;
    vstd::arithmetic::div_mod::lemma_mod_add_multiples_vanish(now, DAY as int);
    assert((unix_seconds + DAY as nat) + BEIJING_OFFSET as nat == DAY as int + now);
    assert((DAY as int + now) % DAY as int == now % DAY as int);
}

/// A number below a hundred is written with two digits.
proof fn lemma_two_digits(n: nat)
    requires
        n < 100,
    ensures
        two_digits(n).len() == 2,
{
    if n >= 10 {
        assert(decimal(n / 10).len() == 1);
    }
}

/// A span of hours, minutes and seconds is written with each of the three in
/// full, at two digits at least.
pub proof fn law_duration_shows_hours_minutes_and_seconds(h: nat, m: nat, s: nat)
    requires
        m < 60,
        s < 60,
    ensures
        hms(h * 3600 + m * 60 + s) == two_digits(h) + ":"@ + two_digits(m) + ":"@ + two_digits(s),
{
    let t: nat = h * 3600 + m * 60 + s;
    assert(t / 3600 == h && (t % 3600) / 60 == m && t % 60 == s) by (nonlinear_arith)
        requires
            t == h * 3600 + m * 60 + s,
            m < 60,
            s < 60,
    ;
}

/// The clock in Beijing is eight hours ahead, on any day.
#[verifier::rlimit(30)]
pub proof fn law_clock_is_eight_hours_ahead(day: nat, h: nat, m: nat, s: nat)
    requires
        h < 24,
        m < 60,
        s < 60,
    ensures
        beijing_time(day * 86400 + h * 3600 + m * 60 + s) == two_digits((h + 8) % 24) + ":"@
            + two_digits(m) + ":"@ + two_digits(s),
{
    let t: nat = day * 86400 + h * 3600 + m * 60 + s;
    let later: nat = (h + 8) % 24;
    assert((t + 28800) % 86400 == later * 3600 + m * 60 + s) by {
        let over: nat = (h + 8) / 24;
        assert(h + 8 == over * 24 + later);
        assert(t + 28800 == (day + over) * 86400 + (later * 3600 + m * 60 + s))
            by (nonlinear_arith)
            requires
                t == day * 86400 + h * 3600 + m * 60 + s,
                h + 8 == over * 24 + later,
        ;
        let r = later * 3600 + m * 60 + s;
        assert(r < 86400);
        vstd::arithmetic::div_mod::lemma_mod_multiples_vanish(
            (day + over) as int,
            r as int,
            86400,
        );
        assert(86400 * (day + over) == (day + over) * 86400) by (nonlinear_arith);
        vstd::arithmetic::div_mod::lemma_small_mod(r as nat, 86400);
    }
    law_duration_shows_hours_minutes_and_seconds(later, m, s);
}

} // verus!
