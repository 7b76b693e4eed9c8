//! Wall-clock time: the current Unix time, and its time of day as text.
use vstd::prelude::*;
use crate::text::{push_char, digit_char};

verus! {

/// Seconds since the Unix epoch on the system clock (`SystemTime::now()`);
/// 0 where the clock stands before the epoch. Nothing is claimed of the value.
#[verifier::external_body]
pub(crate) fn unix_now_secs() -> u64 {
    std::time::SystemTime::now().duration_since(std::time::UNIX_EPOCH).map(|d| d.as_secs()).unwrap_or(0)
}

/// The current Unix time in seconds.
pub fn now_ts() -> u64 {
    unix_now_secs()
}

/// Two decimal digits of `n < 100`, with a leading zero.
pub open spec fn two_digits(n: int) -> Seq<char> {
    seq![digit_char(n / 10), digit_char(n % 10)]
}

/// The UTC time of day of a Unix time: "HH:MM:SS UTC".
pub open spec fn clock_text_of(now: u64) -> Seq<char> {
    two_digits(((now % 86400) / 3600) as int) + seq![':'] + two_digits(((now % 3600) / 60) as int) + seq![':']
        + two_digits((now % 60) as int) + " UTC"@
}

fn push_two_digits(s: &mut String, n: u64)
    requires
        n < 100,
    ensures
        final(s)@ == old(s)@ + two_digits(n as int),
{
    push_char(s, digit((n / 10) as u8));
    push_char(s, digit((n % 10) as u8));
}

fn digit(d: u8) -> (c: char)
    requires
        d < 10,
    ensures
        c == digit_char(d as int),
{
    if d == 0 { '0' } else if d == 1 { '1' } else if d == 2 { '2' } else if d == 3 { '3' }
    else if d == 4 { '4' } else if d == 5 { '5' } else if d == 6 { '6' } else if d == 7 { '7' }
    else if d == 8 { '8' } else { '9' }
}

/// The UTC time of day of a Unix time (`clock_text_of`).
pub fn clock_text(now: u64) -> (r: String)
    ensures
        r@ == clock_text_of(now),
{
    let h = (now % 86400) / 3600;
    let m = (now % 3600) / 60;
    let s = now % 60;
    let mut r = String::new();
    push_two_digits(&mut r, h);
    push_char(&mut r, ':');
    push_two_digits(&mut r, m);
    push_char(&mut r, ':');
    push_two_digits(&mut r, s);
    r.append(" UTC");
    r
}

/// The current UTC time of day, "HH:MM:SS UTC": `clock_text_of` of the Unix
/// time the system clock gives.
pub fn chrono_now() -> (r: String)
    ensures
        exists|now: u64| r@ == clock_text_of(now),
{
    let now = unix_now_secs();
    let r = clock_text(now);
    assert(r@ == clock_text_of(now));
    r
}

} // verus!
