//! Spans of time for people: how long ago a run started, how long it took.
use crate::figures::{half_even, nearest, push_tenths, tenths};
use crate::store::now_ms;
use crate::text::{decimal, padded, push_decimal};
use vstd::prelude::*;

verus! {

/// How many whole seconds `now` is after `then`; none where it is before.
pub open spec fn seconds_since(now: u64, then: u64) -> nat {
    if now <= then {
        0
    } else {
        ((now - then) / 1000) as nat
    }
}

/// How long ago `started` was at `now`: in seconds, minutes, hours or days,
/// the largest that fits.
pub open spec fn age_text(now: u64, started: u64) -> Seq<char> {
    let s = seconds_since(now, started);
    if s < 60 {
        decimal(s) + "s"@
    } else if s < 3600 {
        decimal(s / 60) + "m"@
    } else if s < 86_400 {
        decimal(s / 3600) + "h"@
    } else {
        decimal(s / 86_400) + "d"@
    }
}

/// "3s", "5m", "2h", "4d": how long ago a run started, by the clock `now`.
pub fn age_at(now: u64, started_ms: u64) -> (res: String)
    ensures
        res@ == age_text(now, started_ms),
{
    let s: u64 = now.saturating_sub(started_ms) / 1000;
    let mut out = String::new();
    if s < 60 {
        push_decimal(&mut out, s);
        out.push_str("s");
    } else if s < 3600 {
        push_decimal(&mut out, s / 60);
        out.push_str("m");
    } else if s < 86_400 {
        push_decimal(&mut out, s / 3600);
        out.push_str("h");
    } else {
        push_decimal(&mut out, s / 86_400);
        out.push_str("d");
    }
    assert(out@ =~= age_text(now, started_ms));
    out
}

/// How long ago a run started.
pub fn age(started_ms: u64) -> (res: String)
    ensures
        exists|now: u64| res@ == #[trigger] age_text(now, started_ms),
{
    let now: u64 = now_ms();
    age_at(now, started_ms)
}

/// The parts of a second that a double-precision number of seconds counts in,
/// for up to a minute of milliseconds: 53 binary digits, less those of the
/// whole seconds.
pub open spec fn second_parts(ms: u64) -> nat {
    if ms < 2000 {
        0x10_0000_0000_0000
    } else if ms < 4000 {
        0x8_0000_0000_0000
    } else if ms < 8000 {
        0x4_0000_0000_0000
    } else if ms < 16_000 {
        0x2_0000_0000_0000
    } else if ms < 32_000 {
        0x1_0000_0000_0000
    } else {
        0x8000_0000_0000
    }
}

/// `ms` in tenths of a second, first rounded to a double-precision number of
/// seconds and then to a tenth.
pub open spec fn second_tenths(ms: u64) -> nat {
    let parts = second_parts(ms);
    half_even(half_even(ms as nat * parts, 1000) * 10, parts)
}

/// `ms` for people: milliseconds, seconds with one decimal, or minutes and
/// seconds.
pub open spec fn duration_text(ms: u64) -> Seq<char> {
    if ms < 1000 {
        decimal(ms as nat) + "ms"@
    } else if ms < 60_000 {
        tenths(second_tenths(ms)) + "s"@
    } else {
        decimal(ms as nat / 60_000) + "m"@ + padded(ms as nat % 60_000 / 1000, 2) + "s"@
    }
}

/// "84ms", "2.4s", "3m07s": how long a run took.
pub fn duration(ms: u64) -> (res: String)
    ensures
        res@ == duration_text(ms),
{
    let mut out = String::new();
    if ms < 1000 {
        push_decimal(&mut out, ms);
        out.push_str("ms");
    } else if ms < 60_000 {
        let parts: u128 = if ms < 2000 {
            0x10_0000_0000_0000
        } else if ms < 4000 {
            0x8_0000_0000_0000
        } else if ms < 8000 {
            0x4_0000_0000_0000
        } else if ms < 16_000 {
            0x2_0000_0000_0000
        } else if ms < 32_000 {
            0x1_0000_0000_0000
        } else {
            0x8000_0000_0000
        };
        assert(ms * parts <= 60_000 * parts) by (nonlinear_arith)
            requires
                ms < 60_000,
        ;
        let whole: u128 = nearest(ms as u128 * parts, 1000);
        assert(whole <= 60 * parts + 1);
        let t: u128 = nearest(whole * 10, parts);
        assert(t <= 700) by (nonlinear_arith)
            requires
                t <= (whole * 10) / (parts as int) + 1,
                whole <= 60 * parts + 1,
                parts >= 0x8000_0000_0000,
        ;
        push_tenths(&mut out, t as u64);
        out.push_str("s");
    } else {
        push_decimal(&mut out, ms / 60_000);
        out.push_str("m");
        let s: u64 = ms % 60_000 / 1000;
        if s < 10 {
            out.push('0');
        }
        push_decimal(&mut out, s);
        out.push_str("s");
        proof {
            assert(decimal(s as nat).len() >= 1);
            if s < 10 {
                assert(padded(s as nat, 2) =~= seq!['0'] + decimal(s as nat));
            } else {
                assert(decimal((s / 10) as nat).len() >= 1);
                assert(decimal(s as nat).len() >= 2);
            }
        }
    }
    assert(out@ =~= duration_text(ms));
    out
}

} // verus!
