//! Times and counts, as short as a panel needs them.

use vstd::prelude::*;

use crate::geometry;
use crate::seconds;
use crate::seconds::{round_half_even, Seconds};
use crate::text;
use crate::text::{push_dec, push_dec2, push_signed_dec2};

verus! {

/// Hours and minutes, from a count of minutes.
pub open spec fn hours_text(minutes: nat) -> Seq<char> {
    text::dec(minutes / 60) + seq!['h'] + text::dec2(minutes % 60)
}

/// A span of whole seconds: "1h42", "12m" or "42s".
pub open spec fn secs_text(secs: nat) -> Seq<char> {
    if secs >= 3600 {
        hours_text(secs / 60)
    } else if secs >= 60 {
        text::dec(secs / 60).push('m')
    } else {
        text::dec(secs).push('s')
    }
}

/// A span of time: "1h42", "12m" or "42s".
pub open spec fn span_text(span: int) -> Seq<char> {
    secs_text(geometry::min(seconds::whole_secs(span), u64::MAX as int) as nat)
}

fn push_hours(out: &mut String, minutes: u64)
    ensures
        final(out)@ == old(out)@ + hours_text(minutes as nat),
{
    proof {
        reveal_strlit("h");
    }
    push_dec(out, minutes / 60);
    out.append("h");
    push_dec2(out, minutes % 60);
    assert(out@ =~= old(out)@ + hours_text(minutes as nat));
}

/// A span of time in its largest unit, hours with their minutes.
pub fn fmt_secs(span: Seconds) -> (out: String)
    ensures
        out@ == span_text(span@),
{
    proof {
        reveal_strlit("m");
        reveal_strlit("s");
    }
    let secs: u64 = span.whole();
    let mut out: String = String::new();
    if secs >= 3600 {
        push_hours(&mut out, secs / 60);
    } else if secs >= 60 {
        push_dec(&mut out, secs / 60);
        out.append("m");
    } else {
        push_dec(&mut out, secs);
        out.append("s");
    }
    assert(out@ =~= span_text(span@));
    out
}

/// A time of day: "14:22".
pub open spec fn clock_text(hour: int, min: int) -> Seq<char> {
    text::signed_dec2(hour) + seq![':'] + text::signed_dec2(min)
}

/// A time of day, "14:22".
pub fn fmt_clock(hour: i32, min: i32) -> (out: String)
    ensures
        out@ == clock_text(hour as int, min as int),
{
    proof {
        reveal_strlit(":");
    }
    let mut out: String = String::new();
    push_signed_dec2(&mut out, hour);
    out.append(":");
    push_signed_dec2(&mut out, min);
    assert(out@ =~= clock_text(hour as int, min as int));
    out
}

/// The hour and minute of a point in time where the local time zone cannot be
/// asked for: those of Greenwich.
pub fn local_hour_min(epoch: i64) -> (out: (i32, i32))
    ensures
        out.0 == epoch % 86_400 / 3600,
        out.1 == epoch % 86_400 % 3600 / 60,
{
    let part: i64 = epoch % 86_400;
    let day: i64 = if part < 0 {
        part + 86_400
    } else {
        part
    };
    assert(day == epoch as int % 86_400);
    let secs: u32 = day as u32;
    ((secs / 3600) as i32, (secs % 3600 / 60) as i32)
}

/// The time since `since_ms`; nothing has passed where the clock cannot be read.
pub open spec fn elapsed_text(since_ms: u64, now_ms: Option<u64>) -> Seq<char> {
    let now = match now_ms {
        Some(now) => now,
        None => since_ms,
    };
    let mins = (if now >= since_ms {
        (now - since_ms) / 60_000
    } else {
        0
    }) as nat;
    if mins >= 60 {
        hours_text(mins)
    } else {
        text::dec(mins).push('m')
    }
}

/// The time since `since_ms`, in minutes or hours.
pub fn fmt_elapsed(since_ms: u64, now_ms: Option<u64>) -> (out: String)
    ensures
        out@ == elapsed_text(since_ms, now_ms),
{
    proof {
        reveal_strlit("m");
    }
    let now: u64 = match now_ms {
        Some(now) => now,
        None => since_ms,
    };
    let mins: u64 = now.saturating_sub(since_ms) / 60_000;
    let mut out: String = String::new();
    if mins >= 60 {
        push_hours(&mut out, mins);
    } else {
        push_dec(&mut out, mins);
        out.append("m");
    }
    assert(out@ =~= elapsed_text(since_ms, now_ms));
    out
}

/// An elapsed time takes one cell a character, and few of them.
pub proof fn lemma_elapsed_short(since_ms: u64, now_ms: Option<u64>)
    ensures
        text::is_plain(elapsed_text(since_ms, now_ms)),
        elapsed_text(since_ms, now_ms).len() <= 41,
{
    let now = match now_ms {
        Some(now) => now,
        None => since_ms,
    };
    let mins = (if now >= since_ms {
        (now - since_ms) / 60_000
    } else {
        0
    }) as u64;
    text::lemma_dec_u64(mins);
    text::lemma_dec_u64((mins / 60) as u64);
    text::lemma_dec_u64((mins % 60) as u64);
}

/// A span of time has few characters.
pub proof fn lemma_span_short(span: int)
    ensures
        span_text(span).len() <= 41,
{
    seconds::lemma_whole_secs(span);
    let secs = geometry::min(seconds::whole_secs(span), u64::MAX as int) as u64;
    text::lemma_dec_u64(secs);
    text::lemma_dec_u64((secs / 60) as u64);
    text::lemma_dec_u64((secs / 60 / 60) as u64);
    text::lemma_dec_u64((secs / 60 % 60) as u64);
}

/// A time of day has few characters.
pub proof fn lemma_clock_short(hour: i32, min: i32)
    ensures
        clock_text(hour as int, min as int).len() <= 43,
{
    text::lemma_dec_u64((if hour < 0 {
        -hour
    } else {
        hour as int
    }) as u64);
    text::lemma_dec_u64((if min < 0 {
        -min
    } else {
        min as int
    }) as u64);
}

/// The power of two, from `unit` on, by which `n` is scaled so that a millionth
/// of it has 53 bits before the point.
pub open spec fn fraction_unit(n: nat, unit: nat) -> nat
    decreases
            (if n >= 4_503_599_627_370_496_000_000 {
                0
            } else {
                4_503_599_627_370_496_000_000 - n
            }),
{
    if n == 0 || n >= 4_503_599_627_370_496_000_000 {
        unit
    } else {
        fraction_unit(2 * n, 2 * unit)
    }
}

/// The tenths of a million in `n` tokens: the quotient of two numbers of 53
/// significant bits, itself cut to 53 bits, rounded to one decimal place.
pub open spec fn million_tenths(n: nat) -> nat {
    let m = seconds::to_double(n);
    let unit = fraction_unit(m, 1);
    let quotient = seconds::half_even(m * unit, 1_000_000);
    seconds::half_even(10 * quotient, unit)
}

/// A count of tokens: "1.2M", "96k" or "512".
pub open spec fn tokens_text(n: nat) -> Seq<char> {
    if n >= 1_000_000 {
        text::dec(million_tenths(n) / 10) + seq!['.'] + text::dec(million_tenths(n) % 10) + seq!['M']
    } else if n >= 1_000 {
        text::dec(n / 1_000).push('k')
    } else {
        text::dec(n)
    }
}

fn double_unit(n: u64) -> (unit: u128)
    ensures
        unit == seconds::unit_of(n as nat, 1),
        1 <= unit <= 0x1_0000,
        n < unit * 0x20_0000_0000_0000,
        unit == 1 || n >= unit * 0x10_0000_0000_0000,
{
    let mut unit: u128 = 1;
    while n as u128 >= unit * 0x20_0000_0000_0000
        invariant
            1 <= unit <= 0x1_0000,
            unit == 1 || n >= unit * 0x10_0000_0000_0000,
            seconds::unit_of(n as nat, 1) == seconds::unit_of(n as nat, unit as nat),
        decreases 0x1_0000_0000_0000_0000 - unit,
    {
        unit = 2 * unit;
    }
    unit
}

fn million_unit(n: u128) -> (unit: u128)
    requires
        1_000_000 <= n <= 600_000_000_000_000_000_000,
    ensures
        unit == fraction_unit(n as nat, 1),
        1 <= unit <= 9_007_199_254_740_992_000_000,
        n * unit <= 9_007_199_254_740_992_000_000,
{
    let mut scaled: u128 = n;
    let mut unit: u128 = 1;
    while scaled < 4_503_599_627_370_496_000_000
        invariant
            1_000_000 <= n,
            n <= scaled <= 9_007_199_254_740_992_000_000,
            1 <= unit <= scaled,
            scaled == n * unit,
            fraction_unit(n as nat, 1) == fraction_unit(scaled as nat, unit as nat),
        decreases 9_007_199_254_740_992_000_000 - scaled,
    {
        assert(2 * scaled == n * (2 * unit)) by (nonlinear_arith)
            requires
                scaled == n * unit,
        ;
        scaled = 2 * scaled;
        unit = 2 * unit;
    }
    unit
}

fn tenths_of_a_million(n: u64) -> (out: u128)
    requires
        1_000_000 <= n,
    ensures
        out == million_tenths(n as nat),
        out <= 0xffff_ffff_ffff_ffff,
{
    let unit: u128 = double_unit(n);
    let whole: u128 = round_half_even(n as u128, unit);
    assert(1_000_000 <= whole * unit <= 0x2000_0000_0000_0000_00) by (nonlinear_arith)
        requires
            1_000_000 <= n,
            1 <= unit <= 0x1_0000,
            n < unit * 0x20_0000_0000_0000,
            unit == 1 || n >= unit * 0x10_0000_0000_0000,
            (n as int) / (unit as int) <= whole <= (n as int) / (unit as int) + 1,
    {
        let down = (n as int) / (unit as int);
        assert(down * unit + (n as int) % (unit as int) == n);
        assert(0 <= (n as int) % (unit as int) < unit);
        assert(down < 0x20_0000_0000_0000);
        assert(whole * unit >= down * unit);
        assert(whole * unit <= 0x20_0000_0000_0000 * unit);
    }
    let m: u128 = whole * unit;
    let scale: u128 = million_unit(m);
    let quotient: u128 = round_half_even(m * scale, 1_000_000);
    let out: u128 = round_half_even(10 * quotient, scale);
    out
}

/// A count of tokens in its largest unit.
pub fn fmt_tokens(n: u64) -> (out: String)
    ensures
        out@ == tokens_text(n as nat),
{
    proof {
        reveal_strlit("M");
        reveal_strlit("k");
        reveal_strlit(".");
    }
    let mut out: String = String::new();
    if n >= 1_000_000 {
        let tenths: u64 = tenths_of_a_million(n) as u64;
        push_dec(&mut out, tenths / 10);
        out.append(".");
        push_dec(&mut out, tenths % 10);
        out.append("M");
    } else if n >= 1_000 {
        push_dec(&mut out, n / 1_000);
        out.append("k");
    } else {
        push_dec(&mut out, n);
    }
    assert(out@ =~= tokens_text(n as nat));
    out
}

/// A span is told in whole seconds below a minute, in whole minutes below an
/// hour, and from then on in hours and two digits of minutes; a negative one is
/// none.
pub proof fn law_spans_are_told_in_their_largest_unit(span: int)
    ensures
        ({
            let secs = seconds::whole_secs(span);
            &&& span <= 0 ==> span_text(span) == text::dec(0) + seq!['s']
            &&& 0 <= secs < 60 ==> span_text(span) == text::dec(secs as nat) + seq!['s']
            &&& 60 <= secs < 3600 ==> span_text(span) == text::dec((secs / 60) as nat) + seq!['m']
            &&& 3600 <= secs <= u64::MAX ==> span_text(span) == text::dec((secs / 3600) as nat)
                + seq!['h'] + text::dec2((secs % 3600 / 60) as nat)
        }),
{
    let secs = seconds::whole_secs(span);
    assert(span <= 0 ==> secs == 0);
    if 0 <= secs < 60 {
        assert(span_text(span) =~= text::dec(secs as nat) + seq!['s']);
    }
    if 60 <= secs < 3600 {
        assert(span_text(span) =~= text::dec((secs / 60) as nat) + seq!['m']);
    }
    if 3600 <= secs <= u64::MAX {
        assert(secs / 60 / 60 == secs / 3600);
        assert(secs / 60 % 60 == secs % 3600 / 60);
    }
}

/// The time since a moment counts whole minutes, with hours from sixty on; it is
/// none where the moment lies ahead or the clock cannot be read.
pub proof fn law_elapsed_times_count_minutes(since_ms: u64, now_ms: Option<u64>)
    ensures
        ({
            let mins = if now_ms is Some && now_ms->0 >= since_ms {
                (now_ms->0 - since_ms) / 60_000
            } else {
                0
            };
            &&& mins < 60 ==> elapsed_text(since_ms, now_ms) == text::dec(mins as nat) + seq!['m']
            &&& mins >= 60 ==> elapsed_text(since_ms, now_ms) == text::dec((mins / 60) as nat)
                + seq!['h'] + text::dec2((mins % 60) as nat)
        }),
{
    let mins = if now_ms is Some && now_ms->0 >= since_ms {
        (now_ms->0 - since_ms) / 60_000
    } else {
        0
    };
    if mins < 60 {
        assert(elapsed_text(since_ms, now_ms) =~= text::dec(mins as nat) + seq!['m']);
    }
}

/// A time of day is two digits of hours, a colon and two digits of minutes.
pub proof fn law_clocks_show_hours_and_minutes(hour: int, min: int)
    requires
        0 <= hour < 100,
        0 <= min < 100,
    ensures
        clock_text(hour, min).len() == 5,
        text::number(clock_text(hour, min).take(2)) == hour,
        clock_text(hour, min)[2] == ':',
        text::number(clock_text(hour, min).skip(3)) == min,
{
    text::law_numbers_read_back(hour as nat);
    text::law_numbers_read_back(min as nat);
    assert(clock_text(hour, min).take(2) =~= text::dec2(hour as nat));
    assert(clock_text(hour, min).skip(3) =~= text::dec2(min as nat));
}

proof fn lemma_fraction_unit(n: nat, unit: nat)
    requires
        n > 0,
        unit > 0,
    ensures
        fraction_unit(n, unit) > 0,
        n * fraction_unit(n, unit) >= 4_503_599_627_370_496_000_000 * unit,
    decreases
            (if n >= 4_503_599_627_370_496_000_000 {
                0
            } else {
                4_503_599_627_370_496_000_000 - n
            }),
{
    if n >= 4_503_599_627_370_496_000_000 {
        assert(n * unit >= 4_503_599_627_370_496_000_000 * unit) by (nonlinear_arith)
            requires
                n >= 4_503_599_627_370_496_000_000,
                unit > 0,
        ;
    } else {
        lemma_fraction_unit(2 * n, 2 * unit);
        let f = fraction_unit(2 * n, 2 * unit);
        assert((2 * n) * f == 2 * (n * f)) by (nonlinear_arith);
        assert(4_503_599_627_370_496_000_000 * (2 * unit) == 2 * (4_503_599_627_370_496_000_000
            * unit)) by (nonlinear_arith);
    }
}

/// A count below a thousand is told as it is, one below a million in whole
/// thousands, and one from there on in millions with one decimal, the nearest
/// that there is.
pub proof fn law_counts_are_told_in_their_largest_unit(n: nat)
    requires
        n < 0x20_0000_0000_0000,
    ensures
        n < 1_000 ==> tokens_text(n) == text::dec(n),
        1_000 <= n < 1_000_000 ==> tokens_text(n) == text::dec(n / 1_000) + seq!['k'],
        n >= 1_000_000 ==> exists|tenths: nat|
            tokens_text(n) == #[trigger] text::dec(tenths / 10) + seq!['.'] + text::dec(
                tenths % 10,
            ) + seq!['M'] && -50_001 <= tenths * 100_000 - n <= 50_001,
{
    if 1_000 <= n < 1_000_000 {
        assert(tokens_text(n) =~= text::dec(n / 1_000) + seq!['k']);
    }
    if n >= 1_000_000 {
        seconds::lemma_short(n);
        let m = seconds::to_double(n);
        assert(m == n);
        let unit = fraction_unit(m, 1);
        lemma_fraction_unit(m, 1);
        assert(unit >= 500_000) by (nonlinear_arith)
            requires
                m * unit >= 4_503_599_627_370_496_000_000,
                m < 0x20_0000_0000_0000,
        ;
        let q = seconds::half_even(m * unit, 1_000_000);
        let t = seconds::half_even(10 * q, unit);
        seconds::law_rounding_goes_to_the_nearest(m * unit, 1_000_000);
        seconds::law_rounding_goes_to_the_nearest(10 * q, unit);
        assert(-50_001 <= t * 100_000 - m <= 50_001) by (nonlinear_arith)
            requires
                2 * (q * 1_000_000 - m * unit) <= 1_000_000,
                2 * (m * unit - q * 1_000_000) <= 1_000_000,
                2 * (t * unit - 10 * q) <= unit,
                2 * (10 * q - t * unit) <= unit,
                unit >= 500_000,
        ;
        assert(t == million_tenths(n));
        assert(tokens_text(n) == text::dec(t / 10) + seq!['.'] + text::dec(t % 10) + seq!['M']);
    }
}

} // verus!
