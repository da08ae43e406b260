use vstd::prelude::*;

verus! {

/// The character of a decimal digit `d < 10`.
pub open spec fn digit_char(d: nat) -> char {
    (d + 48) as char
}

/// The decimal numeral of `n`, most significant digit first, without leading zeros.
pub open spec fn decimal(n: nat) -> Seq<char>
    decreases n,
{
    if n < 10 {
        seq![digit_char(n)]
    } else {
        decimal(n / 10).push(digit_char(n % 10))
    }
}

/// The one-character string of the digit `d`.
fn digit_str(d: u64) -> (r: &'static str)
    requires
        d < 10,
    ensures
        r@ == seq![digit_char(d as nat)],
{
    proof {
        reveal_strlit("0");
        reveal_strlit("1");
        reveal_strlit("2");
        reveal_strlit("3");
        reveal_strlit("4");
        reveal_strlit("5");
        reveal_strlit("6");
        reveal_strlit("7");
        reveal_strlit("8");
        reveal_strlit("9");
    }
    match d {
        0 => "0",
        1 => "1",
        2 => "2",
        3 => "3",
        4 => "4",
        5 => "5",
        6 => "6",
        7 => "7",
        8 => "8",
        _ => "9",
    }
}

/// Appends the decimal numeral of `n` to `out`.
pub fn push_decimal(out: &mut String, n: u64)
    ensures
        final(out)@ == old(out)@ + decimal(n as nat),
    decreases n,
{
    if n >= 10 {
        push_decimal(out, n / 10);
    }
    out.append(digit_str(n % 10));
    proof {
        assert(out@ =~= old(out)@ + decimal(n as nat));
    }
}


pub const SECONDS_PER_MINUTE: u64 = 60;

pub const SECONDS_PER_HOUR: u64 = 3600;

pub const SECONDS_PER_DAY: u64 = 86400;

/// The four components shown for a seconds count.
#[derive(Clone, Copy, Debug, PartialEq, Eq, Structural)]
pub struct DurationParts {
    pub days: u64,
    pub hours: u64,
    pub minutes: u64,
    pub seconds: u64,
}

/// Seconds of the minute, minutes of the hour, hours of the day, and days
/// counted modulo 365.
pub open spec fn parts_of(total: u64) -> DurationParts {
    DurationParts {
        days: ((total / 86400) % 365) as u64,
        hours: ((total / 3600) % 24) as u64,
        minutes: ((total / 60) % 60) as u64,
        seconds: (total % 60) as u64,
    }
}

/// Every component lies in its unit's range.
pub open spec fn parts_in_range(p: DurationParts) -> bool {
    &&& p.seconds <= 59
    &&& p.minutes <= 59
    &&& p.hours <= 23
    &&& p.days <= 364
}

/// The text of a set of components: the leading zero components are left
/// out, but once one is shown every lower one is shown too, and the seconds
/// are always shown.
pub open spec fn render(p: DurationParts) -> Seq<char> {
    let d = decimal(p.days as nat) + seq!['d', ' '];
    let h = decimal(p.hours as nat) + seq!['h', ' '];
    let m = decimal(p.minutes as nat) + seq!['m', ' '];
    let s = decimal(p.seconds as nat) + seq!['s'];
    if p.days > 0 {
        d + h + m + s
    } else if p.hours > 0 {
        h + m + s
    } else if p.minutes > 0 {
        m + s
    } else {
        s
    }
}

/// The text shown for a count of seconds.
pub open spec fn duration_text(total: u64) -> Seq<char> {
    render(parts_of(total))
}

/// Splits a count of seconds into the components that are shown.
pub fn split_duration(total_seconds: u64) -> (p: DurationParts)
    ensures
        p == parts_of(total_seconds),
        parts_in_range(p),
{
    DurationParts {
        days: (total_seconds / SECONDS_PER_DAY) % 365,
        hours: (total_seconds / SECONDS_PER_HOUR) % 24,
        minutes: (total_seconds / SECONDS_PER_MINUTE) % 60,
        seconds: total_seconds % 60,
    }
}

/// Appends the decimal numeral of `n` followed by `unit`.
fn push_component(out: &mut String, n: u64, unit: &str)
    ensures
        final(out)@ == old(out)@ + decimal(n as nat) + unit@,
{
    push_decimal(out, n);
    out.append(unit);
}

/// Renders a count of seconds as `"{d}d {h}h {m}m {s}s"`, leaving out the
/// leading components that are zero.
pub fn format_duration(total_seconds: u64) -> (r: String)
    ensures
        r@ == duration_text(total_seconds),
{
    let p = split_duration(total_seconds);
    proof {
        reveal_strlit("d ");
        reveal_strlit("h ");
        reveal_strlit("m ");
        reveal_strlit("s");
    }
    let mut out = String::new();
    if p.days > 0 {
        push_component(&mut out, p.days, "d ");
    }
    if p.days > 0 || p.hours > 0 {
        push_component(&mut out, p.hours, "h ");
    }
    if p.days > 0 || p.hours > 0 || p.minutes > 0 {
        push_component(&mut out, p.minutes, "m ");
    }
    push_component(&mut out, p.seconds, "s");
    assert(out@ =~= render(p));
    out
}


/// Each component of the text shown for a count of seconds lies in its unit's
/// range: the seconds and the minutes in 0..=59, the hours in 0..=23 and the
/// days in 0..=364.
pub proof fn lemma_components_in_range(total_seconds: u64)
    ensures
        duration_text(total_seconds) == render(parts_of(total_seconds)),
        parts_in_range(parts_of(total_seconds)),
{
}

/// The text depends on the count alone: two calls with the same count give
/// the same text.
pub proof fn lemma_format_deterministic(a: u64, b: u64)
    requires
        a == b,
    ensures
        duration_text(a) == duration_text(b),
{
}

} // verus!
