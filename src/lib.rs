//! Reports how long the host has been running: the per-platform rules that
//! turn a raw operating-system reading into whole seconds since boot, and the
//! compact rendering of a seconds count as days, hours, minutes and seconds.

mod clock;
mod duration;
mod provider;
mod text;

pub use clock::now;
pub use duration::{
    decimal, digit_char, duration_text, format_duration, lemma_components_in_range,
    lemma_format_deterministic, parts_in_range, parts_of, push_decimal, render, split_duration,
    DurationParts, SECONDS_PER_DAY, SECONDS_PER_HOUR, SECONDS_PER_MINUTE,
};
pub use provider::{
    uptime_from_boot_time, uptime_from_monotonic, uptime_since_boot, UptimeError,
};
pub use text::{
    all_digits, digits_value, exp_digits, exp_value, exponent, find_dot, find_exp, first_token,
    frac_part, has_exponent, int_part, is_decimal, is_digit, is_negative, is_number, is_sign,
    is_space, mantissa, number_whole, pow10, skip_spaces, skip_token, unsigned_part,
    shifted_point, uptime_from_text, uptime_in_text, whole_part, EXPONENT_CAP,
};
