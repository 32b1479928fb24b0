//! Runtime status: how durations are shown.
use vstd::prelude::*;

use crate::text::{decimal, push_decimal, push_str};

verus! {

/// An uptime of `seconds` as text: hours and minutes from one hour on,
/// minutes and seconds from one minute on, seconds below that.
pub open spec fn uptime_text(seconds: nat) -> Seq<char> {
    let hours = seconds / 3600;
    let minutes = (seconds % 3600) / 60;
    let secs = seconds % 60;
    if hours > 0 {
        decimal(hours) + "h "@ + decimal(minutes) + "m"@
    } else if minutes > 0 {
        decimal(minutes) + "m "@ + decimal(secs) + "s"@
    } else {
        decimal(secs) + "s"@
    }
}

/// An uptime of `seconds` as text, such as `2h 5m`, `3m 7s` or `42s`.
pub fn format_uptime(seconds: u64) -> (r: String)
    ensures
        r@ == uptime_text(seconds as nat),
{
    let hours = seconds / 3600;
    let minutes = (seconds % 3600) / 60;
    let secs = seconds % 60;
    let mut r = String::new();
    if hours > 0 {
        push_decimal(&mut r, hours);
        push_str(&mut r, "h ");
        push_decimal(&mut r, minutes);
        push_str(&mut r, "m");
    } else if minutes > 0 {
        push_decimal(&mut r, minutes);
        push_str(&mut r, "m ");
        push_decimal(&mut r, secs);
        push_str(&mut r, "s");
    } else {
        push_decimal(&mut r, secs);
        push_str(&mut r, "s");
    }
    r
}

/// The health line of the runtime: its status, whether it runs, and its uptime.
pub fn health_line(status: &str, running: bool, uptime_seconds: u64) -> (r: String)
    ensures
        r@ == status@ + if running {
            ", running"@
        } else {
            ", not running"@
        } + " | uptime "@ + uptime_text(uptime_seconds as nat),
{
    let mut r = crate::text::owned(status);
    if running {
        push_str(&mut r, ", running");
    } else {
        push_str(&mut r, ", not running");
    }
    push_str(&mut r, " | uptime ");
    let up = format_uptime(uptime_seconds);
    push_str(&mut r, up.as_str());
    r
}

} // verus!
