//! Text shown by the dashboard.

use vstd::prelude::*;

use crate::text::{decimal, padded, push_padded, push_str, string_of_chars};

verus! {

/// How long ago an event was, in its largest whole unit: seconds under a
/// minute, minutes under an hour, hours under a day, else days.
pub open spec fn relative_text(seconds_ago: int) -> Seq<char> {
    if seconds_ago < 60 {
        padded(seconds_ago, 0) + "s ago"@
    } else if seconds_ago < 3600 {
        decimal((seconds_ago / 60) as nat) + "m ago"@
    } else if seconds_ago < 86400 {
        decimal((seconds_ago / 3600) as nat) + "h ago"@
    } else {
        decimal((seconds_ago / 86400) as nat) + "d ago"@
    }
}

/// Describes an age given in seconds, such as `5m ago`.
pub fn format_relative(seconds_ago: i64) -> (r: String)
    ensures
        r@ == relative_text(seconds_ago as int),
{
    let mut out: Vec<char> = Vec::new();
    if seconds_ago < 60 {
        push_padded(&mut out, seconds_ago, 0);
        push_str(&mut out, "s ago");
    } else if seconds_ago < 3600 {
        push_padded(&mut out, seconds_ago / 60, 0);
        push_str(&mut out, "m ago");
    } else if seconds_ago < 86400 {
        push_padded(&mut out, seconds_ago / 3600, 0);
        push_str(&mut out, "h ago");
    } else {
        push_padded(&mut out, seconds_ago / 86400, 0);
        push_str(&mut out, "d ago");
    }
    let r = string_of_chars(&out);
    assert(r@ =~= relative_text(seconds_ago as int));
    r
}

} // verus!
