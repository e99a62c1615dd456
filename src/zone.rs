//! Time zones as fixed offsets from UTC.

use vstd::prelude::*;
use crate::text::chars_of;

verus! {

/// The value of an ASCII decimal digit.
pub open spec fn digit_value(c: char) -> int {
    (c as int) - ('0' as int)
}

pub open spec fn is_digit(c: char) -> bool {
    '0' <= c && c <= '9'
}

/// The offset from UTC, in seconds, that a zone written `UTC`, `Z` or `+HH:MM` /
/// `-HH:MM` (hours up to 23, minutes up to 59) stands for.
pub open spec fn utc_offset_spec(s: Seq<char>) -> Option<int> {
    if s == "UTC"@ || s == "Z"@ {
        Some(0)
    } else if s.len() == 6 && (s[0] == '+' || s[0] == '-') && is_digit(s[1]) && is_digit(s[2]) && s[3]
        == ':' && is_digit(s[4]) && is_digit(s[5]) && digit_value(s[1]) * 10 + digit_value(s[2]) <= 23
        && digit_value(s[4]) * 10 + digit_value(s[5]) <= 59 {
        let secs = (digit_value(s[1]) * 10 + digit_value(s[2])) * 3600 + (digit_value(s[4]) * 10
            + digit_value(s[5])) * 60;
        Some(if s[0] == '-' { -secs } else { secs })
    } else {
        None
    }
}

/// The offset a job runs its schedule in: its own zone where it names one that
/// parses, the default otherwise.
pub open spec fn effective_offset(zone: Option<String>, default_offset: i32) -> i32 {
    match zone {
        Some(z) => match utc_offset_spec(z@) {
            Some(o) => o as i32,
            None => default_offset,
        },
        None => default_offset,
    }
}

/// Parses a zone written `UTC`, `Z`, `+HH:MM` or `-HH:MM` into seconds east of UTC.
pub fn parse_utc_offset(zone: &str) -> (r: Option<i32>)
    ensures
        r matches Some(o) ==> utc_offset_spec(zone@) == Some(o as int),
        r is None <==> utc_offset_spec(zone@) is None,
{
    proof {
        reveal_strlit("UTC");
        reveal_strlit("Z");
    }
    let s = chars_of(zone);
    if s.len() == 3 && s[0] == 'U' && s[1] == 'T' && s[2] == 'C' {
        assert(s@ =~= "UTC"@);
        return Some(0);
    }
    if s.len() == 1 && s[0] == 'Z' {
        assert(s@ =~= "Z"@);
        return Some(0);
    }
    proof {
        if s@ == "UTC"@ {
            assert(s@[0] == 'U' && s@[1] == 'T' && s@[2] == 'C');
        }
        if s@ == "Z"@ {
            assert(s@[0] == 'Z');
        }
    }
    if s.len() != 6 || !(s[0] == '+' || s[0] == '-') || s[3] != ':' {
        return None;
    }
    if !('0' <= s[1] && s[1] <= '9' && '0' <= s[2] && s[2] <= '9' && '0' <= s[4] && s[4] <= '9' && '0'
        <= s[5] && s[5] <= '9') {
        return None;
    }
    let h: i32 = ((s[1] as u32 - '0' as u32) * 10 + (s[2] as u32 - '0' as u32)) as i32;
    let m: i32 = ((s[4] as u32 - '0' as u32) * 10 + (s[5] as u32 - '0' as u32)) as i32;
    if h > 23 || m > 59 {
        return None;
    }
    let secs: i32 = h * 3600 + m * 60;
    if s[0] == '-' {
        Some(-secs)
    } else {
        Some(secs)
    }
}

/// The offset a job's schedule runs in.
pub fn job_offset(zone: &Option<String>, default_offset: i32) -> (r: i32)
    ensures
        r == effective_offset(*zone, default_offset),
{
    match zone {
        Some(z) => match parse_utc_offset(z.as_str()) {
            Some(o) => o,
            None => default_offset,
        },
        None => default_offset,
    }
}

} // verus!
