//! Whether a sync of the source brought new content.

use vstd::prelude::*;
use crate::text::{chars_of, push_all, string_of};

verus! {

/// The range `before..after` of revisions that a sync brought in, if the head moved.
pub open spec fn change_range_spec(before: Seq<char>, after: Seq<char>) -> Option<Seq<char>> {
    if before == after {
        None
    } else {
        Some(before + ".."@ + after)
    }
}

/// The range of new revisions between the head before a sync and the head after
/// it; `None` when the sync brought nothing new.
pub fn change_range(before: &String, after: &String) -> (r: Option<String>)
    ensures
        r matches Some(x) ==> change_range_spec(before@, after@) == Some(x@),
        r is None <==> change_range_spec(before@, after@) is None,
{
    if *before == *after {
        None
    } else {
        let mut out = chars_of(before.as_str());
        push_all(&mut out, &chars_of(".."));
        push_all(&mut out, &chars_of(after.as_str()));
        Some(string_of(&out))
    }
}

} // verus!
