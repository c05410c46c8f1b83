//! The switch for real-time scheduling of the media thread.
use vstd::prelude::*;

use crate::text::{lowered, same, to_lower, trim, trimmed};

verus! {

/// Whether a setting says off.
pub open spec fn says_off(s: Seq<char>) -> bool {
    let w = lowered(trimmed(s));
    w == "0"@ || w == "false"@ || w == "no"@ || w == "off"@
}

/// Parse the toggle. On by default; only an explicit `0`/`false`/`no`/`off` (case-insensitive)
/// disables it. Unset or empty = on.
pub fn rt_enabled(var: Option<String>) -> (r: bool)
    ensures
        r == !(var is Some && says_off(var->Some_0@)),
{
    match var {
        Some(v) => {
            let t: String = trim(v.as_str());
            let w: String = to_lower(t.as_str());
            let w: &str = w.as_str();
            !(same(w, "0") || same(w, "false") || same(w, "no") || same(w, "off"))
        },
        None => true,
    }
}

/// The toggle is on unless it is told off: with nothing set, with an empty text, and with any other
/// word.
pub proof fn on_unless_told_off(v: String, r: bool, unset: bool)
    requires
        call_ensures(rt_enabled, (Some(v),), r),
        call_ensures(rt_enabled, (None,), unset),
    ensures
        r <==> lowered(trimmed(v@)) != "0"@ && lowered(trimmed(v@)) != "false"@ && lowered(
            trimmed(v@),
        ) != "no"@ && lowered(trimmed(v@)) != "off"@,
        unset,
{
}

} // verus!
