//! Cell text of the GPU tab.

use vstd::prelude::*;
use crate::text::{chars_of, push_str, string_of, sub_vec};

verus! {

/// `s` cut to at most `max` characters: when it is longer, its first
/// `max - 1` characters (none when `max` is 0) and an ellipsis.
pub open spec fn gpu_truncated(s: Seq<char>, max: nat) -> Seq<char> {
    if s.len() <= max {
        s
    } else {
        s.take(if max > 0 {
            max - 1
        } else {
            0
        }) + "…"@
    }
}

/// Cuts `s` to `max` characters with an ellipsis, counting characters.
pub fn truncate(s: &str, max: usize) -> (r: String)
    ensures
        r@ == gpu_truncated(s@, max as nat),
{
    let v = chars_of(s);
    if v.len() <= max {
        return string_of(&v);
    }
    let keep = if max > 0 {
        max - 1
    } else {
        0
    };
    let mut head = sub_vec(&v, 0, keep);
    assert(head@ =~= v@.take(keep as int));
    push_str(&mut head, "…");
    string_of(&head)
}

} // verus!
