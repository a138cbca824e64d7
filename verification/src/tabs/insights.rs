//! Cell text of the insights tab.

use vstd::prelude::*;
use crate::tabs::services::{space_string, spaces};
use crate::text::{chars_of, string_of, sub_vec};

verus! {

/// `s` cut to at most `max` characters: when it is longer, its first
/// `max - 1` characters and an ellipsis, or its first `max` characters
/// when `max` is at most 1.
pub open spec fn card_truncated(s: Seq<char>, max: nat) -> Seq<char> {
    if s.len() <= max {
        s
    } else if max <= 1 {
        s.take(max as int)
    } else {
        s.take(max - 1).push('\u{2026}')
    }
}

/// Cuts `s` to `max` characters, ending in an ellipsis where there is
/// room for one.
pub fn truncate(s: &str, max: usize) -> (r: String)
    ensures
        r@ == card_truncated(s@, max as nat),
{
    let v = chars_of(s);
    if v.len() <= max {
        string_of(&v)
    } else if max <= 1 {
        let head = sub_vec(&v, 0, max);
        assert(head@ =~= v@.take(max as int));
        string_of(&head)
    } else {
        let mut head = sub_vec(&v, 0, max - 1);
        assert(head@ =~= v@.take(max - 1));
        head.push('\u{2026}');
        string_of(&head)
    }
}

/// Spaces that fill `width` after `used` columns, keeping
/// `right_reserve` columns free (none when there is no room).
pub fn pad_right(width: usize, used: usize, right_reserve: usize) -> (r: String)
    ensures
        r@ == spaces(
            if width >= used + right_reserve {
                (width - used - right_reserve) as nat
            } else {
                0
            },
        ),
{
    let a = if width >= used {
        width - used
    } else {
        0
    };
    let b = if a >= right_reserve {
        a - right_reserve
    } else {
        0
    };
    space_string(b)
}

} // verus!
