//! Terminal-safety scrubbing for collector-sourced strings.
//!
//! Process names, mount paths, device names and service labels are all
//! controllable by any unprivileged local user, and the monitor is often
//! run with elevated rights. A process named `sh\x1b]0;owned\x07` would
//! retitle the viewer's terminal if its name reached the screen verbatim,
//! so every externally sourced string is scrubbed once, where a sample
//! enters the process, replacing each unsafe character with
//! [`REPLACEMENT`].

use crate::text::{chars_of, string_of};
use vstd::prelude::*;

verus! {

/// Stand-in for a character that must never reach the terminal.
pub const REPLACEMENT: char = '·';

/// Characters that can move the cursor, start an escape sequence, or
/// reorder the visible line: the Unicode control characters (C0 including
/// ESC, BEL, TAB, CR and LF; DEL; and C1 including the 8-bit CSI), and the
/// bidirectional marks, embeddings, overrides and isolates.
pub open spec fn is_unsafe_char(c: char) -> bool {
    let u = c as u32;
    ||| u <= 0x1f
    ||| 0x7f <= u <= 0x9f
    ||| u == 0x200e
    ||| u == 0x200f
    ||| 0x202a <= u <= 0x202e
    ||| 0x2066 <= u <= 0x2069
}

/// What a character becomes after scrubbing.
pub open spec fn scrubbed_char(c: char) -> char {
    if is_unsafe_char(c) {
        REPLACEMENT
    } else {
        c
    }
}

/// What a text becomes after scrubbing: every unsafe character replaced,
/// everything else kept in place.
pub open spec fn scrubbed(s: Seq<char>) -> Seq<char> {
    s.map_values(|c: char| scrubbed_char(c))
}

/// True for characters that can move the cursor, start an escape
/// sequence, or reorder the visible line.
pub fn unsafe_for_display(c: char) -> (b: bool)
    ensures
        b == is_unsafe_char(c),
{
    let u = c as u32;
    u <= 0x1f || (0x7f <= u && u <= 0x9f) || u == 0x200e || u == 0x200f || (0x202a <= u && u
        <= 0x202e) || (0x2066 <= u && u <= 0x2069)
}

/// Replaces every unsafe character of `s` in place; a string that needs
/// no scrubbing is left untouched.
pub fn scrub(s: &mut String)
    ensures
        final(s)@ == scrubbed(old(s)@),
{
    let v = chars_of(s.as_str());
    let mut out: Vec<char> = Vec::with_capacity(v.len());
    let mut changed = false;
    let mut i: usize = 0;
    while i < v.len()
        invariant
            i <= v@.len(),
            out@ == scrubbed(v@.take(i as int)),
            changed <==> exists|k: int| 0 <= k < i && is_unsafe_char(#[trigger] v@[k]),
        decreases v@.len() - i,
    {
        let c = v[i];
        if unsafe_for_display(c) {
            out.push(REPLACEMENT);
            changed = true;
        } else {
            out.push(c);
        }
        i += 1;
        assert(out@ =~= scrubbed(v@.take(i as int)));
    }
    assert(v@.take(v@.len() as int) =~= v@);
    if changed {
        *s = string_of(&out);
    } else {
        assert(scrubbed(v@) =~= v@);
    }
}

/// Scrubs the string inside `s`, if there is one.
pub fn scrub_opt(s: &mut Option<String>)
    ensures
        match *old(s) {
            Some(x) => *final(s) matches Some(y) && y@ == scrubbed(x@),
            None => *final(s) is None,
        },
{
    if let Some(x) = s {
        scrub(x);
    }
}


/// Scrubbed text is safe to display and scrubbing it again changes
/// nothing; it keeps the length and every safe character in place.
pub proof fn lemma_scrubbed_is_safe(s: Seq<char>)
    ensures
        forall|i: int| 0 <= i < scrubbed(s).len() ==> !is_unsafe_char(#[trigger] scrubbed(s)[i]),
        scrubbed(scrubbed(s)) == scrubbed(s),
        scrubbed(s).len() == s.len(),
        forall|i: int| 0 <= i < s.len() && !is_unsafe_char(#[trigger] s[i]) ==> scrubbed(s)[i] == s[i],
{
    assert(!is_unsafe_char(REPLACEMENT));
    assert(scrubbed(scrubbed(s)) =~= scrubbed(s));
}

} // verus!
