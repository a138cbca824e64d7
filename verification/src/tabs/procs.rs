//! Cell text and filtering of the process table.

use vstd::prelude::*;
use crate::tabs::services::{space_string, spaces};
use crate::text::{chars_of, find_sub, find_sub_from};

verus! {

/// Columns of the process table before the name, for the column set
/// shown: virtual memory only when neither network nor GPU columns are.
pub open spec fn fixed_width(show_net: bool, show_gpu: bool) -> nat {
    80 + (if !show_net && !show_gpu {
        10nat
    } else {
        0nat
    }) + (if show_net {
        22nat
    } else {
        0nat
    }) + (if show_gpu {
        16nat
    } else {
        0nat
    })
}

/// The padding that fills a process row out to `width` after its fixed
/// columns and the text `used`.
pub fn fill(width: usize, used: &str, show_net: bool, show_gpu: bool) -> (r: String)
    ensures
        r@ == (if width > fixed_width(show_net, show_gpu) + used@.len() {
            spaces((width - fixed_width(show_net, show_gpu) - used@.len()) as nat)
        } else {
            Seq::empty()
        }),
{
    let base: usize = 7 + 1 + 7 + 1 + 14 + 1 + 5 + 1 + 8 + 1 + 5 + 1 + 5 + 1 + 10 + 1 + 10 + 1;
    let virt_w: usize = if !show_net && !show_gpu {
        9 + 1
    } else {
        0
    };
    let net_w: usize = if show_net {
        10 + 1 + 10 + 1
    } else {
        0
    };
    let gpu_w: usize = if show_gpu {
        5 + 1 + 9 + 1
    } else {
        0
    };
    let fixed = base + virt_w + net_w + gpu_w;
    let n = chars_of(used).len();
    if width > fixed && width - fixed > n {
        space_string(width - fixed - n)
    } else {
        String::new()
    }
}

/// The lower case of `s`, as `str::to_lowercase` gives it.
pub uninterp spec fn unicode_lower(s: Seq<char>) -> Seq<char>;

/// Calls `str::to_lowercase`. Its result is named: a function of the
/// text alone (Unicode's case tables), not written out here.
#[verifier::external_body]
fn to_lowercase(s: &str) -> (r: String)
    ensures
        r@ == unicode_lower(s@),
{
    s.to_lowercase()
}

/// `needle` occurs in `hay`.
pub open spec fn contains_text(hay: Seq<char>, needle: Seq<char>) -> bool {
    find_sub(hay, needle) is Some
}

/// Whether a process matches the filter `needle`: a case-insensitive
/// substring of its name, command line or user.
pub fn proc_matches(name: &str, cmd: &str, user: &str, needle: &str) -> (r: bool)
    ensures
        r == (contains_text(unicode_lower(name@), unicode_lower(needle@)) || contains_text(
            unicode_lower(cmd@),
            unicode_lower(needle@),
        ) || contains_text(unicode_lower(user@), unicode_lower(needle@))),
{
    let n = chars_of(to_lowercase(needle).as_str());
    let a = chars_of(to_lowercase(name).as_str());
    assert(a@.skip(0) =~= a@);
    if find_sub_from(&a, 0, &n).is_some() {
        return true;
    }
    let b = chars_of(to_lowercase(cmd).as_str());
    assert(b@.skip(0) =~= b@);
    if find_sub_from(&b, 0, &n).is_some() {
        return true;
    }
    let c = chars_of(to_lowercase(user).as_str());
    assert(c@.skip(0) =~= c@);
    find_sub_from(&c, 0, &n).is_some()
}


/// The text a process is filtered on.
#[derive(Debug)]
pub struct ProcText {
    pub name: String,
    pub cmd: String,
    pub user: String,
}

/// The name, command line and user of each row.
pub open spec fn texts(rows: Seq<ProcText>) -> Seq<(Seq<char>, Seq<char>, Seq<char>)> {
    rows.map_values(|r: ProcText| (r.name@, r.cmd@, r.user@))
}

/// Whether a row passes the filter: every row passes no filter.
pub open spec fn passes(t: (Seq<char>, Seq<char>, Seq<char>), needle: Option<Seq<char>>) -> bool {
    match needle {
        None => true,
        Some(n) => contains_text(unicode_lower(t.0), unicode_lower(n)) || contains_text(
            unicode_lower(t.1),
            unicode_lower(n),
        ) || contains_text(unicode_lower(t.2), unicode_lower(n)),
    }
}

/// The positions of the rows that pass the filter, in their order.
pub open spec fn passing_positions(ts: Seq<(Seq<char>, Seq<char>, Seq<char>)>, needle: Option<Seq<char>>) -> Seq<
    usize,
>
    decreases ts.len(),
{
    if ts.len() == 0 {
        Seq::empty()
    } else {
        let p = passing_positions(ts.drop_last(), needle);
        if passes(ts.last(), needle) {
            p.push((ts.len() - 1) as usize)
        } else {
            p
        }
    }
}

/// The positions of the processes that match the filter, keeping their
/// order; every position with no filter.
pub fn filtered_procs(rows: &Vec<ProcText>, filter: Option<&str>) -> (r: Vec<usize>)
    ensures
        r@ == passing_positions(
            texts(rows@),
            match filter {
                Some(f) => Some(f@),
                None => None,
            },
        ),
{
    let ghost needle = match filter {
        Some(f) => Some(f@),
        None => None,
    };
    let ghost ts = texts(rows@);
    let mut out: Vec<usize> = Vec::new();
    let mut i: usize = 0;
    while i < rows.len()
        invariant
            i <= rows@.len(),
            ts == texts(rows@),
            needle == (match filter {
                Some(f) => Some(f@),
                None => None,
            }),
            out@ == passing_positions(ts.take(i as int), needle),
        decreases rows@.len() - i,
    {
        assert(ts.take(i + 1).drop_last() =~= ts.take(i as int));
        assert(ts.take(i + 1).last() == ts[i as int]);
        let keep = match filter {
            None => true,
            Some(f) => proc_matches(rows[i].name.as_str(), rows[i].cmd.as_str(), rows[i].user.as_str(), f),
        };
        if keep {
            out.push(i);
        }
        i += 1;
    }
    assert(ts.take(rows@.len() as int) =~= ts);
    out
}

/// The filter keeps the table's order: the positions it gives rise
/// strictly and all lie within the table.
pub proof fn lemma_filter_keeps_order(ts: Seq<(Seq<char>, Seq<char>, Seq<char>)>, needle: Option<Seq<char>>)
    requires
        ts.len() <= usize::MAX,
    ensures
        forall|i: int, j: int|
            0 <= i < j < passing_positions(ts, needle).len() ==> passing_positions(ts, needle)[i]
                < passing_positions(ts, needle)[j],
        forall|i: int| 0 <= i < passing_positions(ts, needle).len() ==> passing_positions(ts, needle)[i] < ts.len(),
    decreases ts.len(),
{
    if ts.len() > 0 {
        let prev = passing_positions(ts.drop_last(), needle);
        lemma_filter_keeps_order(ts.drop_last(), needle);
        let last = (ts.len() - 1) as usize;
        assert(last == ts.len() - 1);
        if passes(ts.last(), needle) {
            let q = prev.push(last);
            assert(passing_positions(ts, needle) == q);
            assert forall|i: int| 0 <= i < q.len() implies q[i] < ts.len() by {
                if i < prev.len() {
                    assert(q[i] == prev[i]);
                }
            }
            assert forall|i: int, j: int| 0 <= i < j < q.len() implies q[i] < q[j] by {
                assert(q[i] == prev[i]);
                if j < prev.len() {
                    assert(q[j] == prev[j]);
                }
            }
        } else {
            assert(passing_positions(ts, needle) == prev);
        }
    }
}

/// With no filter every process is shown, in order.
pub proof fn lemma_no_filter_keeps_all(ts: Seq<(Seq<char>, Seq<char>, Seq<char>)>)
    requires
        ts.len() <= usize::MAX,
    ensures
        passing_positions(ts, None).len() == ts.len(),
        forall|i: int| 0 <= i < ts.len() ==> passing_positions(ts, None)[i] == i,
    decreases ts.len(),
{
    if ts.len() > 0 {
        let prev = passing_positions(ts.drop_last(), None);
        lemma_no_filter_keeps_all(ts.drop_last());
        let q = prev.push((ts.len() - 1) as usize);
        assert(passing_positions(ts, None) == q);
        assert forall|i: int| 0 <= i < ts.len() implies q[i] == i by {
            if i < prev.len() {
                assert(q[i] == prev[i]);
            }
        }
    }
}

/// The rows a table of `total` rows shows in `take` lines with row `sel`
/// selected: the selection clamped to the last row, and the window
/// `[start, end)` that scrolls just far enough to keep it in view.
pub open spec fn scroll_of(sel: nat, take: nat, total: nat) -> (nat, nat, nat) {
    let last: nat = if total > 0 { (total - 1) as nat } else { 0 };
    let sel_c: nat = if sel < last { sel } else { last };
    let back: nat = if take > 0 { (take - 1) as nat } else { 0 };
    let start: nat = if sel_c > back { (sel_c - back) as nat } else { 0 };
    let end: nat = if start + take < total { start + take } else { total };
    (start, end, sel_c)
}

/// The window of a table of `total` rows shown in `take` lines, as
/// `(start, end, selected)`: the selection is clamped to the last row and
/// the window scrolls just far enough to keep it in view.
pub fn scroll_window(sel: usize, take: usize, total: usize) -> (r: (usize, usize, usize))
    ensures
        (r.0 as nat, r.1 as nat, r.2 as nat) == scroll_of(sel as nat, take as nat, total as nat),
{
    let last = if total > 0 { total - 1 } else { 0 };
    let sel_c = if sel < last { sel } else { last };
    let back = if take > 0 { take - 1 } else { 0 };
    let start = if sel_c > back { sel_c - back } else { 0 };
    let end = if total - start > take { start + take } else { total };
    (start, end, sel_c)
}

/// The selected row is always on screen: whenever there is a row and a
/// line to show it in, the window holds the selection and no more than
/// `take` rows, all of them within the table.
pub proof fn lemma_selection_in_window(sel: nat, take: nat, total: nat)
    requires
        total > 0,
        take > 0,
    ensures
        ({
            let (start, end, sel_c) = scroll_of(sel, take, total);
            &&& start <= sel_c < end <= total
            &&& end - start <= take
            &&& sel_c == (if sel < total { sel } else { (total - 1) as nat })
        }),
{
}

} // verus!
