//! Per-process GPU accounting from DRM `fdinfo` files: engine busy time
//! and device memory of one open GPU file.

use vstd::prelude::*;
use crate::text::{
    chars_of, eq_chars, find_char, find_from, has_prefix, lines, lines_of, parse_u64,
    parse_u64_chars, split_words, starts_with, sub_vec, trim, trim_chars, views, words,
};

verus! {

/// The DRM figures of one fdinfo file.
#[derive(Debug, Clone, Copy, PartialEq, Eq, Structural)]
pub struct FdinfoDrm {
    /// Sum of all `drm-engine-*` values (nanoseconds).
    pub engine_ns: u64,
    /// Sum of all `drm-memory-*` values, in bytes.
    pub mem_bytes: u64,
}

impl Default for FdinfoDrm {
    fn default() -> (r: Self)
        ensures
            r == (FdinfoDrm { engine_ns: 0, mem_bytes: 0 }),
    {
        FdinfoDrm { engine_ns: 0, mem_bytes: 0 }
    }
}

/// `a * b`, saturating at `u64::MAX`.
pub open spec fn sat_mul(a: u64, b: u64) -> u64 {
    if a * b <= u64::MAX {
        (a * b) as u64
    } else {
        u64::MAX
    }
}

/// A memory figure in bytes: `KiB`, `MiB` and `GiB` scale, any other
/// unit (or none) means bytes.
pub open spec fn drm_bytes(n: u64, unit: Seq<char>) -> u64 {
    if unit == "KiB"@ {
        sat_mul(n, 1024)
    } else if unit == "MiB"@ {
        sat_mul(n, 1048576)
    } else if unit == "GiB"@ {
        sat_mul(n, 1073741824)
    } else {
        n
    }
}

/// What one fdinfo line `key: <number> [unit]` adds: `drm-engine-*` keys
/// to the engine time, `drm-memory-*` keys to the memory; lines without
/// a colon or a number add nothing.
pub open spec fn fdinfo_line(acc: FdinfoDrm, l: Seq<char>) -> FdinfoDrm {
    match find_char(l, ':') {
        None => acc,
        Some(k) => {
            let key = trim(l.take(k as int));
            let w = words(l.skip(k + 1 as int));
            if w.len() == 0 {
                acc
            } else {
                let unit = if w.len() > 1 {
                    w[1]
                } else {
                    Seq::empty()
                };
                match parse_u64(w[0]) {
                    None => acc,
                    Some(n) => if has_prefix(key, "drm-engine-"@) {
                        FdinfoDrm { engine_ns: acc.engine_ns.saturating_add(n), ..acc }
                    } else if has_prefix(key, "drm-memory-"@) {
                        FdinfoDrm { mem_bytes: acc.mem_bytes.saturating_add(drm_bytes(n, unit)), ..acc }
                    } else {
                        acc
                    },
                }
            }
        },
    }
}

/// The figures of the lines `ls`, read in order from zero.
pub open spec fn fdinfo_fold(ls: Seq<Seq<char>>) -> FdinfoDrm
    decreases ls.len(),
{
    if ls.len() == 0 {
        FdinfoDrm { engine_ns: 0, mem_bytes: 0 }
    } else {
        fdinfo_line(fdinfo_fold(ls.drop_last()), ls.last())
    }
}

fn sat_mul_exec(a: u64, b: u64) -> (r: u64)
    requires
        b > 0,
    ensures
        r == sat_mul(a, b),
{
    if a <= u64::MAX / b {
        proof {
            assert(a * b <= u64::MAX) by (nonlinear_arith)
                requires
                    b > 0,
                    a <= u64::MAX / b,
            ;
        }
        a * b
    } else {
        proof {
            assert(a * b > u64::MAX) by (nonlinear_arith)
                requires
                    b > 0,
                    a > u64::MAX / b,
            ;
        }
        u64::MAX
    }
}

fn drm_bytes_exec(n: u64, unit: &Vec<char>) -> (r: u64)
    ensures
        r == drm_bytes(n, unit@),
{
    if eq_chars(unit, &chars_of("KiB")) {
        sat_mul_exec(n, 1024)
    } else if eq_chars(unit, &chars_of("MiB")) {
        sat_mul_exec(n, 1024 * 1024)
    } else if eq_chars(unit, &chars_of("GiB")) {
        sat_mul_exec(n, 1024 * 1024 * 1024)
    } else {
        n
    }
}

fn fdinfo_line_exec(acc: FdinfoDrm, l: &Vec<char>) -> (r: FdinfoDrm)
    ensures
        r == fdinfo_line(acc, l@),
{
    let len = l.len();
    assert(l@.subrange(0, l@.len() as int) =~= l@);
    proof {
        crate::text::lemma_find_char(l@, ':');
    }
    let k = match find_from(l, 0, ':') {
        None => return acc,
        Some(k) => k,
    };
    assert(k < len);
    assert(find_char(l@, ':') == Some(k as nat));
    let key = trim_chars(&sub_vec(l, 0, k));
    assert(l@.subrange(0, k as int) =~= l@.take(k as int));
    let rest = sub_vec(l, k + 1, l.len());
    assert(rest@ =~= l@.skip(k + 1));
    let w = split_words(&rest);
    if w.len() == 0 {
        return acc;
    }
    assert(views(w@)[0] == w@[0]@);
    let empty: Vec<char> = Vec::new();
    let unit: &Vec<char> = if w.len() > 1 {
        assert(views(w@)[1] == w@[1]@);
        &w[1]
    } else {
        &empty
    };
    let n = match parse_u64_chars(&w[0]) {
        None => return acc,
        Some(n) => n,
    };
    if starts_with(&key, &chars_of("drm-engine-")) {
        FdinfoDrm { engine_ns: acc.engine_ns.saturating_add(n), ..acc }
    } else if starts_with(&key, &chars_of("drm-memory-")) {
        FdinfoDrm { mem_bytes: acc.mem_bytes.saturating_add(drm_bytes_exec(n, unit)), ..acc }
    } else {
        acc
    }
}

/// Sums the DRM engine time and memory (in bytes) out of the text of a
/// `/proc/PID/fdinfo/FD` file.
pub fn parse_fdinfo_drm(text: &str) -> (r: FdinfoDrm)
    ensures
        r == fdinfo_fold(lines_of(text@)),
{
    let chars = chars_of(text);
    let ls = lines(&chars);
    let mut out = FdinfoDrm { engine_ns: 0, mem_bytes: 0 };
    let mut i: usize = 0;
    while i < ls.len()
        invariant
            i <= ls@.len(),
            views(ls@) == lines_of(text@),
            out == fdinfo_fold(views(ls@).take(i as int)),
        decreases ls@.len() - i,
    {
        assert(views(ls@).take(i + 1).drop_last() =~= views(ls@).take(i as int));
        assert(views(ls@).take(i + 1).last() == ls@[i as int]@);
        out = fdinfo_line_exec(out, &ls[i]);
        i += 1;
    }
    assert(views(ls@).take(ls@.len() as int) =~= views(ls@));
    out
}


/// Engine time and memory summed per pid over the DRM files `es`
/// (pid, figures of one file), saturating.
pub open spec fn drm_fold(es: Seq<(u32, FdinfoDrm)>) -> Map<u32, (u64, u64)>
    decreases es.len(),
{
    if es.len() == 0 {
        Map::empty()
    } else {
        let m = drm_fold(es.drop_last());
        let (pid, d) = es.last();
        let prev: (u64, u64) = if m.contains_key(pid) {
            m[pid]
        } else {
            (0, 0)
        };
        m.insert(pid, (prev.0.saturating_add(d.engine_ns), prev.1.saturating_add(d.mem_bytes)))
    }
}

/// Sums the figures of each process's DRM files: pid → (engine
/// nanoseconds, memory bytes).
pub fn drm_totals(entries: &Vec<(u32, FdinfoDrm)>) -> (r: std::collections::HashMap<u32, (u64, u64)>)
    ensures
        r@ == drm_fold(entries@),
{
    broadcast use vstd::std_specs::hash::group_hash_axioms;

    let mut out: std::collections::HashMap<u32, (u64, u64)> = std::collections::HashMap::new();
    let mut i: usize = 0;
    assert(out@ =~= drm_fold(entries@.take(0)));
    while i < entries.len()
        invariant
            i <= entries@.len(),
            out@ == drm_fold(entries@.take(i as int)),
        decreases entries@.len() - i,
    {
        assert(entries@.take(i + 1).drop_last() =~= entries@.take(i as int));
        assert(entries@.take(i + 1).last() == entries@[i as int]);
        let (pid, d) = entries[i];
        let prev: (u64, u64) = match out.get(&pid) {
            Some(p) => *p,
            None => (0, 0),
        };
        out.insert(pid, (prev.0.saturating_add(d.engine_ns), prev.1.saturating_add(d.mem_bytes)));
        i += 1;
    }
    assert(entries@.take(entries@.len() as int) =~= entries@);
    out
}

} // verus!
