//! The integer side of the system collector: per-process thread counts and
//! peak memory from `/proc/PID/status`, the ZFS ARC correction of memory
//! figures, and the kernel's memory-pressure verdict.

use vstd::prelude::*;
use crate::model::{MemPressureLevel, MemTick};
use crate::text::{
    chars_of, eq_chars, has_prefix, lines, lines_of, parse_u32, parse_u32_chars, parse_u64,
    parse_u64_chars, split_words, starts_with, sub_vec, trim, trim_chars, views, words,
};

verus! {

/// `kb` kibibytes in bytes, saturating at `u64::MAX`.
pub open spec fn kib_to_bytes(kb: u64) -> u64 {
    if kb * 1024 <= u64::MAX {
        (kb * 1024) as u64
    } else {
        u64::MAX
    }
}

/// The thread count and peak resident size one line of
/// `/proc/PID/status` contributes: `Threads:` sets the first, `VmHWM:`
/// (in kB) the second; other lines change nothing.
pub open spec fn status_line(l: Seq<char>, acc: (Option<u32>, Option<u64>)) -> (
    Option<u32>,
    Option<u64>,
) {
    if has_prefix(l, "Threads:"@) {
        (parse_u32(trim(l.skip("Threads:"@.len() as int))), acc.1)
    } else if has_prefix(l, "VmHWM:"@) {
        let w = words(l.skip("VmHWM:"@.len() as int));
        (
            acc.0,
            if w.len() > 0 {
                match parse_u64(w[0]) {
                    Some(kb) => Some(kib_to_bytes(kb)),
                    None => None,
                }
            } else {
                None
            },
        )
    } else {
        acc
    }
}

/// Reads the lines `ls` in order, stopping once both figures are known.
pub open spec fn status_scan(ls: Seq<Seq<char>>, acc: (Option<u32>, Option<u64>)) -> (
    Option<u32>,
    Option<u64>,
)
    decreases ls.len(),
{
    if ls.len() == 0 || (acc.0 is Some && acc.1 is Some) {
        acc
    } else {
        status_scan(ls.drop_first(), status_line(ls[0], acc))
    }
}

/// Thread count and peak resident bytes out of `/proc/PID/status` text.
pub open spec fn status_threads_peak(text: Seq<char>) -> (Option<u32>, Option<u64>) {
    status_scan(lines_of(text), (None, None))
}

pub(crate) fn kib_to_bytes_exec(kb: u64) -> (r: u64)
    ensures
        r == kib_to_bytes(kb),
{
    if kb <= u64::MAX / 1024 {
        kb * 1024
    } else {
        u64::MAX
    }
}

fn status_line_exec(l: &Vec<char>, threads: Option<u32>, peak: Option<u64>) -> (r: (
    Option<u32>,
    Option<u64>,
))
    ensures
        r == status_line(l@, (threads, peak)),
{
    let tp = chars_of("Threads:");
    let hp = chars_of("VmHWM:");
    if starts_with(l, &tp) {
        let rest = sub_vec(l, tp.len(), l.len());
        (parse_u32_chars(&trim_chars(&rest)), peak)
    } else if starts_with(l, &hp) {
        let rest = sub_vec(l, hp.len(), l.len());
        let w = split_words(&rest);
        if w.len() > 0 {
            match parse_u64_chars(&w[0]) {
                Some(kb) => (threads, Some(kib_to_bytes_exec(kb))),
                None => (threads, None),
            }
        } else {
            (threads, None)
        }
    } else {
        (threads, peak)
    }
}

/// Thread count and lifetime peak resident size (`VmHWM`, converted from
/// kB to bytes) from the text of `/proc/PID/status`. A field that is
/// missing or unreadable is `None`; the first figure of each kind wins.
pub fn parse_status_threads_peak(text: &str) -> (r: (Option<u32>, Option<u64>))
    ensures
        r == status_threads_peak(text@),
{
    let chars = chars_of(text);
    let ls = lines(&chars);
    let mut threads: Option<u32> = None;
    let mut peak: Option<u64> = None;
    let mut i: usize = 0;
    assert(views(ls@).skip(0) =~= views(ls@));
    while i < ls.len()
        invariant
            i <= ls@.len(),
            views(ls@) == lines_of(text@),
            status_threads_peak(text@) == status_scan(views(ls@).skip(i as int), (threads, peak)),
            !(threads is Some && peak is Some),
        decreases ls@.len() - i,
    {
        let ghost rest = views(ls@).skip(i as int);
        assert(rest.drop_first() =~= views(ls@).skip(i + 1));
        assert(rest[0] == ls@[i as int]@);
        let (t, p) = status_line_exec(&ls[i], threads, peak);
        threads = t;
        peak = p;
        i += 1;
        if threads.is_some() && peak.is_some() {
            proof {
                let s = views(ls@).skip(i as int);
                assert(status_scan(s, (threads, peak)) == (threads, peak));
            }
            return (threads, peak);
        }
    }
    assert(views(ls@).skip(i as int) =~= Seq::<Seq<char>>::empty());
    (threads, peak)
}

/// Moves the ZFS ARC out of "used" into "available": the ARC is
/// reclaimable cache, not committed memory.
pub open spec fn arc_adjusted(used: u64, available: u64, total: u64, arc: u64) -> (u64, u64) {
    let moved = if arc <= used {
        arc
    } else {
        used
    };
    (
        (used - moved) as u64,
        if available + moved <= total {
            (available + moved) as u64
        } else {
            total
        },
    )
}

/// Moves `arc_bytes` of ZFS ARC (no more than is used) from used to
/// available memory, keeping available within `total`.
pub fn arc_adjust(used: u64, available: u64, total: u64, arc_bytes: u64) -> (r: (u64, u64))
    requires
        available + (if arc_bytes <= used {
            arc_bytes
        } else {
            used
        }) <= u64::MAX,
    ensures
        r == arc_adjusted(used, available, total, arc_bytes),
{
    let moved = if arc_bytes <= used {
        arc_bytes
    } else {
        used
    };
    let avail = available + moved;
    (used - moved, if avail <= total {
        avail
    } else {
        total
    })
}

/// The resident ARC size out of `/proc/spl/kstat/zfs/arcstats` lines: the
/// third column of the first line whose first column is `size`.
pub open spec fn arcstats_scan(ls: Seq<Seq<char>>) -> Option<u64>
    decreases ls.len(),
{
    if ls.len() == 0 {
        None
    } else {
        let w = words(ls[0]);
        if w.len() > 0 && w[0] == "size"@ {
            if w.len() > 2 {
                parse_u64(w[2])
            } else {
                None
            }
        } else {
            arcstats_scan(ls.drop_first())
        }
    }
}

/// Parses the resident ARC size out of the text of
/// `/proc/spl/kstat/zfs/arcstats`.
pub fn parse_arcstats_size(text: &str) -> (r: Option<u64>)
    ensures
        r == arcstats_scan(lines_of(text@)),
{
    let chars = chars_of(text);
    let ls = lines(&chars);
    let key = chars_of("size");
    let mut i: usize = 0;
    assert(views(ls@).skip(0) =~= views(ls@));
    while i < ls.len()
        invariant
            i <= ls@.len(),
            views(ls@) == lines_of(text@),
            key@ == "size"@,
            arcstats_scan(lines_of(text@)) == arcstats_scan(views(ls@).skip(i as int)),
        decreases ls@.len() - i,
    {
        let ghost rest = views(ls@).skip(i as int);
        assert(rest.drop_first() =~= views(ls@).skip(i + 1));
        assert(rest[0] == ls@[i as int]@);
        let parts = split_words(&ls[i]);
        if parts.len() > 0 && eq_chars(&parts[0], &key) {
            assert(views(parts@)[0] == parts@[0]@);
            if parts.len() > 2 {
                assert(views(parts@)[2] == parts@[2]@);
                return parse_u64_chars(&parts[2]);
            }
            return None;
        }
        proof {
            if views(parts@).len() > 0 {
                assert(views(parts@)[0] == parts@[0]@);
            }
        }
        i += 1;
    }
    assert(views(ls@).skip(i as int) =~= Seq::<Seq<char>>::empty());
    None
}

/// The kernel's pressure verdict from `kern.memorystatus_vm_pressure_level`.
/// The value is a bitmask (0x01 normal, 0x02 warning, 0x04 critical),
/// read most severe first; a value with none of those bits is no verdict.
pub open spec fn pressure_of_level(level: i32) -> Option<MemPressureLevel> {
    if level & 4 != 0 {
        Some(MemPressureLevel::Critical)
    } else if level & 2 != 0 {
        Some(MemPressureLevel::Warning)
    } else if level & 1 != 0 {
        Some(MemPressureLevel::Normal)
    } else {
        None
    }
}

/// Reads the memory-pressure verdict out of the raw sysctl value.
pub fn mem_pressure_level(level: i32) -> (r: Option<MemPressureLevel>)
    ensures
        r == pressure_of_level(level),
{
    if level & 0x04 != 0 {
        Some(MemPressureLevel::Critical)
    } else if level & 0x02 != 0 {
        Some(MemPressureLevel::Warning)
    } else if level & 0x01 != 0 {
        Some(MemPressureLevel::Normal)
    } else {
        None
    }
}

/// Memory figures for one sample. With `arc` (the ZFS ARC size, where the
/// platform has ZFS accounting) the ARC is moved from used to available.
pub fn mem_tick(
    total: u64,
    used: u64,
    available: u64,
    swap_total: u64,
    swap_used: u64,
    arc: Option<u64>,
    pressure_level: Option<MemPressureLevel>,
) -> (r: MemTick)
    requires
        arc matches Some(a) ==> available + (if a <= used {
            a
        } else {
            used
        }) <= u64::MAX,
    ensures
        r.total_bytes == total,
        r.swap_total_bytes == swap_total,
        r.swap_used_bytes == swap_used,
        r.pressure_level == pressure_level,
        (r.used_bytes, r.available_bytes) == (match arc {
            Some(a) => arc_adjusted(used, available, total, a),
            None => (used, available),
        }),
{
    let (u, a) = match arc {
        Some(bytes) => arc_adjust(used, available, total, bytes),
        None => (used, available),
    };
    MemTick {
        total_bytes: total,
        used_bytes: u,
        available_bytes: a,
        swap_total_bytes: swap_total,
        swap_used_bytes: swap_used,
        pressure_level,
    }
}


/// The `avg10=` value text of a `/proc/pressure` line's second word.
pub open spec fn avg10_text(w: Seq<Seq<char>>) -> Option<Seq<char>> {
    if w.len() > 1 && has_prefix(w[1], "avg10="@) {
        Some(w[1].skip("avg10="@.len() as int))
    } else {
        None
    }
}

/// The `avg10` texts of the `some` and `full` lines among `ls` (the last
/// line of each kind wins; a line without an `avg10=` word gives `None`).
pub open spec fn psi_fold(ls: Seq<Seq<char>>) -> (Option<Seq<char>>, Option<Seq<char>>)
    decreases ls.len(),
{
    if ls.len() == 0 {
        (None, None)
    } else {
        let acc = psi_fold(ls.drop_last());
        let w = words(ls.last());
        if w.len() > 0 && w[0] == "some"@ {
            (avg10_text(w), acc.1)
        } else if w.len() > 0 && w[0] == "full"@ {
            (acc.0, avg10_text(w))
        } else {
            acc
        }
    }
}

fn avg10_text_exec(w: &Vec<Vec<char>>) -> (r: Option<String>)
    ensures
        match r {
            Some(t) => avg10_text(views(w@)) == Some(t@),
            None => avg10_text(views(w@)) is None,
        },
{
    let p = chars_of("avg10=");
    if w.len() > 1 && starts_with(&w[1], &p) {
        assert(views(w@)[1] == w@[1]@);
        let t = sub_vec(&w[1], p.len(), w[1].len());
        assert(t@ =~= w@[1]@.skip("avg10="@.len() as int));
        Some(crate::text::string_of(&t))
    } else {
        proof {
            if w@.len() > 1 {
                assert(views(w@)[1] == w@[1]@);
            }
        }
        None
    }
}

/// The `avg10` value texts of the `some` and `full` lines of a
/// `/proc/pressure` file (`some avg10=0.12 avg60=...`), for the caller to
/// read as numbers; `None` where the line or its value is missing.
pub fn psi_avg10_texts(text: &str) -> (r: (Option<String>, Option<String>))
    ensures
        (match r.0 {
            Some(t) => Some(t@),
            None => None,
        }, match r.1 {
            Some(t) => Some(t@),
            None => None,
        }) == psi_fold(lines_of(text@)),
{
    let chars = chars_of(text);
    let ls = lines(&chars);
    let some_kw = chars_of("some");
    let full_kw = chars_of("full");
    let mut some: Option<String> = None;
    let mut full: Option<String> = None;
    let mut i: usize = 0;
    while i < ls.len()
        invariant
            i <= ls@.len(),
            views(ls@) == lines_of(text@),
            some_kw@ == "some"@,
            full_kw@ == "full"@,
            (match some {
                Some(t) => Some(t@),
                None => None,
            }, match full {
                Some(t) => Some(t@),
                None => None,
            }) == psi_fold(views(ls@).take(i as int)),
        decreases ls@.len() - i,
    {
        assert(views(ls@).take(i + 1).drop_last() =~= views(ls@).take(i as int));
        assert(views(ls@).take(i + 1).last() == ls@[i as int]@);
        let w = split_words(&ls[i]);
        proof {
            if w@.len() > 0 {
                assert(views(w@)[0] == w@[0]@);
            }
        }
        if w.len() > 0 && eq_chars(&w[0], &some_kw) {
            some = avg10_text_exec(&w);
        } else if w.len() > 0 && eq_chars(&w[0], &full_kw) {
            full = avg10_text_exec(&w);
        }
        i += 1;
    }
    assert(views(ls@).take(ls@.len() as int) =~= views(ls@));
    (some, full)
}

} // verus!
