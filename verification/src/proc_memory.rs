//! Per-process memory detail beyond RSS: proportional set size, the
//! private/shared split and swap from `smaps_rollup` (Linux), or the
//! physical footprint (macOS), for the processes with the largest RSS,
//! re-read only when a process's RSS has moved.

use std::collections::HashMap;
use std::time::Instant;
use vstd::prelude::*;
use crate::clock::{instant_now, is_stale, millis_since, stale};
use crate::collector::kib_to_bytes;
use crate::sort::{insertion_sort, sort_by};
use crate::text::{
    chars_of, eq_chars, find_char, find_from, lines, lines_of, parse_u64, parse_u64_chars,
    split_words, sub_vec, trim, trim_chars, views, words,
};

verus! {

broadcast use vstd::std_specs::hash::group_hash_axioms;

/// Memory detail of one process; each figure is `None` where the
/// platform does not report it or the process could not be read.
#[derive(Debug, Clone, Copy, PartialEq, Eq, Structural)]
pub struct ProcMem {
    /// Physical footprint (macOS).
    pub footprint: Option<u64>,
    /// Proportional set size (Linux).
    pub pss: Option<u64>,
    /// Private clean + private dirty (Linux): what frees if it exits.
    pub private: Option<u64>,
    /// Shared clean + shared dirty (Linux).
    pub shared: Option<u64>,
    /// Swapped-out bytes (Linux).
    pub swap: Option<u64>,
    /// Lifetime peak footprint (macOS).
    pub peak: Option<u64>,
}

impl Default for ProcMem {
    fn default() -> (r: Self)
        ensures
            r == (ProcMem {
                footprint: None,
                pss: None,
                private: None,
                shared: None,
                swap: None,
                peak: None,
            }),
    {
        ProcMem { footprint: None, pss: None, private: None, shared: None, swap: None, peak: None }
    }
}

/// A read that gave neither a footprint nor a PSS.
pub open spec fn mem_empty(m: ProcMem) -> bool {
    m.footprint is None && m.pss is None
}

impl ProcMem {
    /// Whether the read gave neither a footprint nor a PSS.
    pub fn is_empty(&self) -> (r: bool)
        ensures
            r == mem_empty(*self),
    {
        self.footprint.is_none() && self.pss.is_none()
    }
}

/// The totals of `smaps_rollup` read so far.
pub struct SmapsScan {
    pub pss: Option<u64>,
    pub private: u64,
    pub shared: u64,
    pub swap: Option<u64>,
    pub saw_private: bool,
    pub saw_shared: bool,
}

/// One `Key: <n> kB` line: `Pss` and `Swap` set their figure, the two
/// `Private_*` and the two `Shared_*` keys add to theirs (saturating);
/// lines without a colon or a number, and other keys, change nothing.
pub open spec fn smaps_line(st: SmapsScan, l: Seq<char>) -> SmapsScan {
    match find_char(l, ':') {
        None => st,
        Some(k) => {
            let w = words(l.skip(k + 1 as int));
            if w.len() == 0 {
                st
            } else {
                match parse_u64(w[0]) {
                    None => st,
                    Some(kb) => {
                        let bytes = kib_to_bytes(kb);
                        let key = trim(l.take(k as int));
                        if key == "Pss"@ {
                            SmapsScan { pss: Some(bytes), ..st }
                        } else if key == "Private_Clean"@ || key == "Private_Dirty"@ {
                            SmapsScan {
                                private: st.private.saturating_add(bytes),
                                saw_private: true,
                                ..st
                            }
                        } else if key == "Shared_Clean"@ || key == "Shared_Dirty"@ {
                            SmapsScan {
                                shared: st.shared.saturating_add(bytes),
                                saw_shared: true,
                                ..st
                            }
                        } else if key == "Swap"@ {
                            SmapsScan { swap: Some(bytes), ..st }
                        } else {
                            st
                        }
                    },
                }
            }
        },
    }
}

/// The totals of the lines `ls`.
pub open spec fn smaps_fold(ls: Seq<Seq<char>>) -> SmapsScan
    decreases ls.len(),
{
    if ls.len() == 0 {
        SmapsScan {
            pss: None,
            private: 0,
            shared: 0,
            swap: None,
            saw_private: false,
            saw_shared: false,
        }
    } else {
        smaps_line(smaps_fold(ls.drop_last()), ls.last())
    }
}

/// What `parse_smaps_rollup` gives for `text`: the private and shared
/// totals are `Some` exactly when one of their keys was read.
pub open spec fn smaps_rollup(text: Seq<char>) -> ProcMem {
    let st = smaps_fold(lines_of(text));
    ProcMem {
        footprint: None,
        pss: st.pss,
        private: if st.saw_private {
            Some(st.private)
        } else {
            None
        },
        shared: if st.saw_shared {
            Some(st.shared)
        } else {
            None
        },
        swap: st.swap,
        peak: None,
    }
}

fn is_key(key: &Vec<char>, name: &str) -> (r: bool)
    ensures
        r == (key@ == name@),
{
    eq_chars(key, &chars_of(name))
}

/// Parses the totals out of the text of `/proc/PID/smaps_rollup`; values
/// are `<n> kB` and come out in bytes.
pub fn parse_smaps_rollup(text: &str) -> (r: ProcMem)
    ensures
        r == smaps_rollup(text@),
{
    let chars = chars_of(text);
    let ls = lines(&chars);
    let mut pss: Option<u64> = None;
    let mut private: u64 = 0;
    let mut shared: u64 = 0;
    let mut swap: Option<u64> = None;
    let mut saw_private = false;
    let mut saw_shared = false;
    let mut i: usize = 0;
    while i < ls.len()
        invariant
            i <= ls@.len(),
            views(ls@) == lines_of(text@),
            smaps_fold(views(ls@).take(i as int)) == (SmapsScan {
                pss,
                private,
                shared,
                swap,
                saw_private,
                saw_shared,
            }),
        decreases ls@.len() - i,
    {
        assert(views(ls@).take(i + 1).drop_last() =~= views(ls@).take(i as int));
        assert(views(ls@).take(i + 1).last() == ls@[i as int]@);
        let l = &ls[i];
        let len = l.len();
        assert(l@.subrange(0, l@.len() as int) =~= l@);
        proof {
            crate::text::lemma_find_char(l@, ':');
        }
        if let Some(k) = find_from(l, 0, ':') {
            assert(find_char(l@, ':') == Some(k as nat));
            let rest = sub_vec(l, k + 1, len);
            assert(rest@ =~= l@.skip(k + 1 as int));
            let w = split_words(&rest);
            if w.len() > 0 {
                assert(views(w@)[0] == w@[0]@);
                if let Some(kb) = parse_u64_chars(&w[0]) {
                    let bytes = crate::collector::kib_to_bytes_exec(kb);
                    let key = trim_chars(&sub_vec(l, 0, k));
                    assert(l@.subrange(0, k as int) =~= l@.take(k as int));
                    if is_key(&key, "Pss") {
                        pss = Some(bytes);
                    } else if is_key(&key, "Private_Clean") || is_key(&key, "Private_Dirty") {
                        private = private.saturating_add(bytes);
                        saw_private = true;
                    } else if is_key(&key, "Shared_Clean") || is_key(&key, "Shared_Dirty") {
                        shared = shared.saturating_add(bytes);
                        saw_shared = true;
                    } else if is_key(&key, "Swap") {
                        swap = Some(bytes);
                    }
                }
            }
        }
        i += 1;
    }
    assert(views(ls@).take(ls@.len() as int) =~= views(ls@));
    ProcMem {
        footprint: None,
        pss,
        private: if saw_private {
            Some(private)
        } else {
            None
        },
        shared: if saw_shared {
            Some(shared)
        } else {
            None
        },
        swap,
        peak: None,
    }
}

/// Processes whose detail is kept: the largest by RSS, at most this many.
pub const MAX_PROCS: usize = 48;

/// How long a detail sample stays fresh, in milliseconds.
pub const REFRESH_MS: u128 = 3000;

/// Larger RSS first.
pub open spec fn rss_desc(a: (u32, u64), b: (u32, u64)) -> bool {
    a.1 >= b.1
}

/// The (pid, RSS) pairs whose detail is read: the largest RSS first (ties
/// in input order), at most `MAX_PROCS`.
pub open spec fn top_by_rss(procs: Seq<(u32, u64)>) -> Seq<(u32, u64)> {
    let s = sort_by(|a: (u32, u64), b: (u32, u64)| rss_desc(a, b), procs);
    if s.len() > MAX_PROCS {
        s.take(MAX_PROCS as int)
    } else {
        s
    }
}

/// A process whose detail is carried over without a read: its RSS is the
/// one its cached detail was read at.
pub open spec fn carried(prev: Map<u32, ProcMem>, prev_rss: Map<u32, u64>, pid: u32, rss: u64) -> bool {
    prev_rss.contains_key(pid) && prev_rss[pid] == rss && prev.contains_key(pid)
}

/// The detail map and the RSS each entry was taken at, for the processes
/// `top`: carried entries keep their cached detail, the others take the
/// read at their position in `reads`; reads with neither footprint nor
/// PSS leave the process out.
pub open spec fn top_fold(
    top: Seq<(u32, u64)>,
    prev: Map<u32, ProcMem>,
    prev_rss: Map<u32, u64>,
    reads: Seq<ProcMem>,
) -> (Map<u32, ProcMem>, Map<u32, u64>)
    decreases top.len(),
{
    if top.len() == 0 {
        (Map::empty(), Map::empty())
    } else {
        let (m, r) = top_fold(top.drop_last(), prev, prev_rss, reads.drop_last());
        let (pid, rss) = top.last();
        let mem = if carried(prev, prev_rss, pid, rss) {
            prev[pid]
        } else {
            reads.last()
        };
        if mem_empty(mem) {
            (m, r)
        } else {
            (m.insert(pid, mem), r.insert(pid, rss))
        }
    }
}

/// `reads` holds, for each process of `top` that is not carried over, a
/// result `read` can give for its pid (the others' entries are unused).
pub open spec fn reads_fit<F: Fn(u32) -> ProcMem>(
    read: F,
    top: Seq<(u32, u64)>,
    prev: Map<u32, ProcMem>,
    prev_rss: Map<u32, u64>,
    reads: Seq<ProcMem>,
) -> bool {
    &&& reads.len() == top.len()
    &&& forall|i: int|
        0 <= i < top.len() && !carried(prev, prev_rss, top[i].0, top[i].1) ==> read.ensures(
            (top[i].0,),
            #[trigger] reads[i],
        )
}

fn rss_desc_exec(a: &(u32, u64), b: &(u32, u64)) -> (r: bool)
    ensures
        r == rss_desc(*a, *b),
{
    a.1 >= b.1
}

/// Detail for the largest processes by RSS (`procs` holds pid and RSS):
/// a process whose RSS equals the one its cached detail in `prev` was
/// read at keeps that detail; every other one is read through `read`.
/// Returns the new detail map and the RSS each entry belongs to.
pub fn collect_top<F: Fn(u32) -> ProcMem>(
    procs: &Vec<(u32, u64)>,
    prev: &HashMap<u32, ProcMem>,
    prev_rss: &HashMap<u32, u64>,
    read: F,
) -> (r: (HashMap<u32, ProcMem>, HashMap<u32, u64>))
    requires
        forall|pid: u32| read.requires((pid,)),
    ensures
        exists|reads: Seq<ProcMem>|
            #[trigger] reads_fit(read, top_by_rss(procs@), prev@, prev_rss@, reads) && (r.0@, r.1@)
                == top_fold(top_by_rss(procs@), prev@, prev_rss@, reads),
{
    let mut copy: Vec<(u32, u64)> = Vec::with_capacity(procs.len());
    let mut j: usize = 0;
    while j < procs.len()
        invariant
            j <= procs@.len(),
            copy@ == procs@.take(j as int),
        decreases procs@.len() - j,
    {
        copy.push(procs[j]);
        j += 1;
        assert(copy@ =~= procs@.take(j as int));
    }
    assert(procs@.take(procs@.len() as int) =~= procs@);
    let mut sorted = insertion_sort(
        copy,
        rss_desc_exec,
        Ghost(|a: (u32, u64), b: (u32, u64)| rss_desc(a, b)),
    );
    if sorted.len() > MAX_PROCS {
        sorted.truncate(MAX_PROCS);
    }
    let ghost top = top_by_rss(procs@);
    assert(sorted@ == top);
    let mut out: HashMap<u32, ProcMem> = HashMap::new();
    let mut rss_seen: HashMap<u32, u64> = HashMap::new();
    let ghost mut reads: Seq<ProcMem> = Seq::empty();
    let mut i: usize = 0;
    while i < sorted.len()
        invariant
            i <= sorted@.len(),
            sorted@ == top,
            top == top_by_rss(procs@),
            reads.len() == i,
            forall|pid: u32| read.requires((pid,)),
            forall|k: int|
                0 <= k < i && !carried(prev@, prev_rss@, top[k].0, top[k].1) ==> read.ensures(
                    (top[k].0,),
                    #[trigger] reads[k],
                ),
            (out@, rss_seen@) == top_fold(top.take(i as int), prev@, prev_rss@, reads),
        decreases sorted@.len() - i,
    {
        let (pid, rss) = sorted[i];
        let ghost old_reads = reads;
        assert(top.take(i + 1).drop_last() =~= top.take(i as int));
        assert(top.take(i + 1).last() == (pid, rss));
        let reuse = match prev_rss.get(&pid) {
            Some(r) => *r == rss,
            None => false,
        };
        let cached = match prev.get(&pid) {
            Some(m) => if reuse {
                Some(*m)
            } else {
                None
            },
            None => None,
        };
        let m = match cached {
            Some(m) => {
                proof {
                    reads = reads.push(m);
                }
                m
            },
            None => {
                let m = read(pid);
                proof {
                    reads = reads.push(m);
                }
                m
            },
        };
        assert(reads.drop_last() =~= old_reads);
        if !m.is_empty() {
            out.insert(pid, m);
            rss_seen.insert(pid, rss);
        }
        proof {
            assert forall|k: int|
                0 <= k < i + 1 && !carried(prev@, prev_rss@, top[k].0, top[k].1) implies read.ensures(
                (top[k].0,),
                #[trigger] reads[k],
            ) by {
                if k < i {
                    assert(reads[k] == reads.drop_last()[k]);
                }
            }
        }
        i += 1;
    }
    assert(top.take(top.len() as int) =~= top);
    assert(reads_fit(read, top, prev@, prev_rss@, reads));
    (out, rss_seen)
}

/// `after` holds a fresh collection from the cache of `before`.
pub open spec fn refreshed<F: Fn(u32) -> ProcMem>(
    read: F,
    procs: Seq<(u32, u64)>,
    before: ProcMemCollector,
    after: ProcMemCollector,
) -> bool {
    exists|reads: Seq<ProcMem>|
        #[trigger] reads_fit(
            read,
            top_by_rss(procs),
            before.cached_detail(),
            before.cached_rss(),
            reads,
        ) && (after.cached_detail(), after.cached_rss()) == top_fold(
            top_by_rss(procs),
            before.cached_detail(),
            before.cached_rss(),
            reads,
        )
}

/// Caches per-process memory detail between refreshes.
pub struct ProcMemCollector {
    last_sample_at: Option<Instant>,
    cached: HashMap<u32, ProcMem>,
    last_rss: HashMap<u32, u64>,
}

impl ProcMemCollector {
    /// The detail currently cached.
    pub closed spec fn cached_detail(&self) -> Map<u32, ProcMem> {
        self.cached@
    }

    /// The RSS each cached entry was read at.
    pub closed spec fn cached_rss(&self) -> Map<u32, u64> {
        self.last_rss@
    }

    /// Whether a sample has been taken yet.
    pub closed spec fn has_sampled(&self) -> bool {
        self.last_sample_at is Some
    }

    /// When the cached detail was collected.
    pub closed spec fn sampled_at(&self) -> Option<Instant> {
        self.last_sample_at
    }

    /// A collector that has not sampled yet and caches nothing.
    pub fn new() -> (c: Self)
        ensures
            !c.has_sampled(),
            c.cached_detail() == Map::<u32, ProcMem>::empty(),
            c.cached_rss() == Map::<u32, u64>::empty(),
    {
        ProcMemCollector { last_sample_at: None, cached: HashMap::new(), last_rss: HashMap::new() }
    }

    /// When the last sample was taken.
    pub fn last_sample_at(&self) -> (r: Option<Instant>)
        ensures
            r is Some == self.has_sampled(),
            r == self.sampled_at(),
    {
        self.last_sample_at
    }

    /// The cached detail, re-collected by `collect_top` first when the
    /// last sample was taken `since_ms` milliseconds ago with `since_ms` at
    /// least [`REFRESH_MS`], or none was taken (`None`). Fresh detail is
    /// kept without reading any process, and the time it was taken stays.
    pub fn sample_at<F: Fn(u32) -> ProcMem>(&mut self, procs: &Vec<(u32, u64)>, since_ms: Option<
        u128,
    >, read: F) -> (r: HashMap<u32, ProcMem>)
        requires
            forall|pid: u32| read.requires((pid,)),
        ensures
            r@ == final(self).cached_detail(),
            is_stale(since_ms, REFRESH_MS) ==> final(self).has_sampled() && refreshed(
                read,
                procs@,
                *old(self),
                *final(self),
            ),
            !is_stale(since_ms, REFRESH_MS) ==> final(self).cached_detail() == old(self).cached_detail()
                && final(self).cached_rss() == old(self).cached_rss() && final(self).sampled_at() == old(
                self,
            ).sampled_at(),
    {
        let ghost start = *self;
        if stale(since_ms, REFRESH_MS) {
            let (fresh, rss) = collect_top(procs, &self.cached, &self.last_rss, read);
            proof {
                let reads = choose|reads: Seq<ProcMem>|
                    #[trigger] reads_fit(read, top_by_rss(procs@), start.cached@, start.last_rss@, reads)
                        && (fresh@, rss@) == top_fold(
                        top_by_rss(procs@),
                        start.cached@,
                        start.last_rss@,
                        reads,
                    );
                assert(reads_fit(read, top_by_rss(procs@), start.cached_detail(), start.cached_rss(), reads));
            }
            self.last_sample_at = Some(instant_now());
            self.cached = fresh;
            self.last_rss = rss;
            assert(refreshed(read, procs@, start, *self));
        }
        self.cached.clone()
    }

    /// The cached detail, re-collected by `collect_top` first when no
    /// sample has been taken yet or the last one is at least
    /// [`REFRESH_MS`] old, as `sample_at` decides from the clock's reading
    /// of the time since the last sample.
    pub fn sample<F: Fn(u32) -> ProcMem>(&mut self, procs: &Vec<(u32, u64)>, read: F) -> (r:
        HashMap<u32, ProcMem>)
        requires
            forall|pid: u32| read.requires((pid,)),
        ensures
            final(self).has_sampled(),
            r@ == final(self).cached_detail(),
            !old(self).has_sampled() ==> refreshed(read, procs@, *old(self), *final(self)),
            refreshed(read, procs@, *old(self), *final(self)) || (final(self).cached_detail()
                == old(self).cached_detail() && final(self).cached_rss() == old(self).cached_rss()
                && final(self).sampled_at() == old(self).sampled_at()),
    {
        let since = match &self.last_sample_at {
            Some(t) => Some(millis_since(t)),
            None => None,
        };
        self.sample_at(procs, since, read)
    }
}

} // verus!
