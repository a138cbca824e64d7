//! The order of the memory tab's per-process breakdown.

use vstd::prelude::*;
use crate::insights::{footprint_key, MemFigures};
use crate::sort::{insertion_sort, lemma_sort_by_sorted, sort_by, sorted_by};

verus! {

/// The figure a process is ranked by in the breakdown: the most honest
/// one it has, its footprint, else its PSS, else its resident set.
pub open spec fn breakdown_key(p: MemFigures) -> u64 {
    match footprint_key(p) {
        Some(k) => k,
        None => p.rss,
    }
}

/// Each row's key and position.
pub open spec fn keyed_rows(rows: Seq<MemFigures>) -> Seq<(u64, usize)> {
    Seq::new(rows.len(), |i: int| (breakdown_key(rows[i]), i as usize))
}

/// A keyed row ranks before or level with another.
pub open spec fn ranks_first(a: (u64, usize), b: (u64, usize)) -> bool {
    a.0 >= b.0
}

/// The positions of the rows, largest key first; rows with equal keys
/// keep their order.
pub open spec fn breakdown_positions(rows: Seq<MemFigures>) -> Seq<usize> {
    sort_by(|a: (u64, usize), b: (u64, usize)| ranks_first(a, b), keyed_rows(rows)).map_values(
        |p: (u64, usize)| p.1,
    )
}

fn ranks_first_exec(a: &(u64, usize), b: &(u64, usize)) -> (r: bool)
    ensures
        r == ranks_first(*a, *b),
{
    a.0 >= b.0
}

/// The order the breakdown lists the processes `rows` in, as positions:
/// largest footprint (else PSS, else RSS) first, ties in input order.
pub fn breakdown_order(rows: &Vec<MemFigures>) -> (r: Vec<usize>)
    ensures
        r@ == breakdown_positions(rows@),
{
    let mut keyed: Vec<(u64, usize)> = Vec::with_capacity(rows.len());
    let mut i: usize = 0;
    while i < rows.len()
        invariant
            i <= rows@.len(),
            keyed@ == keyed_rows(rows@).take(i as int),
        decreases rows@.len() - i,
    {
        let p = &rows[i];
        let k = match p.footprint {
            Some(f) => f,
            None => match p.pss {
                Some(s) => s,
                None => p.rss,
            },
        };
        keyed.push((k, i));
        i += 1;
        assert(keyed@ =~= keyed_rows(rows@).take(i as int));
    }
    assert(keyed@ =~= keyed_rows(rows@));
    let sorted = insertion_sort(keyed, ranks_first_exec, Ghost(|a: (u64, usize), b: (u64, usize)| ranks_first(a, b)));
    let mut out: Vec<usize> = Vec::with_capacity(sorted.len());
    let mut j: usize = 0;
    while j < sorted.len()
        invariant
            j <= sorted@.len(),
            out@ == sorted@.take(j as int).map_values(|p: (u64, usize)| p.1),
        decreases sorted@.len() - j,
    {
        out.push(sorted[j].1);
        j += 1;
        assert(out@ =~= sorted@.take(j as int).map_values(|p: (u64, usize)| p.1));
    }
    assert(sorted@.take(sorted@.len() as int) =~= sorted@);
    out
}

/// The breakdown ranks the processes by their key, largest first, and
/// lists each of them exactly once.
pub proof fn lemma_breakdown_ranked(rows: Seq<MemFigures>)
    ensures
        ({
            let s = sort_by(|a: (u64, usize), b: (u64, usize)| ranks_first(a, b), keyed_rows(rows));
            &&& forall|i: int, j: int| 0 <= i < j < s.len() ==> #[trigger] s[i].0 >= #[trigger] s[j].0
            &&& s.to_multiset() == keyed_rows(rows).to_multiset()
        }),
{
    let le = |a: (u64, usize), b: (u64, usize)| ranks_first(a, b);
    lemma_sort_by_sorted(le, keyed_rows(rows));
    let s = sort_by(le, keyed_rows(rows));
    assert(sorted_by(le, s));
    assert forall|i: int, j: int| 0 <= i < j < s.len() implies #[trigger] s[i].0 >= #[trigger] s[j].0 by {
        assert(le(s[i], s[j]));
    }
}

} // verus!
