//! Stable insertion sort, stated as the unique stable ordering of its
//! input under a caller-supplied "sorts before or equal to" relation.

use vstd::prelude::*;

verus! {

/// `s` with `x` inserted after every trailing element that sorts before or
/// equal to it, scanning from the back: for a sorted `s` this is the
/// position a stable sort gives an element that came after all of `s`.
pub open spec fn insert_by<T>(le: spec_fn(T, T) -> bool, s: Seq<T>, x: T) -> Seq<T>
    decreases s.len(),
{
    if s.len() == 0 || le(s.last(), x) {
        s.push(x)
    } else {
        insert_by(le, s.drop_last(), x).push(s.last())
    }
}

/// The stable sort of `s` under `le`: each element, in input order,
/// inserted after everything already placed that sorts before or equal
/// to it.
pub open spec fn sort_by<T>(le: spec_fn(T, T) -> bool, s: Seq<T>) -> Seq<T>
    decreases s.len(),
{
    if s.len() == 0 {
        s
    } else {
        insert_by(le, sort_by(le, s.drop_last()), s.last())
    }
}

pub proof fn lemma_insert_by_at<T>(le: spec_fn(T, T) -> bool, s: Seq<T>, x: T, k: int)
    requires
        0 <= k <= s.len(),
        k == 0 || le(s[k - 1], x),
        forall|j: int| k <= j < s.len() ==> !le(#[trigger] s[j], x),
    ensures
        insert_by(le, s, x) == s.insert(k, x),
    decreases s.len(),
{
    if s.len() == 0 {
        assert(s.push(x) =~= s.insert(k, x));
    } else if le(s.last(), x) {
        assert(k == s.len());
        assert(s.push(x) =~= s.insert(k, x));
    } else {
        lemma_insert_by_at(le, s.drop_last(), x, k);
        assert(s.drop_last().insert(k, x).push(s.last()) =~= s.insert(k, x));
    }
}

pub proof fn lemma_insert_by_len<T>(le: spec_fn(T, T) -> bool, s: Seq<T>, x: T)
    ensures
        insert_by(le, s, x).len() == s.len() + 1,
    decreases s.len(),
{
    if s.len() > 0 && !le(s.last(), x) {
        lemma_insert_by_len(le, s.drop_last(), x);
    }
}

pub proof fn lemma_sort_by_len<T>(le: spec_fn(T, T) -> bool, s: Seq<T>)
    ensures
        sort_by(le, s).len() == s.len(),
    decreases s.len(),
{
    if s.len() > 0 {
        lemma_sort_by_len(le, s.drop_last());
        lemma_insert_by_len(le, sort_by(le, s.drop_last()), s.last());
    }
}

pub proof fn lemma_insert_by_map<T, U>(
    le_t: spec_fn(T, T) -> bool,
    le_u: spec_fn(U, U) -> bool,
    f: spec_fn(T) -> U,
    s: Seq<T>,
    x: T,
)
    requires
        forall|a: T, b: T| #[trigger] le_t(a, b) == le_u(f(a), f(b)),
    ensures
        insert_by(le_t, s, x).map_values(f) == insert_by(le_u, s.map_values(f), f(x)),
    decreases s.len(),
{
    let sm = s.map_values(f);
    if s.len() == 0 {
        assert(s.push(x).map_values(f) =~= sm.push(f(x)));
    } else {
        assert(sm.last() == f(s.last()));
        if le_t(s.last(), x) {
            assert(s.push(x).map_values(f) =~= sm.push(f(x)));
        } else {
            lemma_insert_by_map(le_t, le_u, f, s.drop_last(), x);
            assert(s.drop_last().map_values(f) =~= sm.drop_last());
            assert(insert_by(le_t, s.drop_last(), x).push(s.last()).map_values(f)
                =~= insert_by(le_t, s.drop_last(), x).map_values(f).push(f(s.last())));
        }
    }
}

/// Sorting commutes with a map that carries one relation onto the other.
pub proof fn lemma_sort_by_map<T, U>(
    le_t: spec_fn(T, T) -> bool,
    le_u: spec_fn(U, U) -> bool,
    f: spec_fn(T) -> U,
    s: Seq<T>,
)
    requires
        forall|a: T, b: T| #[trigger] le_t(a, b) == le_u(f(a), f(b)),
    ensures
        sort_by(le_t, s).map_values(f) == sort_by(le_u, s.map_values(f)),
    decreases s.len(),
{
    if s.len() == 0 {
        assert(s.map_values(f) =~= Seq::<U>::empty());
    } else {
        lemma_sort_by_map(le_t, le_u, f, s.drop_last());
        assert(s.drop_last().map_values(f) =~= s.map_values(f).drop_last());
        lemma_insert_by_map(le_t, le_u, f, sort_by(le_t, s.drop_last()), s.last());
    }
}

/// Sorts `v` stably by the relation that `le_exec` computes and `le`
/// states.
pub fn insertion_sort<T, F: Fn(&T, &T) -> bool>(
    v: Vec<T>,
    le_exec: F,
    Ghost(le): Ghost<spec_fn(T, T) -> bool>,
) -> (r: Vec<T>)
    requires
        forall|a: &T, b: &T| #[trigger] le_exec.requires((a, b)),
        forall|a: &T, b: &T, x: bool| le_exec.ensures((a, b), x) ==> x == le(*a, *b),
    ensures
        r@ == sort_by(le, v@),
{
    let ghost input = v@;
    let mut v = v;
    let mut out: Vec<T> = Vec::new();
    let mut taken: usize = 0;
    let n = v.len();
    while v.len() > 0
        invariant
            n == input.len(),
            taken + v@.len() == n,
            v@ == input.skip(taken as int),
            out@ == sort_by(le, input.take(taken as int)),
            forall|a: &T, b: &T| #[trigger] le_exec.requires((a, b)),
            forall|a: &T, b: &T, x: bool| le_exec.ensures((a, b), x) ==> x == le(*a, *b),
        decreases v@.len(),
    {
        let x = v.remove(0);
        proof {
            assert(input.take(taken + 1).drop_last() =~= input.take(taken as int));
            assert(input.take(taken + 1).last() == x);
            assert(v@ =~= input.skip(taken + 1));
        }
        let mut k = out.len();
        while k > 0 && !le_exec(&out[k - 1], &x)
            invariant
                k <= out@.len(),
                forall|j: int| k <= j < out@.len() ==> !le(#[trigger] out@[j], x),
                forall|a: &T, b: &T| #[trigger] le_exec.requires((a, b)),
                forall|a: &T, b: &T, x: bool| le_exec.ensures((a, b), x) ==> x == le(*a, *b),
            decreases k,
        {
            k -= 1;
        }
        proof {
            lemma_insert_by_at(le, out@, x, k as int);
        }
        out.insert(k, x);
        taken += 1;
    }
    assert(input.take(n as int) =~= input);
    out
}


/// `le` puts any two values in one order or the other.
pub open spec fn total_on<T>(le: spec_fn(T, T) -> bool) -> bool {
    forall|a: T, b: T| #[trigger] le(a, b) || le(b, a)
}

/// `le` chains: `a` before `b` before `c` puts `a` before `c`.
pub open spec fn transitive_on<T>(le: spec_fn(T, T) -> bool) -> bool {
    forall|a: T, b: T, c: T| #[trigger] le(a, b) && #[trigger] le(b, c) ==> le(a, c)
}

/// Every earlier element of `s` sorts before or equal to every later one.
pub open spec fn sorted_by<T>(le: spec_fn(T, T) -> bool, s: Seq<T>) -> bool {
    forall|i: int, j: int| 0 <= i < j < s.len() ==> le(#[trigger] s[i], #[trigger] s[j])
}

proof fn lemma_insert_by_all<T>(le: spec_fn(T, T) -> bool, s: Seq<T>, x: T, p: spec_fn(T) -> bool)
    requires
        forall|i: int| 0 <= i < s.len() ==> p(#[trigger] s[i]),
        p(x),
    ensures
        forall|i: int|
            0 <= i < insert_by(le, s, x).len() ==> p(#[trigger] insert_by(le, s, x)[i]),
    decreases s.len(),
{
    if s.len() > 0 && !le(s.last(), x) {
        lemma_insert_by_all(le, s.drop_last(), x, p);
        let r = insert_by(le, s.drop_last(), x);
        assert forall|i: int| 0 <= i < r.push(s.last()).len() implies p(#[trigger] r.push(s.last())[i]) by {
            if i < r.len() {
                assert(r.push(s.last())[i] == r[i]);
            }
        }
    }
}

proof fn lemma_insert_by_sorted<T>(le: spec_fn(T, T) -> bool, s: Seq<T>, x: T)
    requires
        total_on(le),
        transitive_on(le),
        sorted_by(le, s),
    ensures
        sorted_by(le, insert_by(le, s, x)),
        insert_by(le, s, x).to_multiset() == s.to_multiset().insert(x),
    decreases s.len(),
{
    broadcast use vstd::seq_lib::group_to_multiset_ensures;

    if s.len() == 0 || le(s.last(), x) {
        let r = s.push(x);
        assert forall|i: int, j: int| 0 <= i < j < r.len() implies le(#[trigger] r[i], #[trigger] r[j]) by {
            if j < s.len() {
                assert(r[i] == s[i] && r[j] == s[j]);
            } else if i < s.len() - 1 {
                assert(le(s[i], s[s.len() - 1]));
            }
        }
    } else {
        let t = s.drop_last();
        let l = s.last();
        assert(sorted_by(le, t)) by {
            assert forall|i: int, j: int| 0 <= i < j < t.len() implies le(#[trigger] t[i], #[trigger] t[j]) by {
                assert(t[i] == s[i] && t[j] == s[j]);
            }
        }
        lemma_insert_by_sorted(le, t, x);
        let r = insert_by(le, t, x);
        assert(le(x, l));
        assert forall|i: int| 0 <= i < t.len() implies #[trigger] le(t[i], l) by {
            assert(t[i] == s[i]);
        }
        lemma_insert_by_all(le, t, x, |e: T| le(e, l));
        let q = r.push(l);
        assert forall|i: int, j: int| 0 <= i < j < q.len() implies le(#[trigger] q[i], #[trigger] q[j]) by {
            if j < r.len() {
                assert(q[i] == r[i] && q[j] == r[j]);
            } else {
                assert(q[i] == r[i]);
            }
        }
        assert(s =~= t.push(l));
        assert(q.to_multiset() =~= s.to_multiset().insert(x));
    }
}

/// The stable sort gives back its input, reordered so that each element
/// sorts before or equal to every later one (for a total, transitive
/// order).
pub proof fn lemma_sort_by_sorted<T>(le: spec_fn(T, T) -> bool, s: Seq<T>)
    requires
        total_on(le),
        transitive_on(le),
    ensures
        sorted_by(le, sort_by(le, s)),
        sort_by(le, s).to_multiset() == s.to_multiset(),
    decreases s.len(),
{
    broadcast use vstd::seq_lib::group_to_multiset_ensures;

    if s.len() > 0 {
        lemma_sort_by_sorted(le, s.drop_last());
        lemma_insert_by_sorted(le, sort_by(le, s.drop_last()), s.last());
        assert(s =~= s.drop_last().push(s.last()));
    }
}

} // verus!
