//! The services table: its three sort orders and the status tally.

use vstd::prelude::*;
use crate::app::ServiceSort;
use crate::model::{service_rows, ServiceRow, ServiceStatus, ServiceTick};
use crate::services::{clone_services, row_name_le, sort_by_name};
use crate::sort::{insertion_sort, lemma_sort_by_map, lemma_sort_by_sorted, sort_by, total_on, transitive_on};
use crate::text::{chars_of, lemma_lex_total, lemma_lex_trans, lex_le, lex_le_chars};

verus! {

/// Failed first, then running, idle, unknown.
pub open spec fn status_rank(s: ServiceStatus) -> nat {
    match s {
        ServiceStatus::Failed => 0,
        ServiceStatus::Running => 1,
        ServiceStatus::Idle => 2,
        ServiceStatus::Unknown => 3,
    }
}

/// By status rank, then by name.
pub open spec fn row_status_le(a: ServiceRow, b: ServiceRow) -> bool {
    status_rank(a.status) < status_rank(b.status) || (status_rank(a.status) == status_rank(
        b.status,
    ) && lex_le(a.name, b.name))
}

/// By pid ascending; services without a pid after all others, by name.
pub open spec fn row_pid_le(a: ServiceRow, b: ServiceRow) -> bool {
    match (a.pid, b.pid) {
        (Some(x), Some(y)) => x <= y,
        (Some(_), None) => true,
        (None, Some(_)) => false,
        (None, None) => lex_le(a.name, b.name),
    }
}

/// The order a sort key puts service rows in.
pub open spec fn row_le(key: ServiceSort, a: ServiceRow, b: ServiceRow) -> bool {
    match key {
        ServiceSort::Name => row_name_le(a, b),
        ServiceSort::Status => row_status_le(a, b),
        ServiceSort::Pid => row_pid_le(a, b),
    }
}

fn rank_exec(s: ServiceStatus) -> (r: u8)
    ensures
        r == status_rank(s),
{
    match s {
        ServiceStatus::Failed => 0,
        ServiceStatus::Running => 1,
        ServiceStatus::Idle => 2,
        ServiceStatus::Unknown => 3,
    }
}

fn status_le_exec(a: &ServiceTick, b: &ServiceTick) -> (r: bool)
    ensures
        r == row_status_le(a@, b@),
{
    let (x, y) = (rank_exec(a.status), rank_exec(b.status));
    x < y || (x == y && lex_le_chars(&chars_of(a.name.as_str()), &chars_of(b.name.as_str())))
}

fn pid_le_exec(a: &ServiceTick, b: &ServiceTick) -> (r: bool)
    ensures
        r == row_pid_le(a@, b@),
{
    match (a.pid, b.pid) {
        (Some(x), Some(y)) => x <= y,
        (Some(_), None) => true,
        (None, Some(_)) => false,
        (None, None) => lex_le_chars(&chars_of(a.name.as_str()), &chars_of(b.name.as_str())),
    }
}

/// A copy of `services` stably sorted by `key`: by name; by status
/// (failed, running, idle, unknown) then name; or by pid with services
/// that have none last, by name.
pub fn sort_services(services: &Vec<ServiceTick>, key: ServiceSort) -> (r: Vec<ServiceTick>)
    ensures
        service_rows(r@) == sort_by(
            |a: ServiceRow, b: ServiceRow| row_le(key, a, b),
            service_rows(services@),
        ),
{
    let out = clone_services(services);
    let ghost rows = service_rows(out@);
    match key {
        ServiceSort::Name => {
            let r = sort_by_name(out);
            assert(sort_by(|a: ServiceRow, b: ServiceRow| row_name_le(a, b), rows) =~= sort_by(
                |a: ServiceRow, b: ServiceRow| row_le(key, a, b),
                rows,
            )) by {
                assert((|a: ServiceRow, b: ServiceRow| row_name_le(a, b)) =~= (|a: ServiceRow, b: ServiceRow|
                    row_le(key, a, b)));
            }
            r
        },
        ServiceSort::Status => {
            let ghost v = out@;
            let r = insertion_sort(
                out,
                status_le_exec,
                Ghost(|a: ServiceTick, b: ServiceTick| row_status_le(a@, b@)),
            );
            proof {
                lemma_sort_by_map(
                    |a: ServiceTick, b: ServiceTick| row_status_le(a@, b@),
                    |a: ServiceRow, b: ServiceRow| row_le(key, a, b),
                    |s: ServiceTick| s@,
                    v,
                );
            }
            r
        },
        ServiceSort::Pid => {
            let ghost v = out@;
            let r = insertion_sort(
                out,
                pid_le_exec,
                Ghost(|a: ServiceTick, b: ServiceTick| row_pid_le(a@, b@)),
            );
            proof {
                lemma_sort_by_map(
                    |a: ServiceTick, b: ServiceTick| row_pid_le(a@, b@),
                    |a: ServiceRow, b: ServiceRow| row_le(key, a, b),
                    |s: ServiceTick| s@,
                    v,
                );
            }
            r
        },
    }
}

/// How many rows of `rs` have status `s`.
pub open spec fn count_status(rs: Seq<ServiceRow>, s: ServiceStatus) -> nat
    decreases rs.len(),
{
    if rs.len() == 0 {
        0
    } else {
        count_status(rs.drop_last(), s) + if rs.last().status == s {
            1nat
        } else {
            0nat
        }
    }
}

proof fn lemma_count_status_bound(rs: Seq<ServiceRow>, s: ServiceStatus)
    ensures
        count_status(rs, s) <= rs.len(),
    decreases rs.len(),
{
    if rs.len() > 0 {
        lemma_count_status_bound(rs.drop_last(), s);
    }
}

/// The number of running, idle, failed and unknown services.
pub fn counts(services: &Vec<ServiceTick>) -> (r: (usize, usize, usize, usize))
    ensures
        r.0 == count_status(service_rows(services@), ServiceStatus::Running),
        r.1 == count_status(service_rows(services@), ServiceStatus::Idle),
        r.2 == count_status(service_rows(services@), ServiceStatus::Failed),
        r.3 == count_status(service_rows(services@), ServiceStatus::Unknown),
{
    let ghost rows = service_rows(services@);
    let mut r: usize = 0;
    let mut i: usize = 0;
    let mut f: usize = 0;
    let mut u: usize = 0;
    let mut k: usize = 0;
    while k < services.len()
        invariant
            k <= services@.len(),
            rows == service_rows(services@),
            r == count_status(rows.take(k as int), ServiceStatus::Running),
            i == count_status(rows.take(k as int), ServiceStatus::Idle),
            f == count_status(rows.take(k as int), ServiceStatus::Failed),
            u == count_status(rows.take(k as int), ServiceStatus::Unknown),
        decreases services@.len() - k,
    {
        assert(rows.take(k + 1).drop_last() =~= rows.take(k as int));
        assert(rows.take(k + 1).last() == services@[k as int]@);
        proof {
            lemma_count_status_bound(rows.take(k as int), ServiceStatus::Running);
            lemma_count_status_bound(rows.take(k as int), ServiceStatus::Idle);
            lemma_count_status_bound(rows.take(k as int), ServiceStatus::Failed);
            lemma_count_status_bound(rows.take(k as int), ServiceStatus::Unknown);
        }
        match services[k].status {
            ServiceStatus::Running => r += 1,
            ServiceStatus::Idle => i += 1,
            ServiceStatus::Failed => f += 1,
            ServiceStatus::Unknown => u += 1,
        }
        k += 1;
    }
    assert(rows.take(services@.len() as int) =~= rows);
    (r, i, f, u)
}

/// Every service is counted under exactly one status: the four counts
/// add up to the number of services.
pub proof fn lemma_counts_partition(rs: Seq<ServiceRow>)
    ensures
        count_status(rs, ServiceStatus::Running) + count_status(rs, ServiceStatus::Idle)
            + count_status(rs, ServiceStatus::Failed) + count_status(rs, ServiceStatus::Unknown)
            == rs.len(),
    decreases rs.len(),
{
    if rs.len() > 0 {
        lemma_counts_partition(rs.drop_last());
    }
}

/// Columns before the name column of the services table.
pub const FIXED_COLUMNS: usize = 23;

/// `n` spaces.
pub open spec fn spaces(n: nat) -> Seq<char> {
    Seq::new(n, |i: int| ' ')
}

/// A string of `n` spaces.
pub fn space_string(n: usize) -> (r: String)
    ensures
        r@ == spaces(n as nat),
{
    let mut v: Vec<char> = Vec::with_capacity(n);
    let mut i: usize = 0;
    while i < n
        invariant
            i <= n,
            v@ == spaces(i as nat),
        decreases n - i,
    {
        v.push(' ');
        i += 1;
        assert(v@ =~= spaces(i as nat));
    }
    crate::text::string_of(&v)
}

/// The padding that fills a services row out to `width` after its fixed
/// columns and the text `used`.
pub fn fill_remainder(width: usize, used: &str) -> (r: String)
    ensures
        r@ == (if width > FIXED_COLUMNS + used@.len() {
            spaces((width - FIXED_COLUMNS - used@.len()) as nat)
        } else {
            Seq::empty()
        }),
{
    let n = chars_of(used).len();
    if width > FIXED_COLUMNS && width - FIXED_COLUMNS > n {
        space_string(width - FIXED_COLUMNS - n)
    } else {
        let r = String::new();
        r
    }
}

/// Sorting by status lists failed services first, then running, idle and
/// unknown ones; services of the same status are in name order; nothing
/// is added or lost.
pub proof fn lemma_status_sort_ranks_then_names(rows: Seq<ServiceRow>)
    ensures
        ({
            let r = sort_by(|a: ServiceRow, b: ServiceRow| row_le(ServiceSort::Status, a, b), rows);
            &&& status_rank(ServiceStatus::Failed) < status_rank(ServiceStatus::Running)
            &&& status_rank(ServiceStatus::Running) < status_rank(ServiceStatus::Idle)
            &&& status_rank(ServiceStatus::Idle) < status_rank(ServiceStatus::Unknown)
            &&& forall|i: int, j: int|
                0 <= i < j < r.len() ==> status_rank(#[trigger] r[i].status) <= status_rank(
                    #[trigger] r[j].status,
                )
            &&& forall|i: int, j: int|
                0 <= i < j < r.len() && r[i].status == r[j].status ==> lex_le(
                    #[trigger] r[i].name,
                    #[trigger] r[j].name,
                )
            &&& r.to_multiset() == rows.to_multiset()
        }),
{
    let le = |a: ServiceRow, b: ServiceRow| row_le(ServiceSort::Status, a, b);
    assert(total_on(le)) by {
        assert forall|a: ServiceRow, b: ServiceRow| #[trigger] le(a, b) || le(b, a) by {
            lemma_lex_total(a.name, b.name);
        }
    }
    assert(transitive_on(le)) by {
        assert forall|a: ServiceRow, b: ServiceRow, c: ServiceRow|
            #[trigger] le(a, b) && #[trigger] le(b, c) implies le(a, c) by {
            if lex_le(a.name, b.name) && lex_le(b.name, c.name) {
                lemma_lex_trans(a.name, b.name, c.name);
            }
        }
    }
    lemma_sort_by_sorted(le, rows);
    let r = sort_by(le, rows);
    assert forall|i: int, j: int| 0 <= i < j < r.len() implies status_rank(#[trigger] r[i].status)
        <= status_rank(#[trigger] r[j].status) by {
        assert(le(r[i], r[j]));
    }
    assert forall|i: int, j: int|
        0 <= i < j < r.len() && r[i].status == r[j].status implies lex_le(
        #[trigger] r[i].name,
        #[trigger] r[j].name,
    ) by {
        assert(le(r[i], r[j]));
    }
}

/// Sorting by pid lists services with a pid in ascending pid order, then
/// those without one in name order; sorting by name lists all of them in
/// name order; neither adds or loses a service.
pub proof fn lemma_pid_and_name_sorts(rows: Seq<ServiceRow>)
    ensures
        ({
            let r = sort_by(|a: ServiceRow, b: ServiceRow| row_le(ServiceSort::Pid, a, b), rows);
            &&& forall|i: int, j: int|
                0 <= i < j < r.len() && #[trigger] r[i].pid is Some && #[trigger] r[j].pid is Some
                    ==> r[i].pid->0 <= r[j].pid->0
            &&& forall|i: int, j: int|
                0 <= i < j < r.len() && #[trigger] r[i].pid is None ==> #[trigger] r[j].pid is None
            &&& forall|i: int, j: int|
                0 <= i < j < r.len() && r[i].pid is None && r[j].pid is None ==> lex_le(
                    #[trigger] r[i].name,
                    #[trigger] r[j].name,
                )
            &&& r.to_multiset() == rows.to_multiset()
        }),
        ({
            let r = sort_by(|a: ServiceRow, b: ServiceRow| row_le(ServiceSort::Name, a, b), rows);
            &&& forall|i: int, j: int|
                0 <= i < j < r.len() ==> lex_le(#[trigger] r[i].name, #[trigger] r[j].name)
            &&& r.to_multiset() == rows.to_multiset()
        }),
{
    let le = |a: ServiceRow, b: ServiceRow| row_le(ServiceSort::Pid, a, b);
    assert(total_on(le)) by {
        assert forall|a: ServiceRow, b: ServiceRow| #[trigger] le(a, b) || le(b, a) by {
            lemma_lex_total(a.name, b.name);
        }
    }
    assert(transitive_on(le)) by {
        assert forall|a: ServiceRow, b: ServiceRow, c: ServiceRow|
            #[trigger] le(a, b) && #[trigger] le(b, c) implies le(a, c) by {
            if lex_le(a.name, b.name) && lex_le(b.name, c.name) {
                lemma_lex_trans(a.name, b.name, c.name);
            }
        }
    }
    lemma_sort_by_sorted(le, rows);
    let r = sort_by(le, rows);
    assert forall|i: int, j: int| 0 <= i < j < r.len() implies le(r[i], r[j]) by {}
    assert forall|i: int, j: int| 0 <= i < j < r.len() && #[trigger] r[i].pid is None implies #[trigger] r[j].pid
        is None by {
        assert(le(r[i], r[j]));
    }
    let ln = |a: ServiceRow, b: ServiceRow| row_le(ServiceSort::Name, a, b);
    assert(total_on(ln)) by {
        assert forall|a: ServiceRow, b: ServiceRow| #[trigger] ln(a, b) || ln(b, a) by {
            lemma_lex_total(a.name, b.name);
        }
    }
    assert(transitive_on(ln)) by {
        assert forall|a: ServiceRow, b: ServiceRow, c: ServiceRow|
            #[trigger] ln(a, b) && #[trigger] ln(b, c) implies ln(a, c) by {
            lemma_lex_trans(a.name, b.name, c.name);
        }
    }
    lemma_sort_by_sorted(ln, rows);
    let q = sort_by(ln, rows);
    assert forall|i: int, j: int| 0 <= i < j < q.len() implies lex_le(#[trigger] q[i].name, #[trigger] q[j].name) by {
        assert(ln(q[i], q[j]));
    }
}

} // verus!
