//! Service discovery output parsing: `launchctl list` on macOS and
//! `systemctl list-units` on Linux, plus the collector that caches the
//! result between refreshes.
//!
//! `launchctl list` gives PID, Status and Label, tab-separated: PID `-`
//! means not running; status `0` is a clean exit (or never run), negative
//! is killed-by-signal and positive is the service's own exit code.
//! `systemctl list-units --type=service --all --no-legend --plain
//! --no-pager` gives UNIT, LOAD, ACTIVE, SUB and DESCRIPTION,
//! whitespace-separated.

use crate::model::{service_rows, ServiceRow, ServiceStatus, ServiceTick};
use crate::sort::{insertion_sort, lemma_sort_by_map, sort_by};
use crate::text::{
    chars_of, decimal, eq_chars, find_char, find_from, has_prefix, join, joined, lemma_find_char,
    lex_le, lex_le_chars, lines, lines_of, parse_i32, parse_i32_chars, parse_u32, parse_u32_chars,
    push_decimal, push_str, split_words, starts_with, string_of, sub_vec, trim, trim_chars, views,
    words,
};
use crate::clock::{instant_now, is_stale, millis_since, stale};
use std::time::Instant;
use vstd::prelude::*;

verus! {

/// `str::splitn(3, sep)` when it yields three fields: the text before the
/// first `sep`, between the first and second, and everything after the
/// second.
pub open spec fn fields3(line: Seq<char>, sep: char) -> Option<(Seq<char>, Seq<char>, Seq<char>)> {
    match find_char(line, sep) {
        None => None,
        Some(i) => {
            let rest = line.skip(i as int + 1);
            match find_char(rest, sep) {
                None => None,
                Some(j) => Some((line.take(i as int), rest.take(j as int), rest.skip(j as int + 1))),
            }
        },
    }
}

/// A launchctl row's status: running when it has a PID; otherwise failed
/// after a non-zero exit, idle after a clean one, unknown without one.
pub open spec fn launchctl_status(pid: Option<u32>, exit_code: Option<i32>) -> ServiceStatus {
    match (pid, exit_code) {
        (Some(_), _) => ServiceStatus::Running,
        (None, Some(c)) => if c != 0 {
            ServiceStatus::Failed
        } else {
            ServiceStatus::Idle
        },
        (None, None) => ServiceStatus::Unknown,
    }
}

/// The detail text for a launchctl exit status.
pub open spec fn launchctl_detail(exit_code: Option<i32>) -> Seq<char> {
    match exit_code {
        Some(c) => if c < 0 {
            "killed by signal "@ + decimal((-c) as nat)
        } else if c > 0 {
            "exit code "@ + decimal(c as nat)
        } else {
            "clean exit / never run"@
        },
        None => "no exit status reported"@,
    }
}

/// The service a launchctl line describes, if any: the header line (the
/// first, when it starts with `PID`), lines without two tabs and lines
/// with an empty label describe none.
pub open spec fn launchctl_row(index: int, line: Seq<char>) -> Option<ServiceRow> {
    if index == 0 && has_prefix(line, "PID"@) {
        None
    } else {
        match fields3(line, '\t') {
            None => None,
            Some((a, b, c)) => {
                let label = trim(c);
                if label.len() == 0 {
                    None
                } else {
                    let pid = parse_u32(trim(a));
                    let exit_code = parse_i32(trim(b));
                    Some(
                        ServiceRow {
                            name: label,
                            status: launchctl_status(pid, exit_code),
                            pid,
                            exit_code,
                            detail: launchctl_detail(exit_code),
                        },
                    )
                }
            },
        }
    }
}

/// The services of the first `ls.len()` launchctl lines, in line order.
pub open spec fn launchctl_rows(ls: Seq<Seq<char>>) -> Seq<ServiceRow>
    decreases ls.len(),
{
    if ls.len() == 0 {
        Seq::empty()
    } else {
        let prev = launchctl_rows(ls.drop_last());
        match launchctl_row(ls.len() - 1, ls.last()) {
            Some(r) => prev.push(r),
            None => prev,
        }
    }
}

/// Service rows ordered by name, as `String`'s `Ord` orders them.
pub open spec fn row_name_le(a: ServiceRow, b: ServiceRow) -> bool {
    lex_le(a.name, b.name)
}

/// What `parse_launchctl_list` gives for `text`: the described services,
/// stably sorted by name.
pub open spec fn launchctl_services(text: Seq<char>) -> Seq<ServiceRow> {
    sort_by(|a: ServiceRow, b: ServiceRow| row_name_le(a, b), launchctl_rows(lines_of(text)))
}

/// The status systemd's ACTIVE and SUB columns describe.
pub open spec fn systemctl_status(active: Seq<char>, sub: Seq<char>) -> ServiceStatus {
    if active == "active"@ {
        if sub == "running"@ {
            ServiceStatus::Running
        } else {
            ServiceStatus::Idle
        }
    } else if active == "failed"@ {
        ServiceStatus::Failed
    } else if active == "inactive"@ {
        ServiceStatus::Idle
    } else {
        ServiceStatus::Unknown
    }
}

/// The service a systemctl line describes: one with at least four
/// whitespace-separated words, UNIT LOAD ACTIVE SUB, then the description
/// (its words joined by single spaces).
pub open spec fn systemctl_row(line: Seq<char>) -> Option<ServiceRow> {
    let w = words(line);
    if w.len() < 4 {
        None
    } else {
        Some(
            ServiceRow {
                name: w[0],
                status: systemctl_status(w[2], w[3]),
                pid: None,
                exit_code: None,
                detail: w[2] + " / "@ + w[3] + " — "@ + join(w.skip(4), " "@),
            },
        )
    }
}

/// The services of the lines `ls`, in line order.
pub open spec fn systemctl_rows(ls: Seq<Seq<char>>) -> Seq<ServiceRow>
    decreases ls.len(),
{
    if ls.len() == 0 {
        Seq::empty()
    } else {
        let prev = systemctl_rows(ls.drop_last());
        match systemctl_row(ls.last()) {
            Some(r) => prev.push(r),
            None => prev,
        }
    }
}

/// What `parse_systemctl_list` gives for `text`: the described services,
/// stably sorted by name.
pub open spec fn systemctl_services(text: Seq<char>) -> Seq<ServiceRow> {
    sort_by(|a: ServiceRow, b: ServiceRow| row_name_le(a, b), systemctl_rows(lines_of(text)))
}

/// Services ordered by name.
pub open spec fn tick_name_le(a: ServiceTick, b: ServiceTick) -> bool {
    lex_le(a.name@, b.name@)
}

fn tick_name_le_exec(a: &ServiceTick, b: &ServiceTick) -> (r: bool)
    ensures
        r == tick_name_le(*a, *b),
{
    let x = chars_of(a.name.as_str());
    let y = chars_of(b.name.as_str());
    lex_le_chars(&x, &y)
}

/// Sorts services stably by name.
pub fn sort_by_name(v: Vec<ServiceTick>) -> (r: Vec<ServiceTick>)
    ensures
        service_rows(r@) == sort_by(
            |a: ServiceRow, b: ServiceRow| row_name_le(a, b),
            service_rows(v@),
        ),
{
    let r = insertion_sort(
        v,
        tick_name_le_exec,
        Ghost(|a: ServiceTick, b: ServiceTick| tick_name_le(a, b)),
    );
    proof {
        lemma_sort_by_map(
            |a: ServiceTick, b: ServiceTick| tick_name_le(a, b),
            |a: ServiceRow, b: ServiceRow| row_name_le(a, b),
            |s: ServiceTick| s@,
            v@,
        );
    }
    r
}

/// The three tab-separated fields of a launchctl line.
fn split_fields3(line: &Vec<char>) -> (r: Option<(Vec<char>, Vec<char>, Vec<char>)>)
    ensures
        match fields3(line@, '\t') {
            Some((a, b, c)) => r matches Some((x, y, z)) && x@ == a && y@ == b && z@ == c,
            None => r is None,
        },
{
    let n = line.len();
    assert(line@.subrange(0, n as int) =~= line@);
    match find_from(line, 0, '\t') {
        None => None,
        Some(i) => {
            proof {
                lemma_find_char(line@, '\t');
            }
            assert(line@.skip(i + 1) =~= line@.subrange(i + 1, n as int));
            match find_from(line, i + 1, '\t') {
                None => None,
                Some(j) => {
                    let ghost rest = line@.skip(i + 1);
                    let k: usize = j - i - 1;
                    proof {
                        lemma_find_char(rest, '\t');
                    }
                    let a = sub_vec(line, 0, i);
                    let b = sub_vec(line, i + 1, j);
                    let c = sub_vec(line, j + 1, n);
                    assert(a@ =~= line@.take(i as int));
                    assert(b@ =~= rest.take(k as int));
                    assert(c@ =~= rest.skip(k + 1));
                    Some((a, b, c))
                },
            }
        },
    }
}

/// The detail text for a launchctl exit status.
fn launchctl_detail_text(exit_code: Option<i32>) -> (r: String)
    ensures
        r@ == launchctl_detail(exit_code),
{
    let mut out: Vec<char> = Vec::new();
    match exit_code {
        Some(c) => {
            if c < 0 {
                push_str(&mut out, "killed by signal ");
                push_decimal(&mut out, (0 - (c as i64)) as u64);
            } else if c > 0 {
                push_str(&mut out, "exit code ");
                push_decimal(&mut out, c as u64);
            } else {
                push_str(&mut out, "clean exit / never run");
            }
        },
        None => {
            push_str(&mut out, "no exit status reported");
        },
    }
    assert(out@ =~= launchctl_detail(exit_code));
    string_of(&out)
}

/// The service launchctl line `index` describes, if any.
fn launchctl_entry(index: usize, line: &Vec<char>) -> (r: Option<ServiceTick>)
    ensures
        match launchctl_row(index as int, line@) {
            Some(row) => r matches Some(t) && t@ == row,
            None => r is None,
        },
{
    if index == 0 {
        let pid_hdr = chars_of("PID");
        if starts_with(line, &pid_hdr) {
            return None;
        }
    }
    match split_fields3(line) {
        None => None,
        Some((a, b, c)) => {
            let label = trim_chars(&c);
            if label.len() == 0 {
                return None;
            }
            let pid = parse_u32_chars(&trim_chars(&a));
            let exit_code = parse_i32_chars(&trim_chars(&b));
            let status = match (pid, exit_code) {
                (Some(_), _) => ServiceStatus::Running,
                (None, Some(c)) => if c != 0 {
                    ServiceStatus::Failed
                } else {
                    ServiceStatus::Idle
                },
                (None, None) => ServiceStatus::Unknown,
            };
            Some(
                ServiceTick {
                    name: string_of(&label),
                    status,
                    pid,
                    exit_code,
                    detail: launchctl_detail_text(exit_code),
                },
            )
        },
    }
}

/// Parses `launchctl list` output into services sorted by name.
pub fn parse_launchctl_list(text: &str) -> (r: Vec<ServiceTick>)
    ensures
        service_rows(r@) == launchctl_services(text@),
{
    let chars = chars_of(text);
    let ls = lines(&chars);
    let mut out: Vec<ServiceTick> = Vec::new();
    let mut i: usize = 0;
    while i < ls.len()
        invariant
            i <= ls@.len(),
            views(ls@) == lines_of(text@),
            service_rows(out@) == launchctl_rows(views(ls@).take(i as int)),
        decreases ls@.len() - i,
    {
        let ghost pre = views(ls@).take(i as int);
        assert(views(ls@).take(i + 1).drop_last() =~= pre);
        assert(views(ls@).take(i + 1).last() == ls@[i as int]@);
        let ghost old_out = out@;
        match launchctl_entry(i, &ls[i]) {
            Some(t) => {
                out.push(t);
                assert(service_rows(out@) =~= service_rows(old_out).push(t@));
            },
            None => {},
        }
        i += 1;
    }
    assert(views(ls@).take(ls@.len() as int) =~= views(ls@));
    sort_by_name(out)
}

fn is_word(w: &Vec<char>, lit: &str) -> (r: bool)
    ensures
        r == (w@ == lit@),
{
    let l = chars_of(lit);
    eq_chars(w, &l)
}

/// The service a systemctl line describes, if any.
fn systemctl_entry(line: &Vec<char>) -> (r: Option<ServiceTick>)
    ensures
        match systemctl_row(line@) {
            Some(row) => r matches Some(t) && t@ == row,
            None => r is None,
        },
{
    let w = split_words(line);
    if w.len() < 4 {
        return None;
    }
    let active = &w[2];
    let sub = &w[3];
    let status = if is_word(active, "active") {
        if is_word(sub, "running") {
            ServiceStatus::Running
        } else {
            ServiceStatus::Idle
        }
    } else if is_word(active, "failed") {
        ServiceStatus::Failed
    } else if is_word(active, "inactive") {
        ServiceStatus::Idle
    } else {
        ServiceStatus::Unknown
    };
    let description = joined(&w, 4, &chars_of(" "));
    let mut detail: Vec<char> = Vec::new();
    let mut a2 = active.clone();
    detail.append(&mut a2);
    push_str(&mut detail, " / ");
    let mut s2 = sub.clone();
    detail.append(&mut s2);
    push_str(&mut detail, " — ");
    let mut d2 = description;
    detail.append(&mut d2);
    assert(detail@ =~= w@[2]@ + " / "@ + w@[3]@ + " — "@ + join(views(w@).skip(4), " "@));
    Some(
        ServiceTick {
            name: string_of(&w[0]),
            status,
            pid: None,
            exit_code: None,
            detail: string_of(&detail),
        },
    )
}

/// Parses `systemctl list-units` output into services sorted by name.
pub fn parse_systemctl_list(text: &str) -> (r: Vec<ServiceTick>)
    ensures
        service_rows(r@) == systemctl_services(text@),
{
    let chars = chars_of(text);
    let ls = lines(&chars);
    let mut out: Vec<ServiceTick> = Vec::new();
    let mut i: usize = 0;
    while i < ls.len()
        invariant
            i <= ls@.len(),
            views(ls@) == lines_of(text@),
            service_rows(out@) == systemctl_rows(views(ls@).take(i as int)),
        decreases ls@.len() - i,
    {
        let ghost pre = views(ls@).take(i as int);
        assert(views(ls@).take(i + 1).drop_last() =~= pre);
        assert(views(ls@).take(i + 1).last() == ls@[i as int]@);
        let ghost old_out = out@;
        match systemctl_entry(&ls[i]) {
            Some(t) => {
                out.push(t);
                assert(service_rows(out@) =~= service_rows(old_out).push(t@));
            },
            None => {},
        }
        i += 1;
    }
    assert(views(ls@).take(ls@.len() as int) =~= views(ls@));
    sort_by_name(out)
}

/// A copy of every service in `v`, in order.
pub fn clone_services(v: &Vec<ServiceTick>) -> (r: Vec<ServiceTick>)
    ensures
        service_rows(r@) == service_rows(v@),
{
    let mut r: Vec<ServiceTick> = Vec::with_capacity(v.len());
    let mut i: usize = 0;
    while i < v.len()
        invariant
            i <= v@.len(),
            service_rows(r@) == service_rows(v@.take(i as int)),
        decreases v@.len() - i,
    {
        let ghost old_r = r@;
        r.push(v[i].clone());
        assert(v@.take(i + 1) =~= v@.take(i as int).push(v@[i as int]));
        assert(service_rows(r@) =~= service_rows(old_r).push(v@[i as int]@));
        assert(service_rows(v@.take(i + 1)) =~= service_rows(v@.take(i as int)).push(
            v@[i as int]@,
        ));
        i += 1;
    }
    assert(v@.take(v@.len() as int) =~= v@);
    r
}

/// How long a service listing stays fresh, in milliseconds: service state
/// changes infrequently and the service-manager query is heavy.
pub const REFRESH_MS: u128 = 5000;

/// Caches the service listing between refreshes.
pub struct ServicesCollector {
    last_sample_at: Option<Instant>,
    cached: Vec<ServiceTick>,
}

impl ServicesCollector {
    /// The listing currently cached.
    pub closed spec fn cached_rows(&self) -> Seq<ServiceRow> {
        service_rows(self.cached@)
    }

    /// Whether a listing has been taken yet.
    pub closed spec fn has_sampled(&self) -> bool {
        self.last_sample_at is Some
    }

    /// When the cached listing was taken.
    pub closed spec fn sampled_at(&self) -> Option<Instant> {
        self.last_sample_at
    }

    /// A collector that has not sampled yet and caches nothing.
    pub fn new() -> (c: Self)
        ensures
            !c.has_sampled(),
            c.cached_rows() == Seq::<ServiceRow>::empty(),
    {
        let c = ServicesCollector { last_sample_at: None, cached: Vec::new() };
        assert(c.cached_rows() =~= Seq::<ServiceRow>::empty());
        c
    }

    /// The cached listing, refreshed through `fetch` first when the last
    /// one was taken `since_ms` milliseconds ago with `since_ms` at least
    /// [`REFRESH_MS`], or none was taken (`None`). A fresh listing is kept
    /// with no fetch and the time it was taken stays as it was.
    pub fn sample_at<F: FnOnce() -> Vec<ServiceTick>>(&mut self, since_ms: Option<u128>, fetch: F) -> (r:
        Vec<ServiceTick>)
        requires
            fetch.requires(()),
        ensures
            service_rows(r@) == final(self).cached_rows(),
            is_stale(since_ms, REFRESH_MS) ==> final(self).has_sampled() && exists|v: Vec<ServiceTick>|
                fetch.ensures((), v) && final(self).cached_rows() == service_rows(v@),
            !is_stale(since_ms, REFRESH_MS) ==> final(self).cached_rows() == old(self).cached_rows()
                && final(self).sampled_at() == old(self).sampled_at(),
    {
        if stale(since_ms, REFRESH_MS) {
            self.cached = fetch();
            self.last_sample_at = Some(instant_now());
        }
        clone_services(&self.cached)
    }

    /// The cached listing, refreshed through `fetch` first when none has
    /// been taken yet or the last one is at least [`REFRESH_MS`] old, as
    /// `sample_at` decides from the clock's reading of the time since the
    /// last listing.
    pub fn sample<F: FnOnce() -> Vec<ServiceTick>>(&mut self, fetch: F) -> (r: Vec<ServiceTick>)
        requires
            fetch.requires(()),
        ensures
            final(self).has_sampled(),
            service_rows(r@) == final(self).cached_rows(),
            !old(self).has_sampled() ==> exists|v: Vec<ServiceTick>|
                fetch.ensures((), v) && final(self).cached_rows() == service_rows(v@),
            (final(self).cached_rows() == old(self).cached_rows() && final(self).sampled_at() == old(
                self,
            ).sampled_at()) || exists|v: Vec<ServiceTick>|
                fetch.ensures((), v) && final(self).cached_rows() == service_rows(v@),
    {
        let since = match &self.last_sample_at {
            Some(t) => Some(millis_since(t)),
            None => None,
        };
        self.sample_at(since, fetch)
    }
}

/// A launchctl status column reads as the service's own exit code when
/// positive and as the signal that killed it when negative: a code `c`
/// gives "exit code c", `-c` gives "killed by signal c", and the two
/// never read alike.
pub proof fn lemma_launchctl_detail_sign(c: i32)
    requires
        c > 0,
    ensures
        launchctl_detail(Some(c)) == "exit code "@ + decimal(c as nat),
        launchctl_detail(Some((-c) as i32)) == "killed by signal "@ + decimal(c as nat),
        launchctl_detail(Some(c)) != launchctl_detail(Some((-c) as i32)),
{
    reveal_strlit("exit code ");
    reveal_strlit("killed by signal ");
    assert(launchctl_detail(Some(c))[0] == 'e');
    assert(launchctl_detail(Some((-c) as i32))[0] == 'k');
}

/// A launchctl line `PID<TAB>Status<TAB>Label` with a label describes the
/// service of that label: running when the PID column holds a number;
/// otherwise failed after a non-zero status, idle after a zero one and
/// unknown without one. A positive status `c` is its exit code, read as
/// "exit code c"; a negative one is the signal `-c` that killed it, read
/// as "killed by signal -c"; zero reads "clean exit / never run" and no
/// status reads "no exit status reported".
pub proof fn lemma_launchctl_row_reading(index: int, line: Seq<char>)
    requires
        !(index == 0 && has_prefix(line, "PID"@)),
        fields3(line, '\t') is Some,
        trim((fields3(line, '\t')->0).2).len() > 0,
    ensures
        ({
            let f = fields3(line, '\t')->0;
            let pid = parse_u32(trim(f.0));
            let code = parse_i32(trim(f.1));
            let r = launchctl_row(index, line)->0;
            &&& launchctl_row(index, line) is Some
            &&& r.name == trim(f.2)
            &&& r.pid == pid
            &&& r.exit_code == code
            &&& pid is Some ==> r.status == ServiceStatus::Running
            &&& pid is None && code is None ==> r.status == ServiceStatus::Unknown
            &&& pid is None && code == Some(0i32) ==> r.status == ServiceStatus::Idle
            &&& pid is None && code is Some && code->0 != 0 ==> r.status == ServiceStatus::Failed
            &&& code is Some && code->0 > 0 ==> r.detail == "exit code "@ + decimal(code->0 as nat)
            &&& code is Some && code->0 < 0 ==> r.detail == "killed by signal "@ + decimal(
                (-code->0) as nat,
            )
            &&& code == Some(0i32) ==> r.detail == "clean exit / never run"@
            &&& code is None ==> r.detail == "no exit status reported"@
        }),
{
}

/// A systemctl line `UNIT LOAD ACTIVE SUB DESCRIPTION...` describes the
/// unit named by its first word: running when active and running, idle
/// when active otherwise or inactive, failed when failed, unknown for any
/// other ACTIVE word; the detail is `ACTIVE / SUB — DESCRIPTION`. A line
/// of fewer than four words describes nothing.
pub proof fn lemma_systemctl_row_reading(line: Seq<char>)
    ensures
        words(line).len() < 4 ==> systemctl_row(line) is None,
        ({
            let w = words(line);
            let r = systemctl_row(line)->0;
            w.len() >= 4 ==> {
                &&& systemctl_row(line) is Some
                &&& r.name == w[0]
                &&& r.pid is None
                &&& r.exit_code is None
                &&& r.detail == w[2] + " / "@ + w[3] + " \u{2014} "@ + join(w.skip(4), " "@)
                &&& w[2] == "active"@ && w[3] == "running"@ ==> r.status == ServiceStatus::Running
                &&& w[2] == "active"@ && w[3] != "running"@ ==> r.status == ServiceStatus::Idle
                &&& w[2] == "inactive"@ ==> r.status == ServiceStatus::Idle
                &&& w[2] == "failed"@ ==> r.status == ServiceStatus::Failed
                &&& w[2] != "active"@ && w[2] != "inactive"@ && w[2] != "failed"@ ==> r.status
                    == ServiceStatus::Unknown
            }
        }),
{
    reveal_strlit("active");
    reveal_strlit("inactive");
    reveal_strlit("failed");
    assert("failed"@[0] != "active"@[0]);
    assert("inactive"@[0] != "active"@[0]);
}

} // verus!