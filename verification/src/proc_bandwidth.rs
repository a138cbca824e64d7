//! Per-process network traffic: the parsers for `nettop` counters, `ss`
//! socket listings and `lsof` field output, and the rules that decide
//! which sockets and interfaces take part in attributing host throughput
//! to processes.

use std::collections::HashMap;
use vstd::prelude::*;
use crate::text::{
    ascii_lower, chars_of, ends_with, eq_chars, find_sub, find_sub_from, has_prefix, has_suffix,
    join, joined, lemma_split_on_nonempty, lines, lines_of, lower_ascii, parse_u32,
    parse_u32_chars, parse_u64, parse_u64_chars, split_char, split_on, starts_with, string_of,
    split_words, sub_vec, views, words,
};

verus! {

broadcast use vstd::std_specs::hash::group_hash_axioms;

/// The loopback interface: `lo`, or `lo` followed by digits (`lo0`, `lo1`).
pub open spec fn loopback_iface(name: Seq<char>) -> bool {
    name == "lo"@ || (name.len() > 2 && has_prefix(name, "lo"@) && forall|i: int|
        2 <= i < name.len() ==> '0' <= #[trigger] name[i] <= '9')
}

/// Whether an interface name is the loopback interface.
pub fn is_loopback_iface(name: &str) -> (r: bool)
    ensures
        r == loopback_iface(name@),
{
    let v = chars_of(name);
    let lo = chars_of("lo");
    if eq_chars(&v, &lo) {
        return true;
    }
    if !(v.len() > 2 && starts_with(&v, &lo)) {
        return false;
    }
    let mut i: usize = 2;
    while i < v.len()
        invariant
            v@ == name@,
            v@ != "lo"@,
            v@.len() > 2,
            has_prefix(v@, "lo"@),
            2 <= i <= v@.len(),
            forall|k: int| 2 <= k < i ==> '0' <= #[trigger] v@[k] <= '9',
        decreases v@.len() - i,
    {
        if !('0' <= v[i] && v[i] <= '9') {
            assert(!('0' <= v@[i as int] <= '9'));
            return false;
        }
        i += 1;
    }
    true
}

/// A loopback socket address, in the forms `ss` prints (`127.0.0.1:80`,
/// `[::1]:80`) and the bracket-stripped form of the `lsof` parser
/// (`::1]:80`).
pub open spec fn loopback_addr(addr: Seq<char>) -> bool {
    has_prefix(addr, "127."@) || has_prefix(addr, "::1"@) || has_prefix(addr, "[::1"@)
}

/// Whether a socket address is a loopback address.
pub fn is_loopback_addr(addr: &str) -> (r: bool)
    ensures
        r == loopback_addr(addr@),
{
    let v = chars_of(addr);
    starts_with(&v, &chars_of("127.")) || starts_with(&v, &chars_of("::1")) || starts_with(
        &v,
        &chars_of("[::1"),
    )
}

/// A concrete peer: unconnected sockets show a wildcard port (`*:*` from
/// `lsof`, `0.0.0.0:*` or `[::]:*` from `ss`).
pub open spec fn peer_known(addr: Seq<char>) -> bool {
    addr.len() > 0 && !has_suffix(addr, ":*"@)
}

/// Whether a peer address names a concrete peer.
pub fn has_peer(addr: &str) -> (r: bool)
    ensures
        r == peer_known(addr@),
{
    let v = chars_of(addr);
    v.len() > 0 && !ends_with(&v, &chars_of(":*"))
}

/// One socket as the platform tools report it.
#[derive(Debug)]
pub struct Connection {
    pub protocol: String,
    pub local_addr: String,
    pub remote_addr: String,
    pub state: String,
    pub pid: Option<u32>,
    pub process_name: Option<String>,
    /// The smoothed round-trip times (milliseconds, as printed) of the
    /// detail lines that followed the socket's row, in order.
    pub rtt_samples: Vec<String>,
}

/// `Connection` with its text as character sequences.
pub struct ConnectionView {
    pub protocol: Seq<char>,
    pub local_addr: Seq<char>,
    pub remote_addr: Seq<char>,
    pub state: Seq<char>,
    pub pid: Option<u32>,
    pub process_name: Option<Seq<char>>,
    pub rtt_samples: Seq<Seq<char>>,
}

pub open spec fn strings_view(v: Seq<String>) -> Seq<Seq<char>> {
    v.map_values(|s: String| s@)
}

impl View for Connection {
    type V = ConnectionView;

    open spec fn view(&self) -> ConnectionView {
        ConnectionView {
            protocol: self.protocol@,
            local_addr: self.local_addr@,
            remote_addr: self.remote_addr@,
            state: self.state@,
            pid: self.pid,
            process_name: match self.process_name {
                Some(n) => Some(n@),
                None => None,
            },
            rtt_samples: strings_view(self.rtt_samples@),
        }
    }
}

pub open spec fn connections_view(v: Seq<Connection>) -> Seq<ConnectionView> {
    v.map_values(|c: Connection| c@)
}

/// The sockets that earn a share of the host's throughput: TCP
/// ESTABLISHED (and UDP that `ss` calls ESTAB), plus UDP with a concrete
/// peer; a socket with a loopback end never does.
pub open spec fn attributable(c: ConnectionView) -> bool {
    if loopback_addr(c.local_addr) || loopback_addr(c.remote_addr) {
        false
    } else if c.state == "ESTABLISHED"@ {
        true
    } else {
        ascii_lower(c.protocol) == "udp"@ && peer_known(c.remote_addr)
    }
}

/// Whether a socket takes part in attributing throughput.
pub fn counts_toward_attribution(c: &Connection) -> (r: bool)
    ensures
        r == attributable(c@),
{
    if is_loopback_addr(c.local_addr.as_str()) || is_loopback_addr(c.remote_addr.as_str()) {
        return false;
    }
    if eq_chars(&chars_of(c.state.as_str()), &chars_of("ESTABLISHED")) {
        return true;
    }
    let p = lower_ascii(&chars_of(c.protocol.as_str()));
    eq_chars(&p, &chars_of("udp")) && has_peer(c.remote_addr.as_str())
}

/// The (pid, bytes in, bytes out) of one `nettop -P -J bytes_in,bytes_out
/// -x` row, `time,name.pid,bytes_in,bytes_out,`: the two byte columns
/// are the last two fields (before an empty field left by a trailing
/// comma), the pid follows the last dot of everything between the time
/// and the byte columns (a process name may hold commas and dots).
pub open spec fn nettop_row(line: Seq<char>) -> Option<(u32, u64, u64)> {
    let f = split_on(line, ',');
    if f.len() < 4 {
        None
    } else {
        let n = f.len();
        let in_idx: int = if f[n - 1].len() == 0 {
            n - 3
        } else {
            n - 2
        };
        match (parse_u64(f[in_idx]), parse_u64(f[in_idx + 1])) {
            (Some(bytes_in), Some(bytes_out)) => {
                let parts = split_on(join(f.subrange(1, in_idx), ","@), '.');
                if parts.len() < 2 {
                    None
                } else {
                    match parse_u32(parts.last()) {
                        Some(pid) => Some((pid, bytes_in, bytes_out)),
                        None => None,
                    }
                }
            },
            _ => None,
        }
    }
}

/// Counters of the rows `rows`, summed per pid with saturating adds.
pub open spec fn nettop_fold(rows: Seq<Seq<char>>) -> Map<u32, (u64, u64)>
    decreases rows.len(),
{
    if rows.len() == 0 {
        Map::empty()
    } else {
        let m = nettop_fold(rows.drop_last());
        match nettop_row(rows.last()) {
            Some((pid, bytes_in, bytes_out)) => {
                let prev: (u64, u64) = if m.contains_key(pid) {
                    m[pid]
                } else {
                    (0, 0)
                };
                m.insert(pid, (prev.0.saturating_add(bytes_in), prev.1.saturating_add(bytes_out)))
            },
            None => m,
        }
    }
}

/// The lines after the header line.
pub open spec fn after_header(ls: Seq<Seq<char>>) -> Seq<Seq<char>> {
    if ls.len() == 0 {
        ls
    } else {
        ls.skip(1)
    }
}

/// What `parse_nettop` gives for `text`.
pub open spec fn nettop_counters(text: Seq<char>) -> Map<u32, (u64, u64)> {
    nettop_fold(after_header(lines_of(text)))
}

fn nettop_row_exec(line: &Vec<char>) -> (r: Option<(u32, u64, u64)>)
    ensures
        r == nettop_row(line@),
{
    let f = split_char(line, ',');
    if f.len() < 4 {
        return None;
    }
    let n = f.len();
    let in_idx = if f[n - 1].len() == 0 {
        n - 3
    } else {
        n - 2
    };
    assert(views(f@)[n - 1] == f@[n - 1]@);
    assert(views(f@)[in_idx as int] == f@[in_idx as int]@);
    assert(views(f@)[in_idx + 1] == f@[in_idx + 1]@);
    let bytes_in = match parse_u64_chars(&f[in_idx]) {
        Some(b) => b,
        None => return None,
    };
    let bytes_out = match parse_u64_chars(&f[in_idx + 1]) {
        Some(b) => b,
        None => return None,
    };
    let mut head: Vec<Vec<char>> = Vec::new();
    let mut k: usize = 0;
    while k < in_idx
        invariant
            k <= in_idx < f@.len(),
            views(head@) == views(f@).take(k as int),
        decreases in_idx - k,
    {
        let ghost old_head = head@;
        head.push(sub_vec(&f[k], 0, f[k].len()));
        assert(f@[k as int]@.subrange(0, f@[k as int]@.len() as int) =~= f@[k as int]@);
        assert(views(head@) =~= views(old_head).push(f@[k as int]@));
        assert(views(f@).take(k + 1) =~= views(f@).take(k as int).push(f@[k as int]@));
        k += 1;
        assert(views(head@) =~= views(f@).take(k as int));
    }
    let name_pid = joined(&head, 1, &chars_of(","));
    assert(views(head@).skip(1) =~= views(f@).subrange(1, in_idx as int));
    let parts = split_char(&name_pid, '.');
    if parts.len() < 2 {
        return None;
    }
    assert(views(parts@).last() == parts@[parts@.len() - 1]@);
    match parse_u32_chars(&parts[parts.len() - 1]) {
        Some(pid) => Some((pid, bytes_in, bytes_out)),
        None => None,
    }
}

/// Parses `nettop -P -J bytes_in,bytes_out -x -L 1` output into
/// pid → cumulative (bytes in, bytes out). The header line and rows that
/// do not parse are skipped; rows of one pid are summed.
pub fn parse_nettop(text: &str) -> (r: HashMap<u32, (u64, u64)>)
    ensures
        r@ == nettop_counters(text@),
{
    let chars = chars_of(text);
    let ls = lines(&chars);
    let mut out: HashMap<u32, (u64, u64)> = HashMap::new();
    if ls.len() == 0 {
        assert(out@ =~= Map::<u32, (u64, u64)>::empty());
        return out;
    }
    let mut i: usize = 1;
    assert(views(ls@).skip(1).take(0) =~= Seq::<Seq<char>>::empty());
    while i < ls.len()
        invariant
            1 <= i <= ls@.len(),
            views(ls@) == lines_of(text@),
            out@ == nettop_fold(views(ls@).skip(1).take(i - 1)),
        decreases ls@.len() - i,
    {
        let ghost rows = views(ls@).skip(1).take(i as int);
        assert(rows.drop_last() =~= views(ls@).skip(1).take(i - 1));
        assert(rows.last() == ls@[i as int]@);
        match nettop_row_exec(&ls[i]) {
            Some((pid, bytes_in, bytes_out)) => {
                let prev: (u64, u64) = match out.get(&pid) {
                    Some(p) => *p,
                    None => (0, 0),
                };
                out.insert(pid, (prev.0.saturating_add(bytes_in), prev.1.saturating_add(bytes_out)));
            },
            None => {},
        }
        i += 1;
    }
    assert(views(ls@).skip(1).take(ls@.len() - 1) =~= views(ls@).skip(1));
    out
}

/// `a - b`, or 0 where `b` is larger.
pub open spec fn sat_sub(a: u64, b: u64) -> u64 {
    if a >= b {
        (a - b) as u64
    } else {
        0
    }
}

/// Byte growth per process between two counter readings: for each pid in
/// both, (in, out) now less before, floored at 0 (a reused pid restarts
/// its counters); a pid missing from either reading has none.
pub open spec fn counter_growth(prev: Map<u32, (u64, u64)>, cur: Map<u32, (u64, u64)>) -> Map<
    u32,
    (u64, u64),
> {
    Map::new(
        |pid: u32| cur.contains_key(pid) && prev.contains_key(pid),
        |pid: u32| (sat_sub(cur[pid].0, prev[pid].0), sat_sub(cur[pid].1, prev[pid].1)),
    )
}

/// The byte growth of each process present in both readings.
pub fn counter_deltas(prev: &HashMap<u32, (u64, u64)>, cur: &HashMap<u32, (u64, u64)>) -> (r: HashMap<
    u32,
    (u64, u64),
>)
    ensures
        r@ == counter_growth(prev@, cur@),
{
    let mut out: HashMap<u32, (u64, u64)> = HashMap::new();
    let ghost g = counter_growth(prev@, cur@);
    for e in it: cur.iter()
        invariant
            g == counter_growth(prev@, cur@),
            forall|i: int| 0 <= i < it.seq().len() ==> cur@.contains_key(*it.seq()[i].0) && cur@[*it.seq()[i].0] == *it.seq()[i].1,
            forall|k: u32| cur@.contains_key(k) ==> exists|i: int| 0 <= i < it.seq().len() && *it.seq()[i].0 == k,
            forall|k: u32| #[trigger] out@.contains_key(k) ==> g.contains_key(k) && out@[k] == g[k],
            forall|i: int| 0 <= i < it.index() && prev@.contains_key(*it.seq()[i].0) ==> #[trigger] out@.contains_key(*it.seq()[i].0),
    {
        let (pid, now) = e;
        match prev.get(pid) {
            Some(before) => {
                out.insert(*pid, (now.0.saturating_sub(before.0), now.1.saturating_sub(before.1)));
            },
            None => {},
        }
    }
    assert(out@ =~= g);
    out
}

/// The process name of an `ss` `users:((\"name\",pid=N,fd=M))` field:
/// the text between its first two double quotes.
pub open spec fn ss_process_name(field: Seq<char>) -> Option<Seq<char>> {
    let parts = split_on(field, '"');
    if parts.len() > 1 {
        Some(parts[1])
    } else {
        None
    }
}

/// The pid of an `ss` users field: the digits after the first `pid=`, up
/// to the next `,` (or the next `pid=`).
pub open spec fn ss_process_pid(field: Seq<char>) -> Option<u32> {
    match find_sub(field, "pid="@) {
        Some(i) => {
            let t = field.skip((i + "pid="@.len()) as int);
            let seg = match find_sub(t, "pid="@) {
                Some(j) => t.take(j as int),
                None => t,
            };
            parse_u32(split_on(seg, ',')[0])
        },
        None => None,
    }
}

/// Reads the pid and process name out of an `ss` users field.
pub fn parse_ss_process(field: &str) -> (r: (Option<u32>, Option<String>))
    ensures
        r.0 == ss_process_pid(field@),
        match r.1 {
            Some(n) => ss_process_name(field@) == Some(n@),
            None => ss_process_name(field@) is None,
        },
{
    let v = chars_of(field);
    let quoted = split_char(&v, '"');
    let name = if quoted.len() > 1 {
        assert(views(quoted@)[1] == quoted@[1]@);
        Some(string_of(&quoted[1]))
    } else {
        None
    };
    let key = chars_of("pid=");
    assert(v@.skip(0) =~= v@);
    let pid = match find_sub_from(&v, 0, &key) {
        Some(i) => {
            let n = v.len();
            assert(i + key@.len() <= n);
            let start = i + key.len();
            let t = sub_vec(&v, start, v.len());
            assert(t@ =~= v@.skip(start as int));
            assert(t@.skip(0) =~= t@);
            let seg = match find_sub_from(&t, 0, &key) {
                Some(j) => {
                    let s = sub_vec(&t, 0, j);
                    assert(s@ =~= t@.take(j as int));
                    s
                },
                None => t,
            };
            let pieces = split_char(&seg, ',');
            proof {
                lemma_split_on_nonempty(seg@, ',');
            }
            assert(views(pieces@)[0] == pieces@[0]@);
            parse_u32_chars(&pieces[0])
        },
        None => None,
    };
    (pid, name)
}


/// The Unicode upper case of `s`, as `str::to_uppercase` gives it.
pub uninterp spec fn unicode_upper(s: Seq<char>) -> Seq<char>;

/// Calls `str::to_uppercase`. Its result is named: a function of the
/// text alone (Unicode's case tables), not written out here.
#[verifier::external_body]
fn to_uppercase(s: &str) -> (r: String)
    ensures
        r@ == unicode_upper(s@),
{
    s.to_uppercase()
}

/// A detail line of `ss -i` output: it starts with whitespace and belongs
/// to the socket row above it.
pub open spec fn is_detail_line(l: Seq<char>) -> bool {
    l.len() > 0 && crate::text::is_ws(l[0])
}

/// The smoothed RTT text of the first `rtt:srtt/rttvar` token among `ws`.
pub open spec fn first_rtt(ws: Seq<Seq<char>>) -> Option<Seq<char>>
    decreases ws.len(),
{
    if ws.len() == 0 {
        None
    } else if has_prefix(ws[0], "rtt:"@) {
        Some(split_on(ws[0].skip("rtt:"@.len() as int), '/')[0])
    } else {
        first_rtt(ws.drop_first())
    }
}

/// The first column that starts with `users:`.
pub open spec fn first_users(cols: Seq<Seq<char>>) -> Option<Seq<char>>
    decreases cols.len(),
{
    if cols.len() == 0 {
        None
    } else if has_prefix(cols[0], "users:"@) {
        Some(cols[0])
    } else {
        first_users(cols.drop_first())
    }
}

/// The socket of one `ss -tunapi` row: Netid, State, Recv-Q, Send-Q,
/// local and peer address, then optionally a users field anywhere after.
pub open spec fn ss_row(l: Seq<char>) -> Option<ConnectionView> {
    let cols = words(l);
    if cols.len() < 6 {
        None
    } else {
        let users = first_users(cols);
        Some(
            ConnectionView {
                protocol: unicode_upper(cols[0]),
                local_addr: cols[4],
                remote_addr: cols[5],
                state: if cols[1] == "ESTAB"@ {
                    "ESTABLISHED"@
                } else {
                    cols[1]
                },
                pid: match users {
                    Some(u) => ss_process_pid(u),
                    None => None,
                },
                process_name: match users {
                    Some(u) => ss_process_name(u),
                    None => None,
                },
                rtt_samples: Seq::empty(),
            },
        )
    }
}

/// The sockets of the rows `ls`, each with the RTT texts of the detail
/// lines that follow it.
pub open spec fn ss_fold(ls: Seq<Seq<char>>) -> Seq<ConnectionView>
    decreases ls.len(),
{
    if ls.len() == 0 {
        Seq::empty()
    } else {
        let prev = ss_fold(ls.drop_last());
        let l = ls.last();
        if is_detail_line(l) {
            match first_rtt(words(l)) {
                Some(t) => if prev.len() > 0 {
                    prev.update(
                        prev.len() - 1,
                        ConnectionView { rtt_samples: prev.last().rtt_samples.push(t), ..prev.last() },
                    )
                } else {
                    prev
                },
                None => prev,
            }
        } else {
            match ss_row(l) {
                Some(c) => prev.push(c),
                None => prev,
            }
        }
    }
}

/// What `parse_ss_connections` gives for `text`.
pub open spec fn ss_connections(text: Seq<char>) -> Seq<ConnectionView> {
    ss_fold(after_header(lines_of(text)))
}

fn first_rtt_exec(ws: &Vec<Vec<char>>) -> (r: Option<String>)
    ensures
        match r {
            Some(t) => first_rtt(views(ws@)) == Some(t@),
            None => first_rtt(views(ws@)) is None,
        },
{
    let key = chars_of("rtt:");
    let mut i: usize = 0;
    assert(views(ws@).skip(0) =~= views(ws@));
    while i < ws.len()
        invariant
            i <= ws@.len(),
            key@ == "rtt:"@,
            first_rtt(views(ws@)) == first_rtt(views(ws@).skip(i as int)),
        decreases ws@.len() - i,
    {
        assert(views(ws@).skip(i as int).drop_first() =~= views(ws@).skip(i + 1));
        assert(views(ws@).skip(i as int)[0] == ws@[i as int]@);
        if starts_with(&ws[i], &key) {
            let rest = sub_vec(&ws[i], key.len(), ws[i].len());
            let parts = split_char(&rest, '/');
            proof {
                lemma_split_on_nonempty(rest@, '/');
            }
            assert(views(parts@)[0] == parts@[0]@);
            return Some(string_of(&parts[0]));
        }
        i += 1;
    }
    None
}

fn find_users(cols: &Vec<Vec<char>>) -> (r: Option<usize>)
    ensures
        match r {
            Some(k) => k < cols@.len() && first_users(views(cols@)) == Some(cols@[k as int]@),
            None => first_users(views(cols@)) is None,
        },
{
    let key = chars_of("users:");
    let mut i: usize = 0;
    assert(views(cols@).skip(0) =~= views(cols@));
    while i < cols.len()
        invariant
            i <= cols@.len(),
            key@ == "users:"@,
            first_users(views(cols@)) == first_users(views(cols@).skip(i as int)),
        decreases cols@.len() - i,
    {
        assert(views(cols@).skip(i as int).drop_first() =~= views(cols@).skip(i + 1));
        assert(views(cols@).skip(i as int)[0] == cols@[i as int]@);
        if starts_with(&cols[i], &key) {
            return Some(i);
        }
        i += 1;
    }
    None
}

fn ss_row_exec(l: &Vec<char>) -> (r: Option<Connection>)
    ensures
        match r {
            Some(c) => ss_row(l@) == Some(c@),
            None => ss_row(l@) is None,
        },
{
    let cols = split_words(l);
    if cols.len() < 6 {
        return None;
    }
    assert(views(cols@)[0] == cols@[0]@);
    assert(views(cols@)[1] == cols@[1]@);
    assert(views(cols@)[4] == cols@[4]@);
    assert(views(cols@)[5] == cols@[5]@);
    let protocol = to_uppercase(string_of(&cols[0]).as_str());
    let state = if eq_chars(&cols[1], &chars_of("ESTAB")) {
        "ESTABLISHED".to_owned()
    } else {
        string_of(&cols[1])
    };
    let users = find_users(&cols);
    let (pid, process_name) = match users {
        Some(k) => parse_ss_process(string_of(&cols[k]).as_str()),
        None => (None, None),
    };
    let ghost w = words(l@);
    assert(w == views(cols@));
    assert(w[0] == cols@[0]@);
    assert(w[1] == cols@[1]@);
    let ghost u = first_users(w);
    assert(pid == match u {
        Some(x) => ss_process_pid(x),
        None => None,
    });
    assert(match process_name {
        Some(n) => Some(n@),
        None => None,
    } == match u {
        Some(x) => ss_process_name(x),
        None => None,
    });
    assert(protocol@ == unicode_upper(w[0]));
    let c = Connection {
        protocol,
        local_addr: string_of(&cols[4]),
        remote_addr: string_of(&cols[5]),
        state,
        pid,
        process_name,
        rtt_samples: Vec::new(),
    };
    assert(c@.rtt_samples =~= Seq::<Seq<char>>::empty());
    Some(c)
}

/// Parses `ss -tunapi` output into sockets: each row after the header
/// with at least six columns is one socket (the state `ESTAB` spelt out
/// as `ESTABLISHED`, the protocol upper-cased), with the pid and process
/// name of its users field and the RTT texts of its detail lines.
pub fn parse_ss_connections(text: &str) -> (r: Vec<Connection>)
    ensures
        connections_view(r@) == ss_connections(text@),
{
    let chars = chars_of(text);
    let ls = lines(&chars);
    let mut out: Vec<Connection> = Vec::new();
    if ls.len() == 0 {
        assert(connections_view(out@) =~= Seq::<ConnectionView>::empty());
        return out;
    }
    let mut cur: Option<Connection> = None;
    let mut i: usize = 1;
    assert(views(ls@).skip(1).take(0) =~= Seq::<Seq<char>>::empty());
    while i < ls.len()
        invariant
            1 <= i <= ls@.len(),
            views(ls@) == lines_of(text@),
            cur is None ==> out@.len() == 0,
            ss_fold(views(ls@).skip(1).take(i - 1)) == connections_view(out@) + match cur {
                Some(c) => seq![c@],
                None => Seq::empty(),
            },
        decreases ls@.len() - i,
    {
        let ghost rows = views(ls@).skip(1).take(i as int);
        assert(rows.drop_last() =~= views(ls@).skip(1).take(i - 1));
        assert(rows.last() == ls@[i as int]@);
        let l = &ls[i];
        if l.len() > 0 && crate::text::is_whitespace(l[0]) {
            let ws = split_words(l);
            match first_rtt_exec(&ws) {
                Some(t) => {
                    match cur {
                        Some(mut c) => {
                            let ghost before = c@;
                            c.rtt_samples.push(t);
                            assert(c@.rtt_samples =~= before.rtt_samples.push(t@));
                            cur = Some(c);
                            let ghost prev = connections_view(out@).push(before);
                            assert(prev.update(prev.len() - 1, c@) =~= connections_view(out@).push(c@));
                        },
                        None => {},
                    }
                },
                None => {},
            }
        } else {
            match ss_row_exec(l) {
                Some(c) => {
                    match cur {
                        Some(p) => {
                            let ghost old_out = out@;
                            out.push(p);
                            assert(connections_view(out@) =~= connections_view(old_out).push(p@));
                        },
                        None => {},
                    }
                    cur = Some(c);
                },
                None => {},
            }
        }
        proof {
            let prev = ss_fold(rows.drop_last());
            assert(ss_fold(rows) == connections_view(out@) + match cur {
                Some(c) => seq![c@],
                None => Seq::empty(),
            }) by {
                assert(connections_view(out@) + Seq::<ConnectionView>::empty() =~= connections_view(out@));
            }
        }
        i += 1;
    }
    assert(views(ls@).skip(1).take(ls@.len() - 1) =~= views(ls@).skip(1));
    match cur {
        Some(c) => {
            let ghost old_out = out@;
            out.push(c);
            assert(connections_view(out@) =~= connections_view(old_out).push(c@));
        },
        None => {
            assert(connections_view(out@) =~= connections_view(out@) + Seq::<ConnectionView>::empty());
        },
    }
    out
}


/// `s` without leading `[` and `]` characters.
pub open spec fn trim_start_brackets(s: Seq<char>) -> Seq<char>
    decreases s.len(),
{
    if s.len() > 0 && (s[0] == '[' || s[0] == ']') {
        trim_start_brackets(s.drop_first())
    } else {
        s
    }
}

/// `s` without trailing `[` and `]` characters.
pub open spec fn trim_end_brackets(s: Seq<char>) -> Seq<char>
    decreases s.len(),
{
    if s.len() > 0 && (s.last() == '[' || s.last() == ']') {
        trim_end_brackets(s.drop_last())
    } else {
        s
    }
}

/// `s` with `[` and `]` trimmed from both ends.
pub open spec fn trim_brackets(s: Seq<char>) -> Seq<char> {
    trim_end_brackets(trim_start_brackets(s))
}

fn trim_brackets_exec(v: &[char], from: usize, to: usize) -> (r: String)
    requires
        from <= to <= v@.len(),
    ensures
        r@ == trim_brackets(v@.subrange(from as int, to as int)),
{
    let mut a = from;
    while a < to && (v[a] == '[' || v[a] == ']')
        invariant
            from <= a <= to <= v@.len(),
            trim_start_brackets(v@.subrange(from as int, to as int)) == trim_start_brackets(
                v@.subrange(a as int, to as int),
            ),
        decreases to - a,
    {
        assert(v@.subrange(a as int, to as int).drop_first() =~= v@.subrange(a + 1, to as int));
        a += 1;
    }
    let mut b = to;
    while b > a && (v[b - 1] == '[' || v[b - 1] == ']')
        invariant
            from <= a <= b <= to <= v@.len(),
            trim_start_brackets(v@.subrange(from as int, to as int)) == v@.subrange(a as int, to as int),
            trim_brackets(v@.subrange(from as int, to as int)) == trim_end_brackets(
                v@.subrange(a as int, b as int),
            ),
        decreases b - a,
    {
        assert(v@.subrange(a as int, b as int).drop_last() =~= v@.subrange(a as int, b - 1));
        b -= 1;
    }
    string_of(&sub_vec(v, a, b))
}

/// The state of the `lsof -F pcPtTn` reader between lines.
pub struct LsofScan {
    pub pid: Option<u32>,
    pub process_name: Option<Seq<char>>,
    pub protocol: Seq<char>,
    pub state: Seq<char>,
    pub local_addr: Seq<char>,
    pub remote_addr: Seq<char>,
    /// An `n` line has been read since the last socket was emitted.
    pub has_network: bool,
    pub out: Seq<ConnectionView>,
}

/// Emits the socket read so far, if an address line has been seen.
pub open spec fn lsof_flush(st: LsofScan) -> LsofScan {
    if st.has_network {
        LsofScan {
            out: st.out.push(
                ConnectionView {
                    protocol: st.protocol,
                    local_addr: st.local_addr,
                    remote_addr: st.remote_addr,
                    state: st.state,
                    pid: st.pid,
                    process_name: st.process_name,
                    rtt_samples: Seq::empty(),
                },
            ),
            has_network: false,
            ..st
        }
    } else {
        st
    }
}

/// One field line: a tag character, then its value. `p` starts a process
/// (emitting the pending socket), `c` names it, `f` starts a file
/// (emitting the pending socket and forgetting protocol and state), `P`
/// is the protocol, `T` a TCP/TPI field of which `ST=` is the state, `n`
/// the address pair `local->remote` (or a local address alone, whose peer
/// is then `*:*`); other tags are ignored.
pub open spec fn lsof_line(st: LsofScan, l: Seq<char>) -> LsofScan {
    if l.len() == 0 {
        st
    } else {
        let tag = l[0];
        let v = l.skip(1);
        if tag == 'p' {
            LsofScan { pid: parse_u32(v), process_name: None, ..lsof_flush(st) }
        } else if tag == 'c' {
            LsofScan { process_name: Some(v), ..st }
        } else if tag == 'f' {
            LsofScan { protocol: Seq::empty(), state: Seq::empty(), ..lsof_flush(st) }
        } else if tag == 'P' {
            LsofScan { protocol: v, ..st }
        } else if tag == 'T' {
            if has_prefix(v, "ST="@) {
                LsofScan { state: v.skip("ST="@.len() as int), ..st }
            } else {
                st
            }
        } else if tag == 'n' {
            match find_sub(v, "->"@) {
                Some(k) => LsofScan {
                    local_addr: trim_brackets(v.take(k as int)),
                    remote_addr: trim_brackets(v.skip((k + "->"@.len()) as int)),
                    has_network: true,
                    ..st
                },
                None => LsofScan { local_addr: v, remote_addr: "*:*"@, has_network: true, ..st },
            }
        } else {
            st
        }
    }
}

/// Reads the lines `ls` in order.
pub open spec fn lsof_fold(ls: Seq<Seq<char>>) -> LsofScan
    decreases ls.len(),
{
    if ls.len() == 0 {
        LsofScan {
            pid: None,
            process_name: None,
            protocol: Seq::empty(),
            state: Seq::empty(),
            local_addr: Seq::empty(),
            remote_addr: Seq::empty(),
            has_network: false,
            out: Seq::empty(),
        }
    } else {
        lsof_line(lsof_fold(ls.drop_last()), ls.last())
    }
}

/// What `parse_macos_lsof_connections` gives for `text`.
pub open spec fn lsof_connections(text: Seq<char>) -> Seq<ConnectionView> {
    lsof_flush(lsof_fold(lines_of(text))).out
}

/// Every non-empty line starts with an ASCII character (its tag).
pub open spec fn lsof_tags_ascii(text: Seq<char>) -> bool {
    forall|i: int|
        0 <= i < lines_of(text).len() && lines_of(text)[i].len() > 0 ==> (
        #[trigger] lines_of(text)[i])[0] < '\u{80}'
}

fn opt_string(o: &Option<String>) -> (r: Option<String>)
    ensures
        match r {
            Some(s) => o is Some && s@ == o->0@,
            None => o is None,
        },
{
    match o {
        Some(s) => Some(s.clone()),
        None => None,
    }
}

struct LsofReader {
    pid: Option<u32>,
    process_name: Option<String>,
    protocol: String,
    state: String,
    local_addr: String,
    remote_addr: String,
    has_network: bool,
    out: Vec<Connection>,
}

impl LsofReader {
    spec fn scan(&self) -> LsofScan {
        LsofScan {
            pid: self.pid,
            process_name: match self.process_name {
                Some(n) => Some(n@),
                None => None,
            },
            protocol: self.protocol@,
            state: self.state@,
            local_addr: self.local_addr@,
            remote_addr: self.remote_addr@,
            has_network: self.has_network,
            out: connections_view(self.out@),
        }
    }

    fn flush(&mut self)
        ensures
            final(self).scan() == lsof_flush(old(self).scan()),
    {
        if self.has_network {
            let c = Connection {
                protocol: self.protocol.clone(),
                local_addr: self.local_addr.clone(),
                remote_addr: self.remote_addr.clone(),
                state: self.state.clone(),
                pid: self.pid,
                process_name: opt_string(&self.process_name),
                rtt_samples: Vec::new(),
            };
            assert(c@.rtt_samples =~= Seq::<Seq<char>>::empty());
            let ghost old_out = self.out@;
            self.out.push(c);
            self.has_network = false;
            assert(connections_view(self.out@) =~= connections_view(old_out).push(c@));
        }
    }

    fn line(&mut self, l: &Vec<char>)
        ensures
            final(self).scan() == lsof_line(old(self).scan(), l@),
    {
        if l.len() == 0 {
            return;
        }
        let tag = l[0];
        let value = sub_vec(l, 1, l.len());
        assert(value@ =~= l@.skip(1));
        if tag == 'p' {
            self.flush();
            self.pid = parse_u32_chars(&value);
            self.process_name = None;
        } else if tag == 'c' {
            self.process_name = Some(string_of(&value));
        } else if tag == 'f' {
            self.flush();
            self.protocol = String::new();
            self.state = String::new();
        } else if tag == 'P' {
            self.protocol = string_of(&value);
        } else if tag == 'T' {
            let st = chars_of("ST=");
            if starts_with(&value, &st) {
                self.state = string_of(&sub_vec(&value, st.len(), value.len()));
                assert(value@.subrange(st@.len() as int, value@.len() as int) =~= value@.skip(
                    "ST="@.len() as int,
                ));
            }
        } else if tag == 'n' {
            let arrow = chars_of("->");
            assert(value@.skip(0) =~= value@);
            match find_sub_from(&value, 0, &arrow) {
                Some(k) => {
                    self.local_addr = trim_brackets_exec(&value, 0, k);
                    self.remote_addr = trim_brackets_exec(&value, k + arrow.len(), value.len());
                    assert(value@.subrange(0, k as int) =~= value@.take(k as int));
                    assert(value@.subrange((k + arrow@.len()) as int, value@.len() as int)
                        =~= value@.skip((k + "->"@.len()) as int));
                },
                None => {
                    self.local_addr = string_of(&value);
                    self.remote_addr = "*:*".to_owned();
                },
            }
            self.has_network = true;
        }
    }
}

/// Parses `lsof -i -n -P -F pcPtTn` field output into sockets, one per
/// file that carried an address line, with the pid and command of the
/// process it belongs to.
pub fn parse_macos_lsof_connections(text: &str) -> (r: Vec<Connection>)
    requires
        lsof_tags_ascii(text@),
    ensures
        connections_view(r@) == lsof_connections(text@),
{
    let chars = chars_of(text);
    let ls = lines(&chars);
    let mut rd = LsofReader {
        pid: None,
        process_name: None,
        protocol: String::new(),
        state: String::new(),
        local_addr: String::new(),
        remote_addr: String::new(),
        has_network: false,
        out: Vec::new(),
    };
    assert(rd.scan() == lsof_fold(views(ls@).take(0))) by {
        assert(connections_view(rd.out@) =~= Seq::<ConnectionView>::empty());
    }
    let mut i: usize = 0;
    while i < ls.len()
        invariant
            i <= ls@.len(),
            views(ls@) == lines_of(text@),
            rd.scan() == lsof_fold(views(ls@).take(i as int)),
        decreases ls@.len() - i,
    {
        assert(views(ls@).take(i + 1).drop_last() =~= views(ls@).take(i as int));
        assert(views(ls@).take(i + 1).last() == ls@[i as int]@);
        rd.line(&ls[i]);
        i += 1;
    }
    assert(views(ls@).take(ls@.len() as int) =~= views(ls@));
    rd.flush();
    rd.out
}


/// Processes that get a share of the throughput, at most this many.
pub const MAX_PROCS: usize = 256;

/// The pid of each socket that earns a share, in socket order.
pub open spec fn attributed_pids(cs: Seq<ConnectionView>) -> Seq<u32>
    decreases cs.len(),
{
    if cs.len() == 0 {
        Seq::empty()
    } else {
        let prev = attributed_pids(cs.drop_last());
        let c = cs.last();
        if c.pid is Some && attributable(c) {
            prev.push(c.pid->0)
        } else {
            prev
        }
    }
}

/// The position of `pid` in a tally.
pub open spec fn tally_index(t: Seq<(u32, u32)>, pid: u32) -> Option<nat>
    decreases t.len(),
{
    if t.len() == 0 {
        None
    } else if t.last().0 == pid {
        match tally_index(t.drop_last(), pid) {
            Some(i) => Some(i),
            None => Some((t.len() - 1) as nat),
        }
    } else {
        tally_index(t.drop_last(), pid)
    }
}

/// (pid, number of occurrences) for each pid of `ps`, in order of first
/// occurrence.
pub open spec fn tally(ps: Seq<u32>) -> Seq<(u32, u32)>
    decreases ps.len(),
{
    if ps.len() == 0 {
        Seq::empty()
    } else {
        let t = tally(ps.drop_last());
        let p = ps.last();
        match tally_index(t, p) {
            Some(i) => t.update(i as int, (p, (t[i as int].1 + 1) as u32)),
            None => t.push((p, 1u32)),
        }
    }
}

/// Larger counts first.
pub open spec fn count_desc(a: (u32, u32), b: (u32, u32)) -> bool {
    a.1 >= b.1
}

/// What `attribution_counts` gives: the per-process socket counts,
/// largest first, cut to `MAX_PROCS`, and the number of sockets counted.
pub open spec fn attribution(cs: Seq<ConnectionView>) -> (Seq<(u32, u32)>, nat) {
    let ps = attributed_pids(cs);
    let sorted = crate::sort::sort_by(|a: (u32, u32), b: (u32, u32)| count_desc(a, b), tally(ps));
    (
        if sorted.len() > MAX_PROCS {
            sorted.take(MAX_PROCS as int)
        } else {
            sorted
        },
        ps.len(),
    )
}

proof fn lemma_tally_index(t: Seq<(u32, u32)>, pid: u32)
    ensures
        tally_index(t, pid) matches Some(i) ==> i < t.len() && t[i as int].0 == pid,
        tally_index(t, pid) is None ==> forall|j: int| 0 <= j < t.len() ==> t[j].0 != pid,
    decreases t.len(),
{
    if t.len() > 0 {
        lemma_tally_index(t.drop_last(), pid);
        assert forall|j: int| 0 <= j < t.len() - 1 implies t[j] == t.drop_last()[j] by {}
    }
}

proof fn lemma_tally_bounded(ps: Seq<u32>)
    ensures
        tally(ps).len() <= ps.len(),
        forall|j: int| 0 <= j < tally(ps).len() ==> tally(ps)[j].1 <= ps.len(),
    decreases ps.len(),
{
    if ps.len() > 0 {
        lemma_tally_bounded(ps.drop_last());
        lemma_tally_index(tally(ps.drop_last()), ps.last());
    }
}

fn find_pid(t: &Vec<(u32, u32)>, pid: u32) -> (r: Option<usize>)
    ensures
        r == (match tally_index(t@, pid) {
            Some(i) => Some(i as usize),
            None => None,
        }),
{
    let mut i: usize = 0;
    while i < t.len()
        invariant
            i <= t@.len(),
            forall|j: int| 0 <= j < i ==> t@[j].0 != pid,
        decreases t@.len() - i,
    {
        if t[i].0 == pid {
            proof {
                lemma_first_index(t@, pid, i as int);
            }
            return Some(i);
        }
        i += 1;
    }
    proof {
        lemma_first_index(t@, pid, t@.len() as int);
    }
    None
}

proof fn lemma_first_index(t: Seq<(u32, u32)>, pid: u32, i: int)
    requires
        0 <= i <= t.len(),
        forall|j: int| 0 <= j < i ==> t[j].0 != pid,
        i < t.len() ==> t[i].0 == pid,
    ensures
        tally_index(t, pid) == (if i < t.len() {
            Some(i as nat)
        } else {
            None
        }),
    decreases t.len(),
{
    if t.len() > 0 {
        if i < t.len() - 1 {
            lemma_first_index(t.drop_last(), pid, i);
        } else if i == t.len() - 1 {
            lemma_first_index(t.drop_last(), pid, i);
        } else {
            lemma_first_index(t.drop_last(), pid, i - 1);
        }
    }
}

fn count_desc_exec(a: &(u32, u32), b: &(u32, u32)) -> (r: bool)
    ensures
        r == count_desc(*a, *b),
{
    a.1 >= b.1
}

/// Counts the sockets that earn a share of the host's throughput per
/// process: (pid, sockets) largest first (ties in order of first
/// appearance), at most `MAX_PROCS` of them, and the number of sockets
/// counted in all.
pub fn attribution_counts(conns: &Vec<Connection>) -> (r: (Vec<(u32, u32)>, u32))
    requires
        conns@.len() <= u32::MAX,
    ensures
        (r.0@, r.1 as nat) == attribution(connections_view(conns@)),
{
    let ghost cv = connections_view(conns@);
    let mut t: Vec<(u32, u32)> = Vec::new();
    let mut total: u32 = 0;
    let mut i: usize = 0;
    while i < conns.len()
        invariant
            i <= conns@.len() <= u32::MAX,
            cv == connections_view(conns@),
            t@ == tally(attributed_pids(cv.take(i as int))),
            total == attributed_pids(cv.take(i as int)).len(),
            total <= i,
        decreases conns@.len() - i,
    {
        let ghost before = attributed_pids(cv.take(i as int));
        assert(cv.take(i + 1).drop_last() =~= cv.take(i as int));
        assert(cv.take(i + 1).last() == conns@[i as int]@);
        proof {
            lemma_tally_bounded(before);
        }
        let c = &conns[i];
        if c.pid.is_some() && counts_toward_attribution(c) {
            let pid = c.pid.unwrap();
            proof {
                lemma_tally_index(t@, pid);
            }
            assert(before.push(pid).drop_last() =~= before);
            assert(attributed_pids(cv.take(i + 1)) == before.push(pid));
            match find_pid(&t, pid) {
                Some(k) => {
                    let n = t[k].1;
                    t.set(k, (pid, n + 1));
                },
                None => {
                    t.push((pid, 1));
                },
            }
            total += 1;
        } else {
            assert(attributed_pids(cv.take(i + 1)) == before);
        }
        i += 1;
    }
    assert(cv.take(conns@.len() as int) =~= cv);
    let sorted = crate::sort::insertion_sort(
        t,
        count_desc_exec,
        Ghost(|a: (u32, u32), b: (u32, u32)| count_desc(a, b)),
    );
    let mut sorted = sorted;
    if sorted.len() > MAX_PROCS {
        sorted.truncate(MAX_PROCS);
    }
    (sorted, total)
}

/// A line that sets a socket's state: a `T` field of the form `ST=...`.
pub open spec fn lsof_state_line(l: Seq<char>) -> bool {
    l.len() > 0 && l[0] == 'T' && has_prefix(l.skip(1), "ST="@)
}

/// A socket's state comes only from an `ST=` field read after its own
/// `f` line: after the lines `pre`, a file whose lines `file` (its `f`
/// line first) hold no `ST=` field has the empty state, whatever earlier
/// files had, and so does the socket it emits.
pub proof fn lemma_lsof_state_is_per_file(pre: Seq<Seq<char>>, file: Seq<Seq<char>>)
    requires
        file.len() > 0,
        file[0].len() > 0,
        file[0][0] == 'f',
        forall|i: int| 0 <= i < file.len() ==> !lsof_state_line(#[trigger] file[i]),
    ensures
        lsof_fold(pre + file).state == Seq::<char>::empty(),
        lsof_flush(lsof_fold(pre + file)).out.len() > lsof_fold(pre + file).out.len() ==> lsof_flush(
            lsof_fold(pre + file),
        ).out.last().state == Seq::<char>::empty(),
    decreases file.len(),
{
    let all = pre + file;
    assert(all.drop_last() =~= pre + file.drop_last());
    if file.len() == 1 {
        assert(all.drop_last() =~= pre);
        assert(all.last() == file[0]);
    } else {
        let f2 = file.drop_last();
        assert forall|i: int| 0 <= i < f2.len() implies !lsof_state_line(#[trigger] f2[i]) by {
            assert(f2[i] == file[i]);
        }
        lemma_lsof_state_is_per_file(pre, f2);
        assert(all.last() == file[file.len() - 1]);
        assert(!lsof_state_line(file[file.len() - 1]));
    }
}

/// A line that sets a socket's protocol: a `P` field.
pub open spec fn lsof_protocol_line(l: Seq<char>) -> bool {
    l.len() > 0 && l[0] == 'P'
}

/// Likewise for the protocol: a file whose lines hold no `P` field has the
/// empty protocol, whatever the earlier files of the process had.
pub proof fn lemma_lsof_protocol_is_per_file(pre: Seq<Seq<char>>, file: Seq<Seq<char>>)
    requires
        file.len() > 0,
        file[0].len() > 0,
        file[0][0] == 'f',
        forall|i: int| 0 <= i < file.len() ==> !lsof_protocol_line(#[trigger] file[i]),
    ensures
        lsof_fold(pre + file).protocol == Seq::<char>::empty(),
    decreases file.len(),
{
    let all = pre + file;
    assert(all.drop_last() =~= pre + file.drop_last());
    if file.len() == 1 {
        assert(all.drop_last() =~= pre);
        assert(all.last() == file[0]);
    } else {
        let f2 = file.drop_last();
        assert forall|i: int| 0 <= i < f2.len() implies !lsof_protocol_line(#[trigger] f2[i]) by {
            assert(f2[i] == file[i]);
        }
        lemma_lsof_protocol_is_per_file(pre, f2);
        assert(all.last() == file[file.len() - 1]);
        assert(!lsof_protocol_line(file[file.len() - 1]));
    }
}

/// What each `lsof -F` field line does to the reader: `p` and `f` emit the
/// socket read so far (if an address was seen) with its protocol, state,
/// addresses and process; `p` then takes the new pid and forgets the
/// process name, keeping protocol and state; `f` forgets protocol and
/// state, keeping the process; `c` names the process; `P` sets the
/// protocol; `TST=x` sets the state to `x`; `n` sets the addresses (a
/// local one alone gets the peer `*:*`) and marks an address as seen.
/// No field but `p` and `f` emits anything.
pub proof fn lemma_lsof_line_fields(st: LsofScan, l: Seq<char>)
    requires
        l.len() > 0,
    ensures
        ({
            let r = lsof_line(st, l);
            let v = l.skip(1);
            let emitted = ConnectionView {
                protocol: st.protocol,
                local_addr: st.local_addr,
                remote_addr: st.remote_addr,
                state: st.state,
                pid: st.pid,
                process_name: st.process_name,
                rtt_samples: Seq::empty(),
            };
            let flushed_out = if st.has_network { st.out.push(emitted) } else { st.out };
            &&& (l[0] == 'p' || l[0] == 'f') ==> r.out == flushed_out && !r.has_network
            &&& !(l[0] == 'p' || l[0] == 'f') ==> r.out == st.out
            &&& l[0] == 'p' ==> r.pid == parse_u32(v) && r.process_name is None
                && r.protocol == st.protocol && r.state == st.state
            &&& l[0] == 'f' ==> r.pid == st.pid && r.process_name == st.process_name
                && r.protocol == Seq::<char>::empty() && r.state == Seq::<char>::empty()
            &&& l[0] == 'c' ==> r.process_name == Some(v) && r.pid == st.pid
            &&& l[0] == 'P' ==> r.protocol == v && r.state == st.state
            &&& l[0] == 'T' && v.len() >= 3 && v[0] == 'S' && v[1] == 'T' && v[2] == '=' ==> r.state
                == v.skip(3) && r.protocol == st.protocol
            &&& l[0] == 'T' && !(v.len() >= 3 && v[0] == 'S' && v[1] == 'T' && v[2] == '=') ==> r == st
            &&& l[0] == 'n' && find_sub(v, "->"@) is None ==> r.local_addr == v && r.remote_addr
                == "*:*"@ && r.has_network
            &&& l[0] == 'n' && find_sub(v, "->"@) is Some ==> r.local_addr == trim_brackets(
                v.take(find_sub(v, "->"@)->0 as int),
            ) && r.remote_addr == trim_brackets(v.skip((find_sub(v, "->"@)->0 + 2) as int)) && r.has_network
        }),
{
    reveal_strlit("ST=");
    reveal_strlit("->");
    let v = l.skip(1);
    if l[0] == 'T' && v.len() >= 3 && v[0] == 'S' && v[1] == 'T' && v[2] == '=' {
        assert(v.take(3) =~= "ST="@);
    }
    if has_prefix(v, "ST="@) {
        assert(v.take(3)[0] == 'S' && v.take(3)[1] == 'T' && v.take(3)[2] == '=');
    }
}

/// Which sockets earn a share of the throughput: none with an end on
/// loopback (`127.*`, `::1`); every other ESTABLISHED one; a UDP socket
/// with a concrete peer even without a state; never one whose peer is the
/// wildcard `*:*` unless ESTABLISHED, nor a TCP socket without a state.
pub proof fn lemma_attribution_rules(c: ConnectionView)
    ensures
        has_prefix(c.local_addr, "127."@) || has_prefix(c.remote_addr, "127."@) || has_prefix(
            c.local_addr,
            "::1"@,
        ) ==> !attributable(c),
        !loopback_addr(c.local_addr) && !loopback_addr(c.remote_addr) && c.state == "ESTABLISHED"@
            ==> attributable(c),
        c.remote_addr == "*:*"@ && c.state != "ESTABLISHED"@ ==> !attributable(c),
        c.protocol == "tcp"@ && c.state == Seq::<char>::empty() ==> !attributable(c),
        c.protocol == "udp"@ && !loopback_addr(c.local_addr) && !loopback_addr(c.remote_addr)
            && c.remote_addr.len() > 0 && !has_suffix(c.remote_addr, ":*"@) ==> attributable(c),
{
    reveal_strlit("*:*");
    reveal_strlit(":*");
    reveal_strlit("tcp");
    reveal_strlit("udp");
    reveal_strlit("ESTABLISHED");
    if c.remote_addr == "*:*"@ {
        assert(c.remote_addr.skip(1) =~= ":*"@);
        assert(has_suffix(c.remote_addr, ":*"@));
    }
    if c.protocol == "tcp"@ {
        assert(ascii_lower(c.protocol)[0] == 't');
    }
    if c.protocol == "udp"@ {
        assert(ascii_lower(c.protocol) =~= "udp"@);
    }
    if c.state == Seq::<char>::empty() {
        assert(c.state.len() != "ESTABLISHED"@.len());
    }
}

} // verus!
