use std::collections::HashMap;
use syswatch::proc_bandwidth::{
    attribution_counts, counter_deltas, counts_toward_attribution, has_peer, is_loopback_addr, is_loopback_iface,
    parse_macos_lsof_connections, parse_nettop, parse_ss_connections, parse_ss_process,
    Connection,
};

fn rtt_us(c: &Connection) -> Option<f64> {
    let mut rtt = None;
    for t in &c.rtt_samples {
        if let Ok(ms) = t.parse::<f64>() {
            rtt = Some(ms * 1000.0);
        }
    }
    rtt
}

#[test]
fn loopback_iface_names() {
    assert!(is_loopback_iface("lo"));
    assert!(is_loopback_iface("lo0"));
    assert!(is_loopback_iface("lo1"));
    assert!(!is_loopback_iface("local0"));
    assert!(!is_loopback_iface("en0"));
    assert!(!is_loopback_iface("eth0"));
}

#[test]
fn loopback_addr_forms() {
    assert!(is_loopback_addr("127.0.0.1:5432"));
    assert!(is_loopback_addr("[::1]:443"));
    assert!(is_loopback_addr("::1]:50000"));
    assert!(!is_loopback_addr("1.1.1.1:443"));
    assert!(!is_loopback_addr("[2001:db8::1]:443"));
}

#[test]
fn nettop_parses_cumulative_bytes_per_pid() {
    let text = "\
time,,bytes_in,bytes_out,
19:29:46.164657,apsd.357,363400,305841,
19:29:46.164658,mDNSResponder.407,93595431,55094516,
19:29:46.164659,com.apple.WebKi.27364,78373,985908,
";
    let map = parse_nettop(text);
    assert_eq!(map[&357], (363400, 305841));
    assert_eq!(map[&407], (93595431, 55094516));
    assert_eq!(map[&27364], (78373, 985908));
}

#[test]
fn nettop_handles_comma_in_process_name() {
    let text = "\
time,,bytes_in,bytes_out,
19:29:46.1,weird,name.42,100,200,
";
    let map = parse_nettop(text);
    assert_eq!(map[&42], (100, 200));
}

#[test]
fn nettop_skips_header_and_garbage() {
    let text = "\
time,,bytes_in,bytes_out,
not-a-row
19:29:46.1,nopid,100,200,
19:29:46.1,ok.7,x,200,
19:29:46.1,fine.9,1,2,
";
    let map = parse_nettop(text);
    assert_eq!(map.len(), 1);
    assert_eq!(map[&9], (1, 2));
}

#[test]
fn nettop_sums_repeated_pids_and_accepts_missing_trailing_comma() {
    let text = "h\nt,a.5,1,2\nt,b.5,10,20,\n";
    let map = parse_nettop(text);
    assert_eq!(map[&5], (11, 22));
    assert!(parse_nettop("").is_empty());
}

#[test]
fn ss_parser_extracts_pid_state_and_rtt() {
    let text = "\
Netid State  Recv-Q Send-Q Local Address:Port Peer Address:Port Process
tcp   ESTAB  0      0      127.0.0.1:55555 93.184.216.34:443 users:((\"curl\",pid=1234,fd=7))
         cubic wscale:7,7 rto:204 rtt:12.5/1.2 ato:40 mss:1448
";
    let conns = parse_ss_connections(text);
    assert_eq!(conns.len(), 1);
    assert_eq!(conns[0].protocol, "TCP");
    assert_eq!(conns[0].state, "ESTABLISHED");
    assert_eq!(conns[0].local_addr, "127.0.0.1:55555");
    assert_eq!(conns[0].remote_addr, "93.184.216.34:443");
    assert_eq!(conns[0].pid, Some(1234));
    assert_eq!(conns[0].process_name.as_deref(), Some("curl"));
    assert_eq!(rtt_us(&conns[0]), Some(12_500.0));
}

#[test]
fn ss_parser_ipv6_with_brackets() {
    let text = "\
Netid State Recv-Q Send-Q Local Address:Port           Peer Address:Port  Process
tcp   ESTAB 0      0      [2001:db8::1]:443            [2001:db8::2]:55555 users:((\"nginx\",pid=99,fd=10))
";
    let conns = parse_ss_connections(text);
    assert_eq!(conns.len(), 1);
    assert_eq!(conns[0].local_addr, "[2001:db8::1]:443");
    assert_eq!(conns[0].remote_addr, "[2001:db8::2]:55555");
    assert_eq!(conns[0].pid, Some(99));
    assert_eq!(conns[0].process_name.as_deref(), Some("nginx"));
}

#[test]
fn ss_parser_non_root_no_users_field() {
    let text = "\
Netid State Recv-Q Send-Q Local Address:Port Peer Address:Port
tcp   ESTAB 0      0      127.0.0.1:55555 93.184.216.34:443
";
    let conns = parse_ss_connections(text);
    assert_eq!(conns.len(), 1);
    assert_eq!(conns[0].pid, None);
    assert_eq!(conns[0].process_name, None);
    assert_eq!(conns[0].local_addr, "127.0.0.1:55555");
}

#[test]
fn ss_parser_udp_unconn_no_rtt() {
    let text = "\
Netid State  Recv-Q Send-Q Local Address:Port  Peer Address:Port  Process
udp   UNCONN 0      0      0.0.0.0:5353        0.0.0.0:*           users:((\"mDNSResponder\",pid=200,fd=15))
";
    let conns = parse_ss_connections(text);
    assert_eq!(conns.len(), 1);
    assert_eq!(conns[0].protocol, "UDP");
    assert_eq!(conns[0].state, "UNCONN");
    assert_eq!(conns[0].pid, Some(200));
    assert_eq!(rtt_us(&conns[0]), None);
}

#[test]
fn ss_process_field_reads_name_and_pid() {
    assert_eq!(parse_ss_process("users:((\"curl\",pid=1234,fd=7))"), (Some(1234), Some("curl".to_string())));
    assert_eq!(parse_ss_process("users:()"), (None, None));
    assert_eq!(parse_ss_process("pid=12pid=3,"), (Some(12), None));
}

#[test]
fn macos_lsof_parser_extracts_pid_and_established_state() {
    let text = "\
p123
cSafari
f42
Ptcp
TST=ESTABLISHED
n192.168.1.10:55555->17.253.144.10:443
";
    let conns = parse_macos_lsof_connections(text);
    assert_eq!(conns.len(), 1);
    assert_eq!(conns[0].pid, Some(123));
    assert_eq!(conns[0].process_name.as_deref(), Some("Safari"));
    assert_eq!(conns[0].protocol, "tcp");
    assert_eq!(conns[0].state, "ESTABLISHED");
    assert_eq!(conns[0].local_addr, "192.168.1.10:55555");
    assert_eq!(conns[0].remote_addr, "17.253.144.10:443");
    assert_eq!(rtt_us(&conns[0]), None);
}

#[test]
fn macos_lsof_parser_multiple_connections_per_pid() {
    let text = "\
p500
cChrome
f10
Ptcp
TST=ESTABLISHED
n10.0.0.1:55001->1.1.1.1:443
f11
Ptcp
TST=ESTABLISHED
n10.0.0.1:55002->8.8.8.8:443
";
    let conns = parse_macos_lsof_connections(text);
    assert_eq!(conns.len(), 2);
    for c in &conns {
        assert_eq!(c.pid, Some(500));
        assert_eq!(c.process_name.as_deref(), Some("Chrome"));
        assert_eq!(c.protocol, "tcp");
        assert_eq!(c.state, "ESTABLISHED");
    }
    assert_eq!(conns[0].remote_addr, "1.1.1.1:443");
    assert_eq!(conns[1].remote_addr, "8.8.8.8:443");
}

#[test]
fn macos_lsof_parser_ipv6_with_brackets() {
    let text = "\
p700
ccurl
f8
Ptcp
TST=ESTABLISHED
n[::1]:50000->[2001:db8::1]:443
";
    let conns = parse_macos_lsof_connections(text);
    assert_eq!(conns.len(), 1);
    assert_eq!(conns[0].local_addr, "::1]:50000");
    assert_eq!(conns[0].remote_addr, "2001:db8::1]:443");
}

#[test]
fn macos_lsof_parser_listen_socket_no_arrow() {
    let text = "\
p999
cnginx
f3
Ptcp
TST=LISTEN
n*:443
";
    let conns = parse_macos_lsof_connections(text);
    assert_eq!(conns.len(), 1);
    assert_eq!(conns[0].state, "LISTEN");
    assert_eq!(conns[0].local_addr, "*:443");
    assert_eq!(conns[0].remote_addr, "*:*");
}

#[test]
fn macos_lsof_parser_udp_no_state_field() {
    let text = "\
p400
cmDNSResponder
f5
Pudp
n*:5353
";
    let conns = parse_macos_lsof_connections(text);
    assert_eq!(conns.len(), 1);
    assert_eq!(conns[0].protocol, "udp");
    assert_eq!(conns[0].state, "");
    assert_eq!(conns[0].pid, Some(400));
}

fn conn(pid: u32, proto: &str, state: &str, local: &str, remote: &str) -> Connection {
    Connection {
        protocol: proto.into(),
        local_addr: local.into(),
        remote_addr: remote.into(),
        state: state.into(),
        pid: Some(pid),
        process_name: None,
        rtt_samples: Vec::new(),
    }
}

#[test]
fn attribution_skips_loopback_and_unconnected_udp() {
    assert!(counts_toward_attribution(&conn(1, "TCP", "ESTABLISHED", "192.168.1.5:5", "1.1.1.1:443")));
    assert!(!counts_toward_attribution(&conn(2, "TCP", "ESTABLISHED", "127.0.0.1:6", "127.0.0.1:5432")));
    assert!(counts_toward_attribution(&conn(3, "udp", "", "192.168.1.5:5", "142.250.70.78:443")));
    assert!(!counts_toward_attribution(&conn(4, "udp", "", "192.168.1.5:5", "*:*")));
    assert!(!counts_toward_attribution(&conn(5, "UDP", "UNCONN", "0.0.0.0:5353", "0.0.0.0:*")));
    assert!(has_peer("1.1.1.1:443"));
    assert!(!has_peer(""));
}

#[test]
fn attribution_counts_rank_processes_by_sockets() {
    let mut conns = vec![conn(1, "TCP", "ESTABLISHED", "192.168.1.5:1", "1.1.1.1:443")];
    for _ in 0..3 {
        conns.push(conn(2, "TCP", "ESTABLISHED", "192.168.1.5:2", "8.8.8.8:443"));
    }
    for _ in 0..8 {
        conns.push(conn(3, "TCP", "ESTABLISHED", "127.0.0.1:3", "127.0.0.1:5432"));
    }
    let (counts, total) = attribution_counts(&conns);
    assert_eq!(total, 4);
    assert_eq!(counts, vec![(2, 3), (1, 1)]);
}

#[test]
fn counter_deltas_keeps_pids_seen_twice_and_floors_resets() {
    let mut prev = HashMap::new();
    prev.insert(10u32, (100u64, 50u64));
    prev.insert(11u32, (900u64, 900u64));
    prev.insert(12u32, (1u64, 1u64));
    let mut cur = HashMap::new();
    cur.insert(10u32, (160u64, 50u64));
    cur.insert(11u32, (5u64, 1000u64));
    cur.insert(13u32, (7u64, 7u64));
    let d = counter_deltas(&prev, &cur);
    assert_eq!(d.len(), 2);
    assert_eq!(d.get(&10), Some(&(60, 0)));
    assert_eq!(d.get(&11), Some(&(0, 100)));
    assert_eq!(d.get(&12), None);
    assert_eq!(d.get(&13), None);
}

#[test]
fn counter_deltas_of_nettop_readings() {
    let before = parse_nettop("time,,bytes_in,bytes_out,\n12:00:00.000,curl.42,1000,200,\n");
    let after = parse_nettop("time,,bytes_in,bytes_out,\n12:00:01.000,curl.42,4000,260,\n");
    let d = counter_deltas(&before, &after);
    assert_eq!(d.get(&42), Some(&(3000, 60)));
}

fn conn_at(name: &str, pid: u32, proto: &str, state: &str, remote: &str) -> Connection {
    Connection {
        protocol: proto.into(),
        local_addr: "192.168.1.5:50000".into(),
        remote_addr: remote.into(),
        state: state.into(),
        pid: Some(pid),
        process_name: Some(name.into()),
        rtt_samples: Vec::new(),
    }
}

/// Splits one interface's rates by each process's share of counted
/// sockets, as the dashboard does with the library's counts.
fn shares(conns: &Vec<Connection>, rx: f64, tx: f64) -> HashMap<u32, (f64, f64)> {
    let (counts, total) = attribution_counts(conns);
    counts
        .into_iter()
        .map(|(pid, n)| (pid, (rx * n as f64 / total as f64, tx * n as f64 / total as f64)))
        .collect()
}

#[test]
fn loopback_connections_excluded_from_counts() {
    let mut conns = vec![conn_at("curl", 1, "TCP", "ESTABLISHED", "1.1.1.1:443")];
    for _ in 0..8 {
        let mut c = conn_at("postgres", 2, "TCP", "ESTABLISHED", "127.0.0.1:5432");
        c.local_addr = "127.0.0.1:60000".into();
        conns.push(c);
    }
    let map = shares(&conns, 1000.0, 500.0);
    assert!((map[&1].0 - 1000.0).abs() < 0.01);
    assert!(!map.contains_key(&2));
}

#[test]
fn connected_udp_counts_toward_attribution() {
    let conns = vec![
        conn_at("chrome", 1, "udp", "", "142.250.70.78:443"),
        conn_at("curl", 2, "TCP", "ESTABLISHED", "1.1.1.1:443"),
    ];
    let map = shares(&conns, 1000.0, 0.0);
    assert!((map[&1].0 - 500.0).abs() < 0.01);
    assert!((map[&2].0 - 500.0).abs() < 0.01);
}

#[test]
fn unconnected_udp_does_not_count() {
    let conns = vec![
        conn_at("mDNSResponder", 1, "udp", "", "*:*"),
        conn_at("mDNSResponder", 2, "UDP", "UNCONN", "0.0.0.0:*"),
        conn_at("curl", 3, "TCP", "ESTABLISHED", "1.1.1.1:443"),
    ];
    let map = shares(&conns, 1000.0, 0.0);
    assert!(!map.contains_key(&1));
    assert!(!map.contains_key(&2));
    assert!((map[&3].0 - 1000.0).abs() < 0.01);
}
