use std::collections::HashMap;
use syswatch::proc_memory::{collect_top, parse_smaps_rollup, ProcMem, ProcMemCollector, MAX_PROCS};

#[test]
fn parses_smaps_rollup_totals() {
    let sample = "\
00400000-7ffd13a3c000 ---p 00000000 00:00 0    [rollup]
Rss:              123456 kB
Pss:               45678 kB
Pss_Anon:          30000 kB
Shared_Clean:      60000 kB
Shared_Dirty:       2000 kB
Private_Clean:      5000 kB
Private_Dirty:     40000 kB
Referenced:       100000 kB
Anonymous:         42000 kB
Swap:               1234 kB
SwapPss:             617 kB
";
    let m = parse_smaps_rollup(sample);
    assert_eq!(m.pss, Some(45678 * 1024));
    assert_eq!(m.private, Some((5000 + 40000) * 1024));
    assert_eq!(m.shared, Some((60000 + 2000) * 1024));
    assert_eq!(m.swap, Some(1234 * 1024));
    assert_eq!(m.footprint, None);
}

#[test]
fn empty_text_yields_no_data() {
    let m = parse_smaps_rollup("");
    assert!(m.is_empty());
    assert_eq!(m.private, None);
    assert_eq!(m.shared, None);
    assert_eq!(m.swap, None);
}

#[test]
fn garbled_values_are_skipped() {
    let m = parse_smaps_rollup("Pss: not-a-number kB\nSwap: 10 kB\n");
    assert_eq!(m.pss, None);
    assert_eq!(m.swap, Some(10 * 1024));
}

#[test]
fn zero_private_still_reports_some_when_keys_present() {
    let m = parse_smaps_rollup("Private_Clean: 0 kB\nPrivate_Dirty: 0 kB\n");
    assert_eq!(m.private, Some(0));
}

#[test]
fn collector_caches_within_refresh_window() {
    let mut c = ProcMemCollector::new();
    let _ = c.sample(&vec![], |_| ProcMem::default());
    let first_at = c.last_sample_at();
    let _ = c.sample(&vec![], |_| ProcMem::default());
    assert_eq!(c.last_sample_at(), first_at);
}

fn with_pss(p: u64) -> ProcMem {
    ProcMem { pss: Some(p), ..ProcMem::default() }
}

#[test]
fn collect_top_reads_largest_first_and_reuses_unmoved_entries() {
    let procs: Vec<(u32, u64)> = vec![(1, 10), (2, 30), (3, 20)];
    let mut prev = HashMap::new();
    prev.insert(2u32, with_pss(777));
    let mut prev_rss = HashMap::new();
    prev_rss.insert(2u32, 30u64);
    let (out, rss) = collect_top(&procs, &prev, &prev_rss, |pid| {
        if pid == 1 { ProcMem::default() } else { with_pss(pid as u64 * 100) }
    });
    assert_eq!(out.len(), 2);
    assert_eq!(out[&2].pss, Some(777));
    assert_eq!(out[&3].pss, Some(300));
    assert!(!out.contains_key(&1));
    assert_eq!(rss[&3], 20);
}

#[test]
fn collect_top_caps_at_max_procs() {
    let procs: Vec<(u32, u64)> = (0..100u32).map(|i| (i, i as u64)).collect();
    let (out, _) = collect_top(&procs, &HashMap::new(), &HashMap::new(), |pid| with_pss(pid as u64));
    assert_eq!(out.len(), MAX_PROCS);
    assert!(out.contains_key(&99));
    assert!(!out.contains_key(&51));
    assert!(out.contains_key(&52));
}

#[test]
fn proc_mem_sample_at_reads_only_once_the_window_has_passed() {
    let mut c = ProcMemCollector::new();
    let procs: Vec<(u32, u64)> = vec![(7, 100)];
    let first = c.sample_at(&procs, None, |_| with_pss(11));
    assert_eq!(first[&7].pss, Some(11));
    let at = c.last_sample_at();
    assert!(at.is_some());
    let kept = c.sample_at(&procs, Some(2999), |_| -> ProcMem { panic!("fresh detail must not be re-read") });
    assert_eq!(kept[&7].pss, Some(11));
    assert_eq!(c.last_sample_at(), at);
    let moved: Vec<(u32, u64)> = vec![(7, 900)];
    let again = c.sample_at(&moved, Some(3000), |_| with_pss(22));
    assert_eq!(again[&7].pss, Some(22));
}
