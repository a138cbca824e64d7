use syswatch::collector::{
    arc_adjust, mem_pressure_level, mem_tick, parse_arcstats_size, parse_status_threads_peak,
    psi_avg10_texts,
};
use syswatch::model::MemPressureLevel;

fn avg10(t: Option<String>) -> f32 {
    t.and_then(|v| v.parse::<f32>().ok()).unwrap_or(0.0)
}

fn parse_psi_avg10(text: &str) -> (f32, f32) {
    let (s, f) = psi_avg10_texts(text);
    (avg10(s), avg10(f))
}

#[test]
fn psi_parses_some_and_full() {
    let text = "\
some avg10=1.25 avg60=0.50 avg300=0.10 total=12345
full avg10=0.40 avg60=0.20 avg300=0.05 total=6789
";
    assert_eq!(parse_psi_avg10(text), (1.25, 0.40));
}

#[test]
fn psi_cpu_file_without_full_line() {
    let text = "some avg10=3.00 avg60=1.00 avg300=0.20 total=999\n";
    assert_eq!(parse_psi_avg10(text), (3.00, 0.0));
}

#[test]
fn psi_garbled_yields_zeros() {
    assert_eq!(parse_psi_avg10("nonsense\n"), (0.0, 0.0));
    assert_eq!(parse_psi_avg10(""), (0.0, 0.0));
}

#[test]
fn psi_texts_are_the_raw_avg10_values() {
    let (s, f) = psi_avg10_texts("some avg10=1.25 avg60=0.5\nfull avg60=3\n");
    assert_eq!(s.as_deref(), Some("1.25"));
    assert_eq!(f, None);
}

#[test]
fn status_parses_threads_and_peak() {
    let text = "\
Name:\tsyswatch
Umask:\t0002
State:\tS (sleeping)
VmPeak:\t  920000 kB
VmHWM:\t    2412 kB
VmRSS:\t    2400 kB
Threads:\t17
";
    let (threads, peak) = parse_status_threads_peak(text);
    assert_eq!(threads, Some(17));
    assert_eq!(peak, Some(2412 * 1024));
}

#[test]
fn status_missing_fields_yield_none() {
    let (threads, peak) = parse_status_threads_peak("Name:\tx\n");
    assert_eq!(threads, None);
    assert_eq!(peak, None);
}

#[test]
fn status_first_complete_pair_wins_and_peak_saturates() {
    let text = "VmHWM:\t18446744073709551615 kB\nThreads:\t+3\nThreads:\t9\n";
    let (threads, peak) = parse_status_threads_peak(text);
    assert_eq!(threads, Some(3));
    assert_eq!(peak, Some(u64::MAX));
}

#[test]
fn arc_adjust_no_arc_preserves_values() {
    assert_eq!(arc_adjust(100, 50, 150, 0), (100, 50));
}

#[test]
fn arc_adjust_subtracts_from_used_adds_to_available() {
    assert_eq!(arc_adjust(100, 50, 150, 30), (70, 80));
}

#[test]
fn arc_adjust_clamps_when_arc_exceeds_used() {
    assert_eq!(arc_adjust(100, 50, 150, 150), (0, 150));
}

#[test]
fn parse_arcstats_size_extracts_size_from_real_output() {
    let text = "\
24 1 0x01 148 40256 5856356141 1344751450507729
name                            type data
hits                            4    2049659748
iohits                          4    1195048
misses                          4    4407338
c                               4    66373946864
c_min                           4    4217798400
c_max                           4    133895806976
size                            4    65967562640";
    assert_eq!(parse_arcstats_size(text), Some(65967562640));
}

#[test]
fn parse_arcstats_size_returns_none_when_size_absent() {
    assert_eq!(parse_arcstats_size("name  type  data\nhits  4  100\n"), None);
}

#[test]
fn parse_arcstats_size_returns_none_on_empty() {
    assert_eq!(parse_arcstats_size(""), None);
}

#[test]
fn parse_arcstats_size_stops_at_first_size_line() {
    assert_eq!(parse_arcstats_size("size 4\nsize 4 12\n"), None);
    assert_eq!(parse_arcstats_size("size 4 12\nsize 4 99\n"), Some(12));
}

#[test]
fn pressure_bits_read_most_severe_first() {
    assert_eq!(mem_pressure_level(0x01), Some(MemPressureLevel::Normal));
    assert_eq!(mem_pressure_level(0x02), Some(MemPressureLevel::Warning));
    assert_eq!(mem_pressure_level(0x04), Some(MemPressureLevel::Critical));
    assert_eq!(mem_pressure_level(0x07), Some(MemPressureLevel::Critical));
    assert_eq!(mem_pressure_level(0x03), Some(MemPressureLevel::Warning));
    assert_eq!(mem_pressure_level(0x08), None);
    assert_eq!(mem_pressure_level(0), None);
}

#[test]
fn mem_tick_applies_arc_only_when_given() {
    let m = mem_tick(150, 100, 50, 8, 2, Some(30), None);
    assert_eq!((m.used_bytes, m.available_bytes), (70, 80));
    assert_eq!(m.total_bytes, 150);
    assert_eq!(m.swap_used_bytes, 2);
    let n = mem_tick(150, 100, 200, 8, 2, None, Some(MemPressureLevel::Warning));
    assert_eq!((n.used_bytes, n.available_bytes), (100, 200));
    assert_eq!(n.pressure_level, Some(MemPressureLevel::Warning));
}
