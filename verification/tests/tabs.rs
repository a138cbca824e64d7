use syswatch::tabs::power::{throttle_state, Throttle};
use syswatch::app::{ProcSort, ServiceSort};
use syswatch::insights::{Insight, Severity};
use syswatch::model::{ServiceStatus, ServiceTick};
use syswatch::tabs::services::{counts, fill_remainder, sort_services};
use syswatch::tabs::timeline::derive_events;
use syswatch::app::TabId;
use syswatch::tabs::procs::{fill, filtered_procs, proc_matches, scroll_window, ProcText};
use syswatch::tabs::{gpu, insights};

fn s(name: &str, status: ServiceStatus, pid: Option<u32>) -> ServiceTick {
    ServiceTick {
        name: name.into(),
        status,
        pid,
        exit_code: None,
        detail: String::new(),
    }
}

fn names(v: &[ServiceTick]) -> Vec<&str> {
    v.iter().map(|s| s.name.as_str()).collect()
}

fn fixture() -> Vec<ServiceTick> {
    vec![
        s("zeta.service", ServiceStatus::Idle, None),
        s("alpha.service", ServiceStatus::Failed, None),
        s("beta.service", ServiceStatus::Running, Some(42)),
        s("gamma.service", ServiceStatus::Running, Some(7)),
        s("delta.service", ServiceStatus::Unknown, None),
    ]
}

#[test]
fn proc_sort_cycle_visits_gpu_and_net() {
    let labels: Vec<&str> = ProcSort::ALL.iter().map(|s| s.label()).collect();
    assert!(labels.contains(&"gpu"));
    assert!(labels.contains(&"net"));
}

#[test]
fn sort_by_name_ascending() {
    let out = sort_services(&fixture(), ServiceSort::Name);
    assert_eq!(
        names(&out),
        vec!["alpha.service", "beta.service", "delta.service", "gamma.service", "zeta.service"]
    );
}

#[test]
fn sort_by_status_failed_first_then_running() {
    let out = sort_services(&fixture(), ServiceSort::Status);
    assert_eq!(
        names(&out),
        vec!["alpha.service", "beta.service", "gamma.service", "zeta.service", "delta.service"]
    );
}

#[test]
fn sort_by_pid_ascending_with_unset_last() {
    let out = sort_services(&fixture(), ServiceSort::Pid);
    assert_eq!(
        names(&out),
        vec!["gamma.service", "beta.service", "alpha.service", "delta.service", "zeta.service"]
    );
}

#[test]
fn services_sort_empty_is_empty() {
    assert!(sort_services(&vec![], ServiceSort::Name).is_empty());
    assert!(sort_services(&vec![], ServiceSort::Status).is_empty());
}

#[test]
fn counts_partition_correctly() {
    let (r, i, f, u) = counts(&fixture());
    assert_eq!(r, 2);
    assert_eq!(i, 1);
    assert_eq!(f, 1);
    assert_eq!(u, 1);
}

#[test]
fn fill_remainder_pads_after_fixed_columns() {
    assert_eq!(fill_remainder(30, "abc"), "    ");
    assert_eq!(fill_remainder(26, "abc"), "");
    assert_eq!(fill_remainder(10, "abc"), "");
    assert_eq!(fill_remainder(27, "é"), "   ");
}

#[test]
fn procs_fill_counts_the_shown_columns() {
    assert_eq!(fill(95, "ab", false, false), "   ");
    assert_eq!(fill(105, "ab", true, false), " ");
    assert_eq!(fill(120, "", true, true), "  ");
    assert_eq!(fill(10, "ab", false, false), "");
}

#[test]
fn proc_filter_matches_any_field_case_insensitively() {
    assert!(proc_matches("Bravo", "bravo", "u", "BRAV"));
    assert!(proc_matches("x", "/usr/bin/some-binary --flag", "u", "--flag"));
    assert!(proc_matches("alpha", "alpha", "deploy", "deploy"));
    assert!(!proc_matches("alpha", "alpha", "u", "zzz_no_proc"));
}

#[test]
fn gpu_and_card_truncation() {
    assert_eq!(gpu::truncate("abcdef", 4), "abc…");
    assert_eq!(gpu::truncate("abc", 3), "abc");
    assert_eq!(gpu::truncate("abc", 0), "…");
    assert_eq!(insights::truncate("abcdef", 4), "abc\u{2026}");
    assert_eq!(insights::truncate("abcdef", 1), "a");
    assert_eq!(insights::truncate("日本語テキスト", 3), "日本…");
    assert_eq!(insights::pad_right(10, 3, 2), "     ");
    assert_eq!(insights::pad_right(4, 3, 2), "");
}

fn insight(sev: Severity, title: &str) -> Insight {
    Insight {
        severity: sev,
        title: title.to_string(),
        body: Vec::new(),
        suggested_tab: TabId::Overview,
        culprit: None,
    }
}

fn ticks(v: &[(&str, u64)]) -> Vec<(Option<String>, u64)> {
    v.iter().map(|(n, a)| (Some(n.to_string()), *a)).collect()
}

#[test]
fn derive_events_empty_session_returns_empty() {
    let insights = vec![insight(Severity::Warn, "alone")];
    assert!(derive_events(&vec![], &insights).is_empty());
}

#[test]
fn derive_events_single_snapshot_returns_empty() {
    assert!(derive_events(&ticks(&[("foo", 0)]), &vec![]).is_empty());
}

#[test]
fn derive_events_stable_top_proc_emits_no_proc_events() {
    assert!(derive_events(&ticks(&[("foo", 2), ("foo", 1), ("foo", 0)]), &vec![]).is_empty());
}

#[test]
fn derive_events_one_event_per_top_proc_change() {
    let events = derive_events(&ticks(&[("a", 3), ("b", 2), ("c", 1), ("d", 0)]), &vec![]);
    assert_eq!(events.len(), 3);
    for e in &events {
        assert!(e.detail.contains("→"), "missing arrow: {}", e.detail);
    }
    assert_eq!(events[0].detail, "top CPU: c → d");
    assert_eq!(events[0].age_secs, 0);
}

#[test]
fn derive_events_filters_info_severity_insights() {
    let insights = vec![insight(Severity::Info, "no anomalies")];
    assert!(derive_events(&ticks(&[("foo", 1), ("foo", 0)]), &insights).is_empty());
}

#[test]
fn derive_events_emits_warn_and_crit_insights() {
    let insights = vec![
        insight(Severity::Warn, "swap thrash"),
        insight(Severity::Crit, "vram pinned"),
    ];
    let events = derive_events(&ticks(&[("foo", 1), ("foo", 0)]), &insights);
    assert_eq!(events.len(), 2);
    let details: Vec<&str> = events.iter().map(|e| e.detail.as_str()).collect();
    assert!(details.iter().any(|d| d.contains("[WARN]") && d.contains("swap thrash")));
    assert!(details.iter().any(|d| d.contains("[CRIT]") && d.contains("vram pinned")));
}

#[test]
fn derive_events_sorted_by_age_ascending() {
    let events = derive_events(&ticks(&[("a", 30), ("b", 20), ("c", 10), ("d", 0)]), &vec![]);
    for pair in events.windows(2) {
        assert!(pair[0].age_secs <= pair[1].age_secs);
    }
}

#[test]
fn derive_events_does_not_panic_on_timestamps_running_backwards() {
    let events = derive_events(&ticks(&[("foo", 0), ("bar", 0)]), &vec![]);
    assert!(!events.is_empty());
}

#[test]
fn derive_events_handles_snapshots_with_no_procs() {
    let session: Vec<(Option<String>, u64)> = vec![(None, 0), (None, 0)];
    assert!(derive_events(&session, &vec![]).is_empty());
}

#[test]
fn derive_events_change_detected_only_on_distinct_neighbors() {
    let events = derive_events(&ticks(&[("a", 3), ("b", 2), ("a", 1), ("b", 0)]), &vec![]);
    assert_eq!(events.len(), 3);
}

fn proc_text(name: &str, cmd: &str, user: &str) -> ProcText {
    ProcText { name: name.into(), cmd: cmd.into(), user: user.into() }
}

fn memory_fixture() -> Vec<ProcText> {
    vec![
        proc_text("kernel_task", "", "root"),
        proc_text("Chrome Helper", "/Applications/Chrome --renderer", "matt"),
        proc_text("postgres", "postgres: writer", "postgres"),
    ]
}

fn names_at(rows: &[ProcText], at: &[usize]) -> Vec<String> {
    at.iter().map(|i| rows[*i].name.clone()).collect()
}

#[test]
fn no_filter_keeps_every_proc() {
    assert_eq!(filtered_procs(&memory_fixture(), None).len(), 3);
}

#[test]
fn filter_matches_name_cmd_or_user_case_insensitively() {
    let f = memory_fixture();
    assert_eq!(names_at(&f, &filtered_procs(&f, Some("CHROME"))), ["Chrome Helper"]);
    assert_eq!(names_at(&f, &filtered_procs(&f, Some("renderer"))), ["Chrome Helper"]);
    assert_eq!(names_at(&f, &filtered_procs(&f, Some("root"))), ["kernel_task"]);
}

#[test]
fn filter_preserves_input_order() {
    let f = memory_fixture();
    let out = filtered_procs(&f, Some("e"));
    assert_eq!(names_at(&f, &out), ["kernel_task", "Chrome Helper", "postgres"]);
}

#[test]
fn filter_with_no_matches_is_empty() {
    assert!(filtered_procs(&memory_fixture(), Some("zzz")).is_empty());
}

#[test]
fn filtered_procs_gives_positions_in_order() {
    let f = memory_fixture();
    assert_eq!(filtered_procs(&f, Some("POST")), vec![2]);
    assert_eq!(filtered_procs(&f, None), vec![0, 1, 2]);
    assert_eq!(filtered_procs(&f, Some("")), vec![0, 1, 2]);
}

fn proc_row(name: &str) -> ProcText {
    ProcText { name: name.into(), cmd: name.into(), user: "u".into() }
}

fn procs_fixture() -> Vec<ProcText> {
    vec![proc_row("alpha"), proc_row("Bravo"), proc_row("charlie"), proc_row("delta")]
}

#[test]
fn filter_substring_is_case_insensitive() {
    let f = procs_fixture();
    assert_eq!(names_at(&f, &filtered_procs(&f, Some("BRAV"))), vec!["Bravo"]);
    assert_eq!(names_at(&f, &filtered_procs(&f, Some("Char"))), vec!["charlie"]);
}

#[test]
fn filter_no_match_returns_empty() {
    assert!(filtered_procs(&procs_fixture(), Some("zzz_no_proc")).is_empty());
}

#[test]
fn filter_matches_user_field() {
    let mut procs = procs_fixture();
    procs[0].user = "deploy".into();
    assert_eq!(names_at(&procs, &filtered_procs(&procs, Some("deploy"))), vec!["alpha"]);
}

#[test]
fn filter_matches_cmd_field() {
    let mut procs = procs_fixture();
    procs[1].cmd = "/usr/bin/some-binary --flag".into();
    assert_eq!(names_at(&procs, &filtered_procs(&procs, Some("--flag"))), vec!["Bravo"]);
}

#[test]
fn scroll_window_keeps_the_selection_in_view() {
    // Ten rows in four lines: the top rows need no scrolling.
    assert_eq!(scroll_window(2, 4, 10), (0, 4, 2));
    // Row 6 selected: the window scrolls so row 6 is the last line.
    assert_eq!(scroll_window(6, 4, 10), (3, 7, 6));
    // A selection past the end is clamped to the last row.
    assert_eq!(scroll_window(99, 4, 10), (6, 10, 9));
    // Fewer rows than lines, and an empty table.
    assert_eq!(scroll_window(1, 8, 3), (0, 3, 1));
    assert_eq!(scroll_window(5, 8, 0), (0, 0, 0));
}

fn figs(footprint: Option<u64>, pss: Option<u64>, rss: u64) -> syswatch::insights::MemFigures {
    syswatch::insights::MemFigures { swap: None, footprint, pss, rss }
}

#[test]
fn breakdown_ranks_by_footprint_then_pss_then_rss() {
    let rows = vec![
        figs(None, None, 500),
        figs(Some(100), Some(900), 900),
        figs(None, Some(300), 800),
        figs(Some(700), None, 10),
    ];
    // keys: 500, 100, 300, 700
    assert_eq!(syswatch::tabs::memory::breakdown_order(&rows), vec![3, 0, 2, 1]);
}

#[test]
fn breakdown_keeps_input_order_on_ties() {
    let rows = vec![
        figs(None, None, 5),
        figs(Some(9), None, 1),
        figs(None, Some(5), 2),
        figs(None, None, 9),
    ];
    assert_eq!(syswatch::tabs::memory::breakdown_order(&rows), vec![1, 3, 0, 2]);
}

#[test]
fn breakdown_of_nothing_is_empty() {
    assert!(syswatch::tabs::memory::breakdown_order(&Vec::new()).is_empty());
}

#[test]
fn throttle_figures_are_classified_at_full_and_four_fifths() {
    assert_eq!(throttle_state(Some(100)), Throttle::Nominal);
    assert_eq!(throttle_state(Some(99)), Throttle::Mild(99));
    assert_eq!(throttle_state(Some(80)), Throttle::Mild(80));
    assert_eq!(throttle_state(Some(79)), Throttle::Significant(79));
    assert_eq!(throttle_state(None), Throttle::Unavailable);
    assert_eq!(throttle_state(Some(100)).detail(), "CPU at 100% nominal speed");
    assert_eq!(throttle_state(None).detail(), "platform doesn't expose throttle state");
    assert_eq!(throttle_state(Some(50)).detail(), "thermal throttling \u{2014} significant");
}
