use syswatch::app::TabId;
use syswatch::insights::{
    correlate_shared_culprits, insight_zombie_party, order_cards, swap_culprit, swap_thrash, CulpritBasis,
    Insight, MemFigures, Severity, SwapThrash, MAX_CARDS, MIB,
};

fn card(severity: Severity, title: &str, tab: TabId, culprit: Option<&str>) -> Insight {
    Insight {
        severity,
        title: title.into(),
        body: vec![],
        suggested_tab: tab,
        culprit: culprit.map(|c| c.to_string()),
    }
}

#[test]
fn correlate_shared_culprits_ignores_a_culprit_named_only_once() {
    let cards = vec![card(Severity::Warn, "solo", TabId::Procs, Some("lonely-proc"))];
    assert!(correlate_shared_culprits(&cards).is_empty());
}

#[test]
fn correlate_shared_culprits_groups_by_exact_name() {
    let cards = vec![
        card(Severity::Warn, "a", TabId::Procs, Some("shared")),
        card(Severity::Crit, "b", TabId::Memory, Some("shared")),
        card(Severity::Info, "c", TabId::Gpu, Some("other")),
    ];
    let correlated = correlate_shared_culprits(&cards);
    assert_eq!(correlated.len(), 1);
    assert_eq!(correlated[0].culprit.as_deref(), Some("shared"));
    assert_eq!(correlated[0].body, vec!["a".to_string(), "b".to_string()]);
}

#[test]
fn correlation_card_is_crit_titled_and_pointed_at_first_symptom() {
    let cards = vec![
        card(Severity::Warn, "swap", TabId::Memory, Some("zed")),
        card(Severity::Warn, "cpu", TabId::Procs, Some("alpha")),
        card(Severity::Warn, "leak", TabId::Gpu, Some("zed")),
        card(Severity::Warn, "io", TabId::Disks, Some("alpha")),
        card(Severity::Warn, "none", TabId::Cpu, None),
    ];
    let correlated = correlate_shared_culprits(&cards);
    assert_eq!(correlated.len(), 2);
    assert_eq!(correlated[0].culprit.as_deref(), Some("alpha"));
    assert_eq!(correlated[1].culprit.as_deref(), Some("zed"));
    assert_eq!(correlated[1].severity, Severity::Crit);
    assert_eq!(correlated[1].suggested_tab, TabId::Memory);
    assert_eq!(
        correlated[1].title,
        "zed looks like the common thread behind 2 of the cards above"
    );
}

#[test]
fn order_cards_puts_crit_first_and_caps() {
    let mut cards = Vec::new();
    for i in 0..5 {
        cards.push(card(Severity::Warn, &format!("w{i}"), TabId::Cpu, None));
    }
    cards.push(card(Severity::Info, "i", TabId::Cpu, None));
    cards.push(card(Severity::Crit, "c", TabId::Cpu, None));
    cards.push(card(Severity::Warn, "x", TabId::Procs, Some("p")));
    cards.push(card(Severity::Warn, "y", TabId::Procs, Some("p")));
    let shown = order_cards(cards);
    assert_eq!(shown.len(), MAX_CARDS);
    assert_eq!(shown[0].severity, Severity::Crit);
    assert_eq!(shown[1].severity, Severity::Crit);
    assert_eq!(shown[1].culprit.as_deref(), Some("p"));
    assert_eq!(shown[0].title, "c");
    assert_eq!(shown[2].title, "w0");
    for w in shown.windows(2) {
        assert!(w[0].severity >= w[1].severity);
    }
}

#[test]
fn severity_labels() {
    assert_eq!(Severity::Info.label(), "INFO");
    assert_eq!(Severity::Warn.label(), "WARN");
    assert_eq!(Severity::Crit.label(), "CRIT");
    assert!(Severity::Crit > Severity::Warn && Severity::Warn > Severity::Info);
}

fn zombies(n: u32) -> Vec<(char, u32)> {
    (0..n).map(|_| ('Z', 0)).collect()
}

#[test]
fn zombie_party_does_not_fire_below_5() {
    assert!(insight_zombie_party(&zombies(4)).is_none());
}

#[test]
fn zombie_party_fires_warn_at_5_zombies() {
    let ins = insight_zombie_party(&zombies(7)).expect("zombie insight expected");
    assert_eq!(ins.severity, Severity::Warn);
}

#[test]
fn zombie_party_fires_crit_at_25_plus() {
    let ins = insight_zombie_party(&zombies(30)).expect("zombie insight expected");
    assert_eq!(ins.severity, Severity::Crit);
}

#[test]
fn zombie_card_lists_first_five_distinct_parents() {
    let mut procs: Vec<(char, u32)> = vec![('S', 1), ('R', 2)];
    for p in [9u32, 3, 3, 7, 100, 5, 42, 9] {
        procs.push(('Z', p));
    }
    let ins = insight_zombie_party(&procs).unwrap();
    assert_eq!(ins.title, "8 zombie processes — parent isn't reaping");
    assert_eq!(ins.body[0], "Common parent pids: 3, 5, 7, 9, 42");
    assert_eq!(ins.suggested_tab, TabId::Procs);
    assert_eq!(ins.culprit, None);
}

/// Thirty samples at `before`, then one at `after`.
fn swap_history(before: u64, after: u64) -> Vec<u64> {
    let mut h = vec![before; 30];
    h.push(after);
    h
}

#[test]
fn swap_thrash_does_not_fire_below_threshold() {
    let h = vec![200 * MIB; 30];
    assert!(swap_thrash(&h).is_none());
}

#[test]
fn swap_thrash_fires_warn_on_growth() {
    let ins = swap_thrash(&swap_history(100 * MIB, 350 * MIB)).expect("swap insight expected");
    assert_eq!(ins.severity, Severity::Warn);
}

#[test]
fn swap_thrash_fires_crit_on_huge_growth() {
    let ins = swap_thrash(&swap_history(100 * MIB, 700 * MIB)).expect("swap insight expected");
    assert_eq!(ins.severity, Severity::Crit);
}

#[test]
fn swap_thrash_reports_growth_against_the_sample_thirty_back() {
    let r = swap_thrash(&swap_history(100 * MIB, 350 * MIB));
    assert_eq!(
        r,
        Some(SwapThrash { severity: Severity::Warn, now: 350 * MIB, growth: 250 * MIB, baseline_idx: 1 })
    );
}

#[test]
fn swap_thrash_needs_eight_samples_and_64_mib() {
    let short = vec![0, 0, 0, 0, 0, 0, 900 * MIB];
    assert!(swap_thrash(&short).is_none());
    let mut small = vec![0u64; 10];
    small.push(63 * MIB);
    assert!(swap_thrash(&small).is_none());
    let mut grown = vec![0u64; 10];
    grown.push(600 * MIB);
    assert_eq!(swap_thrash(&grown).map(|v| (v.severity, v.baseline_idx)), Some((Severity::Crit, 0)));
}

#[test]
fn swap_thrash_ignores_shrinking_swap() {
    assert!(swap_thrash(&swap_history(900 * MIB, 300 * MIB)).is_none());
}

fn figures(swap: Option<u64>, footprint: Option<u64>, pss: Option<u64>, rss: u64) -> MemFigures {
    MemFigures { swap, footprint, pss, rss }
}

#[test]
fn swap_culprit_prefers_the_largest_swap_holder() {
    let ps = vec![
        figures(Some(5), None, Some(900), 900),
        figures(Some(0), None, None, 10),
        figures(Some(9), None, None, 1),
    ];
    assert_eq!(swap_culprit(&ps), Some((CulpritBasis::Swap, 2, 9)));
}

#[test]
fn swap_culprit_falls_back_to_footprint_then_pss() {
    let ps = vec![figures(Some(0), None, Some(40), 1), figures(None, Some(30), Some(99), 500)];
    assert_eq!(swap_culprit(&ps), Some((CulpritBasis::Footprint, 0, 40)));
}

#[test]
fn swap_culprit_falls_back_to_rss_and_later_wins_ties() {
    let ps = vec![figures(None, None, None, 70), figures(None, None, None, 70), figures(None, None, None, 3)];
    assert_eq!(swap_culprit(&ps), Some((CulpritBasis::Rss, 1, 70)));
    assert_eq!(swap_culprit(&vec![]), None);
}

// Cards whose checks compare floats (runaway CPU, a full disk, memory
// share, load) are built here as the dashboard builds them; the swap,
// zombie, correlation and ordering steps are the library's.

fn swap_card(history: &[u64], figures: &[(&str, MemFigures)]) -> Option<Insight> {
    let v = swap_thrash(&history.to_vec())?;
    let fs: Vec<MemFigures> = figures.iter().map(|f| f.1).collect();
    let culprit = swap_culprit(&fs).map(|(_, i, _)| figures[i].0.to_string());
    Some(Insight {
        severity: v.severity,
        title: if v.severity == Severity::Crit { "swap thrash".into() } else { "memory pressure — swap rising".into() },
        body: vec![],
        suggested_tab: TabId::Memory,
        culprit,
    })
}

fn swap_rss(swap: Option<u64>, rss: u64) -> MemFigures {
    MemFigures { swap, footprint: None, pss: None, rss }
}

#[test]
fn correlation_fires_when_one_process_drives_two_symptoms() {
    let mut h = vec![100 * MIB; 30];
    h.push(700 * MIB);
    let swap = swap_card(&h, &[("leaky-hog", swap_rss(Some(700 * MIB), 0))]).expect("swap card");
    let runaway = card(
        Severity::Crit,
        "runaway process — leaky-hog (pid 42) sustained 95% CPU",
        TabId::Procs,
        Some("leaky-hog"),
    );
    let result = order_cards(vec![swap, runaway]);
    assert!(result.iter().any(|c| c.title.contains("runaway process")));
    assert!(result.iter().any(|c| c.title.contains("swap thrash")));
    let correlated = result
        .iter()
        .find(|c| c.title.contains("common thread"))
        .expect("shared culprit across two cards should produce a correlation card");
    assert_eq!(correlated.culprit.as_deref(), Some("leaky-hog"));
    assert_eq!(correlated.severity, Severity::Crit);
}

#[test]
fn compute_sorts_crit_before_warn() {
    let mut h = vec![100 * MIB; 30];
    h.push(350 * MIB);
    let swap = swap_card(&h, &[]).expect("swap card");
    assert_eq!(swap.severity, Severity::Warn);
    let disk = card(Severity::Crit, "/ is 96.0% full", TabId::Fs, None);
    let result = order_cards(vec![swap, disk]);
    assert!(result.len() >= 2);
    assert_eq!(result[0].severity, Severity::Crit);
    for w in result.windows(2) {
        assert!(w[0].severity >= w[1].severity);
    }
}

#[test]
fn compute_caps_at_six_cards() {
    let mut h = vec![100 * MIB; 30];
    h.push(700 * MIB);
    let mut named: Vec<(&str, MemFigures)> = vec![("rustc", swap_rss(None, 0))];
    let mut states: Vec<(char, u32)> = vec![('R', 1)];
    for _ in 0..30 {
        named.push(("z", swap_rss(None, 0)));
        states.push(('Z', 1));
    }
    let mut cards = vec![swap_card(&h, &named).expect("swap card")];
    cards.push(card(Severity::Crit, "runaway process — rustc (pid 42) sustained 95% CPU", TabId::Procs, Some("rustc")));
    cards.push(card(Severity::Crit, "/data is 99.0% full", TabId::Fs, None));
    cards.push(card(Severity::Warn, "memory pressure — RAM 94% used over last 30s", TabId::Memory, None));
    cards.push(card(Severity::Crit, "load 40.00 on 8 cores (5.0× saturation)", TabId::Cpu, None));
    cards.push(insight_zombie_party(&states).expect("zombie card"));
    cards.push(card(Severity::Warn, "io stall — tasks blocked on disk 30.0% of time", TabId::Disks, None));
    let result = order_cards(cards);
    assert!(result.len() <= 6, "should cap at 6 cards, got {}", result.len());
}
