use syswatch::app::{live_state, next_tab, prev_tab, LiveState, ProcSort, ServiceSort, TabId};

#[test]
fn tab_cycle_wraps_both_ways() {
    assert_eq!(next_tab(TabId::Insights), TabId::Overview);
    assert_eq!(prev_tab(TabId::Overview), TabId::Insights);
    assert_eq!(next_tab(TabId::Fs), TabId::Procs);
    let mut t = TabId::Gpu;
    for _ in 0..12 {
        t = next_tab(t);
    }
    assert_eq!(t, TabId::Gpu);
}

#[test]
fn tab_names_are_loose() {
    assert_eq!(TabId::from_str_loose("MEM"), Some(TabId::Memory));
    assert_eq!(TabId::from_str_loose("processes"), Some(TabId::Procs));
    assert_eq!(TabId::from_str_loose("+"), Some(TabId::Insights));
    assert_eq!(TabId::from_str_loose("0"), Some(TabId::Net));
    assert_eq!(TabId::from_str_loose("nope"), None);
    assert_eq!(TabId::Timeline.glyph(), "-");
    assert_eq!(TabId::Fs.title(), "FS");
}

#[test]
fn sort_keys_cycle() {
    let mut s = ProcSort::Cpu;
    for _ in 0..7 {
        s = s.next();
    }
    assert_eq!(s, ProcSort::Cpu);
    assert_eq!(ProcSort::Name.next(), ProcSort::Gpu);
    assert_eq!(ServiceSort::Pid.next(), ServiceSort::Name);
    assert_eq!(ServiceSort::Status.label(), "status");
}

#[test]
fn live_badge_precedence() {
    assert_eq!(live_state(true, 3, true), LiveState::Replay);
    assert_eq!(live_state(false, 3, true), LiveState::Scrub);
    assert_eq!(live_state(false, 0, true), LiveState::Paused);
    assert_eq!(live_state(false, 0, false), LiveState::Live);
}
