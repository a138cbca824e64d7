use syswatch::app::{ProcSort, ServiceSort, TabId};
use syswatch::keys::{KeyAction, KeyCode, KeyContext, KeyPress, UiState};

fn key(code: KeyCode) -> KeyPress {
    KeyPress { code, control: false, press: true }
}

fn ch(c: char) -> KeyPress {
    key(KeyCode::Char(c))
}

fn ctrl_c() -> KeyPress {
    KeyPress { code: KeyCode::Char('c'), control: true, press: true }
}

fn ctx() -> KeyContext {
    KeyContext { visible_procs: 3, services: 2, session_len: 5, settings_rows: 4 }
}

#[test]
fn quit_keys() {
    let mut s = UiState::new(TabId::Overview);
    assert_eq!(s.handle_key(ch('q'), ctx()), KeyAction::Quit);
    assert_eq!(s.handle_key(ctrl_c(), ctx()), KeyAction::Quit);
    assert_eq!(s.handle_key(ch('c'), ctx()), KeyAction::Nothing);
    let release = KeyPress { code: KeyCode::Char('q'), control: false, press: false };
    assert_eq!(s.handle_key(release, ctx()), KeyAction::Nothing);
}

#[test]
fn tab_hotkeys_and_cycling() {
    let mut s = UiState::new(TabId::Overview);
    s.handle_key(ch('6'), ctx());
    assert_eq!(s.active, TabId::Procs);
    s.handle_key(ch('='), ctx());
    assert_eq!(s.active, TabId::Insights);
    s.handle_key(key(KeyCode::Tab), ctx());
    assert_eq!(s.active, TabId::Overview);
    s.handle_key(key(KeyCode::BackTab), ctx());
    assert_eq!(s.active, TabId::Insights);
}

#[test]
fn selection_clamps_to_visible_rows() {
    let mut s = UiState::new(TabId::Procs);
    for _ in 0..10 {
        s.handle_key(key(KeyCode::Down), ctx());
    }
    assert_eq!(s.proc_sel, 2);
    s.handle_key(key(KeyCode::Up), ctx());
    assert_eq!(s.proc_sel, 1);
    s.handle_key(ch('s'), ctx());
    assert_eq!(s.proc_sort, ProcSort::Rss);
    assert_eq!(s.proc_sel, 0);
    s.handle_key(ch('3'), ctx());
    s.handle_key(key(KeyCode::Down), ctx());
    assert_eq!(s.proc_sel, 0);
    s.handle_key(ch('9'), ctx());
    s.handle_key(ch('s'), ctx());
    assert_eq!(s.service_sort, ServiceSort::Status);
    for _ in 0..4 {
        s.handle_key(key(KeyCode::Down), ctx());
    }
    assert_eq!(s.service_sel, 1);
}

#[test]
fn scrub_keys_stay_inside_the_session() {
    let mut s = UiState::new(TabId::Timeline);
    for _ in 0..9 {
        s.handle_key(key(KeyCode::Left), ctx());
    }
    assert_eq!(s.scrub_offset, 4);
    s.handle_key(key(KeyCode::Right), ctx());
    assert_eq!(s.scrub_offset, 3);
    s.handle_key(key(KeyCode::End), ctx());
    assert_eq!(s.scrub_offset, 0);
    s.handle_key(key(KeyCode::Home), ctx());
    assert_eq!(s.scrub_offset, 4);
}

#[test]
fn filter_box_applies_while_typing() {
    let mut s = UiState::new(TabId::Procs);
    s.handle_key(ch('/'), ctx());
    assert!(s.proc_filter_input);
    s.handle_key(ch('q'), ctx());
    s.handle_key(ch('x'), ctx());
    assert_eq!(s.proc_filter_active.as_deref(), Some("qx"));
    s.handle_key(key(KeyCode::Backspace), ctx());
    assert_eq!(s.proc_filter_active.as_deref(), Some("q"));
    s.handle_key(key(KeyCode::Enter), ctx());
    assert!(!s.proc_filter_input);
    assert_eq!(s.proc_filter_active.as_deref(), Some("q"));
    s.handle_key(ch('/'), ctx());
    assert_eq!(s.proc_filter_buf, "q");
    s.handle_key(key(KeyCode::Esc), ctx());
    assert_eq!(s.proc_filter_active, None);
    assert_eq!(s.proc_filter_buf, "");
}

#[test]
fn help_popup_swallows_keys() {
    let mut s = UiState::new(TabId::Overview);
    s.handle_key(ch('?'), ctx());
    assert!(s.help_active);
    assert_eq!(s.handle_key(ch('q'), ctx()), KeyAction::Nothing);
    assert_eq!(s.handle_key(ch('2'), ctx()), KeyAction::Nothing);
    assert_eq!(s.active, TabId::Overview);
    s.handle_key(key(KeyCode::Esc), ctx());
    assert!(!s.help_active);
}

#[test]
fn settings_popup_drives_edits() {
    let mut s = UiState::new(TabId::Overview);
    s.handle_key(ch(','), ctx());
    assert!(s.settings_active);
    for _ in 0..9 {
        s.handle_key(key(KeyCode::Down), ctx());
    }
    assert_eq!(s.settings_cursor, 3);
    assert_eq!(s.handle_key(key(KeyCode::Left), ctx()), KeyAction::SettingPrev(3));
    assert_eq!(s.handle_key(key(KeyCode::Enter), ctx()), KeyAction::LoadEditValue(3));
    assert!(s.settings_editing);
    s.handle_key(ch('5'), ctx());
    assert_eq!(s.handle_key(ctrl_c(), ctx()), KeyAction::Nothing);
    assert_eq!(s.settings_edit_buf, "5c");
    assert_eq!(s.handle_key(key(KeyCode::Enter), ctx()), KeyAction::ApplyEdit(3));
    s.finish_edit(Err("bad value".into()));
    assert!(s.settings_editing);
    assert_eq!(s.settings_status.as_deref(), Some("bad value"));
    s.finish_edit(Ok(()));
    assert!(!s.settings_editing);
    assert_eq!(s.settings_edit_buf, "");
    assert_eq!(s.settings_status.as_deref(), Some("applied (press S to save to disk)"));
    assert_eq!(s.handle_key(ch('S'), ctx()), KeyAction::SaveSettings);
    s.handle_key(key(KeyCode::Esc), ctx());
    assert!(!s.settings_active);
    assert_eq!(s.handle_key(ch('R'), ctx()), KeyAction::ToggleRecording);
    assert_eq!(s.handle_key(ch('S'), ctx()), KeyAction::Snapshot);
    assert_eq!(s.handle_key(ch('g'), ctx()), KeyAction::CycleGraphStyle);
    assert_eq!(s.handle_key(ch('t'), ctx()), KeyAction::CycleTheme);
    s.handle_key(ch('p'), ctx());
    assert!(s.paused);
}
