use syswatch::sanitize::{scrub, scrub_opt, unsafe_for_display, REPLACEMENT};

#[test]
fn strips_osc_terminal_title_sequence() {
    let mut s = String::from("sh\u{1b}]0;owned\u{7}x");
    scrub(&mut s);
    assert_eq!(s, "sh·]0;owned·x");
}

#[test]
fn strips_c0_c1_and_del() {
    for c in ['\u{1b}', '\u{7}', '\t', '\n', '\r', '\u{7f}', '\u{9b}'] {
        let mut s = format!("a{c}b");
        scrub(&mut s);
        assert_eq!(s, "a·b", "U+{:04X} survived", c as u32);
    }
}

#[test]
fn strips_bidi_overrides() {
    let mut s = String::from("gnp\u{202E}.exe");
    scrub(&mut s);
    assert_eq!(s, "gnp·.exe");
}

#[test]
fn leaves_ordinary_text_untouched() {
    for input in ["kernel_task", "/System/Volumes/Data", "日本語", "café", "🦀"] {
        let mut s = String::from(input);
        scrub(&mut s);
        assert_eq!(s, input);
    }
}

#[test]
fn leaves_combining_marks_and_zwj_untouched() {
    let mut s = String::from("e\u{301} \u{1F468}\u{200D}\u{1F4BB}");
    let before = s.clone();
    scrub(&mut s);
    assert_eq!(s, before);
}

#[test]
fn scrubbing_twice_changes_nothing_more() {
    let mut s = String::from("a\u{1b}[2J\u{2066}b\u{85}");
    scrub(&mut s);
    let once = s.clone();
    scrub(&mut s);
    assert_eq!(s, once);
    assert!(!s.chars().any(unsafe_for_display));
    assert_eq!(s.chars().count(), 8);
}

#[test]
fn scrub_opt_scrubs_inside_and_keeps_none() {
    let mut some = Some(String::from("x\u{7}y"));
    scrub_opt(&mut some);
    assert_eq!(some.as_deref(), Some("x·y"));
    let mut none: Option<String> = None;
    scrub_opt(&mut none);
    assert_eq!(none, None);
}

#[test]
fn replacement_is_itself_safe_and_edges_are_exact() {
    assert!(!unsafe_for_display(REPLACEMENT));
    assert!(unsafe_for_display('\u{1f}'));
    assert!(!unsafe_for_display(' '));
    assert!(!unsafe_for_display('~'));
    assert!(unsafe_for_display('\u{9f}'));
    assert!(!unsafe_for_display('\u{a0}'));
    assert!(unsafe_for_display('\u{200e}'));
    assert!(!unsafe_for_display('\u{200d}'));
    assert!(unsafe_for_display('\u{2069}'));
    assert!(!unsafe_for_display('\u{206a}'));
}
