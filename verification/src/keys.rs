//! The dashboard's key handling as a state machine: a key press and the
//! sizes of what is on screen go in, the next view state and the one piece
//! of outside work the press asks for (quit, dump a snapshot, toggle the
//! recorder, talk to the settings store) come out.

use vstd::prelude::*;
use crate::app::{
    next_tab, prev_tab, spec_next_proc_sort, spec_next_service_sort, spec_next_tab, spec_prev_tab,
    ProcSort, ServiceSort, TabId,
};
use crate::text::{chars_of, string_of};

verus! {

broadcast use vstd::string::group_string_axioms;

/// Which key was pressed.
#[derive(Debug, Clone, Copy, PartialEq, Eq, Structural)]
pub enum KeyCode {
    Char(char),
    Esc,
    Enter,
    Backspace,
    Tab,
    BackTab,
    Up,
    Down,
    Left,
    Right,
    Home,
    End,
    /// Any key the dashboard has no binding for.
    Other,
}

/// One keyboard event.
#[derive(Debug, Clone, Copy, PartialEq, Eq, Structural)]
pub struct KeyPress {
    pub code: KeyCode,
    /// The modifiers are exactly Control.
    pub control: bool,
    /// A press, as opposed to a release or a repeat.
    pub press: bool,
}

/// What the screen holds when a key arrives.
#[derive(Debug, Clone, Copy, PartialEq, Eq, Structural)]
pub struct KeyContext {
    /// Rows of the process table after filtering (0 with no sample yet).
    pub visible_procs: usize,
    /// Rows of the service table (0 with no sample yet).
    pub services: usize,
    /// Samples held for scrubbing.
    pub session_len: usize,
    /// Rows of the settings popup.
    pub settings_rows: usize,
}

/// Outside work a key press asks the event loop to do.
#[derive(Debug, Clone, Copy, PartialEq, Eq, Structural)]
pub enum KeyAction {
    Nothing,
    Quit,
    /// Write the displayed sample to disk and flash where it went.
    Snapshot,
    /// Start a recording, or stop the running one.
    ToggleRecording,
    CycleGraphStyle,
    CycleTheme,
    /// Step the setting on this row back and apply it.
    SettingPrev(usize),
    /// Step the setting on this row forward and apply it.
    SettingNext(usize),
    /// Put the current value of this row into the edit buffer.
    LoadEditValue(usize),
    /// Validate and apply the edit buffer to this row, then report the
    /// outcome through `UiState::finish_edit`.
    ApplyEdit(usize),
    /// Write the settings to disk and report the outcome in the status.
    SaveSettings,
}

/// The part of the dashboard that key presses change.
#[derive(Debug)]
pub struct UiState {
    pub active: TabId,
    pub paused: bool,
    pub proc_sort: ProcSort,
    pub proc_sel: usize,
    pub service_sort: ServiceSort,
    pub service_sel: usize,
    /// Ticks back from the newest sample (0 = live).
    pub scrub_offset: usize,
    pub settings_active: bool,
    pub settings_cursor: usize,
    pub settings_editing: bool,
    pub settings_edit_buf: String,
    pub settings_status: Option<String>,
    pub help_active: bool,
    /// The filter box of the process table has the keyboard.
    pub proc_filter_input: bool,
    pub proc_filter_buf: String,
    /// Case-insensitive substring filter applied to the process table.
    pub proc_filter_active: Option<String>,
}

/// `UiState` with its strings as character sequences.
pub struct UiView {
    pub active: TabId,
    pub paused: bool,
    pub proc_sort: ProcSort,
    pub proc_sel: nat,
    pub service_sort: ServiceSort,
    pub service_sel: nat,
    pub scrub_offset: nat,
    pub settings_active: bool,
    pub settings_cursor: nat,
    pub settings_editing: bool,
    pub settings_edit_buf: Seq<char>,
    pub settings_status: Option<Seq<char>>,
    pub help_active: bool,
    pub proc_filter_input: bool,
    pub proc_filter_buf: Seq<char>,
    pub proc_filter_active: Option<Seq<char>>,
}

pub open spec fn opt_view(o: Option<String>) -> Option<Seq<char>> {
    match o {
        Some(s) => Some(s@),
        None => None,
    }
}

impl View for UiState {
    type V = UiView;

    open spec fn view(&self) -> UiView {
        UiView {
            active: self.active,
            paused: self.paused,
            proc_sort: self.proc_sort,
            proc_sel: self.proc_sel as nat,
            service_sort: self.service_sort,
            service_sel: self.service_sel as nat,
            scrub_offset: self.scrub_offset as nat,
            settings_active: self.settings_active,
            settings_cursor: self.settings_cursor as nat,
            settings_editing: self.settings_editing,
            settings_edit_buf: self.settings_edit_buf@,
            settings_status: opt_view(self.settings_status),
            help_active: self.help_active,
            proc_filter_input: self.proc_filter_input,
            proc_filter_buf: self.proc_filter_buf@,
            proc_filter_active: opt_view(self.proc_filter_active),
        }
    }
}

/// One less, stopping at zero.
pub open spec fn dec(n: nat) -> nat {
    if n > 0 {
        (n - 1) as nat
    } else {
        0
    }
}

/// One more, but no further than the last of `count` rows.
pub open spec fn inc_within(n: nat, count: nat) -> nat {
    if n + 1 <= dec(count) {
        n + 1
    } else {
        dec(count)
    }
}

/// A filter that is applied only when it holds something.
pub open spec fn filter_of(buf: Seq<char>) -> Option<Seq<char>> {
    if buf.len() == 0 {
        None
    } else {
        Some(buf)
    }
}

/// The buffer after a backspace.
pub open spec fn backspaced(buf: Seq<char>) -> Seq<char> {
    if buf.len() > 0 {
        buf.drop_last()
    } else {
        buf
    }
}

/// The tab a hotkey character jumps to.
pub open spec fn tab_for_hotkey(c: char) -> Option<TabId> {
    if c == '1' {
        Some(TabId::Overview)
    } else if c == '2' {
        Some(TabId::Cpu)
    } else if c == '3' {
        Some(TabId::Memory)
    } else if c == '4' {
        Some(TabId::Disks)
    } else if c == '5' {
        Some(TabId::Fs)
    } else if c == '6' {
        Some(TabId::Procs)
    } else if c == '7' {
        Some(TabId::Gpu)
    } else if c == '8' {
        Some(TabId::Power)
    } else if c == '9' {
        Some(TabId::Services)
    } else if c == '0' {
        Some(TabId::Net)
    } else if c == '-' {
        Some(TabId::Timeline)
    } else if c == '+' || c == '=' {
        Some(TabId::Insights)
    } else {
        None
    }
}

pub open spec fn is_ctrl_c(k: KeyPress) -> bool {
    k.control && k.code == KeyCode::Char('c')
}

/// Keys while the process filter box has the keyboard: typing edits the
/// filter and applies it at once; Enter keeps it, Esc drops it.
pub open spec fn filter_step(s: UiView, k: KeyPress) -> (UiView, KeyAction) {
    if is_ctrl_c(k) {
        (s, KeyAction::Quit)
    } else {
        match k.code {
            KeyCode::Esc => (
                UiView {
                    proc_filter_input: false,
                    proc_filter_buf: Seq::empty(),
                    proc_filter_active: None,
                    proc_sel: 0,
                    ..s
                },
                KeyAction::Nothing,
            ),
            KeyCode::Enter => (
                UiView {
                    proc_filter_input: false,
                    proc_filter_active: filter_of(s.proc_filter_buf),
                    proc_sel: 0,
                    ..s
                },
                KeyAction::Nothing,
            ),
            KeyCode::Backspace => (
                UiView {
                    proc_filter_buf: backspaced(s.proc_filter_buf),
                    proc_filter_active: filter_of(backspaced(s.proc_filter_buf)),
                    proc_sel: 0,
                    ..s
                },
                KeyAction::Nothing,
            ),
            KeyCode::Char(c) => (
                UiView {
                    proc_filter_buf: s.proc_filter_buf.push(c),
                    proc_filter_active: Some(s.proc_filter_buf.push(c)),
                    proc_sel: 0,
                    ..s
                },
                KeyAction::Nothing,
            ),
            _ => (s, KeyAction::Nothing),
        }
    }
}

/// Keys while the help popup is open: Esc or `?` close it, Ctrl-C quits,
/// every other key is swallowed.
pub open spec fn help_step(s: UiView, k: KeyPress) -> (UiView, KeyAction) {
    if is_ctrl_c(k) {
        (s, KeyAction::Quit)
    } else if k.code == KeyCode::Esc || k.code == KeyCode::Char('?') {
        (UiView { help_active: false, ..s }, KeyAction::Nothing)
    } else {
        (s, KeyAction::Nothing)
    }
}

/// Keys while the settings popup is open.
pub open spec fn settings_step(s: UiView, k: KeyPress, ctx: KeyContext) -> (UiView, KeyAction) {
    if s.settings_editing {
        match k.code {
            KeyCode::Esc => (
                UiView {
                    settings_editing: false,
                    settings_edit_buf: Seq::empty(),
                    settings_status: None,
                    ..s
                },
                KeyAction::Nothing,
            ),
            KeyCode::Enter => (s, KeyAction::ApplyEdit(s.settings_cursor as usize)),
            KeyCode::Backspace => (
                UiView { settings_edit_buf: backspaced(s.settings_edit_buf), ..s },
                KeyAction::Nothing,
            ),
            KeyCode::Char(c) => (
                UiView { settings_edit_buf: s.settings_edit_buf.push(c), ..s },
                KeyAction::Nothing,
            ),
            _ => (s, KeyAction::Nothing),
        }
    } else if is_ctrl_c(k) {
        (s, KeyAction::Quit)
    } else {
        match k.code {
            KeyCode::Esc => (
                UiView { settings_active: false, settings_status: None, ..s },
                KeyAction::Nothing,
            ),
            KeyCode::Up => (
                UiView { settings_cursor: dec(s.settings_cursor), settings_status: None, ..s },
                KeyAction::Nothing,
            ),
            KeyCode::Down => (
                UiView {
                    settings_cursor: inc_within(s.settings_cursor, ctx.settings_rows as nat),
                    settings_status: None,
                    ..s
                },
                KeyAction::Nothing,
            ),
            KeyCode::Left => (s, KeyAction::SettingPrev(s.settings_cursor as usize)),
            KeyCode::Right => (s, KeyAction::SettingNext(s.settings_cursor as usize)),
            KeyCode::Enter => (
                UiView { settings_editing: true, settings_status: None, ..s },
                KeyAction::LoadEditValue(s.settings_cursor as usize),
            ),
            KeyCode::Char(c) => if c == 's' || c == 'S' {
                (s, KeyAction::SaveSettings)
            } else {
                (s, KeyAction::Nothing)
            },
            _ => (s, KeyAction::Nothing),
        }
    }
}

/// A character key on the dashboard itself.
pub open spec fn char_step(s: UiView, c: char, control: bool) -> (UiView, KeyAction) {
    if c == 'q' || (c == 'c' && control) {
        (s, KeyAction::Quit)
    } else if c == 'p' {
        (UiView { paused: !s.paused, ..s }, KeyAction::Nothing)
    } else if c == ',' {
        (
            UiView {
                settings_active: true,
                settings_cursor: 0,
                settings_status: None,
                settings_editing: false,
                ..s
            },
            KeyAction::Nothing,
        )
    } else if c == '?' {
        (UiView { help_active: true, ..s }, KeyAction::Nothing)
    } else if c == 'S' {
        (s, KeyAction::Snapshot)
    } else if c == 'R' {
        (s, KeyAction::ToggleRecording)
    } else if c == 'g' {
        (s, KeyAction::CycleGraphStyle)
    } else if c == 't' {
        (s, KeyAction::CycleTheme)
    } else if tab_for_hotkey(c) is Some {
        (UiView { active: tab_for_hotkey(c)->0, ..s }, KeyAction::Nothing)
    } else if c == 's' && s.active == TabId::Procs {
        (
            UiView { proc_sort: spec_next_proc_sort(s.proc_sort), proc_sel: 0, ..s },
            KeyAction::Nothing,
        )
    } else if c == '/' && s.active == TabId::Procs {
        (
            UiView {
                proc_filter_input: true,
                proc_filter_buf: match s.proc_filter_active {
                    Some(f) => f,
                    None => Seq::empty(),
                },
                ..s
            },
            KeyAction::Nothing,
        )
    } else if c == 's' && s.active == TabId::Services {
        (
            UiView { service_sort: spec_next_service_sort(s.service_sort), service_sel: 0, ..s },
            KeyAction::Nothing,
        )
    } else {
        (s, KeyAction::Nothing)
    }
}

/// Keys on the dashboard itself.
pub open spec fn main_step(s: UiView, k: KeyPress, ctx: KeyContext) -> (UiView, KeyAction) {
    match k.code {
        KeyCode::Char(c) => char_step(s, c, k.control),
        KeyCode::Tab => (UiView { active: spec_next_tab(s.active), ..s }, KeyAction::Nothing),
        KeyCode::BackTab => (UiView { active: spec_prev_tab(s.active), ..s }, KeyAction::Nothing),
        KeyCode::Up => if s.active == TabId::Procs {
            (UiView { proc_sel: dec(s.proc_sel), ..s }, KeyAction::Nothing)
        } else if s.active == TabId::Services {
            (UiView { service_sel: dec(s.service_sel), ..s }, KeyAction::Nothing)
        } else {
            (s, KeyAction::Nothing)
        },
        KeyCode::Down => if s.active == TabId::Procs {
            (
                UiView { proc_sel: inc_within(s.proc_sel, ctx.visible_procs as nat), ..s },
                KeyAction::Nothing,
            )
        } else if s.active == TabId::Services {
            (
                UiView { service_sel: inc_within(s.service_sel, ctx.services as nat), ..s },
                KeyAction::Nothing,
            )
        } else {
            (s, KeyAction::Nothing)
        },
        KeyCode::Left => (
            UiView { scrub_offset: inc_within(s.scrub_offset, ctx.session_len as nat), ..s },
            KeyAction::Nothing,
        ),
        KeyCode::Right => (UiView { scrub_offset: dec(s.scrub_offset), ..s }, KeyAction::Nothing),
        KeyCode::Home => (
            UiView { scrub_offset: dec(ctx.session_len as nat), ..s },
            KeyAction::Nothing,
        ),
        KeyCode::End => (UiView { scrub_offset: 0, ..s }, KeyAction::Nothing),
        _ => (s, KeyAction::Nothing),
    }
}

/// What a key does: the filter box, then the help popup, then the
/// settings popup take the keyboard before the dashboard does. Releases
/// do nothing.
pub open spec fn key_step(s: UiView, k: KeyPress, ctx: KeyContext) -> (UiView, KeyAction) {
    if !k.press {
        (s, KeyAction::Nothing)
    } else if s.proc_filter_input {
        filter_step(s, k)
    } else if s.help_active {
        help_step(s, k)
    } else if s.settings_active {
        settings_step(s, k, ctx)
    } else {
        main_step(s, k, ctx)
    }
}

/// The state once the settings store has answered an `ApplyEdit`: on
/// success the edit closes, on failure the message shows and the text
/// stays for another try.
pub open spec fn edit_finished(s: UiView, outcome: Result<(), Seq<char>>) -> UiView {
    match outcome {
        Ok(_) => UiView {
            settings_editing: false,
            settings_edit_buf: Seq::empty(),
            settings_status: Some(APPLIED_MSG@),
            ..s
        },
        Err(m) => UiView { settings_status: Some(m), ..s },
    }
}

/// A dashboard-level view: no filter box, help or settings popup open.
pub open spec fn on_dashboard(s: UiView) -> bool {
    !s.proc_filter_input && !s.help_active && !s.settings_active
}

/// Ctrl-C quits from everywhere except the settings value editor, where
/// it types a `c`.
pub proof fn lemma_ctrl_c_quits(s: UiView, ctx: KeyContext)
    ensures
        !(s.settings_active && s.settings_editing && !s.proc_filter_input && !s.help_active)
            ==> key_step(s, KeyPress { code: KeyCode::Char('c'), control: true, press: true }, ctx).1
            == KeyAction::Quit,
{
}

/// The scrub offset never points past the oldest held sample: once within
/// the session it stays there, whatever key arrives.
pub proof fn lemma_scrub_stays_in_session(s: UiView, k: KeyPress, ctx: KeyContext)
    requires
        s.scrub_offset <= dec(ctx.session_len as nat),
    ensures
        key_step(s, k, ctx).0.scrub_offset <= dec(ctx.session_len as nat),
{
}

/// The row selections never land past the last visible row: once within
/// the table they stay there, whatever key arrives.
pub proof fn lemma_selection_stays_visible(s: UiView, k: KeyPress, ctx: KeyContext)
    requires
        s.proc_sel <= dec(ctx.visible_procs as nat),
        s.service_sel <= dec(ctx.services as nat),
    ensures
        key_step(s, k, ctx).0.proc_sel <= dec(ctx.visible_procs as nat),
        key_step(s, k, ctx).0.service_sel <= dec(ctx.services as nat),
{
}

/// The help popup swallows every key but Esc, `?` and Ctrl-C: the state
/// stays as it was and nothing is asked of the event loop.
pub proof fn lemma_help_swallows_keys(s: UiView, k: KeyPress, ctx: KeyContext)
    requires
        s.help_active,
        !s.proc_filter_input,
        k.code != KeyCode::Esc,
        k.code != KeyCode::Char('?'),
        !is_ctrl_c(k),
    ensures
        key_step(s, k, ctx) == (s, KeyAction::Nothing),
{
}

/// While the filter box is open, typing and deleting apply the filter at
/// once: afterwards the applied filter is the buffer, or none when the
/// buffer is empty, and the selection is back on the first row.
pub proof fn lemma_filter_applies_live(s: UiView, k: KeyPress, ctx: KeyContext)
    requires
        s.proc_filter_input,
        k.press,
        !is_ctrl_c(k),
        k.code is Char || k.code == KeyCode::Backspace,
    ensures
        key_step(s, k, ctx).0.proc_filter_active == filter_of(key_step(s, k, ctx).0.proc_filter_buf),
        key_step(s, k, ctx).0.proc_sel == 0,
        key_step(s, k, ctx).0.proc_filter_input,
{
}

/// On the dashboard, Shift-Tab undoes Tab and Tab undoes Shift-Tab.
pub proof fn lemma_tab_keys_undo(s: UiView, ctx: KeyContext)
    requires
        on_dashboard(s),
    ensures
        ({
            let tab = KeyPress { code: KeyCode::Tab, control: false, press: true };
            let back = KeyPress { code: KeyCode::BackTab, control: false, press: true };
            &&& key_step(key_step(s, tab, ctx).0, back, ctx).0 == s
            &&& key_step(key_step(s, back, ctx).0, tab, ctx).0 == s
        }),
{
    crate::app::lemma_tab_cycle_inverse(s.active);
}

/// Status shown once an edit has been applied.
pub const APPLIED_MSG: &'static str = "applied (press S to save to disk)";

fn pop_last(s: &mut String)
    ensures
        final(s)@ == backspaced(old(s)@),
{
    let mut v = chars_of(s.as_str());
    if v.len() > 0 {
        v.pop();
        *s = string_of(v.as_slice());
    }
}

fn filter_of_buf(buf: &String) -> (r: Option<String>)
    ensures
        opt_view(r) == filter_of(buf@),
{
    if buf.as_str().is_empty() {
        None
    } else {
        Some(buf.clone())
    }
}

fn hotkey_tab(c: char) -> (r: Option<TabId>)
    ensures
        r == tab_for_hotkey(c),
{
    if c == '1' {
        Some(TabId::Overview)
    } else if c == '2' {
        Some(TabId::Cpu)
    } else if c == '3' {
        Some(TabId::Memory)
    } else if c == '4' {
        Some(TabId::Disks)
    } else if c == '5' {
        Some(TabId::Fs)
    } else if c == '6' {
        Some(TabId::Procs)
    } else if c == '7' {
        Some(TabId::Gpu)
    } else if c == '8' {
        Some(TabId::Power)
    } else if c == '9' {
        Some(TabId::Services)
    } else if c == '0' {
        Some(TabId::Net)
    } else if c == '-' {
        Some(TabId::Timeline)
    } else if c == '+' || c == '=' {
        Some(TabId::Insights)
    } else {
        None
    }
}

fn dec_usize(n: usize) -> (r: usize)
    ensures
        r == dec(n as nat),
{
    if n > 0 {
        n - 1
    } else {
        0
    }
}

fn inc_within_usize(n: usize, count: usize) -> (r: usize)
    ensures
        r == inc_within(n as nat, count as nat),
{
    let max = dec_usize(count);
    if n < max {
        n + 1
    } else {
        max
    }
}

impl UiState {
    /// The state a dashboard starts in: on tab `start`, live, sorted by CPU
    /// and by service name, with nothing open.
    pub fn new(start: TabId) -> (r: UiState)
        ensures
            r@ == (UiView {
                active: start,
                paused: false,
                proc_sort: ProcSort::Cpu,
                proc_sel: 0,
                service_sort: ServiceSort::Name,
                service_sel: 0,
                scrub_offset: 0,
                settings_active: false,
                settings_cursor: 0,
                settings_editing: false,
                settings_edit_buf: Seq::empty(),
                settings_status: None,
                help_active: false,
                proc_filter_input: false,
                proc_filter_buf: Seq::empty(),
                proc_filter_active: None,
            }),
    {
        UiState {
            active: start,
            paused: false,
            proc_sort: ProcSort::Cpu,
            proc_sel: 0,
            service_sort: ServiceSort::Name,
            service_sel: 0,
            scrub_offset: 0,
            settings_active: false,
            settings_cursor: 0,
            settings_editing: false,
            settings_edit_buf: String::new(),
            settings_status: None,
            help_active: false,
            proc_filter_input: false,
            proc_filter_buf: String::new(),
            proc_filter_active: None,
        }
    }

    fn filter_key(&mut self, k: KeyPress) -> (a: KeyAction)
        ensures
            (final(self)@, a) == filter_step(old(self)@, k),
    {
        if k.control && k.code == KeyCode::Char('c') {
            return KeyAction::Quit;
        }
        match k.code {
            KeyCode::Esc => {
                self.proc_filter_input = false;
                self.proc_filter_buf = String::new();
                self.proc_filter_active = None;
                self.proc_sel = 0;
            },
            KeyCode::Enter => {
                self.proc_filter_input = false;
                self.proc_filter_active = filter_of_buf(&self.proc_filter_buf);
                self.proc_sel = 0;
            },
            KeyCode::Backspace => {
                pop_last(&mut self.proc_filter_buf);
                self.proc_filter_active = filter_of_buf(&self.proc_filter_buf);
                self.proc_sel = 0;
            },
            KeyCode::Char(c) => {
                self.proc_filter_buf.push(c);
                self.proc_filter_active = Some(self.proc_filter_buf.clone());
                self.proc_sel = 0;
            },
            _ => {},
        }
        KeyAction::Nothing
    }

    fn help_key(&mut self, k: KeyPress) -> (a: KeyAction)
        ensures
            (final(self)@, a) == help_step(old(self)@, k),
    {
        if k.control && k.code == KeyCode::Char('c') {
            return KeyAction::Quit;
        }
        if k.code == KeyCode::Esc || k.code == KeyCode::Char('?') {
            self.help_active = false;
        }
        KeyAction::Nothing
    }

    fn settings_key(&mut self, k: KeyPress, ctx: KeyContext) -> (a: KeyAction)
        ensures
            (final(self)@, a) == settings_step(old(self)@, k, ctx),
    {
        if self.settings_editing {
            match k.code {
                KeyCode::Esc => {
                    self.settings_editing = false;
                    self.settings_edit_buf = String::new();
                    self.settings_status = None;
                },
                KeyCode::Enter => {
                    return KeyAction::ApplyEdit(self.settings_cursor);
                },
                KeyCode::Backspace => {
                    pop_last(&mut self.settings_edit_buf);
                },
                KeyCode::Char(c) => {
                    self.settings_edit_buf.push(c);
                },
                _ => {},
            }
            return KeyAction::Nothing;
        }
        if k.control && k.code == KeyCode::Char('c') {
            return KeyAction::Quit;
        }
        match k.code {
            KeyCode::Esc => {
                self.settings_active = false;
                self.settings_status = None;
            },
            KeyCode::Up => {
                self.settings_cursor = dec_usize(self.settings_cursor);
                self.settings_status = None;
            },
            KeyCode::Down => {
                self.settings_cursor = inc_within_usize(self.settings_cursor, ctx.settings_rows);
                self.settings_status = None;
            },
            KeyCode::Left => {
                return KeyAction::SettingPrev(self.settings_cursor);
            },
            KeyCode::Right => {
                return KeyAction::SettingNext(self.settings_cursor);
            },
            KeyCode::Enter => {
                self.settings_editing = true;
                self.settings_status = None;
                return KeyAction::LoadEditValue(self.settings_cursor);
            },
            KeyCode::Char(c) => {
                if c == 's' || c == 'S' {
                    return KeyAction::SaveSettings;
                }
            },
            _ => {},
        }
        KeyAction::Nothing
    }

    fn char_key(&mut self, c: char, control: bool) -> (a: KeyAction)
        ensures
            (final(self)@, a) == char_step(old(self)@, c, control),
    {
        if c == 'q' || (c == 'c' && control) {
            return KeyAction::Quit;
        }
        if c == 'p' {
            self.paused = !self.paused;
        } else if c == ',' {
            self.settings_active = true;
            self.settings_cursor = 0;
            self.settings_status = None;
            self.settings_editing = false;
        } else if c == '?' {
            self.help_active = true;
        } else if c == 'S' {
            return KeyAction::Snapshot;
        } else if c == 'R' {
            return KeyAction::ToggleRecording;
        } else if c == 'g' {
            return KeyAction::CycleGraphStyle;
        } else if c == 't' {
            return KeyAction::CycleTheme;
        } else if let Some(t) = hotkey_tab(c) {
            self.active = t;
        } else if c == 's' && self.active == TabId::Procs {
            self.proc_sort = self.proc_sort.next();
            self.proc_sel = 0;
        } else if c == '/' && self.active == TabId::Procs {
            self.proc_filter_input = true;
            self.proc_filter_buf = match &self.proc_filter_active {
                Some(f) => f.clone(),
                None => String::new(),
            };
        } else if c == 's' && self.active == TabId::Services {
            self.service_sort = self.service_sort.next();
            self.service_sel = 0;
        }
        KeyAction::Nothing
    }

    fn main_key(&mut self, k: KeyPress, ctx: KeyContext) -> (a: KeyAction)
        ensures
            (final(self)@, a) == main_step(old(self)@, k, ctx),
    {
        match k.code {
            KeyCode::Char(c) => {
                return self.char_key(c, k.control);
            },
            KeyCode::Tab => {
                self.active = next_tab(self.active);
            },
            KeyCode::BackTab => {
                self.active = prev_tab(self.active);
            },
            KeyCode::Up => {
                if self.active == TabId::Procs {
                    self.proc_sel = dec_usize(self.proc_sel);
                } else if self.active == TabId::Services {
                    self.service_sel = dec_usize(self.service_sel);
                }
            },
            KeyCode::Down => {
                if self.active == TabId::Procs {
                    self.proc_sel = inc_within_usize(self.proc_sel, ctx.visible_procs);
                } else if self.active == TabId::Services {
                    self.service_sel = inc_within_usize(self.service_sel, ctx.services);
                }
            },
            KeyCode::Left => {
                self.scrub_offset = inc_within_usize(self.scrub_offset, ctx.session_len);
            },
            KeyCode::Right => {
                self.scrub_offset = dec_usize(self.scrub_offset);
            },
            KeyCode::Home => {
                self.scrub_offset = dec_usize(ctx.session_len);
            },
            KeyCode::End => {
                self.scrub_offset = 0;
            },
            _ => {},
        }
        KeyAction::Nothing
    }

    /// Handles one key event and names the outside work it asks for.
    pub fn handle_key(&mut self, k: KeyPress, ctx: KeyContext) -> (a: KeyAction)
        ensures
            (final(self)@, a) == key_step(old(self)@, k, ctx),
    {
        if !k.press {
            KeyAction::Nothing
        } else if self.proc_filter_input {
            self.filter_key(k)
        } else if self.help_active {
            self.help_key(k)
        } else if self.settings_active {
            self.settings_key(k, ctx)
        } else {
            self.main_key(k, ctx)
        }
    }

    /// Takes the settings store's answer to an `ApplyEdit`.
    pub fn finish_edit(&mut self, outcome: Result<(), String>)
        ensures
            final(self)@ == edit_finished(
                old(self)@,
                match outcome {
                    Ok(_) => Ok(()),
                    Err(m) => Err(m@),
                },
            ),
    {
        match outcome {
            Ok(_) => {
                self.settings_editing = false;
                self.settings_edit_buf = String::new();
                self.settings_status = Some(APPLIED_MSG.to_owned());
            },
            Err(m) => {
                self.settings_status = Some(m);
            },
        }
    }
}

/// In the settings popup, with no value being edited, the arrow keys act
/// on the selected row and leave the view as it is: Right steps its
/// setting forward and Left steps it back, two different requests.
pub proof fn lemma_settings_arrows_step_the_row(s: UiView, ctx: KeyContext, control: bool)
    requires
        s.settings_active,
        !s.settings_editing,
        !s.proc_filter_input,
        !s.help_active,
        s.settings_cursor <= usize::MAX,
    ensures
        key_step(s, KeyPress { code: KeyCode::Right, control, press: true }, ctx) == (
            s,
            KeyAction::SettingNext(s.settings_cursor as usize),
        ),
        key_step(s, KeyPress { code: KeyCode::Left, control, press: true }, ctx) == (
            s,
            KeyAction::SettingPrev(s.settings_cursor as usize),
        ),
        key_step(s, KeyPress { code: KeyCode::Right, control, press: true }, ctx).1 != key_step(
            s,
            KeyPress { code: KeyCode::Left, control, press: true },
            ctx,
        ).1,
{
}

/// The other keys of the settings popup, with no value being edited: Up
/// and Down move the selection one row within the `settings_rows` rows,
/// Enter starts editing the selected row's value, `s` or `S` asks for a
/// save and Esc closes the popup; moving, editing and closing clear the
/// status line.
pub proof fn lemma_settings_popup_keys(s: UiView, ctx: KeyContext, control: bool)
    requires
        s.settings_active,
        !s.settings_editing,
        !s.proc_filter_input,
        !s.help_active,
        s.settings_cursor <= usize::MAX,
        ctx.settings_rows > 0,
    ensures
        key_step(s, KeyPress { code: KeyCode::Up, control, press: true }, ctx) == (
            UiView {
                settings_cursor: if s.settings_cursor == 0 {
                    0
                } else {
                    (s.settings_cursor - 1) as nat
                },
                settings_status: None,
                ..s
            },
            KeyAction::Nothing,
        ),
        key_step(s, KeyPress { code: KeyCode::Down, control, press: true }, ctx) == (
            UiView {
                settings_cursor: if s.settings_cursor + 1 < ctx.settings_rows {
                    s.settings_cursor + 1
                } else {
                    (ctx.settings_rows - 1) as nat
                },
                settings_status: None,
                ..s
            },
            KeyAction::Nothing,
        ),
        key_step(s, KeyPress { code: KeyCode::Enter, control, press: true }, ctx) == (
            UiView { settings_editing: true, settings_status: None, ..s },
            KeyAction::LoadEditValue(s.settings_cursor as usize),
        ),
        key_step(s, KeyPress { code: KeyCode::Char('s'), control, press: true }, ctx) == (
            s,
            KeyAction::SaveSettings,
        ),
        key_step(s, KeyPress { code: KeyCode::Char('S'), control, press: true }, ctx) == (
            s,
            KeyAction::SaveSettings,
        ),
        key_step(s, KeyPress { code: KeyCode::Esc, control, press: true }, ctx) == (
            UiView { settings_active: false, settings_status: None, ..s },
            KeyAction::Nothing,
        ),
        key_step(s, KeyPress { code: KeyCode::Char('c'), control: true, press: true }, ctx) == (
            s,
            KeyAction::Quit,
        ),
{
}

/// While a setting's value is being edited every key goes to the edit
/// buffer: characters are appended (Ctrl-C too types a `c`), Backspace
/// drops the last one, Enter asks to apply the buffer to the selected row
/// and Esc abandons the edit.
pub proof fn lemma_settings_edit_keys(s: UiView, ctx: KeyContext, control: bool, c: char)
    requires
        s.settings_active,
        s.settings_editing,
        !s.proc_filter_input,
        !s.help_active,
        s.settings_cursor <= usize::MAX,
    ensures
        key_step(s, KeyPress { code: KeyCode::Char(c), control, press: true }, ctx) == (
            UiView { settings_edit_buf: s.settings_edit_buf.push(c), ..s },
            KeyAction::Nothing,
        ),
        key_step(s, KeyPress { code: KeyCode::Backspace, control, press: true }, ctx) == (
            UiView {
                settings_edit_buf: if s.settings_edit_buf.len() == 0 {
                    s.settings_edit_buf
                } else {
                    s.settings_edit_buf.take(s.settings_edit_buf.len() - 1)
                },
                ..s
            },
            KeyAction::Nothing,
        ),
        key_step(s, KeyPress { code: KeyCode::Enter, control, press: true }, ctx) == (
            s,
            KeyAction::ApplyEdit(s.settings_cursor as usize),
        ),
        key_step(s, KeyPress { code: KeyCode::Esc, control, press: true }, ctx) == (
            UiView {
                settings_editing: false,
                settings_edit_buf: Seq::empty(),
                settings_status: None,
                ..s
            },
            KeyAction::Nothing,
        ),
{
    assert(s.settings_edit_buf.len() > 0 ==> s.settings_edit_buf.drop_last() =~= s.settings_edit_buf.take(
        s.settings_edit_buf.len() - 1,
    ));
}

/// The dashboard's scrubbing and command keys: Left steps one sample
/// back (no further than the oldest of `session_len`), Right one sample
/// forward (no further than live), Home jumps to the oldest and End back
/// to live; `q` quits, `p` toggles the pause, `,` opens the settings popup
/// on its first row, `?` opens the help, `S` asks for a snapshot and `R`
/// starts or stops a recording.
pub proof fn lemma_dashboard_keys(s: UiView, ctx: KeyContext)
    requires
        on_dashboard(s),
        ctx.session_len > 0,
    ensures
        key_step(s, KeyPress { code: KeyCode::Left, control: false, press: true }, ctx) == (
            UiView {
                scrub_offset: if s.scrub_offset + 1 < ctx.session_len {
                    s.scrub_offset + 1
                } else {
                    (ctx.session_len - 1) as nat
                },
                ..s
            },
            KeyAction::Nothing,
        ),
        key_step(s, KeyPress { code: KeyCode::Right, control: false, press: true }, ctx) == (
            UiView {
                scrub_offset: if s.scrub_offset == 0 {
                    0
                } else {
                    (s.scrub_offset - 1) as nat
                },
                ..s
            },
            KeyAction::Nothing,
        ),
        key_step(s, KeyPress { code: KeyCode::Home, control: false, press: true }, ctx) == (
            UiView { scrub_offset: (ctx.session_len - 1) as nat, ..s },
            KeyAction::Nothing,
        ),
        key_step(s, KeyPress { code: KeyCode::End, control: false, press: true }, ctx) == (
            UiView { scrub_offset: 0, ..s },
            KeyAction::Nothing,
        ),
        key_step(s, KeyPress { code: KeyCode::Char('q'), control: false, press: true }, ctx) == (
            s,
            KeyAction::Quit,
        ),
        key_step(s, KeyPress { code: KeyCode::Char('p'), control: false, press: true }, ctx) == (
            UiView { paused: !s.paused, ..s },
            KeyAction::Nothing,
        ),
        key_step(s, KeyPress { code: KeyCode::Char(','), control: false, press: true }, ctx).0
            .settings_active,
        key_step(s, KeyPress { code: KeyCode::Char(','), control: false, press: true }, ctx).0
            .settings_cursor == 0,
        !key_step(s, KeyPress { code: KeyCode::Char(','), control: false, press: true }, ctx).0
            .settings_editing,
        key_step(s, KeyPress { code: KeyCode::Char('?'), control: false, press: true }, ctx) == (
            UiView { help_active: true, ..s },
            KeyAction::Nothing,
        ),
        key_step(s, KeyPress { code: KeyCode::Char('S'), control: false, press: true }, ctx) == (
            s,
            KeyAction::Snapshot,
        ),
        key_step(s, KeyPress { code: KeyCode::Char('R'), control: false, press: true }, ctx) == (
            s,
            KeyAction::ToggleRecording,
        ),
{
}

/// The tab hotkeys: `1` to `9` and `0` pick Overview, CPU, Memory, Disks,
/// Filesystems, Processes, GPU, Power, Services and Network; `-` picks
/// the timeline and `+` or `=` the insights.
pub proof fn lemma_tab_hotkeys(s: UiView, ctx: KeyContext)
    requires
        on_dashboard(s),
    ensures
        key_step(s, KeyPress { code: KeyCode::Char('1'), control: false, press: true }, ctx).0.active == TabId::Overview,
        key_step(s, KeyPress { code: KeyCode::Char('2'), control: false, press: true }, ctx).0.active == TabId::Cpu,
        key_step(s, KeyPress { code: KeyCode::Char('3'), control: false, press: true }, ctx).0.active == TabId::Memory,
        key_step(s, KeyPress { code: KeyCode::Char('4'), control: false, press: true }, ctx).0.active == TabId::Disks,
        key_step(s, KeyPress { code: KeyCode::Char('5'), control: false, press: true }, ctx).0.active == TabId::Fs,
        key_step(s, KeyPress { code: KeyCode::Char('6'), control: false, press: true }, ctx).0.active == TabId::Procs,
        key_step(s, KeyPress { code: KeyCode::Char('7'), control: false, press: true }, ctx).0.active == TabId::Gpu,
        key_step(s, KeyPress { code: KeyCode::Char('8'), control: false, press: true }, ctx).0.active == TabId::Power,
        key_step(s, KeyPress { code: KeyCode::Char('9'), control: false, press: true }, ctx).0.active == TabId::Services,
        key_step(s, KeyPress { code: KeyCode::Char('0'), control: false, press: true }, ctx).0.active == TabId::Net,
        key_step(s, KeyPress { code: KeyCode::Char('-'), control: false, press: true }, ctx).0.active == TabId::Timeline,
        key_step(s, KeyPress { code: KeyCode::Char('+'), control: false, press: true }, ctx).0.active == TabId::Insights,
        key_step(s, KeyPress { code: KeyCode::Char('='), control: false, press: true }, ctx).0.active == TabId::Insights,
{
}

} // verus!
