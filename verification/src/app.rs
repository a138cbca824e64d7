//! Tab, sort and view state of the dashboard, and the key handling that
//! drives it.

use vstd::prelude::*;
use crate::text::{ascii_lower, lower_ascii};

verus! {

/// The dashboard's tabs, in tab-bar order.
#[derive(Debug, Clone, Copy, PartialEq, Eq, Structural)]
pub enum TabId {
    Overview,
    Cpu,
    Memory,
    Disks,
    Fs,
    Procs,
    Gpu,
    Power,
    Services,
    Net,
    Timeline,
    Insights,
}

/// Number of tabs.
pub const TAB_COUNT: usize = 12;

/// Every tab, in tab-bar order.
pub const ALL_TABS: [TabId; 12] = [
    TabId::Overview,
    TabId::Cpu,
    TabId::Memory,
    TabId::Disks,
    TabId::Fs,
    TabId::Procs,
    TabId::Gpu,
    TabId::Power,
    TabId::Services,
    TabId::Net,
    TabId::Timeline,
    TabId::Insights,
];

/// A tab's position in the tab bar.
pub open spec fn tab_index(t: TabId) -> nat {
    match t {
        TabId::Overview => 0,
        TabId::Cpu => 1,
        TabId::Memory => 2,
        TabId::Disks => 3,
        TabId::Fs => 4,
        TabId::Procs => 5,
        TabId::Gpu => 6,
        TabId::Power => 7,
        TabId::Services => 8,
        TabId::Net => 9,
        TabId::Timeline => 10,
        TabId::Insights => 11,
    }
}

/// The tab at position `i` of the tab bar (`i < 12`).
pub open spec fn tab_at(i: nat) -> TabId {
    if i == 0 {
        TabId::Overview
    } else if i == 1 {
        TabId::Cpu
    } else if i == 2 {
        TabId::Memory
    } else if i == 3 {
        TabId::Disks
    } else if i == 4 {
        TabId::Fs
    } else if i == 5 {
        TabId::Procs
    } else if i == 6 {
        TabId::Gpu
    } else if i == 7 {
        TabId::Power
    } else if i == 8 {
        TabId::Services
    } else if i == 9 {
        TabId::Net
    } else if i == 10 {
        TabId::Timeline
    } else {
        TabId::Insights
    }
}

/// The tab after `t`, wrapping from the last to the first.
pub open spec fn spec_next_tab(t: TabId) -> TabId {
    tab_at((tab_index(t) + 1) % 12)
}

/// The tab before `t`, wrapping from the first to the last.
pub open spec fn spec_prev_tab(t: TabId) -> TabId {
    tab_at((tab_index(t) + 11) % 12)
}

/// The hotkey glyph of a tab.
pub open spec fn tab_glyph(t: TabId) -> Seq<char> {
    match t {
        TabId::Overview => "1"@,
        TabId::Cpu => "2"@,
        TabId::Memory => "3"@,
        TabId::Disks => "4"@,
        TabId::Fs => "5"@,
        TabId::Procs => "6"@,
        TabId::Gpu => "7"@,
        TabId::Power => "8"@,
        TabId::Services => "9"@,
        TabId::Net => "0"@,
        TabId::Timeline => "-"@,
        TabId::Insights => "+"@,
    }
}

/// The title of a tab.
pub open spec fn tab_title(t: TabId) -> Seq<char> {
    match t {
        TabId::Overview => "Overview"@,
        TabId::Cpu => "CPU"@,
        TabId::Memory => "Memory"@,
        TabId::Disks => "Disks"@,
        TabId::Fs => "FS"@,
        TabId::Procs => "Procs"@,
        TabId::Gpu => "GPU"@,
        TabId::Power => "Power"@,
        TabId::Services => "Services"@,
        TabId::Net => "Net"@,
        TabId::Timeline => "Timeline"@,
        TabId::Insights => "Insights"@,
    }
}

/// The tab a (lowercased) name or hotkey glyph selects.
pub open spec fn tab_for_name(s: Seq<char>) -> Option<TabId> {
    if s == "overview"@ || s == "1"@ {
        Some(TabId::Overview)
    } else if s == "cpu"@ || s == "2"@ {
        Some(TabId::Cpu)
    } else if s == "memory"@ || s == "mem"@ || s == "3"@ {
        Some(TabId::Memory)
    } else if s == "disks"@ || s == "disk"@ || s == "4"@ {
        Some(TabId::Disks)
    } else if s == "fs"@ || s == "filesystems"@ || s == "5"@ {
        Some(TabId::Fs)
    } else if s == "procs"@ || s == "processes"@ || s == "6"@ {
        Some(TabId::Procs)
    } else if s == "gpu"@ || s == "7"@ {
        Some(TabId::Gpu)
    } else if s == "power"@ || s == "8"@ {
        Some(TabId::Power)
    } else if s == "services"@ || s == "9"@ {
        Some(TabId::Services)
    } else if s == "net"@ || s == "network"@ || s == "0"@ {
        Some(TabId::Net)
    } else if s == "timeline"@ || s == "-"@ {
        Some(TabId::Timeline)
    } else if s == "insights"@ || s == "+"@ {
        Some(TabId::Insights)
    } else {
        None
    }
}

fn is_name(v: &Vec<char>, lit: &str) -> (r: bool)
    ensures
        r == (v@ == lit@),
{
    let l = crate::text::chars_of(lit);
    crate::text::eq_chars(v, &l)
}

impl TabId {
    /// The hotkey glyph.
    pub fn glyph(&self) -> (r: &'static str)
        ensures
            r@ == tab_glyph(*self),
    {
        match self {
            TabId::Overview => "1",
            TabId::Cpu => "2",
            TabId::Memory => "3",
            TabId::Disks => "4",
            TabId::Fs => "5",
            TabId::Procs => "6",
            TabId::Gpu => "7",
            TabId::Power => "8",
            TabId::Services => "9",
            TabId::Net => "0",
            TabId::Timeline => "-",
            TabId::Insights => "+",
        }
    }

    /// The title.
    pub fn title(&self) -> (r: &'static str)
        ensures
            r@ == tab_title(*self),
    {
        match self {
            TabId::Overview => "Overview",
            TabId::Cpu => "CPU",
            TabId::Memory => "Memory",
            TabId::Disks => "Disks",
            TabId::Fs => "FS",
            TabId::Procs => "Procs",
            TabId::Gpu => "GPU",
            TabId::Power => "Power",
            TabId::Services => "Services",
            TabId::Net => "Net",
            TabId::Timeline => "Timeline",
            TabId::Insights => "Insights",
        }
    }

    /// The tab a name or hotkey glyph selects, ignoring ASCII case.
    pub fn from_str_loose(s: &str) -> (r: Option<TabId>)
        ensures
            r == tab_for_name(ascii_lower(s@)),
    {
        let v = lower_ascii(&crate::text::chars_of(s));
        if is_name(&v, "overview") || is_name(&v, "1") {
            Some(TabId::Overview)
        } else if is_name(&v, "cpu") || is_name(&v, "2") {
            Some(TabId::Cpu)
        } else if is_name(&v, "memory") || is_name(&v, "mem") || is_name(&v, "3") {
            Some(TabId::Memory)
        } else if is_name(&v, "disks") || is_name(&v, "disk") || is_name(&v, "4") {
            Some(TabId::Disks)
        } else if is_name(&v, "fs") || is_name(&v, "filesystems") || is_name(&v, "5") {
            Some(TabId::Fs)
        } else if is_name(&v, "procs") || is_name(&v, "processes") || is_name(&v, "6") {
            Some(TabId::Procs)
        } else if is_name(&v, "gpu") || is_name(&v, "7") {
            Some(TabId::Gpu)
        } else if is_name(&v, "power") || is_name(&v, "8") {
            Some(TabId::Power)
        } else if is_name(&v, "services") || is_name(&v, "9") {
            Some(TabId::Services)
        } else if is_name(&v, "net") || is_name(&v, "network") || is_name(&v, "0") {
            Some(TabId::Net)
        } else if is_name(&v, "timeline") || is_name(&v, "-") {
            Some(TabId::Timeline)
        } else if is_name(&v, "insights") || is_name(&v, "+") {
            Some(TabId::Insights)
        } else {
            None
        }
    }
}

fn index_of_tab(t: TabId) -> (i: usize)
    ensures
        i == tab_index(t),
{
    match t {
        TabId::Overview => 0,
        TabId::Cpu => 1,
        TabId::Memory => 2,
        TabId::Disks => 3,
        TabId::Fs => 4,
        TabId::Procs => 5,
        TabId::Gpu => 6,
        TabId::Power => 7,
        TabId::Services => 8,
        TabId::Net => 9,
        TabId::Timeline => 10,
        TabId::Insights => 11,
    }
}

fn tab_at_index(i: usize) -> (t: TabId)
    requires
        i < 12,
    ensures
        t == tab_at(i as nat),
{
    if i == 0 {
        TabId::Overview
    } else if i == 1 {
        TabId::Cpu
    } else if i == 2 {
        TabId::Memory
    } else if i == 3 {
        TabId::Disks
    } else if i == 4 {
        TabId::Fs
    } else if i == 5 {
        TabId::Procs
    } else if i == 6 {
        TabId::Gpu
    } else if i == 7 {
        TabId::Power
    } else if i == 8 {
        TabId::Services
    } else if i == 9 {
        TabId::Net
    } else if i == 10 {
        TabId::Timeline
    } else {
        TabId::Insights
    }
}

/// The tab after `t` in the tab bar, wrapping around.
pub fn next_tab(t: TabId) -> (r: TabId)
    ensures
        r == spec_next_tab(t),
{
    tab_at_index((index_of_tab(t) + 1) % TAB_COUNT)
}

/// The tab before `t` in the tab bar, wrapping around.
pub fn prev_tab(t: TabId) -> (r: TabId)
    ensures
        r == spec_prev_tab(t),
{
    tab_at_index((index_of_tab(t) + TAB_COUNT - 1) % TAB_COUNT)
}

/// Stepping back undoes stepping forward, and stepping forward undoes
/// stepping back.
pub proof fn lemma_tab_cycle_inverse(t: TabId)
    ensures
        spec_prev_tab(spec_next_tab(t)) == t,
        spec_next_tab(spec_prev_tab(t)) == t,
{
}

/// Tab positions and tabs correspond one to one.
pub proof fn lemma_tab_index_roundtrip(t: TabId, i: nat)
    ensures
        tab_index(t) < 12,
        tab_at(tab_index(t)) == t,
        i < 12 ==> tab_index(tab_at(i)) == i,
{
}


proof fn lemma_glyph_back(t: TabId)
    ensures
        tab_for_name(ascii_lower(tab_glyph(t))) == Some(t),
{
    reveal_strlit("overview");
    reveal_strlit("1");
    reveal_strlit("cpu");
    reveal_strlit("2");
    reveal_strlit("memory");
    reveal_strlit("mem");
    reveal_strlit("3");
    reveal_strlit("disks");
    reveal_strlit("disk");
    reveal_strlit("4");
    reveal_strlit("fs");
    reveal_strlit("filesystems");
    reveal_strlit("5");
    reveal_strlit("procs");
    reveal_strlit("processes");
    reveal_strlit("6");
    reveal_strlit("gpu");
    reveal_strlit("7");
    reveal_strlit("power");
    reveal_strlit("8");
    reveal_strlit("services");
    reveal_strlit("9");
    reveal_strlit("net");
    reveal_strlit("network");
    reveal_strlit("0");
    reveal_strlit("timeline");
    reveal_strlit("-");
    reveal_strlit("insights");
    reveal_strlit("+");
    reveal_strlit("Overview");
    reveal_strlit("CPU");
    reveal_strlit("Memory");
    reveal_strlit("Disks");
    reveal_strlit("FS");
    reveal_strlit("Procs");
    reveal_strlit("GPU");
    reveal_strlit("Power");
    reveal_strlit("Services");
    reveal_strlit("Net");
    reveal_strlit("Timeline");
    reveal_strlit("Insights");
    assert("overview"@.len() == 8 && "overview"@[0] == 'o');
    assert("overview"@[1] == 'v');
    assert("1"@.len() == 1 && "1"@[0] == '1');
    assert("cpu"@.len() == 3 && "cpu"@[0] == 'c');
    assert("cpu"@[1] == 'p');
    assert("2"@.len() == 1 && "2"@[0] == '2');
    assert("memory"@.len() == 6 && "memory"@[0] == 'm');
    assert("memory"@[1] == 'e');
    assert("mem"@.len() == 3 && "mem"@[0] == 'm');
    assert("mem"@[1] == 'e');
    assert("3"@.len() == 1 && "3"@[0] == '3');
    assert("disks"@.len() == 5 && "disks"@[0] == 'd');
    assert("disks"@[1] == 'i');
    assert("disk"@.len() == 4 && "disk"@[0] == 'd');
    assert("disk"@[1] == 'i');
    assert("4"@.len() == 1 && "4"@[0] == '4');
    assert("fs"@.len() == 2 && "fs"@[0] == 'f');
    assert("fs"@[1] == 's');
    assert("filesystems"@.len() == 11 && "filesystems"@[0] == 'f');
    assert("filesystems"@[1] == 'i');
    assert("5"@.len() == 1 && "5"@[0] == '5');
    assert("procs"@.len() == 5 && "procs"@[0] == 'p');
    assert("procs"@[1] == 'r');
    assert("processes"@.len() == 9 && "processes"@[0] == 'p');
    assert("processes"@[1] == 'r');
    assert("6"@.len() == 1 && "6"@[0] == '6');
    assert("gpu"@.len() == 3 && "gpu"@[0] == 'g');
    assert("gpu"@[1] == 'p');
    assert("7"@.len() == 1 && "7"@[0] == '7');
    assert("power"@.len() == 5 && "power"@[0] == 'p');
    assert("power"@[1] == 'o');
    assert("8"@.len() == 1 && "8"@[0] == '8');
    assert("services"@.len() == 8 && "services"@[0] == 's');
    assert("services"@[1] == 'e');
    assert("9"@.len() == 1 && "9"@[0] == '9');
    assert("net"@.len() == 3 && "net"@[0] == 'n');
    assert("net"@[1] == 'e');
    assert("network"@.len() == 7 && "network"@[0] == 'n');
    assert("network"@[1] == 'e');
    assert("0"@.len() == 1 && "0"@[0] == '0');
    assert("timeline"@.len() == 8 && "timeline"@[0] == 't');
    assert("timeline"@[1] == 'i');
    assert("-"@.len() == 1 && "-"@[0] == '-');
    assert("insights"@.len() == 8 && "insights"@[0] == 'i');
    assert("insights"@[1] == 'n');
    assert("+"@.len() == 1 && "+"@[0] == '+');
    assert(ascii_lower(tab_glyph(t)) =~= tab_glyph(t));
}

proof fn lemma_title_back(t: TabId)
    ensures
        tab_for_name(ascii_lower(tab_title(t))) == Some(t),
{
    reveal_strlit("overview");
    reveal_strlit("1");
    reveal_strlit("cpu");
    reveal_strlit("2");
    reveal_strlit("memory");
    reveal_strlit("mem");
    reveal_strlit("3");
    reveal_strlit("disks");
    reveal_strlit("disk");
    reveal_strlit("4");
    reveal_strlit("fs");
    reveal_strlit("filesystems");
    reveal_strlit("5");
    reveal_strlit("procs");
    reveal_strlit("processes");
    reveal_strlit("6");
    reveal_strlit("gpu");
    reveal_strlit("7");
    reveal_strlit("power");
    reveal_strlit("8");
    reveal_strlit("services");
    reveal_strlit("9");
    reveal_strlit("net");
    reveal_strlit("network");
    reveal_strlit("0");
    reveal_strlit("timeline");
    reveal_strlit("-");
    reveal_strlit("insights");
    reveal_strlit("+");
    reveal_strlit("Overview");
    reveal_strlit("CPU");
    reveal_strlit("Memory");
    reveal_strlit("Disks");
    reveal_strlit("FS");
    reveal_strlit("Procs");
    reveal_strlit("GPU");
    reveal_strlit("Power");
    reveal_strlit("Services");
    reveal_strlit("Net");
    reveal_strlit("Timeline");
    reveal_strlit("Insights");
    assert("overview"@.len() == 8 && "overview"@[0] == 'o');
    assert("overview"@[1] == 'v');
    assert("1"@.len() == 1 && "1"@[0] == '1');
    assert("cpu"@.len() == 3 && "cpu"@[0] == 'c');
    assert("cpu"@[1] == 'p');
    assert("2"@.len() == 1 && "2"@[0] == '2');
    assert("memory"@.len() == 6 && "memory"@[0] == 'm');
    assert("memory"@[1] == 'e');
    assert("mem"@.len() == 3 && "mem"@[0] == 'm');
    assert("mem"@[1] == 'e');
    assert("3"@.len() == 1 && "3"@[0] == '3');
    assert("disks"@.len() == 5 && "disks"@[0] == 'd');
    assert("disks"@[1] == 'i');
    assert("disk"@.len() == 4 && "disk"@[0] == 'd');
    assert("disk"@[1] == 'i');
    assert("4"@.len() == 1 && "4"@[0] == '4');
    assert("fs"@.len() == 2 && "fs"@[0] == 'f');
    assert("fs"@[1] == 's');
    assert("filesystems"@.len() == 11 && "filesystems"@[0] == 'f');
    assert("filesystems"@[1] == 'i');
    assert("5"@.len() == 1 && "5"@[0] == '5');
    assert("procs"@.len() == 5 && "procs"@[0] == 'p');
    assert("procs"@[1] == 'r');
    assert("processes"@.len() == 9 && "processes"@[0] == 'p');
    assert("processes"@[1] == 'r');
    assert("6"@.len() == 1 && "6"@[0] == '6');
    assert("gpu"@.len() == 3 && "gpu"@[0] == 'g');
    assert("gpu"@[1] == 'p');
    assert("7"@.len() == 1 && "7"@[0] == '7');
    assert("power"@.len() == 5 && "power"@[0] == 'p');
    assert("power"@[1] == 'o');
    assert("8"@.len() == 1 && "8"@[0] == '8');
    assert("services"@.len() == 8 && "services"@[0] == 's');
    assert("services"@[1] == 'e');
    assert("9"@.len() == 1 && "9"@[0] == '9');
    assert("net"@.len() == 3 && "net"@[0] == 'n');
    assert("net"@[1] == 'e');
    assert("network"@.len() == 7 && "network"@[0] == 'n');
    assert("network"@[1] == 'e');
    assert("0"@.len() == 1 && "0"@[0] == '0');
    assert("timeline"@.len() == 8 && "timeline"@[0] == 't');
    assert("timeline"@[1] == 'i');
    assert("-"@.len() == 1 && "-"@[0] == '-');
    assert("insights"@.len() == 8 && "insights"@[0] == 'i');
    assert("insights"@[1] == 'n');
    assert("+"@.len() == 1 && "+"@[0] == '+');
    match t {
        TabId::Overview => assert(ascii_lower("Overview"@) =~= "overview"@),
        TabId::Cpu => assert(ascii_lower("CPU"@) =~= "cpu"@),
        TabId::Memory => assert(ascii_lower("Memory"@) =~= "memory"@),
        TabId::Disks => assert(ascii_lower("Disks"@) =~= "disks"@),
        TabId::Fs => assert(ascii_lower("FS"@) =~= "fs"@),
        TabId::Procs => assert(ascii_lower("Procs"@) =~= "procs"@),
        TabId::Gpu => assert(ascii_lower("GPU"@) =~= "gpu"@),
        TabId::Power => assert(ascii_lower("Power"@) =~= "power"@),
        TabId::Services => assert(ascii_lower("Services"@) =~= "services"@),
        TabId::Net => assert(ascii_lower("Net"@) =~= "net"@),
        TabId::Timeline => assert(ascii_lower("Timeline"@) =~= "timeline"@),
        TabId::Insights => assert(ascii_lower("Insights"@) =~= "insights"@),
    }
}

/// Every tab's hotkey glyph selects that tab, so no two tabs share a
/// glyph.
pub proof fn lemma_glyph_selects_its_tab(t: TabId, u: TabId)
    ensures
        tab_for_name(ascii_lower(tab_glyph(t))) == Some(t),
        t != u ==> tab_glyph(t) != tab_glyph(u),
{
    lemma_glyph_back(t);
    lemma_glyph_back(u);
}

/// Every tab's title, lowered, selects that tab, so no two tabs share a
/// title.
pub proof fn lemma_title_selects_its_tab(t: TabId, u: TabId)
    ensures
        tab_for_name(ascii_lower(tab_title(t))) == Some(t),
        t != u ==> tab_title(t) != tab_title(u),
{
    lemma_title_back(t);
    lemma_title_back(u);
}

/// `n` steps forward from `t`.
pub open spec fn next_tab_n(t: TabId, n: nat) -> TabId
    decreases n,
{
    if n == 0 {
        t
    } else {
        spec_next_tab(next_tab_n(t, (n - 1) as nat))
    }
}

/// Stepping forward `n` times lands `n` places further along the bar, so
/// the twelve steps from any tab visit every tab and return to it.
pub proof fn lemma_next_tab_walks_the_bar(t: TabId, n: nat)
    ensures
        next_tab_n(t, n) == tab_at((tab_index(t) + n) % 12),
        next_tab_n(t, 12) == t,
    decreases n,
{
    lemma_next_tab_n(t, n);
    lemma_next_tab_n(t, 12);
    assert((tab_index(t) + 12) % 12 == tab_index(t));
    lemma_tab_index_roundtrip(t, 0);
}

proof fn lemma_next_tab_n(t: TabId, n: nat)
    ensures
        next_tab_n(t, n) == tab_at((tab_index(t) + n) % 12),
    decreases n,
{
    if n > 0 {
        lemma_next_tab_n(t, (n - 1) as nat);
        let k: nat = ((tab_index(t) + n - 1) % 12) as nat;
        lemma_tab_index_roundtrip(t, k);
        assert((k + 1) % 12 == (tab_index(t) + n) % 12) by {
            vstd::arithmetic::div_mod::lemma_add_mod_noop(tab_index(t) + n - 1, 1, 12);
            vstd::arithmetic::div_mod::lemma_mod_self_0(12);
        }
    } else {
        lemma_tab_index_roundtrip(t, 0);
    }
}

/// Process table sort keys, in the order `s` cycles through them.
#[derive(Debug, Clone, Copy, PartialEq, Eq, Structural)]
pub enum ProcSort {
    Cpu,
    Rss,
    Io,
    Start,
    Name,
    /// %GPU descending; processes without GPU data sort last.
    Gpu,
    /// Combined net rx+tx descending; processes without data sort last.
    Net,
}

/// A process sort key's position in the cycle.
pub open spec fn proc_sort_index(s: ProcSort) -> nat {
    match s {
        ProcSort::Cpu => 0,
        ProcSort::Rss => 1,
        ProcSort::Io => 2,
        ProcSort::Start => 3,
        ProcSort::Name => 4,
        ProcSort::Gpu => 5,
        ProcSort::Net => 6,
    }
}

/// The process sort key after `s`, wrapping from the last to the first.
pub open spec fn spec_next_proc_sort(s: ProcSort) -> ProcSort {
    match s {
        ProcSort::Cpu => ProcSort::Rss,
        ProcSort::Rss => ProcSort::Io,
        ProcSort::Io => ProcSort::Start,
        ProcSort::Start => ProcSort::Name,
        ProcSort::Name => ProcSort::Gpu,
        ProcSort::Gpu => ProcSort::Net,
        ProcSort::Net => ProcSort::Cpu,
    }
}

/// The label of a process sort key.
pub open spec fn proc_sort_label(s: ProcSort) -> Seq<char> {
    match s {
        ProcSort::Cpu => "cpu"@,
        ProcSort::Rss => "rss"@,
        ProcSort::Io => "io"@,
        ProcSort::Start => "start"@,
        ProcSort::Name => "name"@,
        ProcSort::Gpu => "gpu"@,
        ProcSort::Net => "net"@,
    }
}

impl ProcSort {
    /// Every process sort key, in cycle order.
    pub const ALL: [ProcSort; 7] = [
        ProcSort::Cpu,
        ProcSort::Rss,
        ProcSort::Io,
        ProcSort::Start,
        ProcSort::Name,
        ProcSort::Gpu,
        ProcSort::Net,
    ];

    /// The label shown in the sort strip.
    pub fn label(&self) -> (r: &'static str)
        ensures
            r@ == proc_sort_label(*self),
    {
        match self {
            ProcSort::Cpu => "cpu",
            ProcSort::Rss => "rss",
            ProcSort::Io => "io",
            ProcSort::Start => "start",
            ProcSort::Name => "name",
            ProcSort::Gpu => "gpu",
            ProcSort::Net => "net",
        }
    }

    /// The next key in the cycle.
    pub fn next(self) -> (r: ProcSort)
        ensures
            r == spec_next_proc_sort(self),
    {
        match self {
            ProcSort::Cpu => ProcSort::Rss,
            ProcSort::Rss => ProcSort::Io,
            ProcSort::Io => ProcSort::Start,
            ProcSort::Start => ProcSort::Name,
            ProcSort::Name => ProcSort::Gpu,
            ProcSort::Gpu => ProcSort::Net,
            ProcSort::Net => ProcSort::Cpu,
        }
    }
}

/// Cycling the process sort key steps through the seven keys in order and
/// comes back after seven steps.
pub proof fn lemma_proc_sort_cycle(s: ProcSort)
    ensures
        proc_sort_index(spec_next_proc_sort(s)) == (proc_sort_index(s) + 1) % 7,
        spec_next_proc_sort(spec_next_proc_sort(spec_next_proc_sort(spec_next_proc_sort(
            spec_next_proc_sort(spec_next_proc_sort(spec_next_proc_sort(s))),
        )))) == s,
{
}

/// Service table sort keys, in the order `s` cycles through them.
#[derive(Debug, Clone, Copy, PartialEq, Eq, Structural)]
pub enum ServiceSort {
    Name,
    Status,
    Pid,
}

/// The label of a service sort key.
pub open spec fn service_sort_label(s: ServiceSort) -> Seq<char> {
    match s {
        ServiceSort::Name => "name"@,
        ServiceSort::Status => "status"@,
        ServiceSort::Pid => "pid"@,
    }
}

/// The service sort key after `s`, wrapping from the last to the first.
pub open spec fn spec_next_service_sort(s: ServiceSort) -> ServiceSort {
    match s {
        ServiceSort::Name => ServiceSort::Status,
        ServiceSort::Status => ServiceSort::Pid,
        ServiceSort::Pid => ServiceSort::Name,
    }
}

impl ServiceSort {
    /// Every service sort key, in cycle order.
    pub const ALL: [ServiceSort; 3] = [ServiceSort::Name, ServiceSort::Status, ServiceSort::Pid];

    /// The label shown in the sort strip.
    pub fn label(&self) -> (r: &'static str)
        ensures
            r@ == service_sort_label(*self),
    {
        match self {
            ServiceSort::Name => "name",
            ServiceSort::Status => "status",
            ServiceSort::Pid => "pid",
        }
    }

    /// The next key in the cycle.
    pub fn next(self) -> (r: ServiceSort)
        ensures
            r == spec_next_service_sort(self),
    {
        match self {
            ServiceSort::Name => ServiceSort::Status,
            ServiceSort::Status => ServiceSort::Pid,
            ServiceSort::Pid => ServiceSort::Name,
        }
    }
}

/// Cycling the service sort key comes back after three steps.
pub proof fn lemma_service_sort_cycle(s: ServiceSort)
    ensures
        spec_next_service_sort(spec_next_service_sort(spec_next_service_sort(s))) == s,
{
}

/// The liveness badge in the header.
#[derive(Debug, Clone, Copy, PartialEq, Eq, Structural)]
pub enum LiveState {
    Live,
    Paused,
    Scrub,
    /// Replaying a recorded session.
    Replay,
}

/// The badge for a view: replay wins, then scrubbing, then pause.
pub open spec fn spec_live_state(replay_mode: bool, scrub_offset: nat, paused: bool) -> LiveState {
    if replay_mode {
        LiveState::Replay
    } else if scrub_offset > 0 {
        LiveState::Scrub
    } else if paused {
        LiveState::Paused
    } else {
        LiveState::Live
    }
}

/// The badge for a view: replay wins, then scrubbing, then pause.
pub fn live_state(replay_mode: bool, scrub_offset: usize, paused: bool) -> (r: LiveState)
    ensures
        r == spec_live_state(replay_mode, scrub_offset as nat, paused),
{
    if replay_mode {
        return LiveState::Replay;
    }
    if scrub_offset > 0 {
        LiveState::Scrub
    } else if paused {
        LiveState::Paused
    } else {
        LiveState::Live
    }
}


/// The fastest sample interval the collector runs at, in milliseconds.
pub const MIN_TICK_MS: u64 = 100;

/// The slowest sample interval the collector runs at, in milliseconds.
pub const MAX_TICK_MS: u64 = 5000;

/// The sample interval actually used for a configured one: kept within
/// [`MIN_TICK_MS`, `MAX_TICK_MS`].
pub fn tick_interval_ms(configured: u64) -> (r: u64)
    ensures
        r == (if configured < MIN_TICK_MS {
            MIN_TICK_MS
        } else if configured > MAX_TICK_MS {
            MAX_TICK_MS
        } else {
            configured
        }),
{
    if configured < MIN_TICK_MS {
        MIN_TICK_MS
    } else if configured > MAX_TICK_MS {
        MAX_TICK_MS
    } else {
        configured
    }
}

} // verus!
