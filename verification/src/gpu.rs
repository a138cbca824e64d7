//! Text clean-up for GPU identities reported by the platform tools.

use vstd::prelude::*;
use crate::text::{
    chars_of, eq_chars, find_char, find_from, find_sub, find_sub_from, has_prefix, lines, lines_of,
    parse_u64, parse_u64_chars, split_char, split_on, starts_with, string_of, sub_vec, trim,
    trim_chars, views,
};

verus! {

/// `s` with every leading `0x` removed, as `str::trim_start_matches("0x")`
/// does.
pub open spec fn trim_hex_marks(s: Seq<char>) -> Seq<char>
    decreases s.len(),
{
    if s.len() >= 2 && s[0] == '0' && s[1] == 'x' {
        trim_hex_marks(s.skip(2))
    } else {
        s
    }
}

/// The vendor name a macOS display report gives: without its
/// `sppci_vendor_` localisation-key prefix and without leading `0x` marks
/// on a hexadecimal vendor id.
pub open spec fn vendor_name(s: Seq<char>) -> Seq<char> {
    let base = if has_prefix(s, "sppci_vendor_"@) {
        s.skip("sppci_vendor_"@.len() as int)
    } else {
        s
    };
    trim_hex_marks(base)
}

/// Strips the localisation-key prefix and hex marks from a macOS display
/// vendor field ("sppci_vendor_Apple" gives "Apple", "0x10de" gives
/// "10de"); other text passes through.
pub fn strip_macos_vendor_key(s: &str) -> (r: String)
    ensures
        r@ == vendor_name(s@),
{
    let v = chars_of(s);
    let p = chars_of("sppci_vendor_");
    let base = if starts_with(&v, &p) {
        sub_vec(&v, p.len(), v.len())
    } else {
        v
    };
    let mut i: usize = 0;
    assert(base@.skip(0) =~= base@);
    while i < base.len() && base.len() - i >= 2 && base[i] == '0' && base[i + 1] == 'x'
        invariant
            i <= base@.len(),
            trim_hex_marks(base@) == trim_hex_marks(base@.skip(i as int)),
        decreases base@.len() - i,
    {
        assert(base@.skip(i as int).skip(2) =~= base@.skip(i + 2));
        i += 2;
    }
    let out = sub_vec(&base, i, base.len());
    assert(out@ =~= base@.skip(i as int));
    string_of(&out)
}


/// The marker that opens an accelerator's statistics in `ioreg` output.
pub const PERF_PREFIX: &'static str = "\"PerformanceStatistics\" = {";

/// The statistics of one accelerator: the utilisation values as printed
/// (for the caller to read as numbers; `None` where the key is absent)
/// and the memory figures (0 where absent or unreadable).
#[derive(Debug)]
pub struct PerfStatsText {
    pub device_util: Option<String>,
    pub renderer_util: Option<String>,
    pub tiler_util: Option<String>,
    pub in_use_system_memory: u64,
    pub alloc_system_memory: u64,
}

/// `PerfStatsText` with its text as character sequences.
pub struct PerfStatsView {
    pub device_util: Option<Seq<char>>,
    pub renderer_util: Option<Seq<char>>,
    pub tiler_util: Option<Seq<char>>,
    pub in_use_system_memory: u64,
    pub alloc_system_memory: u64,
}

pub open spec fn opt_text(o: Option<String>) -> Option<Seq<char>> {
    match o {
        Some(s) => Some(s@),
        None => None,
    }
}

impl View for PerfStatsText {
    type V = PerfStatsView;

    open spec fn view(&self) -> PerfStatsView {
        PerfStatsView {
            device_util: opt_text(self.device_util),
            renderer_util: opt_text(self.renderer_util),
            tiler_util: opt_text(self.tiler_util),
            in_use_system_memory: self.in_use_system_memory,
            alloc_system_memory: self.alloc_system_memory,
        }
    }
}

pub open spec fn perf_views(v: Seq<PerfStatsText>) -> Seq<PerfStatsView> {
    v.map_values(|p: PerfStatsText| p@)
}

/// `s` without leading and trailing double quotes.
pub open spec fn trim_quotes(s: Seq<char>) -> Seq<char> {
    trim_end_quotes(trim_start_quotes(s))
}

pub open spec fn trim_start_quotes(s: Seq<char>) -> Seq<char>
    decreases s.len(),
{
    if s.len() > 0 && s[0] == '"' {
        trim_start_quotes(s.drop_first())
    } else {
        s
    }
}

pub open spec fn trim_end_quotes(s: Seq<char>) -> Seq<char>
    decreases s.len(),
{
    if s.len() > 0 && s.last() == '"' {
        trim_end_quotes(s.drop_last())
    } else {
        s
    }
}

/// A number, or 0 when the text is not one.
pub open spec fn u64_or_zero(t: Seq<char>) -> u64 {
    match parse_u64(t) {
        Some(n) => n,
        None => 0,
    }
}

/// One `"Key"=value` pair of the statistics: the known keys set their
/// field, later pairs winning; pairs without `=` change nothing.
pub open spec fn perf_pair(st: PerfStatsView, pair: Seq<char>) -> PerfStatsView {
    match find_char(pair, '=') {
        None => st,
        Some(e) => {
            let key = trim_quotes(trim(pair.take(e as int)));
            let val = trim(pair.skip(e + 1 as int));
            if key == "Device Utilization %"@ {
                PerfStatsView { device_util: Some(val), ..st }
            } else if key == "Renderer Utilization %"@ {
                PerfStatsView { renderer_util: Some(val), ..st }
            } else if key == "Tiler Utilization %"@ {
                PerfStatsView { tiler_util: Some(val), ..st }
            } else if key == "In use system memory"@ {
                PerfStatsView { in_use_system_memory: u64_or_zero(val), ..st }
            } else if key == "Alloc system memory"@ {
                PerfStatsView { alloc_system_memory: u64_or_zero(val), ..st }
            } else {
                st
            }
        },
    }
}

/// The statistics the pairs `ps` give, in order, from empty.
pub open spec fn perf_pairs(ps: Seq<Seq<char>>) -> PerfStatsView
    decreases ps.len(),
{
    if ps.len() == 0 {
        PerfStatsView {
            device_util: None,
            renderer_util: None,
            tiler_util: None,
            in_use_system_memory: 0,
            alloc_system_memory: 0,
        }
    } else {
        perf_pair(perf_pairs(ps.drop_last()), ps.last())
    }
}

/// The statistics of one `ioreg` line: the comma-separated pairs between
/// the marker and the next `}`; `None` for a line without both.
pub open spec fn perf_line(l: Seq<char>) -> Option<PerfStatsView> {
    match find_sub(l, PERF_PREFIX@) {
        None => None,
        Some(i) => {
            let rest = l.skip((i + PERF_PREFIX@.len()) as int);
            match find_char(rest, '}') {
                None => None,
                Some(j) => Some(perf_pairs(split_on(rest.take(j as int), ','))),
            }
        },
    }
}

/// The statistics of every line of `ls` that carries them, in order.
pub open spec fn perf_lines(ls: Seq<Seq<char>>) -> Seq<PerfStatsView>
    decreases ls.len(),
{
    if ls.len() == 0 {
        Seq::empty()
    } else {
        match perf_line(ls.last()) {
            Some(st) => perf_lines(ls.drop_last()).push(st),
            None => perf_lines(ls.drop_last()),
        }
    }
}

fn trim_quotes_exec(v: &Vec<char>) -> (r: Vec<char>)
    ensures
        r@ == trim_quotes(v@),
{
    let n = v.len();
    let mut a: usize = 0;
    assert(v@.subrange(0, n as int) =~= v@);
    while a < n && v[a] == '"'
        invariant
            n == v@.len(),
            a <= n,
            trim_start_quotes(v@) == trim_start_quotes(v@.subrange(a as int, n as int)),
        decreases n - a,
    {
        assert(v@.subrange(a as int, n as int).drop_first() =~= v@.subrange(a + 1, n as int));
        a += 1;
    }
    let mut b = n;
    while b > a && v[b - 1] == '"'
        invariant
            n == v@.len(),
            a <= b <= n,
            trim_start_quotes(v@) == v@.subrange(a as int, n as int),
            trim_quotes(v@) == trim_end_quotes(v@.subrange(a as int, b as int)),
        decreases b - a,
    {
        assert(v@.subrange(a as int, b as int).drop_last() =~= v@.subrange(a as int, b - 1));
        b -= 1;
    }
    sub_vec(v, a, b)
}

fn is_text(v: &Vec<char>, lit: &str) -> (r: bool)
    ensures
        r == (v@ == lit@),
{
    eq_chars(v, &chars_of(lit))
}

fn perf_pair_exec(st: PerfStatsText, pair: &Vec<char>) -> (r: PerfStatsText)
    ensures
        r@ == perf_pair(st@, pair@),
{
    let n = pair.len();
    assert(pair@.subrange(0, n as int) =~= pair@);
    proof {
        crate::text::lemma_find_char(pair@, '=');
    }
    let e = match find_from(pair, 0, '=') {
        None => return st,
        Some(e) => e,
    };
    assert(find_char(pair@, '=') == Some(e as nat));
    let key = trim_quotes_exec(&trim_chars(&sub_vec(pair, 0, e)));
    assert(pair@.subrange(0, e as int) =~= pair@.take(e as int));
    let rest = sub_vec(pair, e + 1, n);
    assert(rest@ =~= pair@.skip(e + 1 as int));
    let val = trim_chars(&rest);
    let mut st = st;
    if is_text(&key, "Device Utilization %") {
        st.device_util = Some(string_of(&val));
    } else if is_text(&key, "Renderer Utilization %") {
        st.renderer_util = Some(string_of(&val));
    } else if is_text(&key, "Tiler Utilization %") {
        st.tiler_util = Some(string_of(&val));
    } else if is_text(&key, "In use system memory") {
        st.in_use_system_memory = match parse_u64_chars(&val) {
            Some(x) => x,
            None => 0,
        };
    } else if is_text(&key, "Alloc system memory") {
        st.alloc_system_memory = match parse_u64_chars(&val) {
            Some(x) => x,
            None => 0,
        };
    }
    st
}

fn perf_line_exec(l: &Vec<char>) -> (r: Option<PerfStatsText>)
    ensures
        match r {
            Some(st) => perf_line(l@) == Some(st@),
            None => perf_line(l@) is None,
        },
{
    let prefix = chars_of(PERF_PREFIX);
    let n = l.len();
    assert(l@.skip(0) =~= l@);
    let i = match find_sub_from(l, 0, &prefix) {
        None => return None,
        Some(i) => i,
    };
    let start = i + prefix.len();
    let rest = sub_vec(l, start, n);
    assert(rest@ =~= l@.skip(start as int));
    let m = rest.len();
    assert(rest@.subrange(0, m as int) =~= rest@);
    proof {
        crate::text::lemma_find_char(rest@, '}');
    }
    let j = match find_from(&rest, 0, '}') {
        None => return None,
        Some(j) => j,
    };
    assert(find_char(rest@, '}') == Some(j as nat));
    let body = sub_vec(&rest, 0, j);
    assert(body@ =~= rest@.take(j as int));
    let pairs = split_char(&body, ',');
    let mut st = PerfStatsText {
        device_util: None,
        renderer_util: None,
        tiler_util: None,
        in_use_system_memory: 0,
        alloc_system_memory: 0,
    };
    let mut k: usize = 0;
    while k < pairs.len()
        invariant
            k <= pairs@.len(),
            st@ == perf_pairs(views(pairs@).take(k as int)),
        decreases pairs@.len() - k,
    {
        assert(views(pairs@).take(k + 1).drop_last() =~= views(pairs@).take(k as int));
        assert(views(pairs@).take(k + 1).last() == pairs@[k as int]@);
        st = perf_pair_exec(st, &pairs[k]);
        k += 1;
    }
    assert(views(pairs@).take(pairs@.len() as int) =~= views(pairs@));
    Some(st)
}

/// Reads the `PerformanceStatistics` of each accelerator out of
/// `ioreg -r -d 1 -c IOAccelerator` output, one entry per line that
/// carries them, in order.
pub fn parse_ioreg_perf_stats(text: &str) -> (r: Vec<PerfStatsText>)
    ensures
        perf_views(r@) == perf_lines(lines_of(text@)),
{
    let chars = chars_of(text);
    let ls = lines(&chars);
    let mut out: Vec<PerfStatsText> = Vec::new();
    let mut i: usize = 0;
    while i < ls.len()
        invariant
            i <= ls@.len(),
            views(ls@) == lines_of(text@),
            perf_views(out@) == perf_lines(views(ls@).take(i as int)),
        decreases ls@.len() - i,
    {
        assert(views(ls@).take(i + 1).drop_last() =~= views(ls@).take(i as int));
        assert(views(ls@).take(i + 1).last() == ls@[i as int]@);
        match perf_line_exec(&ls[i]) {
            Some(st) => {
                let ghost old_out = out@;
                out.push(st);
                assert(perf_views(out@) =~= perf_views(old_out).push(st@));
            },
            None => {},
        }
        i += 1;
    }
    assert(views(ls@).take(ls@.len() as int) =~= views(ls@));
    out
}


/// The GPU maker a PCI vendor id names.
#[derive(Debug, Clone, Copy, PartialEq, Eq, Structural)]
pub enum GpuVendor {
    Nvidia,
    Amd,
    Intel,
    Unknown,
}

/// The maker named by the (trimmed) contents of a `vendor` file.
pub open spec fn vendor_of_id(id: Option<Seq<char>>) -> GpuVendor {
    match id {
        Some(s) => if s == "0x10de"@ {
            GpuVendor::Nvidia
        } else if s == "0x1002"@ {
            GpuVendor::Amd
        } else if s == "0x8086"@ {
            GpuVendor::Intel
        } else {
            GpuVendor::Unknown
        },
        None => GpuVendor::Unknown,
    }
}

/// The name shown for a maker.
pub open spec fn gpu_vendor_label(v: GpuVendor) -> Seq<char> {
    match v {
        GpuVendor::Nvidia => "NVIDIA"@,
        GpuVendor::Amd => "AMD"@,
        GpuVendor::Intel => "Intel"@,
        GpuVendor::Unknown => "Unknown"@,
    }
}

impl GpuVendor {
    /// The name shown for the maker.
    pub fn label(self) -> (r: &'static str)
        ensures
            r@ == gpu_vendor_label(self),
    {
        match self {
            GpuVendor::Nvidia => "NVIDIA",
            GpuVendor::Amd => "AMD",
            GpuVendor::Intel => "Intel",
            GpuVendor::Unknown => "Unknown",
        }
    }
}

/// What a Linux card without the amdgpu driver is missing.
pub const HINT_LINUX_NO_AMDGPU: &'static str =
    "amdgpu driver not loaded — load it for util/VRAM/temp/power, or use the proprietary driver";

/// What an NVIDIA card needs for live figures.
pub const HINT_LINUX_NVIDIA_NO_NVML: &'static str =
    "build with --features nvidia (linked against libnvidia-ml) for util/VRAM/temp/power";

/// What an Intel card can and cannot report.
pub const HINT_LINUX_INTEL: &'static str =
    "i915/xe live util needs `gpu_busy_percent` (recent kernels); per-rail power not exposed";

/// The hint shown for a maker's card until live figures arrive; none for
/// AMD, whose driver gives them.
pub open spec fn vendor_hint(v: GpuVendor) -> Option<Seq<char>> {
    match v {
        GpuVendor::Amd => None,
        GpuVendor::Nvidia => Some(HINT_LINUX_NVIDIA_NO_NVML@),
        GpuVendor::Intel => Some(HINT_LINUX_INTEL@),
        GpuVendor::Unknown => Some(HINT_LINUX_NO_AMDGPU@),
    }
}

/// A `/sys/class/drm` entry is a card (`cardN`), not one of its connectors
/// (`cardN-HDMI-A-1`).
pub open spec fn is_card_entry(name: Seq<char>) -> bool {
    has_prefix(name, "card"@) && find_char(name, '-') is None
}

/// The identity of one DRM card.
#[derive(Debug)]
pub struct DrmCard {
    pub vendor: GpuVendor,
    /// The maker and the PCI device id, "Unknown" where it is unreadable.
    pub name: String,
    /// Shown until live figures arrive.
    pub hint: Option<String>,
}

/// A card's identity from its directory name and the contents of its
/// `device/vendor` and `device/device` files (`None` where unreadable);
/// `None` for an entry that is not a card.
pub open spec fn drm_card_of(entry: Seq<char>, vendor_file: Option<Seq<char>>, device_file: Option<
    Seq<char>,
>) -> Option<(GpuVendor, Seq<char>, Option<Seq<char>>)> {
    if !is_card_entry(entry) {
        None
    } else {
        let vendor = vendor_of_id(
            match vendor_file {
                Some(t) => Some(trim(t)),
                None => None,
            },
        );
        let device = match device_file {
            Some(t) => trim(t),
            None => "Unknown"@,
        };
        Some((vendor, gpu_vendor_label(vendor) + " "@ + device, vendor_hint(vendor)))
    }
}

fn vendor_of_trimmed(t: &Vec<char>) -> (r: GpuVendor)
    ensures
        r == vendor_of_id(Some(t@)),
{
    if eq_chars(t, &chars_of("0x10de")) {
        GpuVendor::Nvidia
    } else if eq_chars(t, &chars_of("0x1002")) {
        GpuVendor::Amd
    } else if eq_chars(t, &chars_of("0x8086")) {
        GpuVendor::Intel
    } else {
        GpuVendor::Unknown
    }
}

/// Identifies a `/sys/class/drm` entry from its name and the text of its
/// vendor and device id files.
pub fn drm_card(entry: &str, vendor_file: Option<&str>, device_file: Option<&str>) -> (r: Option<DrmCard>)
    ensures
        match r {
            Some(c) => drm_card_of(
                entry@,
                match vendor_file {
                    Some(t) => Some(t@),
                    None => None,
                },
                match device_file {
                    Some(t) => Some(t@),
                    None => None,
                },
            ) == Some((c.vendor, c.name@, match c.hint {
                Some(h) => Some(h@),
                None => None,
            })),
            None => !is_card_entry(entry@),
        },
{
    let e = chars_of(entry);
    assert(e@.subrange(0, e@.len() as int) =~= e@);
    if !starts_with(&e, &chars_of("card")) || find_from(&e, 0, '-').is_some() {
        return None;
    }
    let vendor = match vendor_file {
        Some(t) => vendor_of_trimmed(&trim_chars(&chars_of(t))),
        None => GpuVendor::Unknown,
    };
    let mut name: Vec<char> = chars_of(vendor.label());
    name.push(' ');
    match device_file {
        Some(t) => {
            let mut d = trim_chars(&chars_of(t));
            name.append(&mut d);
        },
        None => {
            let mut d = chars_of("Unknown");
            name.append(&mut d);
        },
    }
    let hint = match vendor {
        GpuVendor::Amd => None,
        GpuVendor::Nvidia => Some(HINT_LINUX_NVIDIA_NO_NVML.to_owned()),
        GpuVendor::Intel => Some(HINT_LINUX_INTEL.to_owned()),
        GpuVendor::Unknown => Some(HINT_LINUX_NO_AMDGPU.to_owned()),
    };
    let card = DrmCard { vendor, name: string_of(&name), hint };
    proof {
        reveal_strlit(" ");
    }
    assert(card.name@ =~= gpu_vendor_label(vendor) + " "@ + match device_file {
        Some(t) => trim(t@),
        None => "Unknown"@,
    });
    Some(card)
}

} // verus!
