use syswatch::gpu::{
    drm_card, parse_ioreg_perf_stats, strip_macos_vendor_key, GpuVendor, PerfStatsText, HINT_LINUX_INTEL,
    HINT_LINUX_NO_AMDGPU, HINT_LINUX_NVIDIA_NO_NVML,
};

fn pct(t: &Option<String>) -> f32 {
    t.as_deref().and_then(|v| v.parse::<f32>().ok()).unwrap_or(0.0)
}

#[test]
fn strips_sppci_vendor_prefix() {
    assert_eq!(strip_macos_vendor_key("sppci_vendor_Apple"), "Apple");
    assert_eq!(strip_macos_vendor_key("sppci_vendor_AMD"), "AMD");
}

#[test]
fn strips_hex_vendor_id() {
    assert_eq!(strip_macos_vendor_key("0x10de"), "10de");
    assert_eq!(strip_macos_vendor_key("0x1002"), "1002");
}

#[test]
fn passes_through_unknown_format() {
    assert_eq!(strip_macos_vendor_key("Apple"), "Apple");
    assert_eq!(strip_macos_vendor_key("NVIDIA Corp"), "NVIDIA Corp");
}

#[test]
fn strips_every_leading_hex_mark() {
    assert_eq!(strip_macos_vendor_key("0x0x10de"), "10de");
    assert_eq!(strip_macos_vendor_key("sppci_vendor_0xff"), "ff");
    assert_eq!(strip_macos_vendor_key("0"), "0");
}

#[test]
fn parses_real_perf_stats_line() {
    let sample = r#"
+-o AGXAcceleratorG15X  <class AGXAcceleratorG15X, id 0x100000481, ...>
    {
      "model" = "Apple M3 Pro"
      "PerformanceStatistics" = {"In use system memory (driver)"=0,"Alloc system memory"=16749051904,"Tiler Utilization %"=7,"recoveryCount"=0,"lastRecoveryTime"=0,"Renderer Utilization %"=11,"TiledSceneBytes"=1441792,"Device Utilization %"=16,"SplitSceneCount"=0,"Allocated PB Size"=89915392,"In use system memory"=568164352}
    }
        "#;
    let stats = parse_ioreg_perf_stats(sample);
    assert_eq!(stats.len(), 1);
    let s: &PerfStatsText = &stats[0];
    assert_eq!(pct(&s.device_util) as i32, 16);
    assert_eq!(pct(&s.renderer_util) as i32, 11);
    assert_eq!(pct(&s.tiler_util) as i32, 7);
    assert_eq!(s.in_use_system_memory, 568_164_352);
    assert_eq!(s.alloc_system_memory, 16_749_051_904);
}

#[test]
fn handles_multiple_accelerators() {
    let sample = r#"
+-o A
    "PerformanceStatistics" = {"Device Utilization %"=10,"In use system memory"=100}
+-o B
    "PerformanceStatistics" = {"Device Utilization %"=90,"In use system memory"=200}
        "#;
    let stats = parse_ioreg_perf_stats(sample);
    assert_eq!(stats.len(), 2);
    assert_eq!(pct(&stats[0].device_util) as i32, 10);
    assert_eq!(pct(&stats[1].device_util) as i32, 90);
}

#[test]
fn no_perf_stats_yields_empty_vec() {
    assert!(parse_ioreg_perf_stats("nothing useful here").is_empty());
    assert!(parse_ioreg_perf_stats("").is_empty());
}

#[test]
fn missing_fields_default_to_zero() {
    let sample = r#""PerformanceStatistics" = {"Device Utilization %"=42}"#;
    let stats = parse_ioreg_perf_stats(sample);
    assert_eq!(stats.len(), 1);
    assert_eq!(pct(&stats[0].device_util) as i32, 42);
    assert_eq!(pct(&stats[0].renderer_util), 0.0);
    assert_eq!(stats[0].in_use_system_memory, 0);
}

#[test]
fn perf_stats_need_a_closing_brace_and_keep_raw_values() {
    assert!(parse_ioreg_perf_stats(r#""PerformanceStatistics" = {"Device Utilization %"=42"#).is_empty());
    let stats = parse_ioreg_perf_stats(r#"x "PerformanceStatistics" = { "Tiler Utilization %" = 7.5 ,"In use system memory"=oops}"#);
    assert_eq!(stats.len(), 1);
    assert_eq!(stats[0].tiler_util.as_deref(), Some("7.5"));
    assert_eq!(stats[0].in_use_system_memory, 0);
    assert_eq!(stats[0].device_util, None);
}

#[test]
fn drm_card_names_vendor_and_device() {
    let c = drm_card("card0", Some("0x1002\n"), Some("0x73bf\n")).expect("card0 is a card");
    assert_eq!(c.vendor, GpuVendor::Amd);
    assert_eq!(c.name, "AMD 0x73bf");
    assert_eq!(c.hint, None);
}

#[test]
fn drm_card_hints_for_nvidia_intel_and_unknown() {
    let n = drm_card("card1", Some("0x10de"), None).unwrap();
    assert_eq!(n.vendor, GpuVendor::Nvidia);
    assert_eq!(n.name, "NVIDIA Unknown");
    assert_eq!(n.hint.as_deref(), Some(HINT_LINUX_NVIDIA_NO_NVML));
    let i = drm_card("card2", Some(" 0x8086 "), Some("0x9a49")).unwrap();
    assert_eq!(i.name, "Intel 0x9a49");
    assert_eq!(i.hint.as_deref(), Some(HINT_LINUX_INTEL));
    let u = drm_card("card3", None, Some("0x1234")).unwrap();
    assert_eq!(u.vendor, GpuVendor::Unknown);
    assert_eq!(u.name, "Unknown 0x1234");
    assert_eq!(u.hint.as_deref(), Some(HINT_LINUX_NO_AMDGPU));
}

#[test]
fn drm_card_skips_connectors_and_other_entries() {
    assert!(drm_card("card0-HDMI-A-1", Some("0x1002"), None).is_none());
    assert!(drm_card("renderD128", Some("0x1002"), None).is_none());
    assert!(drm_card("version", None, None).is_none());
}
