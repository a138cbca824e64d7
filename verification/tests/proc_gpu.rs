use syswatch::proc_gpu::{drm_totals, parse_fdinfo_drm, FdinfoDrm};

#[test]
fn parses_amdgpu_fdinfo() {
    let sample = "\
pos:    0
flags:  02100002
mnt_id: 30
ino:    1234
drm-driver:     amdgpu
drm-client-id:  42
drm-engine-gfx:    1234567890 ns
drm-engine-compute: 9876543210 ns
drm-memory-vram:   524288 KiB
drm-memory-gtt:    65536 KiB
";
    let parsed = parse_fdinfo_drm(sample);
    assert_eq!(parsed.engine_ns, 1234567890 + 9876543210);
    assert_eq!(parsed.mem_bytes, (524288 + 65536) * 1024);
}

#[test]
fn parses_intel_fdinfo() {
    let sample = "\
drm-driver:     i915
drm-engine-render:  4500000000 ns
drm-engine-blitter: 100000 ns
drm-engine-video:   0 ns
drm-engine-video-enhance: 0 ns
drm-memory-system:  16384 KiB
";
    let parsed = parse_fdinfo_drm(sample);
    assert_eq!(parsed.engine_ns, 4500000000 + 100000);
    assert_eq!(parsed.mem_bytes, 16384 * 1024);
}

#[test]
fn ignores_non_drm_lines() {
    let sample = "\
pos:    0
flags:  02100002
mnt_id: 30
size:   12345
";
    let parsed = parse_fdinfo_drm(sample);
    assert_eq!(parsed, FdinfoDrm::default());
}

#[test]
fn handles_missing_unit_as_bytes() {
    let sample = "drm-memory-vram: 4096\n";
    let parsed = parse_fdinfo_drm(sample);
    assert_eq!(parsed.mem_bytes, 4096);
}

#[test]
fn handles_garbled_value() {
    let sample = "drm-engine-gfx: not-a-number ns\n";
    let parsed = parse_fdinfo_drm(sample);
    assert_eq!(parsed.engine_ns, 0);
}

#[test]
fn memory_units_scale_and_saturate() {
    let parsed = parse_fdinfo_drm("drm-memory-vram: 2 MiB\ndrm-memory-gtt: 1 GiB\n");
    assert_eq!(parsed.mem_bytes, 2 * 1024 * 1024 + 1024 * 1024 * 1024);
    let big = parse_fdinfo_drm("drm-memory-vram: 18446744073709551615 KiB\ndrm-engine-x: 18446744073709551615 ns\ndrm-engine-y: 1 ns\n");
    assert_eq!(big.mem_bytes, u64::MAX);
    assert_eq!(big.engine_ns, u64::MAX);
}

#[test]
fn drm_totals_sum_per_pid() {
    let entries = vec![
        (7u32, FdinfoDrm { engine_ns: 10, mem_bytes: 1 }),
        (9u32, FdinfoDrm { engine_ns: 5, mem_bytes: 0 }),
        (7u32, FdinfoDrm { engine_ns: 3, mem_bytes: 4 }),
    ];
    let t = drm_totals(&entries);
    assert_eq!(t.len(), 2);
    assert_eq!(t[&7], (13, 5));
    assert_eq!(t[&9], (5, 0));
}
