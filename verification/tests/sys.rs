use pocketcam::float::Single;
use pocketcam::sys::{
    add_up, engine_kind, fill_gpu, instance_luid, instance_luid_key, instance_pid, nic_octets,
    preview_host_stress, read_load, short_gpu_name, Counters, EngineKind, GpuAdapter, GpuItem,
    LastCounts, NicRow, PreviewHostStress, SysLoad, SysSampler, MIN_DT,
};

fn k(v: f32) -> Single {
    Single { bits: v.to_bits() }
}

fn load() -> SysLoad {
    let mut s = SysLoad::default();
    s.ram_total_gb = k(16.0);
    s.ram_used_gb = k(8.0);
    s.ram_pct = k(50.0);
    s.proc_mb = k(200.0);
    s.cpu_pct = k(40.0);
    s.cpu_app_pct = k(10.0);
    s
}

#[test]
fn idle_host_keeps_preview() {
    assert_eq!(preview_host_stress(&load(), k(8.0)), None);
}

#[test]
fn system_cpu_75_drops_preview() {
    let mut s = load();
    s.cpu_pct = k(76.0);
    assert_eq!(preview_host_stress(&s, k(8.0)), Some(PreviewHostStress::Cpu));
}

#[test]
fn ram_and_vram_drop_preview() {
    let mut s = load();
    s.ram_used_gb = k(15.5);
    s.ram_pct = k(96.0);
    assert_eq!(preview_host_stress(&s, k(8.0)), Some(PreviewHostStress::Ram));
    s = load();
    s.gpu_vram_used_mb = k(7800.0);
    s.gpu_vram_budget_mb = k(8000.0);
    assert_eq!(preview_host_stress(&s, k(8.0)), Some(PreviewHostStress::Vram));
    assert_eq!(preview_host_stress(&load(), k(30.0)), Some(PreviewHostStress::Decode));
}

#[test]
fn other_kinds_of_stress() {
    let mut s = load();
    s.proc_mb = k(450.0);
    assert_eq!(preview_host_stress(&s, k(0.0)), Some(PreviewHostStress::Proc));
    s = load();
    s.cpu_app_pct = k(22.0);
    assert_eq!(preview_host_stress(&s, k(0.0)), Some(PreviewHostStress::AppCpu));
    s = load();
    s.gpu_3d_sys = k(75.0);
    assert_eq!(preview_host_stress(&s, k(0.0)), Some(PreviewHostStress::Gpu));
    assert_eq!(PreviewHostStress::Ram.hold(), 250_000_000);
    assert_eq!(PreviewHostStress::Cpu.hold(), 800_000_000);
    assert!(PreviewHostStress::Vram.is_oom());
    assert!(!PreviewHostStress::Decode.is_oom());
    assert!(PreviewHostStress::Gpu.toast().contains("GPU is maxed"));
}

const LUID: &str = "pid_42_luid_0x00000000_0x0000ABCD_phys_0_eng_0_engtype_3D";

#[test]
fn counter_names_are_read() {
    assert_eq!(instance_pid(LUID), Some(42));
    assert_eq!(instance_luid(LUID), Some((0xABCD, 0)));
    assert!(instance_luid_key(LUID).is_some());
    assert_eq!(engine_kind(LUID), EngineKind::ThreeD);
    assert_eq!(engine_kind("pid_1_engtype_VideoDecode"), EngineKind::VideoDecode);
    assert_eq!(engine_kind("pid_1_engtype_Copy"), EngineKind::Copy);
    assert_eq!(instance_pid("x"), None);
    assert_eq!(short_gpu_name("NVIDIA GeForce RTX 3060 "), "RTX 3060");
    assert_eq!(short_gpu_name("Intel(R) UHD Graphics"), "UHD Graphics");
}

fn item(name: &str, v: f32) -> GpuItem {
    GpuItem { name: name.into(), value: k(v) }
}

fn adapter(name: &str, dedicated: u64, luid: (u32, i32)) -> GpuAdapter {
    GpuAdapter {
        software: false,
        raw_name: name.into(),
        dedicated,
        used: 100 << 20,
        budget: 1000 << 20,
        shared_used: 0,
        shared_budget: 3 << 19,
        luid,
    }
}

#[test]
fn the_adapter_in_use_is_shown() {
    let other = "pid_7_luid_0x00000000_0x00001111_phys_0_eng_0_engtype_3D";
    let items = vec![
        item(LUID, 30.0),
        item(other, 99.0),
        item("pid_9_luid_0x00000000_0x0000ABCD_phys_0_eng_0_engtype_3D", 80.0),
        item("pid_42_luid_0x00000000_0x0000ABCD_phys_0_eng_1_engtype_VideoDecode", 5.0),
        item(LUID, 0.0),
        item(LUID, -3.0),
        item(LUID, f32::INFINITY),
        item(LUID, f32::NAN),
    ];
    let rows = vec![
        adapter("NVIDIA GeForce RTX 3060", 8 << 30, (0x1111, 0)),
        adapter("Intel(R) UHD Graphics", 1 << 30, (0xABCD, 0)),
    ];
    let mut l = SysLoad::default();
    fill_gpu(&mut l, &items, 42, &rows);
    assert_eq!(l.gpu_3d_app, k(30.0));
    assert_eq!(l.gpu_3d_sys, k(100.0), "110 is capped");
    assert_eq!(l.gpu_vdec_app, k(5.0));
    assert_eq!(l.gpu_name, "UHD Graphics");
    assert_eq!(l.gpu_vram_used_mb, k(100.0));
    assert_eq!(l.gpu_vram_budget_mb, k(1000.0));
    assert_eq!(l.gpu_shared_used_mb, k(0.0));
    assert_eq!(l.gpu_shared_budget_mb, k(1.5));
    let mut l = SysLoad::default();
    fill_gpu(&mut l, &items, 1, &rows);
    assert_eq!(l.gpu_3d_app, k(0.0));
    assert_eq!(l.gpu_name, "RTX 3060", "the largest, where none is ours");
    let mut soft = adapter("Microsoft Basic Render Driver", 9 << 30, (1, 1));
    soft.software = true;
    let mut l = SysLoad::default();
    fill_gpu(&mut l, &[], 1, &[soft]);
    assert_eq!(l.gpu_name, "");
    let (app, all, luid) = add_up(&[], &None, 1);
    assert_eq!(app, all);
    assert_eq!(luid, None);
}

fn counters(idle: u64, kernel: u64, user: u64, app: u64) -> Counters {
    Counters {
        system: Some((idle, kernel, user)),
        process: Some((0, app)),
        memory: Some((50, 16_000_000_000, 8_000_000_000)),
        working_set: Some(200 * 1_048_576),
        nic: Some((1_000_000, 500_000)),
    }
}

#[test]
fn load_is_the_share_since_the_last_sample() {
    let mut last = LastCounts {
        idle: 0,
        kernel: 0,
        user: 0,
        proc_kernel: 0,
        proc_user: 0,
        nic_in: 0,
        nic_out: 0,
    };
    let l = read_load(&mut last, &counters(100, 200, 100, 10), false, 0);
    assert_eq!(l.cpu_pct, k(0.0));
    assert_eq!(l.ram_pct, k(50.0));
    assert_eq!(l.ram_total_gb, k(16.0));
    assert_eq!(l.ram_used_gb, k(8.0));
    assert_eq!(l.proc_mb, k(200.0));
    // 300 of which 75 idle, and 30 ours.
    let mut c = counters(175, 400, 200, 40);
    c.nic = Some((1_125_000, 500_000));
    let l = read_load(&mut last, &c, true, 1_000_000_000);
    assert_eq!(l.cpu_pct, k(75.0));
    assert_eq!(l.cpu_app_pct, k(10.0));
    assert_eq!(l.nic_down_kbps, k(1000.0));
    assert_eq!(l.nic_up_kbps, k(0.0));
}

#[test]
fn free_memory_counts() {
    let at = |free: u64| {
        let mut last = LastCounts {
            idle: 0,
            kernel: 0,
            user: 0,
            proc_kernel: 0,
            proc_user: 0,
            nic_in: 0,
            nic_out: 0,
        };
        let mut c = counters(0, 0, 0, 0);
        c.memory = Some((50, 16_000_000_000, free));
        read_load(&mut last, &c, false, 0)
    };
    for free in [1_499_100_000u64, 1_499_999_999, 1_500_000_000, 2_000_000_000, 20_000_000_000] {
        let used = (16_000_000_000u64 as f32 / 1e9 - free as f32 / 1e9).max(0.0);
        assert_eq!(at(free).ram_used_gb, k(used));
        let short = (16.0 - used).max(0.0) < 1.5;
        assert_eq!(preview_host_stress(&at(free), k(0.0)).is_some(), short, "{free}");
    }
    assert_eq!(preview_host_stress(&at(1_499_100_000), k(0.0)), Some(PreviewHostStress::Ram));
}

#[test]
fn shares_are_computed_in_single_precision() {
    for (idle, busy, own) in [(1u64, 2u64, 1u64), (7, 3, 5), (123_456_789, 987_654, 654_321)] {
        let mut last = LastCounts {
            idle: 0,
            kernel: 0,
            user: 0,
            proc_kernel: 0,
            proc_user: 0,
            nic_in: 0,
            nic_out: 0,
        };
        let mut c = counters(idle, idle, busy, own);
        c.working_set = Some(own);
        c.nic = Some((own, busy));
        let l = read_load(&mut last, &c, true, 700_000_001);
        let total = (idle + busy) as f32;
        assert_eq!(l.cpu_pct, k((1.0 - idle as f32 / total) * 100.0));
        assert_eq!(l.cpu_app_pct, k((own as f32 / total * 100.0).clamp(0.0, 100.0)));
        assert_eq!(l.proc_mb, k(own as f32 / (1024.0 * 1024.0)));
        let dt = std::time::Duration::from_nanos(700_000_001).as_secs_f32();
        assert_eq!(l.nic_down_kbps, k(own as f32 * 8.0 / dt / 1000.0));
        assert_eq!(l.nic_up_kbps, k(busy as f32 * 8.0 / dt / 1000.0));
    }
}

#[test]
fn samples_are_spaced() {
    let mut s = SysSampler::new(42);
    assert!(s.is_due(0));
    assert!(s.sample(&counters(0, 0, 0, 0), &[], &[], 5));
    assert!(!s.is_due(5 + MIN_DT - 1));
    assert!(!s.sample(&counters(0, 10, 0, 0), &[], &[], 6));
    assert_eq!(s.last_at, Some(5));
    assert!(s.sample(&counters(0, 10, 0, 0), &[], &[], 5 + MIN_DT));
    assert_eq!(s.cached.cpu_pct, k(100.0));
}

#[test]
fn the_busiest_interface_counts() {
    let row = |loopback: bool, up: bool, n: u64| NicRow {
        loopback,
        up,
        ucast_in: n,
        ucast_out: 1,
        octets_in: 10 * n,
        octets_out: n,
    };
    assert_eq!(
        nic_octets(&[row(true, true, 99), row(false, true, 5), row(false, true, 7), row(false, false, 50)]),
        Some((70, 7))
    );
    assert_eq!(nic_octets(&[row(true, true, 99)]), None);
}

#[test]
fn more_load_is_no_relief() {
    let mut s = SysLoad::default();
    s.ram_total_gb = k(16.0);
    s.ram_used_gb = k(8.0);
    let mut stressed = false;
    for pct in (0..=100u16).step_by(5) {
        s.cpu_pct = k(f32::from(pct));
        let now = preview_host_stress(&s, k(0.0)).is_some();
        assert!(now || !stressed);
        stressed = now;
    }
    assert!(stressed);
}
