use pocketcam::figures::{fmt_rate, fmt_vram, right, tenths, whole};
use pocketcam::float::Single;
use pocketcam::overlay::{debug_job, level, Span, Tone};
use pocketcam::pairing::PairPhase;
use pocketcam::preview::{PreviewControl, PreviewEncoding, StreamStats};
use pocketcam::sys::SysLoad;

fn k(v: f32) -> Single {
    Single { bits: v.to_bits() }
}

fn text(v: &[Span]) -> String {
    v.iter().map(|s| s.text.as_str()).collect()
}

fn tone_of(v: &[Span], what: &str) -> Tone {
    v.iter().find(|s| s.text.contains(what)).unwrap().tone
}

#[test]
fn figures_are_rounded() {
    for v in [29.499, 29.5, 30.5, 28.500_285, 2.5, 0.4, 1234.5, 0.0] {
        assert_eq!(whole(k(v)), format!("{v:.0}"));
    }
    for v in [1.25, 1.35, 9.96, 0.05, 0.0, 123.45] {
        assert_eq!(tenths(k(v)), format!("{v:.1}"));
    }
    assert_eq!(whole(k(f32::INFINITY)), format!("{:.0}", f32::INFINITY));
    assert_eq!(tenths(k(f32::INFINITY)), format!("{:.1}", f32::INFINITY));
    assert_eq!(whole(k(29.5)), "30");
    assert_eq!(whole(k(30.5)), "30");
    assert_eq!(tenths(k(1.25)), "1.2");
    assert_eq!(tenths(k(9.96)), "10.0");
    assert_eq!(right("30", 4), "  30");
    assert_eq!(right("12345", 4), "12345");
    assert_eq!(fmt_rate(k(999.999)), "1000 kbps");
    assert_eq!(fmt_rate(k(1000.0)), "1.0 Mbps");
    assert_eq!(fmt_rate(k(12_340.0)), "12.3 Mbps");
    assert_eq!(fmt_vram(k(100.0), k(1000.0)), "100/1000 MB");
    assert_eq!(fmt_vram(k(1536.0), k(8192.0)), "1.5/8G");
    assert_eq!(level(k(5.0), 5, 9), Tone::Warn);
    assert_eq!(level(k(9.0), 5, 9), Tone::Danger);
    assert_eq!(level(k(4.999), 5, 9), Tone::Plain);
}

#[test]
fn a_fresh_window_has_nothing_to_worry_about() {
    let mut s = StreamStats::fresh();
    let v = debug_job(
        &mut s,
        &PreviewControl::new(),
        false,
        PairPhase::Waiting,
        &SysLoad::default(),
        0,
    );
    assert_eq!(
        text(&v),
        "wait  1×1     0 fps  enc Auto  cam 1920×1080@30\n\
         CPU    0% (0%)   RAM     0 MB (0% 0.0/0 GB)\n\
         NET ↓0 kbps  (↓0 kbps ↑0 kbps)\n\
         GPU —"
    );
    assert!(v.iter().all(|s| s.tone == Tone::Plain || s.tone == Tone::Muted));
}

#[test]
fn a_live_stream_is_judged() {
    let mut s = StreamStats::fresh();
    s.width = 1280;
    s.height = 720;
    s.decoded = 5;
    s.fps = k(12.0);
    s.last_frame = Some(0);
    s.preview_w = 1280;
    s.preview_h = 720;
    s.loss_pct = k(2.0);
    s.decode_ms = k(41.0);
    s.ice = "disconnected".into();
    s.bitrate_kbps = k(150.0);
    s.pkt_pps = k(80.0);
    s.note_gaps(12, 0);
    s.note_drops(1, 0);
    s.note_oom(0);
    let mut sys = SysLoad::default();
    sys.gpu_name = "RTX 3060".into();
    sys.gpu_3d_sys = k(95.0);
    sys.gpu_compute_sys = k(0.5);
    sys.gpu_vram_used_mb = k(6144.0);
    sys.gpu_vram_budget_mb = k(8192.0);
    sys.gpu_shared_used_mb = k(1024.0);
    let v = debug_job(&mut s, &PreviewControl::new(), true, PairPhase::Live, &sys, 1);
    let t = text(&v);
    assert!(t.starts_with(
        "live  1280×720    12 fps  enc Auto  cam 1920×1080@30  rgb nv12 44 MB/s  loss 2.0%  dec   41 ms  OOM  gaps 12  drop 1  ice disconnected\n"
    ), "{t}");
    assert_eq!(tone_of(&v, "1280×720"), Tone::Warn);
    assert_eq!(tone_of(&v, "12 fps"), Tone::Warn);
    assert_eq!(tone_of(&v, "cam "), Tone::Live);
    assert_eq!(tone_of(&v, "loss"), Tone::Danger);
    assert_eq!(tone_of(&v, "dec "), Tone::Warn);
    assert_eq!(tone_of(&v, "gaps"), Tone::Danger);
    assert_eq!(tone_of(&v, "drop"), Tone::Warn);
    assert_eq!(tone_of(&v, "ice "), Tone::Danger);
    assert_eq!(tone_of(&v, "150 kbps"), Tone::Warn);
    assert!(t.contains("NET ↓150 kbps  80p/s  (↓"), "{t}");
    assert!(t.contains(
        "GPU RTX 3060  3D 0%(95%)  copy 0%(0%)  vdec 0%(0%)  vp 0%(0%)  cmp 0%(0%)  6.0/8G  sh 1.0G"
    ), "{t}");
    assert_eq!(tone_of(&v, "95%"), Tone::Danger);
    assert_eq!(tone_of(&v, "6.0/8G"), Tone::Warn);
    assert!(!s.stalled);
    let v = debug_job(
        &mut s,
        &PreviewControl::new(),
        true,
        PairPhase::Live,
        &sys,
        2_000_000_001,
    );
    assert!(s.stalled);
    assert!(text(&v).contains("  STALL"));
    assert_eq!(tone_of(&v, "12 fps"), Tone::Danger);
}

#[test]
fn the_preview_says_when_it_is_off() {
    let mut s = StreamStats::fresh();
    let mut p = PreviewControl::new();
    p.set_window_shown(false);
    let sys = SysLoad::default();
    let v = debug_job(&mut s, &p, false, PairPhase::Connecting, &sys, 0);
    assert!(text(&v).contains("  enc Auto·off"));
    assert_eq!(v[0].text, "ice");
    assert_eq!(v[0].tone, Tone::Warn);
    p.set_encoding(PreviewEncoding::Off);
    let v = debug_job(&mut s, &p, false, PairPhase::Live, &sys, 0);
    assert!(text(&v).contains("  enc Off  "));
}
