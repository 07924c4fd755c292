use pocketcam::figures::whole;
use pocketcam::float::Single;
use pocketcam::preview::{
    fps_avail, merge_qualities, preview_decode_too_slow, quality_allowed, quality_by_id,
    quality_by_index, quality_catalog, quality_fps, quality_id_for, quality_index,
    quality_long_edge, quality_sizes, size_avail, size_label, slow_preview_floor, Avail,
    CameraItem, PreviewControl, PreviewEncoding, PreviewPlan, StreamStats, ALERT_HOLD,
    DEFAULT_CAMERA_FMT, OOM_HOLD, QUALITIES,
};

const MS: u64 = 1_000_000;

fn fps(v: f32) -> Single {
    Single { bits: v.to_bits() }
}

#[test]
fn preview_fits_selected_quality_not_warmup_sps() {
    let q = quality_long_edge("1080p30");
    assert_eq!(q, 1920);
    assert!(PreviewEncoding::P480_30.fits(q));
    assert!(PreviewEncoding::P720_30.fits(q));
    assert!(PreviewEncoding::P1080_30.fits(q));
    assert!(!PreviewEncoding::P1440_30.fits(q));
    assert!(!PreviewEncoding::P2160_30.fits(q));
    assert!(PreviewEncoding::Auto.fits(678));
    assert!(!PreviewEncoding::P1080_30.fits(678));
}

#[test]
fn hidden_window_skips_rgb_without_changing_encoding() {
    let mut p = PreviewControl::new();
    p.set_encoding(PreviewEncoding::P1080_30);
    p.set_window_shown(false);
    let plan = p.plan();
    assert!(plan.skip_always);
    assert_eq!(p.encoding(), PreviewEncoding::P1080_30);
    p.set_window_shown(true);
    assert!(!p.plan().skip_always);
    assert_eq!(p.plan().max_long, 1920);
}

#[test]
fn auto_skips_rgb_while_vcam_is_on() {
    let mut p = PreviewControl::new();
    p.vcam_on = true;
    assert!(p.plan().skip_always);
    assert_eq!(p.encoding(), PreviewEncoding::Auto);
    p.vcam_on = false;
    assert!(!p.plan().skip_always);
    assert_eq!(p.plan().max_long, 1280);
    p.vcam_on = true;
    p.set_keep_rgb(true);
    assert!(!p.plan().skip_always);
    assert!(!p.rgb_off());
    p.set_keep_rgb(false);
    assert!(p.rgb_off());
    assert_eq!(p.encoding(), PreviewEncoding::Auto);
}

#[test]
fn default_quality_is_1080p30() {
    assert_eq!(quality_by_index(DEFAULT_CAMERA_FMT).id, "1080p30");
    assert_eq!(quality_index("1080p30"), DEFAULT_CAMERA_FMT);
    assert_eq!(QUALITIES, quality_sizes().len() * quality_fps().len());
}

#[test]
fn four_k_source_does_not_force_720p_on_explicit_1080p() {
    let p = PreviewPlan {
        skip_always: false,
        native: true,
        max_long: 1920,
        max_fps: Some(60),
    }
    .clamp_for_source(3840);
    assert!(!p.native);
    assert_eq!(p.max_long, 1920);
    assert_eq!(p.max_fps, Some(60));
}

#[test]
fn one_fps_is_too_slow_for_1080p30() {
    assert!(preview_decode_too_slow(fps(1.0), 30, Some(200 * MS)));
    assert!(preview_decode_too_slow(fps(15.0), 30, Some(200 * MS)));
    assert!(!preview_decode_too_slow(fps(28.0), 30, Some(200 * MS)));
    assert!(!preview_decode_too_slow(fps(1.0), 30, Some(3_000 * MS)));
    assert!(!preview_decode_too_slow(fps(1.0), 30, None));
}

#[test]
fn modes_have_numbers_that_lead_back() {
    let all = PreviewEncoding::all();
    assert_eq!(all.len(), 13);
    for m in &all {
        assert_eq!(PreviewEncoding::from_u8(m.to_u8()), *m);
        assert!(!m.label().is_empty());
    }
    assert_eq!(PreviewEncoding::from_u8(200), PreviewEncoding::Auto);
    assert_eq!(PreviewEncoding::P1440_60.min_src_long(), 2560);
    assert_eq!(PreviewEncoding::Native.min_src_long(), 0);
}

#[test]
fn the_catalog_is_a_grid_of_sizes_and_rates() {
    let mut i = 0u8;
    for (w, h) in quality_sizes() {
        for f in quality_fps() {
            let q = quality_by_index(i);
            assert_eq!((q.width, q.height, q.fps), (w, h, f));
            assert_eq!(q.id, quality_id_for(h, f));
            assert_eq!(quality_index(q.id), i);
            assert_eq!(quality_by_id(q.id).unwrap().label, q.label);
            i += 1;
        }
    }
    assert_eq!(i as usize, QUALITIES);
    assert_eq!(quality_by_index(30).id, "1080p30");
    assert_eq!(quality_index("nope"), DEFAULT_CAMERA_FMT);
    assert!(quality_by_id("nope").is_none());
    assert_eq!(quality_long_edge("nope"), 1920);
    assert_eq!(size_label(2160), "4K");
    assert_eq!(size_label(720), "720p");
}

fn item(id: &str, available: Avail) -> CameraItem {
    CameraItem { id: id.into(), label: "theirs".into(), available }
}

#[test]
fn reports_are_merged_into_the_catalog() {
    let r = merge_qualities(vec![item("720p30", Avail::Yes), item("8000p30", Avail::Yes)]);
    let ours = quality_catalog(Avail::Unknown);
    for o in &ours {
        assert!(r.iter().any(|x| x.id == o.id));
    }
    let seven = r.iter().find(|x| x.id == "720p30").unwrap();
    assert_eq!(seven.available, Avail::Yes);
    let six = r.iter().find(|x| x.id == "720p60").unwrap();
    assert_eq!(six.available, Avail::Unknown);
    assert_eq!(fps_avail(&r, 720, 30), Avail::Yes);
    assert_eq!(size_avail(&r, 720), Avail::Yes);
    assert_eq!(size_avail(&r, 1080), Avail::Unknown);
    let none: Vec<CameraItem> =
        quality_fps().iter().map(|f| item(&quality_id_for(480, *f), Avail::No)).collect();
    assert_eq!(size_avail(&none, 480), Avail::No);
}

#[test]
fn modes_ask_for_their_size_and_rate() {
    for e in PreviewEncoding::all() {
        let p = e.explicit_plan();
        assert!(p.max_long <= 1920);
        assert_eq!(p.skip_always, e == PreviewEncoding::Off);
        assert_eq!(p.native, e == PreviewEncoding::Native);
        if e.min_src_long() > 0 {
            assert_eq!(p.max_long as u32, e.min_src_long().min(1920));
            let rate = if e.label().ends_with("30") { 30 } else { 60 };
            assert_eq!(p.max_fps, Some(rate));
        }
    }
    let auto = PreviewEncoding::Auto.explicit_plan();
    assert_eq!((auto.max_long, auto.max_fps), (1280, Some(30)));
    assert_eq!(PreviewEncoding::Off.explicit_plan().max_fps, None);
}

#[test]
fn answers_fold() {
    assert_eq!(Avail::Yes.fold(Avail::No), Avail::Yes);
    assert_eq!(Avail::Unknown.fold(Avail::Yes), Avail::Yes);
    assert_eq!(Avail::No.fold(Avail::Unknown), Avail::Unknown);
    assert_eq!(Avail::No.fold(Avail::No), Avail::No);
    assert_eq!(Avail::from_opt(Some(true)), Avail::Yes);
    assert_eq!(Avail::from_opt(Some(false)), Avail::No);
    assert_eq!(Avail::from_opt(None), Avail::Unknown);
}

#[test]
fn size_is_locked_while_something_runs() {
    let a = quality_by_id("1080p30").unwrap();
    let b = quality_by_id("720p30").unwrap();
    let fast = quality_by_id("1080p60").unwrap();
    assert!(quality_allowed(&a, &b, false, false));
    assert!(!quality_allowed(&a, &b, true, false));
    assert!(quality_allowed(&a, &fast, true, false));
    assert!(!quality_allowed(&a, &fast, false, true));
    assert!(quality_allowed(&fast, &a, true, true));
}

#[test]
fn rates_and_alerts() {
    let mut s = StreamStats::fresh();
    assert_eq!(s.selected_quality, "1080p30");
    s.pulse(0);
    for k in 1..=30u64 {
        s.pulse(k * 1_000 * MS / 30);
    }
    assert!(s.fps.bits > fps(29.0).bits && s.fps.bits < fps(32.0).bits, "{:?}", s.fps);
    let mut t = StreamStats::fresh();
    t.pulse(0);
    assert_eq!(t.fps, fps(1.0));
    for _ in 0..56 {
        t.pulse(1);
    }
    t.pulse(1_999_980_000);
    let dt = std::time::Duration::from_nanos(1_999_980_000).as_secs_f32();
    assert_eq!(t.fps, fps(57.0 / dt));
    assert_eq!(whole(t.fps), "29");
    s.note_gaps(3, 5_000 * MS);
    assert_eq!(s.visible_gaps(5_000 * MS), Some(3));
    assert_eq!(s.visible_gaps(5_000 * MS + ALERT_HOLD), None);
    s.note_drops(2, 5_000 * MS);
    assert_eq!(s.visible_drops(6_000 * MS), Some(2));
    s.note_oom(0);
    assert!(s.oom_visible(OOM_HOLD - 1));
    assert!(!s.oom_visible(OOM_HOLD));
    s.clear_oom();
    assert!(!s.oom_visible(1));
    s.note_picture((1920, 1080), (1280, 720));
    assert_eq!((s.preview_w, s.preview_h), (1280, 720));
    s.clear_preview_rgb();
    assert_eq!((s.preview_w, s.preview_h), (0, 0));
}

#[test]
fn slow_is_seven_tenths_of_what_was_asked_for() {
    for q in [0u32, 15, 20, 24, 25, 30, 50, 60, u32::MAX] {
        assert_eq!(slow_preview_floor(q), fps((q as f32 * 0.7).clamp(14.0, 36.0)));
    }
    assert!(!preview_decode_too_slow(fps(36.0), 60, Some(0)));
    assert!(preview_decode_too_slow(fps(13.9), 15, Some(0)));
    let f = slow_preview_floor(30);
    assert!(preview_decode_too_slow(Single { bits: f.bits - 1 }, 30, Some(0)));
    assert!(!preview_decode_too_slow(f, 30, Some(0)));
    assert!(!preview_decode_too_slow(fps(0.05), 30, Some(0)));
}
