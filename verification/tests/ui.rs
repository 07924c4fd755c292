use pocketcam::float::Single;
use pocketcam::health::FirewallProbe;
use pocketcam::pairing::PairPhase;
use pocketcam::preview::{PreviewEncoding, RgbFrame};
use pocketcam::settings::{Adapter, Ipv4, Settings};
use pocketcam::shared::Shared;
use pocketcam::sys::SysLoad;
use pocketcam::ui::{
    bump, draw_toasts, drop_preview_on_oom, expire, fill_preview_image, grace_left, picture_len,
    repaint_ms, sync, take_frame, toast_hold, toast_tone, try_preview_image, CloseAnswer,
    PictureOut, PocketCamApp, QrOut, QrStep, Toast, ToastTone,
};

const MS: u64 = 1_000_000;

fn shared() -> Shared {
    let nics = vec![Adapter { name: "Wi-Fi".into(), ip: Ipv4::new(192, 168, 1, 20) }];
    let probe = FirewallProbe { profiles: vec![], exe: None, exe_name: None, rules: None };
    Shared::new(None, &nics, &probe)
}

fn words(t: &[Toast]) -> Vec<&str> {
    t.iter().map(|x| x.msg.as_str()).collect()
}

#[test]
fn messages_have_a_tone_and_a_time() {
    assert_eq!(toast_tone("Virtual camera FAILED: x"), ToastTone::Danger);
    assert_eq!(toast_tone("Preview ran out of memory."), ToastTone::Danger);
    assert_eq!(toast_tone("Preview off — CPU is maxed."), ToastTone::Warn);
    assert_eq!(toast_tone("Size is locked"), ToastTone::Warn);
    assert_eq!(toast_tone("Token copied"), ToastTone::Info);
    assert_eq!(toast_hold("Token copied"), 4_500 * MS);
    assert_eq!(toast_hold(&"x".repeat(28)), 4_500 * MS);
    assert_eq!(toast_hold(&"x".repeat(29)), 8_660 * MS);
    assert_eq!(toast_hold(&"x".repeat(500)), 14_000 * MS);
    assert_eq!(toast_hold(&"—".repeat(10)), 8_700 * MS);
}

#[test]
fn three_messages_at_most() {
    let mut t = Vec::new();
    for (i, m) in ["a", "b", "c", "b", "d", ""].iter().enumerate() {
        bump(&mut t, m.to_string(), i as u64);
    }
    assert_eq!(words(&t), vec!["c", "b", "d"]);
    assert_eq!(t[1].at, 3);
    assert_eq!(draw_toasts(&t, 3), Some(250 * MS));
    assert_eq!(draw_toasts(&t, 4_500 * MS), Some(2));
    expire(&mut t, 4_500 * MS + 2);
    assert_eq!(words(&t), vec!["b", "d"]);
    expire(&mut t, 9_000 * MS);
    assert!(t.is_empty());
    assert_eq!(draw_toasts(&t, 0), None);
}

fn busy() -> SysLoad {
    let mut s = SysLoad::default();
    s.cpu_pct = Single::of(90);
    s
}

#[test]
fn a_busy_computer_loses_its_preview() {
    let mut app = PocketCamApp::new();
    let mut sh = shared();
    assert!(!app.maybe_pause_preview_on_host(&mut sh, false, &busy(), 0));
    assert_eq!(app.preview_host_since, Some(0));
    assert!(!app.maybe_pause_preview_on_host(&mut sh, false, &busy(), 799 * MS));
    assert!(!app.maybe_pause_preview_on_host(&mut sh, false, &SysLoad::default(), 799 * MS));
    assert_eq!(app.preview_host_since, None);
    assert!(!app.maybe_pause_preview_on_host(&mut sh, false, &busy(), 1_000 * MS));
    assert!(app.maybe_pause_preview_on_host(&mut sh, false, &busy(), 1_800 * MS));
    assert_eq!(sh.preview.encoding(), PreviewEncoding::Off);
    assert!(words(&app.toasts)[0].starts_with("Preview off"));
    assert!(!app.maybe_pause_preview_on_host(&mut sh, false, &busy(), 9_000 * MS));

    let mut sh = shared();
    sh.preview.set_keep_rgb(true);
    assert!(!app.maybe_pause_preview_on_host(&mut sh, false, &busy(), 0));
    assert!(!app.maybe_pause_preview_on_host(&mut sh, false, &busy(), 9_000 * MS));
    assert_eq!(sh.preview.encoding(), PreviewEncoding::Auto);
}

#[test]
fn a_slow_stream_loses_its_preview() {
    let mut app = PocketCamApp::new();
    let mut sh = shared();
    sh.stats.fps = Single::of(10);
    sh.stats.last_frame = Some(10 * MS);
    assert!(!app.maybe_pause_preview_on_slow_fps(&mut sh, PairPhase::Waiting, false, 10 * MS));
    assert_eq!(app.preview_slow_since, None);
    assert!(!app.maybe_pause_preview_on_slow_fps(&mut sh, PairPhase::Live, false, 10 * MS));
    sh.stats.last_frame = Some(900 * MS);
    assert!(!app.maybe_pause_preview_on_slow_fps(&mut sh, PairPhase::Live, false, 909 * MS));
    assert!(app.maybe_pause_preview_on_slow_fps(&mut sh, PairPhase::Live, false, 910 * MS));
    assert_eq!(
        words(&app.toasts),
        vec!["Preview off — frame rate dropped. Virtual camera and record stay native."]
    );
}

fn frame(seq: u64) -> RgbFrame {
    RgbFrame { width: 2, height: 1, pixels: vec![0x01_0203, 0xff_fefd], seq }
}

#[test]
fn pictures_are_taken_once() {
    let mut sh = shared();
    let mut last = 0;
    assert!(take_frame(&mut sh.slot, &mut last).is_none());
    sh.slot.frame = Some(frame(4));
    assert_eq!(take_frame(&mut sh.slot, &mut last).unwrap().seq, 4);
    assert!(take_frame(&mut sh.slot, &mut last).is_none());
    sh.slot.frame = Some(frame(4));
    assert!(take_frame(&mut sh.slot, &mut last).is_none());
}

#[test]
fn pictures_are_unpacked() {
    let mut out = vec![(9, 9, 9)];
    assert_eq!(try_preview_image(&frame(1), &mut out), Some((2, 1)));
    assert_eq!(out, vec![(1, 2, 3), (255, 254, 253)]);
    let short = RgbFrame { width: 3, ..frame(1) };
    assert_eq!(try_preview_image(&short, &mut out), None);
    let none = RgbFrame { width: 0, height: 0, pixels: vec![], seq: 1 };
    assert_eq!(try_preview_image(&none, &mut out), None);
    assert_eq!(out.len(), 2, "what is not whole changes nothing");
    assert_eq!(picture_len(&frame(1)), Some(2));
    assert_eq!(picture_len(&short), None);
    assert_eq!(picture_len(&none), None);
    assert_eq!(fill_preview_image(&short, &mut out, true), None);
    assert_eq!(out.len(), 2);
    assert_eq!(fill_preview_image(&frame(1), &mut out, false), None);
    assert!(out.is_empty());
    assert_eq!(fill_preview_image(&frame(1), &mut out, true), Some((2, 1)));
    assert_eq!(out, vec![(1, 2, 3), (255, 254, 253)]);
}

#[test]
fn the_window_is_made_ready() {
    let mut app = PocketCamApp::new();
    let mut sh = shared();
    let mut px = Vec::new();
    sh.slot.frame = Some(frame(4));
    sh.stats.selected_quality = "720p60".into();
    let p = app.update(&mut sh, false, &mut px, 0);
    assert!(matches!(p.qr, QrOut::Show(_)));
    assert!(matches!(p.picture, PictureOut::Show(2, 1)));
    assert_eq!(p.repaint_ms, 200);
    assert!(!p.hidden && !p.preview_off);
    assert_eq!(app.qr_url, sh.pairing.url);
    assert_eq!(sh.preview.camera_quality().id, "720p60");
    let p = app.update(&mut sh, false, &mut px, 0);
    assert!(matches!(p.qr, QrOut::Keep));
    assert!(matches!(p.picture, PictureOut::Keep));
    let p = app.update(&mut sh, true, &mut px, 0);
    assert!(matches!(p.qr, QrOut::Clear));
    assert_eq!(app.qr_url, "");
    sh.slot.frame = Some(RgbFrame { width: 9, ..frame(5) });
    let p = app.update(&mut sh, true, &mut px, 7);
    assert!(matches!(p.picture, PictureOut::NoMemory));
    assert_eq!(sh.preview.encoding(), PreviewEncoding::Off);
    assert_eq!(words(&app.toasts), vec!["Preview ran out of memory. Switched to Off."]);
    let p = app.update(&mut sh, true, &mut px, 7);
    assert!(matches!(p.picture, PictureOut::Off));
    let mut app = PocketCamApp::new();
    let mut sh = shared();
    assert!(matches!(app.after_unpacking(&mut sh, Some((4, 2)), 7), PictureOut::Show(4, 2)));
    assert_eq!(sh.preview.encoding(), PreviewEncoding::Auto);
    assert!(app.toasts.is_empty());
    assert!(matches!(app.after_unpacking(&mut sh, None, 7), PictureOut::NoMemory));
    assert_eq!(sh.preview.encoding(), PreviewEncoding::Off);
    assert_eq!(words(&app.toasts), vec!["Preview ran out of memory. Switched to Off."]);
}

#[test]
fn closing_hides_unless_the_program_ends() {
    let mut app = PocketCamApp::new();
    let mut sh = shared();
    sh.slot.frame = Some(frame(1));
    assert_eq!(app.close_requested(&mut sh, false), CloseAnswer::Hide);
    assert!(!sh.preview.window_shown());
    assert!(sh.slot.frame.is_none());
    app.wake(&mut sh, false, true);
    assert!(sh.preview.window_shown());
    app.wake(&mut sh, true, false);
    assert_eq!(app.close_requested(&mut sh, false), CloseAnswer::Close);
    assert!(sh.preview.window_shown());
    assert_eq!(PocketCamApp::new().close_requested(&mut sh, true), CloseAnswer::Close);
}

#[test]
fn codes_follow_their_link() {
    let mut app = PocketCamApp::new();
    assert_eq!(app.qr_step("", false), QrStep::Clear);
    assert_eq!(app.qr_step("a", false), QrStep::Render);
    app.qr_rendered("a");
    assert_eq!(app.qr_step("a", false), QrStep::Keep);
    assert_eq!(app.qr_step("b", false), QrStep::Render);
    assert_eq!(app.qr_step("a", true), QrStep::Clear);
}

#[test]
fn the_user_decides_on_the_preview() {
    let mut app = PocketCamApp::new();
    let mut sh = shared();
    app.preview_host_since = Some(1);
    app.set_keep(&mut sh, true);
    assert!(sh.preview.keep_rgb());
    assert_eq!(app.preview_host_since, None);
    sh.stats.note_oom(0);
    assert!(!app.choose_mode(&mut sh, PreviewEncoding::P1440_30, 1920));
    assert_eq!(sh.preview.encoding(), PreviewEncoding::Auto);
    assert!(app.choose_mode(&mut sh, PreviewEncoding::P1080_30, 1920));
    assert_eq!(sh.preview.encoding(), PreviewEncoding::P1080_30);
    assert!(!sh.stats.oom);
    assert_eq!(drop_preview_on_oom(&mut sh, 0), PreviewEncoding::Off);
    assert!(sh.stats.oom);
    app.last_seq = 8;
    app.new_session(PairPhase::Live, 0);
    assert!(app.show_pair_qr);
    assert_eq!(app.last_seq, 0);
    app.drop_preview(&mut sh, "Preview off", true, 0);
    app.bump_all(&["x".to_string(), "y".to_string()], 1);
    assert_eq!(words(&app.toasts), vec!["Preview off", "x", "y"]);
    sh.settings.recordings = Some("D:\\cam".into());
    app.open_settings(&sh);
    assert!(app.show_settings);
    assert_eq!(app.recordings_edit, "D:\\cam");
}

#[test]
fn the_window_is_drawn_as_often_as_needed() {
    let auto = PreviewEncoding::Auto;
    assert_eq!(repaint_ms(true, PairPhase::Live, false, auto), 200);
    assert_eq!(repaint_ms(false, PairPhase::Waiting, false, auto), 200);
    assert_eq!(repaint_ms(false, PairPhase::Connecting, false, auto), 50);
    assert_eq!(repaint_ms(false, PairPhase::Live, false, auto), 16);
    assert_eq!(repaint_ms(false, PairPhase::Live, true, auto), 200);
    assert_eq!(repaint_ms(false, PairPhase::Live, false, PreviewEncoding::Native), 33);
}

#[test]
fn time_runs_out_for_a_phone_that_left() {
    let mut sh = shared();
    assert_eq!(grace_left(&sh.pairing, 0), None);
    sh.pairing.grace_until = Some(90_500 * MS);
    assert_eq!(grace_left(&sh.pairing, 0), Some(90));
    assert_eq!(grace_left(&sh.pairing, 89_600 * MS), None);
    sync(&mut sh);
    assert_eq!(sh.preview.camera_quality().id, "1080p30");
}

#[test]
fn a_folder_for_recordings_is_tried() {
    let mut app = PocketCamApp::new();
    let mut next = Settings::default();
    app.recordings_edit = "D:\\cam".into();
    assert_eq!(app.folder_checked(&mut next, Ok(Some("D:\\cam".into())), true), None);
    assert_eq!(next.recordings.as_deref(), Some("D:\\cam"));
    app.recordings_edit = "Q:\\nope".into();
    assert_eq!(
        app.folder_checked(&mut next, Err("no drive".into()), false).as_deref(),
        Some("Recordings folder: no drive")
    );
    assert_eq!(app.recordings_edit, "Q:\\nope");
    assert!(app.folder_checked(&mut next, Err("no drive".into()), true).is_some());
    assert_eq!(app.recordings_edit, "D:\\cam");
    app.use_default_folder(&mut next);
    assert_eq!(app.recordings_edit, "");
    assert_eq!(next.recordings, None);
}
