use pocketcam::health::{FirewallProbe, FirewallState};
use pocketcam::preview::{PreviewEncoding, DEFAULT_CAMERA_FMT};
use pocketcam::settings::{Adapter, Ipv4, Settings};
use pocketcam::shared::{ListenState, RecordStep, Shared, VcamStep};
use pocketcam::vcam::VcamStart;

fn probe() -> FirewallProbe {
    FirewallProbe { profiles: vec![Some(1)], exe: None, exe_name: None, rules: Some(vec![]) }
}

fn wifi() -> Vec<Adapter> {
    vec![Adapter { name: "Wi-Fi".into(), ip: Ipv4::new(192, 168, 1, 20) }]
}

fn shared() -> Shared {
    Shared::new(None, &wifi(), &probe())
}

#[test]
fn settings_are_taken_at_launch() {
    let mut s = Settings::default();
    s.keep_preview = true;
    s.port = 9000;
    let sh = Shared::new(Some(s), &wifi(), &probe());
    assert_eq!(sh.listen_port, 9000);
    assert!(sh.preview.keep_rgb());
    assert_eq!(sh.pairing.url, format!("https://192.168.1.20:9000/connect/{}", sh.pairing.token));
    assert!(matches!(sh.listen, ListenState::Starting));
    assert_eq!(sh.firewall, FirewallState::Unknown);
    assert!(sh.cert_names.is_empty());
    assert_eq!(sh.preview.camera_fmt, DEFAULT_CAMERA_FMT);
    assert_eq!(sh.vcam.canvas, (1920, 1080, 30));
    assert!(sh.vcam.notices.is_empty() && sh.record.notices.is_empty());
    assert!(!sh.record.pli && sh.record.last_path.is_none());
}

#[test]
fn another_port_needs_another_start() {
    let mut sh = shared();
    let token = sh.pairing.token.clone();
    let mut s = Settings::default();
    s.stun = true;
    assert_eq!(sh.apply_settings(s, &wifi()), "Settings saved.");
    assert!(sh.hello_ok_json().stun);
    let mut s = Settings::default();
    s.port = 9000;
    assert_eq!(
        sh.apply_settings(s, &wifi()),
        "Settings saved. Restart PocketCam to listen on port 9000 (now 8443)."
    );
    assert_eq!(sh.listen_port, 8443);
    assert_eq!(sh.settings.port, 9000);
    assert_eq!(sh.pairing.token, token);
    let h = sh.hello_ok_json();
    assert_eq!((h.kind, h.stun, h.stun_url), ("hello-ok", false, "stun:stun.l.google.com:19302"));
    sh.rotate_session(&wifi());
    assert_eq!(sh.pairing.generation, 1);
    sh.refresh_firewall(&FirewallProbe { profiles: vec![Some(0)], ..probe() });
    assert_eq!(sh.firewall, FirewallState::Allowed);
}

#[test]
fn the_virtual_camera_is_switched() {
    let mut sh = shared();
    match sh.toggle_vcam() {
        VcamStep::Start(q) => assert_eq!(q.id, "1080p30"),
        VcamStep::Off(_) => panic!("off"),
    }
    let info = VcamStart { replaced: false, width: 1920, height: 1080, fps: 30 };
    assert_eq!(
        sh.vcam_started(info),
        "Virtual camera on 1920×1080 @ 30 fps. Pick PocketCam in OBS, Discord, or Zoom. Auto preview skipped RGB so the virtual camera can hold frame rate."
    );
    assert!(sh.preview.vcam_on);
    match sh.toggle_vcam() {
        VcamStep::Off(m) => assert_eq!(m, "Virtual camera off."),
        VcamStep::Start(_) => panic!("on"),
    }
    sh.preview.set_encoding(PreviewEncoding::Off);
    let info = VcamStart { replaced: true, ..info };
    assert_eq!(
        sh.vcam_started(info),
        "PocketCam is 1920×1080 @ 30 fps. Select it again in OBS or Discord if the picture went black."
    );
    assert_eq!(Shared::vcam_failed("no ring"), "Virtual camera failed: no ring");
}

#[test]
fn recording_is_switched() {
    let mut sh = shared();
    assert_eq!(sh.toggle_record(), RecordStep::Start);
    sh.record.start("a.mp4".into()).unwrap();
    assert_eq!(
        sh.record_started("a.mp4"),
        "Recording a.mp4 — starts on the next keyframe. Quality size is locked."
    );
    assert!(sh.preview.record_on);
    assert_eq!(sh.toggle_record(), RecordStep::Stop);
    assert_eq!(sh.record_stopped(Some("a.mp4")), "Saved a.mp4");
    assert!(!sh.preview.record_on);
    assert_eq!(sh.record_stopped(None), "Record already stopped.");
    assert_eq!(Shared::record_failed("disk"), "Record failed: disk");
}

#[test]
fn everything_stops_at_the_end() {
    let mut sh = shared();
    sh.record.start("a.mp4".into()).unwrap();
    sh.vcam.on = true;
    sh.preview.vcam_on = true;
    sh.preview.record_on = true;
    let e = sh.exit();
    assert!(e.stop_record && e.stop_vcam);
    assert!(!sh.preview.vcam_on && !sh.preview.record_on);
    let e = sh.exit();
    assert!(!e.stop_record && !e.stop_vcam);
}
