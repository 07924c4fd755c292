use pocketcam::pairing::{AcceptError, PairPhase, Pairing, TOKEN_GRACE};
use pocketcam::preview::{quality_by_id, Avail, FrameSlot, PreviewControl, StreamStats};
use pocketcam::server::{
    answer_failed, apply_output_quality, capture_lock, closed, error_reply, grace_expired,
    handle_offer, handle_ws, listen_error, reset_media, run, stop_notice, ByeReason, CamMsg,
    CmdStep, Conn, SignalMsg, SignalStep,
};
use pocketcam::settings::Settings;
use pocketcam::shared::HostCmd;
use pocketcam::vcam::{FormatStep, Vcam};

fn msg(kind: &str) -> SignalMsg {
    SignalMsg {
        kind: kind.into(),
        sdp: None,
        token: None,
        devices: None,
        qualities: None,
        device_id: None,
        quality_id: None,
        label: None,
    }
}

fn hello(token: &str) -> SignalMsg {
    SignalMsg { token: Some(token.into()), ..msg("hello") }
}

fn stranger() -> Conn {
    Conn { authed: false, claimed_gen: 0, conn_id: 0 }
}

#[test]
fn one_phone_at_a_time() {
    let mut p = Pairing::new(&Settings::default(), 8443, &[]);
    let mut s = StreamStats::fresh();
    let (mut a, mut b) = (stranger(), stranger());
    let token = p.token.clone();
    assert!(matches!(
        handle_ws(&mut a, &mut p, &mut s, msg("offer"), 1),
        SignalStep::HelloFirst
    ));
    assert!(matches!(
        handle_ws(&mut a, &mut p, &mut s, hello("nope"), 1),
        SignalStep::Refused(AcceptError::Unknown)
    ));
    assert!(matches!(handle_ws(&mut a, &mut p, &mut s, hello(&token), 1), SignalStep::Claimed));
    assert_eq!(p.phase, PairPhase::Connecting);
    assert!(a.authed && a.conn_id == 1);
    assert!(matches!(
        handle_ws(&mut b, &mut p, &mut s, hello(&token), 2),
        SignalStep::Refused(AcceptError::Used)
    ));
    assert!(matches!(handle_ws(&mut a, &mut p, &mut s, hello("x"), 3), SignalStep::HelloOk));
    let offer = SignalMsg { sdp: Some("v=0".into()), ..msg("offer") };
    match handle_ws(&mut a, &mut p, &mut s, offer, 3) {
        SignalStep::Offer(sdp) => assert_eq!(sdp, "v=0"),
        _ => panic!("no offer"),
    }
    handle_offer(&mut p, false);
    assert_eq!(p.phase, PairPhase::Connecting);
    handle_offer(&mut p, true);
    assert_eq!(p.phase, PairPhase::Live);
    p.rotate(&Settings::default(), 8443, &[]);
    assert!(matches!(
        handle_ws(&mut a, &mut p, &mut s, msg("camera"), 3),
        SignalStep::Replaced
    ));
}

#[test]
fn the_phone_reports_what_it_can_do() {
    let mut p = Pairing::new(&Settings::default(), 8443, &[]);
    let mut s = StreamStats::fresh();
    let mut c = stranger();
    let token = p.token.clone();
    handle_ws(&mut c, &mut p, &mut s, hello(&token), 1);
    let cam = |id: &str, a: Option<bool>| CamMsg {
        id: id.into(),
        label: format!("l-{id}"),
        available: a,
    };
    let m = SignalMsg { devices: Some(vec![cam("back", None)]), ..msg("cameras") };
    handle_ws(&mut c, &mut p, &mut s, m, 1);
    assert_eq!(s.cameras.len(), 1);
    let m = SignalMsg {
        device_id: Some("front".into()),
        label: Some("Front".into()),
        ..msg("camera")
    };
    handle_ws(&mut c, &mut p, &mut s, m, 1);
    assert_eq!(s.selected_camera, "front");
    assert_eq!(s.cameras.len(), 2);
    let m = SignalMsg {
        qualities: Some(vec![cam("720p60", Some(false))]),
        quality_id: Some("720p30".into()),
        ..msg("qualities")
    };
    assert!(matches!(handle_ws(&mut c, &mut p, &mut s, m, 1), SignalStep::Quality(_)));
    assert_eq!(s.selected_quality, "720p30");
    let q = s.qualities.iter().find(|q| q.id == "720p60").unwrap();
    assert_eq!(q.available, Avail::No);
    assert!(matches!(
        handle_ws(&mut c, &mut p, &mut s, msg("whatever"), 1),
        SignalStep::Ignore
    ));
}

#[test]
fn errors_and_goodbyes_have_words() {
    let e = error_reply(&SignalStep::HelloFirst).unwrap();
    assert_eq!(e.code, "hello-first");
    let e = error_reply(&SignalStep::Refused(AcceptError::Used)).unwrap();
    assert_eq!(e.code, "token-used");
    assert!(error_reply(&SignalStep::HelloOk).is_none());
    assert_eq!(answer_failed().code, "answer-failed");
    assert_eq!(ByeReason::Replaced.bye().0, "replaced");
    assert_eq!(ByeReason::NewSession.bye().0, "new-session");
    assert_eq!(
        listen_error(8443, "in use", false),
        "Cannot listen on port 8443: in use. Another app may be using it."
    );
    assert!(listen_error(1, "x", true).contains("Firewall"));
}

#[test]
fn a_phone_that_leaves_may_come_back() {
    let mut p = Pairing::new(&Settings::default(), 8443, &[]);
    let mut s = StreamStats::fresh();
    let mut c = stranger();
    let token = p.token.clone();
    handle_ws(&mut c, &mut p, &mut s, hello(&token), 7);
    let mut phone = Some(7);
    let step = closed(&c, &mut p, &mut phone, 1_000);
    assert!(step.ours);
    assert_eq!(phone, None);
    assert_eq!(step.grace, Some((0, 1_000 + TOKEN_GRACE)));
    assert!(!p.consumed);
    assert_eq!(p.phase, PairPhase::Waiting);
    assert!(grace_expired(&p, 0, 1_000 + TOKEN_GRACE));
    assert!(!grace_expired(&p, 0, 5));
    let mut again = stranger();
    assert!(matches!(
        handle_ws(&mut again, &mut p, &mut s, hello(&token), 8),
        SignalStep::Claimed
    ));
    assert!(!grace_expired(&p, 0, 1_000 + TOKEN_GRACE));
    let mut phone = Some(8);
    let late = closed(&c, &mut p, &mut phone, 2_000);
    assert!(!late.ours);
    assert_eq!(phone, Some(8));
    assert!(p.consumed);
}

#[test]
fn the_window_gives_commands() {
    let mut s = StreamStats::fresh();
    let mut v = PreviewControl::new();
    let mut cam = Vcam::new();
    match run(HostCmd::SelectQuality("720p30".into()), &mut s, &mut v, &mut cam, false) {
        CmdStep::Quality(id, FormatStep::Nothing) => assert_eq!(id, "720p30"),
        _ => panic!("refused"),
    }
    assert_eq!(v.camera_quality().id, "720p30");
    assert_eq!(cam.canvas(), (1280, 720));
    cam.on = true;
    assert!(matches!(
        run(HostCmd::SelectQuality("1080p30".into()), &mut s, &mut v, &mut cam, false),
        CmdStep::Blocked
    ));
    assert_eq!(s.selected_quality, "720p30");
    assert!(matches!(
        run(HostCmd::SelectQuality("720p60".into()), &mut s, &mut v, &mut cam, false),
        CmdStep::Quality(_, FormatStep::SetFps(60))
    ));
    assert!(matches!(
        run(HostCmd::SelectCamera("a".into()), &mut s, &mut v, &mut cam, true),
        CmdStep::Camera(_)
    ));
    assert_eq!(s.selected_camera, "a");
    assert!(matches!(
        run(HostCmd::CaptureLock, &mut s, &mut v, &mut cam, true),
        CmdStep::Lock
    ));
    assert!(matches!(
        run(HostCmd::NewSession, &mut s, &mut v, &mut cam, true),
        CmdStep::NewSession
    ));
    assert_eq!(
        apply_output_quality(&mut v, &mut cam, "nope"),
        FormatStep::Nothing
    );
    assert_eq!(v.camera_quality().id, "1080p30");
}

#[test]
fn the_phone_is_held_to_what_runs() {
    let q = quality_by_id("1080p30").unwrap();
    let l = capture_lock(false, false, &q);
    assert_eq!((l.width, l.height, l.max_fps), (None, None, None));
    let l = capture_lock(false, true, &q);
    assert_eq!((l.width, l.height, l.max_fps), (Some(1920), Some(1080), None));
    let l = capture_lock(true, false, &q);
    assert_eq!(l.max_fps, Some(30));
}

#[test]
fn the_stream_is_forgotten() {
    let mut slot = FrameSlot::default();
    let mut s = StreamStats::fresh();
    s.decoded = 9;
    let mut v = PreviewControl::new();
    v.record_on = true;
    let r = reset_media(&mut slot, &mut s, &mut v, true, true);
    assert!(r.waiting && r.stop_record && !v.record_on);
    assert_eq!(s.decoded, 0);
    assert_eq!(
        stop_notice(Some("a.mp4"), true).as_deref(),
        Some("Recording stopped — phone disconnected. Saved a.mp4")
    );
    assert_eq!(
        stop_notice(Some("a.mp4"), false).as_deref(),
        Some("Recording stopped — no video in the file yet.")
    );
    assert_eq!(stop_notice(None, true), None);
}
