use pocketcam::float::Single;
use pocketcam::health::FirewallProbe;
use pocketcam::host::{
    claim, dispatch_cmd, icon_due, notice_balloon, popup_menu, tray_wndproc, write_utf16,
    ClaimStep, MenuRow, TrayCmd, TraySnap, TrayStep, SHOW_TRIES, WM_COMMAND, WM_DESTROY,
    WM_LBUTTONUP, WM_RBUTTONUP, WM_TIMER, WM_TRAY, WM_TRAY_MENU,
};
use pocketcam::icon::TrayTint;
use pocketcam::shared::Shared;

const MS: u64 = 1_000_000;

fn shared() -> Shared {
    let probe =
        FirewallProbe { profiles: vec![], exe: None, exe_name: None, rules: None };
    Shared::new(None, &[], &probe)
}

#[test]
fn messages_lead_to_steps() {
    assert_eq!(tray_wndproc(WM_TRAY, 0, WM_LBUTTONUP as u64), TrayStep::Cmd(TrayCmd::Show));
    assert_eq!(tray_wndproc(WM_TRAY, 0, WM_RBUTTONUP as u64), TrayStep::AskMenu);
    assert_eq!(tray_wndproc(WM_TRAY, 0, 0x0200), TrayStep::Nothing);
    assert_eq!(tray_wndproc(WM_TRAY_MENU, 0, 0), TrayStep::Menu);
    assert_eq!(tray_wndproc(WM_COMMAND, 0x7_0002, 0), TrayStep::Cmd(TrayCmd::Exit));
    assert_eq!(tray_wndproc(WM_COMMAND, 99, 0), TrayStep::Nothing);
    assert_eq!(tray_wndproc(WM_TIMER, 1, 0), TrayStep::Refresh);
    assert_eq!(tray_wndproc(WM_TIMER, 2, 0), TrayStep::Nothing);
    assert_eq!(tray_wndproc(0x8006, 0, 0), TrayStep::Balloon);
    assert_eq!(tray_wndproc(0x001A, 0, 0), TrayStep::Theme);
    assert_eq!(tray_wndproc(WM_DESTROY, 0, 0), TrayStep::Quit);
    assert_eq!(tray_wndproc(0x000F, 0, 0), TrayStep::Default);
    assert_eq!(dispatch_cmd(3), Some(TrayCmd::ToggleVcam));
    assert_eq!(dispatch_cmd(0), None);
}

#[test]
fn the_icon_shows_what_runs() {
    let s = TraySnap::capture(None, 0);
    assert_eq!((s.status_line.as_str(), s.tip.as_str()), ("Starting…", "PocketCam"));
    assert_eq!(s.tint, TrayTint::Idle);

    let mut sh = shared();
    let s = TraySnap::capture(Some(&sh), 0);
    assert_eq!(s.status_line, "1080p 30  ·  idle");
    assert_eq!(s.tint, TrayTint::Idle);

    sh.record.start("C:\\v\\pocketcam-1.mp4".into()).unwrap();
    let s = TraySnap::capture(Some(&sh), 0);
    assert_eq!(s.status_line, "1080p 30  ·  waiting");
    assert_eq!(s.tip, "PocketCam · rec");
    assert_eq!(s.rec_file.as_deref(), Some("pocketcam-1.mp4"));
    assert_eq!(s.tint, TrayTint::Bad);

    sh.vcam.on = true;
    sh.stats.last_frame = Some(1_000 * MS);
    sh.stats.fps = Single { bits: 29.7f32.to_bits() };
    let s = TraySnap::capture(Some(&sh), 1_100 * MS);
    assert_eq!(s.status_line, "1080p 30  ·  30 fps");
    assert_eq!(s.tip, "PocketCam · 30/30 fps · vcam · rec");
    assert_eq!(s.tint, TrayTint::Good);
    let s = TraySnap::capture(Some(&sh), 2_501 * MS);
    assert_eq!(s.tint, TrayTint::Bad);
    sh.record.stop();
    assert_eq!(TraySnap::capture(Some(&sh), 0).rec_file, None);
    for (path, name) in [
        ("D:pocketcam-2.mp4", "pocketcam-2.mp4"),
        ("D:v/pocketcam-2.mp4", "pocketcam-2.mp4"),
        ("pocketcam-2.mp4", "pocketcam-2.mp4"),
        ("v\\d:2", "d:2"),
    ] {
        sh.record.start(path.into()).unwrap();
        assert_eq!(TraySnap::capture(Some(&sh), 0).rec_file.as_deref(), Some(name));
        sh.record.stop();
    }
}

#[test]
fn the_menu_offers_what_can_be_done() {
    let mut sh = shared();
    let rows = popup_menu(&TraySnap::capture(Some(&sh), 0));
    assert_eq!(rows.len(), 7);
    sh.record.start("a/b.mp4".into()).unwrap();
    let rows = popup_menu(&TraySnap::capture(Some(&sh), 0));
    assert_eq!(rows.len(), 8);
    for row in &rows {
        if let MenuRow::Row { id, grey, .. } = row {
            assert_eq!(dispatch_cmd(*id).is_some(), !grey);
        }
    }
    match &rows[4] {
        MenuRow::Row { text, checked, .. } => assert!(text == "Record" && *checked),
        MenuRow::Line => panic!("a line"),
    }
    match &rows[5] {
        MenuRow::Row { text, grey, .. } => assert!(text == "b.mp4" && *grey),
        MenuRow::Line => panic!("a line"),
    }
}

#[test]
fn a_second_start_asks_the_first() {
    assert_eq!(claim(1, true), ClaimStep::Asked);
    assert_eq!(claim(1, false), ClaimStep::Wait);
    assert_eq!(claim(SHOW_TRIES, false), ClaimStep::Tell);
}

#[test]
fn icons_are_drawn_when_the_tint_changes() {
    assert!(icon_due(false, TrayTint::Idle, None));
    assert!(!icon_due(false, TrayTint::Idle, Some(TrayTint::Idle)));
    assert!(icon_due(true, TrayTint::Idle, Some(TrayTint::Idle)));
    assert!(icon_due(false, TrayTint::Bad, Some(TrayTint::Idle)));
    assert_eq!(notice_balloon(true, "x failed"), None);
    assert_eq!(notice_balloon(false, "Record failed: x"), Some(true));
    assert_eq!(notice_balloon(false, "Saved a"), Some(false));
}

#[test]
fn texts_are_cut_to_their_buffer() {
    let mut b = [9u16; 6];
    write_utf16(&mut b, "ab");
    assert_eq!(b, [97, 98, 0, 0, 0, 0]);
    write_utf16(&mut b, "a·😀xyz");
    let want: Vec<u16> = "a·😀xyz".encode_utf16().collect();
    assert_eq!(&b[..], &want[..6]);
}
