use pocketcam::health::FirewallProbe;
use pocketcam::pairing::PairPhase;
use pocketcam::panel::{
    adapter_combo, adapter_label, adapter_row, camera_combo, cert_stale, fps_combo, mode_label,
    no_qr, phase_chip, pick_quality, port_help, port_note, preview_hint, preview_off_overlay,
    quality_hint, quality_items, quality_shown, record_hover, resolution_combo, settings_window,
    token_note, waiting_overlay, Hue, Pick,
};
use pocketcam::preview::{Avail, CameraItem, PreviewEncoding};
use pocketcam::settings::{Adapter, Ipv4, Settings};
use pocketcam::shared::Shared;

fn shared() -> Shared {
    let probe = FirewallProbe { profiles: vec![], exe: None, exe_name: None, rules: None };
    Shared::new(None, &[], &probe)
}

#[test]
fn pairing_has_a_label_and_a_note() {
    assert_eq!(phase_chip(PairPhase::Waiting, true, true).1, Hue::Danger);
    assert_eq!(phase_chip(PairPhase::Waiting, false, true).0, "Waiting — same token");
    assert_eq!(phase_chip(PairPhase::Waiting, false, false), ("Waiting for phone", Hue::Accent));
    assert_eq!(phase_chip(PairPhase::Connecting, true, false), ("Connecting", Hue::Warn));
    assert_eq!(phase_chip(PairPhase::Live, true, false), ("Live", Hue::Live));
    assert_eq!(token_note(true, PairPhase::Live, None).0, "In use by the phone");
    assert_eq!(
        token_note(true, PairPhase::Waiting, None).0,
        "Used — New session for another phone"
    );
    assert_eq!(
        token_note(false, PairPhase::Waiting, Some(61)).0,
        "Phone left. Same token ~2 min."
    );
    assert_eq!(
        token_note(false, PairPhase::Waiting, Some(60)).0,
        "Phone left. Same token ~1 min."
    );
    assert_eq!(token_note(false, PairPhase::Waiting, None), (String::new(), Hue::Muted));
    assert_eq!(
        token_note(false, PairPhase::Live, None).0,
        "Type this if the QR did not open"
    );
}

#[test]
fn hints_say_what_the_preview_does() {
    let mut sh = shared();
    assert_eq!(preview_hint(&sh), "Auto: 720p 30. GPU contain-fit. Phone stream stays native.");
    assert_eq!(mode_label(&sh), "Preview Auto");
    sh.preview.vcam_on = true;
    assert_eq!(preview_hint(&sh), "Preview off. Decode still feeds the virtual camera.");
    assert_eq!(mode_label(&sh), "Preview Auto · off");
    sh.preview.set_keep_rgb(true);
    assert_eq!(preview_hint(&sh), "Keep is on — RGB preview will not auto-off.");
    let mut sh = shared();
    sh.preview.set_encoding(PreviewEncoding::Off);
    assert_eq!(preview_hint(&sh), "Preview off. Decode is off.");
    sh.record.start("a".into()).unwrap();
    assert_eq!(preview_hint(&sh), "Preview off. Recording native H.264 — decode is off.");
    sh.preview.set_encoding(PreviewEncoding::P1080_60);
    assert_eq!(
        preview_hint(&sh),
        format!(
            "Preview {} (long edge ≤ 1920), 60 fps. GPU contain-fit.",
            PreviewEncoding::P1080_60.label()
        )
    );
    sh.preview.set_encoding(PreviewEncoding::Native);
    assert!(preview_hint(&sh).starts_with("Native Rec.709"));
    assert!(preview_off_overlay(true, true, true).contains("virtual camera"));
    assert!(preview_off_overlay(true, false, true).contains("Recording"));
    assert!(preview_off_overlay(true, false, false).contains("toolbar"));
    assert!(preview_off_overlay(false, true, true).starts_with("Waiting"));
}

#[test]
fn hints_say_what_the_quality_costs() {
    let mut sh = shared();
    assert!(quality_hint(&sh).starts_with("Phone, recording"));
    sh.stats.selected_quality = "2160p60".into();
    assert!(quality_hint(&sh).starts_with("4K"));
    sh.stats.selected_quality = "1440p30".into();
    assert!(quality_hint(&sh).starts_with("1440p"));
    sh.stats.selected_quality = "720p60".into();
    assert!(quality_hint(&sh).starts_with("60 fps"));
    sh.vcam.on = true;
    assert!(quality_hint(&sh).starts_with("Virtual camera is on"));
    sh.record.start("a".into()).unwrap();
    assert!(quality_hint(&sh).starts_with("Recording"));
}

#[test]
fn the_code_has_a_stand_in() {
    assert_eq!(no_qr(true, true), "No QR until HTTPS is listening");
    assert_eq!(no_qr(false, true), "No QR until there is a LAN IPv4");
    assert_eq!(no_qr(false, false), "QR is generating…");
    assert_eq!(waiting_overlay(true).1, Hue::Warn);
    assert_eq!(waiting_overlay(false).0, "Scan this QR, or type the token on the phone");
    let names = vec!["localhost".to_string(), "10.0.0.2".to_string()];
    assert!(cert_stale("10.0.0.3", &names));
    assert!(!cert_stale("10.0.0.2", &names));
    assert!(!cert_stale("", &names));
    assert!(!cert_stale("10.0.0.3", &[]));
}

#[test]
fn adapters_are_named_with_their_address() {
    let nics = vec![Adapter { name: "Wi-Fi".into(), ip: Ipv4::new(192, 168, 1, 20) }];
    let mut s = Settings::default();
    assert_eq!(adapter_label(&s, &nics), "Auto  192.168.1.20");
    assert_eq!(adapter_label(&s, &[]), "Auto  (no LAN IPv4)");
    s.adapter = Some("Wi-Fi".into());
    assert_eq!(adapter_label(&s, &nics), "Wi-Fi  192.168.1.20");
    assert_eq!(adapter_label(&s, &[]), "Wi-Fi (not found)");
    assert_eq!(adapter_row(&nics[0]), "Wi-Fi  192.168.1.20");
    assert_eq!(adapter_combo("Settings saved.".into()), "QR updated for this adapter.");
    assert_eq!(adapter_combo("x".into()), "x");
    assert_eq!(settings_window("Settings saved.".into()), None);
    assert_eq!(settings_window("x".into()).as_deref(), Some("x"));
    assert_eq!(
        port_note(8443, 9000).as_deref(),
        Some("Still listening on 8443. Exit to use 9000.")
    );
    assert_eq!(port_note(8443, 8443), None);
    assert_eq!(
        port_help(8443, 9000).as_deref(),
        Some("Listening on 8443. Exit to use 9000.")
    );
    assert!(record_hover(true, "d", None).starts_with("Stop"));
    assert!(record_hover(false, "d", Some("f")).ends_with("Last file: f"));
    assert!(record_hover(false, "d", None).starts_with("Muxes the phone H.264 into d."));
}

#[test]
fn lists_offer_what_may_be_chosen() {
    let mut sh = shared();
    let rows = resolution_combo(&sh);
    assert_eq!(rows.len(), 5);
    assert_eq!(rows[2].label, "1080p — recommended");
    assert!(rows[2].selected && matches!(rows[2].pick, Pick::Nothing));
    match &rows[1].pick {
        Pick::Select(id) => assert_eq!(id, "720p30"),
        _ => panic!("not offered"),
    }
    assert_eq!(rows[1].avail, Avail::Unknown);
    sh.record.start("a".into()).unwrap();
    let rows = resolution_combo(&sh);
    assert!(matches!(
        rows[1].pick,
        Pick::Locked("Recording: size is locked. You can only drop fps.")
    ));
    assert_eq!(rows[1].avail, Avail::No);
    let rates = fps_combo(&sh);
    assert_eq!(rates.len(), 6);
    assert!(matches!(rates[5].pick, Pick::Locked(_)), "faster");
    assert!(matches!(&rates[0].pick, Pick::Select(id) if id == "1080p15"), "slower");
    assert!(rates[3].selected);
    let ((label, a), (fps, b)) = quality_shown(&sh);
    assert_eq!((label, a, fps, b), ("1080p", Avail::Unknown, 30, Avail::Unknown));
    assert_eq!(pick_quality(720, 60), "720p60");
    assert_eq!(pick_quality(720, 7), "720p30");
    assert_eq!(quality_items(&sh.stats).len(), 30);
    sh.stats.qualities.clear();
    assert_eq!(quality_items(&sh.stats).len(), 30);
}

#[test]
fn cameras_are_chosen_by_name() {
    let mut sh = shared();
    assert_eq!(camera_combo(&sh.stats), "No cameras yet");
    sh.stats.cameras.push(CameraItem {
        id: "a".into(),
        label: "Back".into(),
        available: Avail::Yes,
    });
    assert_eq!(camera_combo(&sh.stats), "Select…");
    sh.stats.selected_camera = "a".into();
    assert_eq!(camera_combo(&sh.stats), "Back");
}
