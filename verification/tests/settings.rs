use pocketcam::settings::{
    default_recordings_dir, ice_servers, is_virtual_adapter, is_virtual_lan, join, lan_ipv4s,
    list_adapters, user_dir, validate_recordings_dir, Adapter, Ipv4, Settings, DEFAULT_PORT,
    DEFAULT_STUN,
};

fn nic(name: &str, a: u8, b: u8, c: u8, d: u8) -> Adapter {
    Adapter { name: name.into(), ip: Ipv4::new(a, b, c, d) }
}

#[test]
fn auto_skips_docker_vbox_and_named_virtual_nics() {
    assert!(is_virtual_lan(Ipv4::new(172, 17, 0, 2)));
    assert!(is_virtual_lan(Ipv4::new(172, 18, 0, 1)));
    assert!(is_virtual_lan(Ipv4::new(192, 168, 56, 1)));
    assert!(!is_virtual_lan(Ipv4::new(192, 168, 1, 10)));
    assert!(is_virtual_adapter("vEthernet (WSL)", Ipv4::new(172, 22, 32, 1)));
    assert!(is_virtual_adapter("VMware Network Adapter VMnet8", Ipv4::new(192, 168, 79, 1)));
    assert!(!is_virtual_adapter("Wi-Fi", Ipv4::new(192, 168, 1, 20)));
}

#[test]
fn stun_defaults_off() {
    let s = Settings::load(None);
    assert!(!s.stun);
    assert_eq!(s.port, DEFAULT_PORT);
}

#[test]
fn no_port_is_the_default_port() {
    let mut s = Settings::default();
    s.port = 0;
    let s = Settings::load(Some(s));
    assert_eq!(s.port, 8443);
    let mut s = Settings::default();
    s.port = 9000;
    s.clamp_port();
    assert_eq!(s.port, 9000);
}

#[test]
fn auto_takes_the_first_adapter_that_is_real() {
    let nics = vec![
        nic("Bluetooth", 10, 0, 0, 9),
        nic("vEthernet (WSL)", 172, 22, 32, 1),
        nic("Wi-Fi", 192, 168, 1, 20),
        nic("Ethernet", 10, 0, 0, 2),
    ];
    let mut s = Settings::default();
    assert_eq!(s.resolve_lan(&nics), Some(Ipv4::new(192, 168, 1, 20)));
    s.adapter = Some("Ethernet".into());
    assert_eq!(s.resolve_lan(&nics), Some(Ipv4::new(10, 0, 0, 2)));
    s.adapter = Some("gone".into());
    assert_eq!(s.resolve_lan(&nics), Some(Ipv4::new(192, 168, 1, 20)));
    assert_eq!(s.resolve_lan(&nics[..2]), None);
}

#[test]
fn addresses_are_listed_once_and_in_order() {
    let found = vec![
        nic("b", 192, 168, 1, 20),
        nic("lo", 127, 0, 0, 1),
        nic("a", 10, 0, 0, 2),
        nic("c", 192, 168, 1, 20),
        nic("l", 169, 254, 1, 1),
        nic("m", 224, 0, 0, 1),
    ];
    assert_eq!(
        lan_ipv4s(&found),
        vec![Ipv4::new(10, 0, 0, 2), Ipv4::new(192, 168, 1, 20)]
    );
    let names: Vec<String> = list_adapters(&found).into_iter().map(|a| a.name).collect();
    assert_eq!(names, vec!["a", "b", "c"]);
    assert_eq!(Ipv4::new(10, 0, 0, 2).to_text(), "10.0.0.2");
    assert!(!Ipv4::new(169, 254, 1, 1).is_on_lan());
}

#[test]
fn folders() {
    assert_eq!(user_dir(Some("C:\\Users\\x\\AppData\\Local")), "C:\\Users\\x\\AppData\\Local\\PocketCam");
    assert_eq!(user_dir(None), ".\\PocketCam");
    assert_eq!(Settings::path(Some("C:\\d")), "C:\\d\\PocketCam\\settings.json");
    assert_eq!(join("C:\\d\\", "e"), "C:\\d\\e");
    assert_eq!(join("", "e"), "e");
    assert_eq!(default_recordings_dir(Some("C:\\Users\\x")), "C:\\Users\\x\\Videos\\PocketCam");
    assert_eq!(validate_recordings_dir("  "), None);
    assert_eq!(validate_recordings_dir(" D:\\cam "), Some("D:\\cam".to_string()));
    let mut s = Settings::default();
    assert_eq!(s.recordings_dir(Some("C:\\u")), "C:\\u\\Videos\\PocketCam");
    s.recordings = Some(" D:\\cam".into());
    assert_eq!(s.recordings_dir(Some("C:\\u")), "D:\\cam");
}

#[test]
fn stun_is_one_server_or_none() {
    assert!(ice_servers(false).is_empty());
    assert_eq!(ice_servers(true), vec![DEFAULT_STUN.to_string()]);
}
