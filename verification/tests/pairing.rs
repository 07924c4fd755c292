use pocketcam::pairing::{
    display_token, mint_token, normalize_token, token_of, AcceptError, PairPhase, Pairing,
};
use pocketcam::settings::{Adapter, Ipv4, Settings};

fn pairing() -> Pairing {
    Pairing {
        token: "ABCD2345".into(),
        url: String::new(),
        lan_ip: String::new(),
        nic_warning: None,
        consumed: false,
        phase: PairPhase::Waiting,
        generation: 0,
        grace_until: None,
    }
}

fn wifi() -> Vec<Adapter> {
    vec![Adapter { name: "Wi-Fi".into(), ip: Ipv4::new(192, 168, 1, 20) }]
}

#[test]
fn second_hello_is_used() {
    let mut p = pairing();
    p.accept_token("abcd 2345").unwrap();
    assert!(p.consumed);
    match p.accept_token("ABCD2345") {
        Err(AcceptError::Used) => {}
        other => panic!("{other:?}"),
    }
}

#[test]
fn unknown_token() {
    let mut p = pairing();
    match p.accept_token("ZZZZZZZZ") {
        Err(AcceptError::Unknown) => {}
        other => panic!("{other:?}"),
    }
}

#[test]
fn errors_have_codes_and_words() {
    assert_eq!(AcceptError::Unknown.code(), "unknown-token");
    assert_eq!(AcceptError::Used.code(), "token-used");
    assert_eq!(
        AcceptError::Unknown.message(),
        "That token does not match. Type the code shown on the PC."
    );
    assert!(AcceptError::Used.message().contains("New session"));
}

#[test]
fn tokens_are_eight_characters_that_do_not_look_alike() {
    for _ in 0..50 {
        let t = mint_token();
        assert_eq!(t.len(), 8);
        assert!(t.chars().all(|c| "23456789ABCDEFGHJKLMNPQRSTUVWXYZ".contains(c)));
    }
    let some: Vec<String> = (0..20).map(|_| mint_token()).collect();
    assert!(some.iter().any(|t| t != &some[0]));
    assert_eq!(token_of(&[0, 31, 8, 7, 1, 2, 3, 4]), "2ZA93456");
}

#[test]
fn tokens_are_read_as_they_are_typed() {
    assert_eq!(normalize_token(" ab-cd 2345\n"), "ABCD2345");
    assert_eq!(normalize_token("ÄB"), "B");
    assert_eq!(display_token("ABCD2345"), "ABCD  2345");
    assert_eq!(display_token("ABC"), "ABC");
    assert_eq!(normalize_token(&display_token("ABCD2345")), "ABCD2345");
}

#[test]
fn the_link_names_address_port_and_token() {
    let p = Pairing::new(&Settings::default(), 8443, &wifi());
    assert_eq!(p.lan_ip, "192.168.1.20");
    assert_eq!(p.url, format!("https://192.168.1.20:8443/connect/{}", p.token));
    assert!(p.nic_warning.is_none());
    assert_eq!(p.generation, 0);
}

#[test]
fn without_an_address_there_is_no_link() {
    let p = Pairing::new(&Settings::default(), 8443, &[]);
    assert_eq!(p.url, "");
    assert_eq!(p.lan_ip, "");
    assert_eq!(
        p.nic_warning.as_deref(),
        Some("No LAN IPv4. Pick an adapter after Wi-Fi is up.")
    );
}

#[test]
fn an_adapter_that_is_gone_is_warned_of() {
    let mut s = Settings::default();
    s.adapter = Some("Ethernet".into());
    let mut p = Pairing::new(&s, 8443, &wifi());
    assert_eq!(
        p.nic_warning.as_deref(),
        Some("Saved adapter is gone. QR uses Auto 192.168.1.20.")
    );
    let token = p.token.clone();
    s.adapter = Some("Wi-Fi".into());
    p.set_endpoint(&s, 9000, &wifi());
    assert!(p.nic_warning.is_none());
    assert_eq!(p.token, token);
    assert_eq!(p.url, format!("https://192.168.1.20:9000/connect/{token}"));
}

#[test]
fn another_token_is_good_once_more() {
    let mut p = Pairing::new(&Settings::default(), 8443, &wifi());
    let old = p.token.clone();
    p.accept_token(&old).unwrap();
    p.rotate(&Settings::default(), 8443, &wifi());
    assert_eq!(p.generation, 1);
    assert!(!p.consumed);
    let shown = display_token(&p.token);
    assert!(p.accept_token(&shown.to_lowercase()).is_ok());
}
