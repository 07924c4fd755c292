use pocketcam::health::{any_profile_on, parse_rule, Action, FirewallProbe, FirewallState};

const EXE: &str = "C:\\Program Files\\PocketCam\\pocketcam.exe";

fn probe(profiles: Vec<Option<u32>>, rules: Option<Vec<&str>>) -> FirewallProbe {
    FirewallProbe {
        profiles,
        exe: Some(EXE.into()),
        exe_name: Some("pocketcam.exe".into()),
        rules: rules.map(|r| r.into_iter().map(String::from).collect()),
    }
}

#[test]
fn parses_app_allow_all_ports() {
    let r = parse_rule(
        "v2.32|Action=Allow|Active=TRUE|Dir=In|Protocol=6|App=C:\\Program Files\\PocketCam\\pocketcam.exe|Name=PocketCam HTTPS|",
    );
    assert!(r.active && r.inbound && r.any_port);
    assert_eq!(r.action, Action::Allow);
    assert!(r.app.unwrap().contains("pocketcam.exe"));
}

#[test]
fn parses_port_rule() {
    let r = parse_rule("v2.10|Action=Allow|Active=TRUE|Dir=In|Protocol=6|LPort=8443|Name=x|");
    assert!(!r.any_port);
    assert_eq!(r.ports, vec![8443]);
    assert!(r.app.is_none());
}

#[test]
fn rules_let_in_what_they_name() {
    let on = vec![Some(1), None, Some(0)];
    let rule = "v2.10|Action=Allow|Active=TRUE|Dir=In|Protocol=6|LPort=8443|Name=x|";
    assert_eq!(
        FirewallState::inbound_tcp(8443, &probe(on.clone(), Some(vec![rule]))),
        FirewallState::Allowed
    );
    assert_eq!(
        FirewallState::inbound_tcp(8444, &probe(on.clone(), Some(vec![rule]))),
        FirewallState::Unknown
    );
    for bad in [
        "v2.10|Action=Block|Active=TRUE|Dir=In|Protocol=6|LPort=8443|",
        "v2.10|Action=Allow|Active=FALSE|Dir=In|Protocol=6|LPort=8443|",
        "v2.10|Action=Allow|Active=TRUE|Dir=Out|Protocol=6|LPort=8443|",
        "v2.10|Action=Allow|Active=TRUE|Dir=In|Protocol=17|LPort=8443|",
    ] {
        assert_eq!(
            FirewallState::inbound_tcp(8443, &probe(on.clone(), Some(vec![bad]))),
            FirewallState::Unknown,
            "{bad}"
        );
    }
    let app = "v2.32|Action=Allow|Active=TRUE|Dir=In|Protocol=6|App=c:\\program files\\pocketcam\\POCKETCAM.EXE|";
    assert_eq!(
        FirewallState::inbound_tcp(8443, &probe(on.clone(), Some(vec![app]))),
        FirewallState::Allowed
    );
    let more = vec!["v2.10|Action=Block|Active=TRUE|Dir=In|", rule];
    assert_eq!(
        FirewallState::inbound_tcp(8443, &probe(on, Some(more))),
        FirewallState::Allowed
    );
}

#[test]
fn a_firewall_that_is_off_lets_all_in() {
    assert!(!any_profile_on(&[Some(0), Some(0)]));
    assert!(any_profile_on(&[Some(0), Some(1)]));
    assert_eq!(
        FirewallState::inbound_tcp(8443, &probe(vec![Some(0), Some(0)], None)),
        FirewallState::Allowed
    );
    assert_eq!(
        FirewallState::inbound_tcp(8443, &probe(vec![Some(1)], None)),
        FirewallState::Unknown
    );
}
