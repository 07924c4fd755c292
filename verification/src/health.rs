//! Whether the firewall lets phones in, as far as its rules tell.

use crate::settings::string_view;
use crate::text::{
    char_at, char_at_bounds, chars, find_char, is_text, lower, lower_char, lower_chars, lower_of,
    parse_number, parsed_number, same_chars, same_in_any_case, slice, tail, tail_of, text,
};
use vstd::prelude::*;
use vstd::string::*;

verus! {

/// Whether phones can come in.
#[derive(Clone, Copy, Debug, PartialEq, Eq, Structural)]
pub enum FirewallState {
    /// A rule lets this program or this port in, or the firewall is off.
    Allowed,
    /// The firewall is on, and no rule is known to let phones in.
    Unknown,
}

/// What a rule does with what it matches.
#[derive(Clone, Copy, Debug, PartialEq, Eq, Structural)]
pub enum Action {
    Allow,
    Other,
}

/// A firewall rule, as far as it matters.
pub struct Rule {
    pub active: bool,
    pub inbound: bool,
    pub action: Action,
    /// The rule matches TCP.
    pub tcp_ok: bool,
    pub any_port: bool,
    pub ports: Vec<u16>,
    /// The program that it is for, any where there is none.
    pub app: Option<String>,
}

/// What a rule says.
pub ghost struct RuleModel {
    pub active: bool,
    pub inbound: bool,
    pub action: Action,
    pub tcp_ok: bool,
    pub any_port: bool,
    pub ports: Seq<u16>,
    pub app: Option<Seq<char>>,
}

impl View for Rule {
    type V = RuleModel;

    open spec fn view(&self) -> RuleModel {
        RuleModel {
            active: self.active,
            inbound: self.inbound,
            action: self.action,
            tcp_ok: self.tcp_ok,
            any_port: self.any_port,
            ports: self.ports@,
            app: string_view(self.app),
        }
    }
}

/// A path in lower case, with backslashes alone.
pub open spec fn normal_path(p: Seq<char>) -> Seq<char> {
    Seq::new(
        p.len(),
        |i: int|
            if p[i] == '/' {
                '\\'
            } else {
                lower_of(p[i])
            },
    )
}

/// A path in lower case, with backslashes alone.
pub fn normalize_path(p: &[char]) -> (r: Vec<char>)
    ensures
        r@ == normal_path(p@),
{
    let mut r: Vec<char> = Vec::new();
    let mut i: usize = 0;
    while i < p.len()
        invariant
            i <= p@.len(),
            r@.len() == i,
            forall|k: int| 0 <= k < i ==> r@[k] == normal_path(p@)[k],
        decreases p@.len() - i,
    {
        r.push(
            if p[i] == '/' {
                '\\'
            } else {
                lower_char(p[i])
            },
        );
        i += 1;
    }
    assert(r@ =~= normal_path(p@));
    r
}

/// A rule that says nothing.
pub open spec fn blank_rule() -> RuleModel {
    RuleModel {
        active: false,
        inbound: false,
        action: Action::Other,
        tcp_ok: true,
        any_port: true,
        ports: Seq::empty(),
        app: None,
    }
}

impl RuleModel {
    /// With what a key and its value say.
    pub open spec fn with_pair(self, k: Seq<char>, v: Seq<char>) -> RuleModel {
        if k == "Active"@ {
            RuleModel { active: lower(v) == lower("TRUE"@), ..self }
        } else if k == "Dir"@ {
            RuleModel { inbound: lower(v) == lower("In"@), ..self }
        } else if k == "Action"@ {
            RuleModel {
                action: if lower(v) == lower("Allow"@) {
                    Action::Allow
                } else {
                    Action::Other
                },
                ..self
            }
        } else if k == "Protocol"@ {
            RuleModel { tcp_ok: v.len() == 0 || v == "*"@ || v == "6"@, ..self }
        } else if k == "LPort"@ {
            RuleModel {
                any_port: v == "*"@,
                ports: match parsed_number(v, 65535) {
                    Some(p) => if v == "*"@ {
                        self.ports
                    } else {
                        self.ports.push(p as u16)
                    },
                    None => self.ports,
                },
                ..self
            }
        } else if k == "App"@ {
            RuleModel {
                app: if v != "*"@ && v.len() > 0 {
                    Some(normal_path(v))
                } else {
                    self.app
                },
                ..self
            }
        } else {
            self
        }
    }

    /// With what a part says: a key, an equals sign and a value, or nothing.
    pub open spec fn with_part(self, part: Seq<char>) -> RuleModel {
        let i = char_at(part, '=', 0);
        if i >= part.len() {
            self
        } else {
            self.with_pair(part.subrange(0, i), part.subrange(i + 1, part.len() as int))
        }
    }

    /// With what the parts from `from` on say, each up to a bar.
    pub open spec fn with_parts(self, raw: Seq<char>, from: int) -> RuleModel
        decreases raw.len() + 1 - from,
    {
        if from < 0 || from > raw.len() {
            self
        } else {
            proof {
                char_at_bounds(raw, '|', from);
            }
            let end = char_at(raw, '|', from);
            self.with_part(raw.subrange(from, end)).with_parts(raw, end + 1)
        }
    }

    /// True of a rule that lets TCP in on a port, for this program.
    pub open spec fn lets_in(self, port: u16, exe: Option<Seq<char>>, name: Option<Seq<char>>) -> bool {
        &&& self.active && self.inbound && self.action == Action::Allow && self.tcp_ok
        &&& self.any_port || self.ports.contains(port)
        &&& match self.app {
            None => true,
            Some(app) => exe == Some(app) || name == Some(
                tail_of(app, '\\', '/', app.len() as int),
            ),
        }
    }
}

fn apply_pair(rule: &mut Rule, k: &[char], v: &[char])
    ensures
        final(rule)@ == old(rule)@.with_pair(k@, v@),
{
    if is_text(k, "Active") {
        rule.active = same_in_any_case(v, "TRUE");
    } else if is_text(k, "Dir") {
        rule.inbound = same_in_any_case(v, "In");
    } else if is_text(k, "Action") {
        rule.action = if same_in_any_case(v, "Allow") {
            Action::Allow
        } else {
            Action::Other
        };
    } else if is_text(k, "Protocol") {
        rule.tcp_ok = v.is_empty() || is_text(v, "*") || is_text(v, "6");
    } else if is_text(k, "LPort") {
        rule.any_port = false;
        if is_text(v, "*") {
            rule.any_port = true;
        } else if let Some(p) = parse_number(v, 65535) {
            rule.ports.push(p as u16);
        }
    } else if is_text(k, "App") {
        if !is_text(v, "*") && !v.is_empty() {
            let n: Vec<char> = normalize_path(v);
            rule.app = Some(text(n.as_slice()));
        }
    }
}

/// Reads a rule as the registry holds it: keys and values between bars.
pub fn parse_rule(raw: &str) -> (r: Rule)
    ensures
        r@ == blank_rule().with_parts(raw@, 0),
{
    let c: Vec<char> = chars(raw);
    let mut rule: Rule = Rule {
        active: false,
        inbound: false,
        action: Action::Other,
        tcp_ok: true,
        any_port: true,
        ports: Vec::new(),
        app: None,
    };
    assert(rule@.ports =~= Seq::empty());
    let mut from: usize = 0;
    loop
        invariant
            c@ == raw@,
            from <= c@.len(),
            blank_rule().with_parts(c@, 0) == rule@.with_parts(c@, from as int),
        decreases c@.len() - from,
    {
        let end: usize = find_char(c.as_slice(), '|', from);
        let part: Vec<char> = slice(c.as_slice(), from, end);
        let i: usize = find_char(part.as_slice(), '=', 0);
        let ghost before = rule@;
        if i < part.len() {
            let k: Vec<char> = slice(part.as_slice(), 0, i);
            let v: Vec<char> = slice(part.as_slice(), i + 1, part.len());
            apply_pair(&mut rule, k.as_slice(), v.as_slice());
        }
        assert(rule@ == before.with_part(part@));
        if end == c.len() {
            assert(rule@.with_parts(c@, (c@.len() + 1) as int) == rule@);
            return rule;
        }
        from = end + 1;
    }
}

fn has_port(ports: &Vec<u16>, port: u16) -> (r: bool)
    ensures
        r == ports@.contains(port),
{
    let mut i: usize = 0;
    while i < ports.len()
        invariant
            i <= ports@.len(),
            forall|k: int| 0 <= k < i ==> ports@[k] != port,
        decreases ports@.len() - i,
    {
        if ports[i] == port {
            assert(ports@[i as int] == port);
            return true;
        }
        i += 1;
    }
    false
}

/// The views of a list of raw rules.
pub open spec fn raws_view(v: Seq<String>) -> Seq<Seq<char>> {
    v.map_values(|s: String| s@)
}

/// True where one of the rules lets TCP in on a port, for this program.
pub open spec fn some_rule_lets_in(
    rules: Seq<Seq<char>>,
    port: u16,
    exe: Option<Seq<char>>,
    name: Option<Seq<char>>,
) -> bool {
    exists|i: int|
        0 <= i < rules.len() && blank_rule().with_parts(#[trigger] rules[i], 0).lets_in(
            port,
            exe,
            name,
        )
}

/// What was found out about the firewall.
pub struct FirewallProbe {
    /// The switch of each profile, where it could be read.
    pub profiles: Vec<Option<u32>>,
    /// This program's path.
    pub exe: Option<String>,
    /// This program's file name.
    pub exe_name: Option<String>,
    /// The rules, where they could be read.
    pub rules: Option<Vec<String>>,
}

/// True where a profile is on, or none could be read.
pub open spec fn firewall_on(profiles: Seq<Option<u32>>) -> bool {
    ||| exists|i: int|
        0 <= i < profiles.len() && (#[trigger] profiles[i]) is Some && profiles[i]->0 != 0
    ||| forall|i: int| 0 <= i < profiles.len() ==> (#[trigger] profiles[i]) is None
}

/// True where a profile is on, or none could be read.
pub fn any_profile_on(profiles: &[Option<u32>]) -> (r: bool)
    ensures
        r == firewall_on(profiles@),
{
    let mut saw: bool = false;
    let mut i: usize = 0;
    while i < profiles.len()
        invariant
            i <= profiles@.len(),
            saw == exists|k: int| 0 <= k < i && (#[trigger] profiles@[k]) is Some,
            forall|k: int|
                0 <= k < i ==> (#[trigger] profiles@[k]) is None || profiles@[k]->0 == 0,
        decreases profiles@.len() - i,
    {
        if let Some(v) = profiles[i] {
            saw = true;
            assert(profiles@[i as int] is Some);
            if v != 0 {
                return true;
            }
        }
        i += 1;
    }
    !saw
}

/// This program's path as rules are compared with it.
pub open spec fn own_path(exe: Option<Seq<char>>) -> Option<Seq<char>> {
    match exe {
        Some(p) => Some(normal_path(p)),
        None => None,
    }
}

/// This program's name as rules are compared with it.
pub open spec fn own_name(name: Option<Seq<char>>) -> Option<Seq<char>> {
    match name {
        Some(n) => Some(lower(n)),
        None => None,
    }
}

/// The view of characters that may be missing.
spec fn chars_view(v: Option<Vec<char>>) -> Option<Seq<char>> {
    match v {
        Some(c) => Some(c@),
        None => None,
    }
}

/// True where TCP is let in on a port, for this program.
fn inbound_allowed(
    rules: &Vec<String>,
    port: u16,
    exe: &Option<String>,
    exe_name: &Option<String>,
) -> (r: bool)
    ensures
        r == some_rule_lets_in(
            raws_view(rules@),
            port,
            own_path(string_view(*exe)),
            own_name(string_view(*exe_name)),
        ),
{
    let path: Option<Vec<char>> = match exe {
        Some(p) => {
            let c: Vec<char> = chars(p.as_str());
            Some(normalize_path(c.as_slice()))
        },
        None => None,
    };
    let name: Option<Vec<char>> = match exe_name {
        Some(n) => {
            let c: Vec<char> = chars(n.as_str());
            Some(lower_chars(c.as_slice()))
        },
        None => None,
    };
    let ghost p = chars_view(path);
    let ghost n = chars_view(name);
    let mut i: usize = 0;
    while i < rules.len()
        invariant
            i <= rules@.len(),
            p == chars_view(path),
            n == chars_view(name),
            p == own_path(string_view(*exe)),
            n == own_name(string_view(*exe_name)),
            forall|k: int|
                0 <= k < i ==> !blank_rule().with_parts(
                    #[trigger] raws_view(rules@)[k],
                    0,
                ).lets_in(port, p, n),
        decreases rules@.len() - i,
    {
        let rule: Rule = parse_rule(rules[i].as_str());
        assert(raws_view(rules@)[i as int] == rules@[i as int]@);
        if rule.active && rule.inbound && rule.action == Action::Allow && rule.tcp_ok && (
        rule.any_port || has_port(&rule.ports, port)) {
            let app_ok: bool = match &rule.app {
                None => true,
                Some(app) => {
                    let a: Vec<char> = chars(app.as_str());
                    let same_path: bool = match &path {
                        Some(v) => same_chars(a.as_slice(), v.as_slice()),
                        None => false,
                    };
                    let same_name: bool = match &name {
                        Some(v) => {
                            let t: Vec<char> = tail(a.as_slice(), '\\', '/');
                            same_chars(t.as_slice(), v.as_slice())
                        },
                        None => false,
                    };
                    same_path || same_name
                },
            };
            if app_ok {
                assert(blank_rule().with_parts(raws_view(rules@)[i as int], 0).lets_in(
                    port,
                    p,
                    n,
                ));
                return true;
            }
        }
        i += 1;
    }
    false
}

/// Whether phones can come in on a port, by what was found out.
pub open spec fn probed(port: u16, probe: FirewallProbe) -> FirewallState {
    if !firewall_on(probe.profiles@) {
        FirewallState::Allowed
    } else {
        match probe.rules {
            Some(rules) => if some_rule_lets_in(
                raws_view(rules@),
                port,
                own_path(string_view(probe.exe)),
                own_name(string_view(probe.exe_name)),
            ) {
                FirewallState::Allowed
            } else {
                FirewallState::Unknown
            },
            None => FirewallState::Unknown,
        }
    }
}

impl FirewallState {
    /// Whether phones can come in on a port, by what was found out.
    pub fn inbound_tcp(port: u16, probe: &FirewallProbe) -> (r: FirewallState)
        ensures
            r == probed(port, *probe),
    {
        if !any_profile_on(probe.profiles.as_slice()) {
            return FirewallState::Allowed;
        }
        match &probe.rules {
            Some(rules) => if inbound_allowed(rules, port, &probe.exe, &probe.exe_name) {
                FirewallState::Allowed
            } else {
                FirewallState::Unknown
            },
            None => FirewallState::Unknown,
        }
    }
}

/// A rule that is off, outbound, blocking or not for TCP never lets anything in.
pub proof fn only_allowing_rules_count(
    r: RuleModel,
    port: u16,
    exe: Option<Seq<char>>,
    name: Option<Seq<char>>,
)
    requires
        !r.active || !r.inbound || r.action != Action::Allow || !r.tcp_ok,
    ensures
        !r.lets_in(port, exe, name),
{
}

/// More rules never take away what fewer allow.
pub proof fn more_rules_allow_more(
    rules: Seq<Seq<char>>,
    extra: Seq<char>,
    port: u16,
    exe: Option<Seq<char>>,
    name: Option<Seq<char>>,
)
    requires
        some_rule_lets_in(rules, port, exe, name),
    ensures
        some_rule_lets_in(rules.push(extra), port, exe, name),
{
    let i = choose|i: int|
        0 <= i < rules.len() && blank_rule().with_parts(#[trigger] rules[i], 0).lets_in(
            port,
            exe,
            name,
        );
    assert(rules.push(extra)[i] == rules[i]);
}

/// A rule lets this program in where it is on, inbound, allowing and for TCP, names the
/// port or none, and names this program or none: by its path, or by its file's name.
pub proof fn rules_name_port_and_program(
    r: RuleModel,
    port: u16,
    exe: Option<Seq<char>>,
    name: Option<Seq<char>>,
)
    ensures
        r.lets_in(port, exe, name) ==> r.active && r.inbound && r.action == Action::Allow
            && r.tcp_ok,
        r.lets_in(port, exe, name) ==> r.any_port || r.ports.contains(port),
        r.lets_in(port, exe, name) && r.app is Some ==> exe == r.app || name == Some(
            tail_of(r.app->0, '\\', '/', r.app->0.len() as int),
        ),
        r.active && r.inbound && r.action == Action::Allow && r.tcp_ok && r.any_port && r.app is None
            ==> r.lets_in(port, exe, name),
        r.active && r.inbound && r.action == Action::Allow && r.tcp_ok && r.ports.contains(port)
            && r.app is Some && exe == r.app ==> r.lets_in(port, exe, name),
{
}

/// A firewall that is off lets all in. One that is on, or of which nothing is known, does
/// where a rule says so; otherwise nothing is known.
pub proof fn firewalls_are_judged(port: u16, probe: FirewallProbe)
    ensures
        !firewall_on(probe.profiles@) ==> probed(port, probe) == FirewallState::Allowed,
        firewall_on(probe.profiles@) && probe.rules is None ==> probed(port, probe)
            == FirewallState::Unknown,
        firewall_on(probe.profiles@) && probe.rules is Some ==> (probed(port, probe)
            == FirewallState::Allowed <==> some_rule_lets_in(
            raws_view(probe.rules->0@),
            port,
            own_path(string_view(probe.exe)),
            own_name(string_view(probe.exe_name)),
        )),
{
}

} // verus!
