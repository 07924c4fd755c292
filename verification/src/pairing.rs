//! The token that pairs one phone with this computer, and the address it opens.

use crate::settings::{
    adapters_view, find_adapter, lan_of, named_at, string_view, Adapter, AdapterModel, Settings,
};
use crate::text::{chars, decimal, push_chars, push_decimal, same, slice, upper_char, upper_of};
use rand::Rng;
use vstd::prelude::*;
use vstd::string::*;

verus! {

/// How long a token stays good after the phone left, in nanoseconds.
pub const TOKEN_GRACE: u64 = 300_000_000_000;

/// How many characters a token has.
pub const TOKEN_LEN: usize = 8;

/// Where pairing stands.
#[derive(Clone, Copy, Debug, PartialEq, Eq, Structural)]
pub enum PairPhase {
    Waiting,
    Connecting,
    Live,
}

/// Why a token was refused.
#[derive(Clone, Copy, Debug, PartialEq, Eq, Structural)]
pub enum AcceptError {
    Unknown,
    Used,
}

impl AcceptError {
    /// The error as the phone knows it.
    pub open spec fn tag(self) -> Seq<char> {
        match self {
            AcceptError::Unknown => "unknown-token"@,
            AcceptError::Used => "token-used"@,
        }
    }

    /// The error in words.
    pub open spec fn words(self) -> Seq<char> {
        match self {
            AcceptError::Unknown => "That token does not match. Type the code shown on the PC."@,
            AcceptError::Used => "This token was already used. Tap New session on the PC and type the new code."@,
        }
    }

    /// The error as the phone knows it.
    pub fn code(&self) -> (r: &'static str)
        ensures
            r@ == self.tag(),
    {
        match self {
            AcceptError::Unknown => "unknown-token",
            AcceptError::Used => "token-used",
        }
    }

    /// The error in words.
    pub fn message(&self) -> (r: &'static str)
        ensures
            r@ == self.words(),
    {
        match self {
            AcceptError::Unknown => "That token does not match. Type the code shown on the PC.",
            AcceptError::Used => "This token was already used. Tap New session on the PC and type the new code.",
        }
    }
}

/// The token that is good now, and what became of it.
pub struct Pairing {
    pub token: String,
    pub url: String,
    pub lan_ip: String,
    /// The chosen adapter is gone, or there is no address. Empty when all is well.
    pub nic_warning: Option<String>,
    /// A phone was accepted. Others are refused until there is another token.
    pub consumed: bool,
    pub phase: PairPhase,
    /// Goes up with every new token, so that a connection that closes late
    /// cannot spoil it.
    pub generation: u64,
    /// Until when the phone that left may come back, in nanoseconds.
    pub grace_until: Option<u64>,
}

/// The characters of tokens: letters and digits, without those that look alike.
pub open spec fn alphabet() -> Seq<char> {
    "23456789ABCDEFGHJKLMNPQRSTUVWXYZ"@
}

/// True of what can be a token.
pub open spec fn token_shaped(s: Seq<char>) -> bool {
    &&& s.len() == TOKEN_LEN
    &&& forall|i: int| 0 <= i < s.len() ==> alphabet().contains(#[trigger] s[i])
}

/// A random number below `n`: `rand`'s `Rng::gen_range` on `thread_rng`, which
/// panics on an empty range. Nothing is claimed of how numbers are distributed.
#[verifier::external_body]
fn random_below(n: usize) -> (r: usize)
    requires
        n > 0,
    ensures
        r < n,
{
    rand::thread_rng().gen_range(0..n)
}

/// The token that picks stand for: each is a place in the alphabet.
pub fn token_of(picks: &[usize]) -> (r: String)
    requires
        forall|i: int| 0 <= i < picks@.len() ==> (#[trigger] picks@[i]) < 32,
    ensures
        r@ == Seq::new(picks@.len(), |i: int| alphabet()[picks@[i] as int]),
{
    let letters: Vec<char> = chars("23456789ABCDEFGHJKLMNPQRSTUVWXYZ");
    proof {
        reveal_strlit("23456789ABCDEFGHJKLMNPQRSTUVWXYZ");
    }
    let mut s: String = String::new();
    let mut i: usize = 0;
    while i < picks.len()
        invariant
            i <= picks@.len(),
            letters@ == alphabet(),
            letters@.len() == 32,
            forall|i: int| 0 <= i < picks@.len() ==> (#[trigger] picks@[i]) < 32,
            s@ == Seq::new(i as nat, |i: int| alphabet()[picks@[i] as int]),
        decreases picks@.len() - i,
    {
        s.push(letters[picks[i]]);
        i += 1;
        assert(s@ =~= Seq::new(i as nat, |i: int| alphabet()[picks@[i] as int]));
    }
    s
}

/// A fresh token.
pub fn mint_token() -> (r: String)
    ensures
        token_shaped(r@),
{
    let mut picks: Vec<usize> = Vec::new();
    while picks.len() < TOKEN_LEN
        invariant
            picks@.len() <= TOKEN_LEN,
            forall|i: int| 0 <= i < picks@.len() ==> (#[trigger] picks@[i]) < 32,
        decreases TOKEN_LEN - picks@.len(),
    {
        picks.push(random_below(32));
    }
    let r: String = token_of(picks.as_slice());
    proof {
        reveal_strlit("23456789ABCDEFGHJKLMNPQRSTUVWXYZ");
        assert forall|i: int| 0 <= i < r@.len() implies alphabet().contains(#[trigger] r@[i]) by {
            assert(r@[i] == alphabet()[picks@[i] as int]);
        }
    }
    r
}

/// True of the letters and digits of ASCII.
pub open spec fn alphanumeric(c: char) -> bool {
    ('0' <= c && c <= '9') || ('A' <= c && c <= 'Z') || ('a' <= c && c <= 'z')
}

/// The letters and digits among the first `n` characters, in upper case.
pub open spec fn normalized(s: Seq<char>, n: int) -> Seq<char>
    decreases n,
{
    if n <= 0 {
        Seq::empty()
    } else if alphanumeric(s[n - 1]) {
        normalized(s, n - 1).push(upper_of(s[n - 1]))
    } else {
        normalized(s, n - 1)
    }
}

/// A token as typed, without what is not of it: spaces, dashes, lower case.
pub fn normalize_token(s: &str) -> (r: String)
    ensures
        r@ == normalized(s@, s@.len() as int),
{
    let c: Vec<char> = chars(s);
    let mut out: String = String::new();
    let mut i: usize = 0;
    while i < c.len()
        invariant
            c@ == s@,
            i <= c@.len(),
            out@ == normalized(c@, i as int),
        decreases c@.len() - i,
    {
        let x: char = c[i];
        if ('0' <= x && x <= '9') || ('A' <= x && x <= 'Z') || ('a' <= x && x <= 'z') {
            out.push(upper_char(x));
        }
        i += 1;
    }
    out
}

/// Bytes that a character takes in UTF-8.
pub open spec fn byte_len(c: char) -> int {
    if c as u32 <= 0x7F {
        1
    } else if c as u32 <= 0x7FF {
        2
    } else if c as u32 <= 0xFFFF {
        3
    } else {
        4
    }
}

/// Bytes that the first `n` characters take in UTF-8.
pub open spec fn bytes_len(s: Seq<char>, n: int) -> int
    decreases n,
{
    if n <= 0 {
        0
    } else {
        bytes_len(s, n - 1) + byte_len(s[n - 1])
    }
}

/// How a token is shown: eight bytes in two halves.
pub open spec fn shown_token(s: Seq<char>, half: int) -> Seq<char> {
    if bytes_len(s, s.len() as int) == 8 {
        s.subrange(0, half) + "  "@ + s.subrange(half, s.len() as int)
    } else {
        s
    }
}

/// A token of eight bytes in two halves of four; any other as it is. A token
/// whose fifth byte does not begin a character has no halves.
pub fn display_token(token: &str) -> (r: String)
    requires
        bytes_len(token@, token@.len() as int) == 8 ==> exists|k: int|
            0 <= k <= token@.len() && bytes_len(token@, k) == 4,
    ensures
        bytes_len(token@, token@.len() as int) != 8 ==> r@ == token@,
        forall|k: int|
            bytes_len(token@, token@.len() as int) == 8 && 0 <= k <= token@.len() && bytes_len(
                token@,
                k,
            ) == 4 ==> r@ == #[trigger] shown_token(token@, k),
{
    let c: Vec<char> = chars(token);
    let mut i: usize = 0;
    let mut bytes: u64 = 0;
    let mut half: Option<usize> = None;
    proof {
        bytes_len_grows(c@, 0, c@.len() as int);
    }
    while i < c.len() && bytes <= 8
        invariant
            c@ == token@,
            i <= c@.len(),
            bytes == bytes_len(c@, i as int),
            bytes <= 12,
            match half {
                Some(h) => h < i && bytes_len(c@, h as int) == 4,
                None => forall|k: int| 0 <= k < i ==> bytes_len(c@, k) != 4,
            },
        decreases c@.len() - i,
    {
        if bytes == 4 && half.is_none() {
            half = Some(i);
        }
        let x: u32 = c[i] as u32;
        bytes += if x <= 0x7F {
            1
        } else if x <= 0x7FF {
            2
        } else if x <= 0xFFFF {
            3
        } else {
            4
        };
        i += 1;
    }
    if i == c.len() && bytes == 8 {
        match half {
            Some(h) => {
                let a: Vec<char> = slice(c.as_slice(), 0, h);
                let b: Vec<char> = slice(c.as_slice(), h, c.len());
                let mut r: String = String::new();
                push_chars(&mut r, a.as_slice());
                r.append("  ");
                push_chars(&mut r, b.as_slice());
                proof {
                    assert(r@ =~= shown_token(token@, h as int));
                    assert forall|k: int|
                        0 <= k <= token@.len() && bytes_len(token@, k) == 4 implies r@
                        == #[trigger] shown_token(token@, k) by {
                        if k < h {
                            bytes_len_grows(c@, k, h as int);
                        } else if h < k {
                            bytes_len_grows(c@, h as int, k);
                        }
                    }
                }
                return r;
            },
            None => {
                proof {
                    assert(false);
                }
            },
        }
    }
    proof {
        if bytes > 8 {
            bytes_len_grows(c@, i as int, c@.len() as int);
        }
    }
    token.to_owned()
}

/// More characters take more bytes.
pub proof fn bytes_len_grows(s: Seq<char>, j: int, k: int)
    requires
        0 <= j <= k <= s.len(),
    ensures
        bytes_len(s, j) + (k - j) <= bytes_len(s, k),
    decreases k,
{
    if j < k {
        bytes_len_grows(s, j, k - 1);
    }
}

/// What is printed for the phone.
pub ghost struct EndpointModel {
    pub lan_ip: Seq<char>,
    pub url: Seq<char>,
    pub warning: Option<Seq<char>>,
}

/// What is printed for the phone: the address and the link, and a warning where
/// the chosen adapter is gone or there is no address at all.
pub open spec fn endpoint_of(
    adapter: Option<Seq<char>>,
    nics: Seq<AdapterModel>,
    port: u16,
    token: Seq<char>,
) -> EndpointModel {
    let stale = match adapter {
        Some(name) => named_at(nics, name, 0) is None,
        None => false,
    };
    match lan_of(adapter, nics) {
        Some(ip) => EndpointModel {
            lan_ip: ip.dotted(),
            url: "https://"@ + ip.dotted() + ":"@ + decimal(port as nat) + "/connect/"@ + token,
            warning: if stale {
                Some("Saved adapter is gone. QR uses Auto "@ + ip.dotted() + "."@)
            } else {
                None
            },
        },
        None => EndpointModel {
            lan_ip: Seq::empty(),
            url: Seq::empty(),
            warning: Some("No LAN IPv4. Pick an adapter after Wi-Fi is up."@),
        },
    }
}

/// What is printed for the phone: address, link and warning.
fn endpoint(settings: &Settings, listen_port: u16, token: &str, nics: &[Adapter]) -> (r: (
    String,
    String,
    Option<String>,
))
    ensures
        (EndpointModel { lan_ip: r.0@, url: r.1@, warning: string_view(r.2) }) == endpoint_of(
            string_view(settings.adapter),
            adapters_view(nics@),
            listen_port,
            token@,
        ),
{
    let stale: bool = match &settings.adapter {
        Some(name) => find_adapter(nics, name.as_str()).is_none(),
        None => false,
    };
    match settings.resolve_lan(nics) {
        Some(ip) => {
            let lan_ip: String = ip.to_text();
            let mut url: String = String::new();
            url.append("https://");
            url.append(lan_ip.as_str());
            url.append(":");
            push_decimal(&mut url, listen_port as u64);
            url.append("/connect/");
            url.append(token);
            assert(url@ =~= "https://"@ + ip.dotted() + ":"@ + decimal(listen_port as nat)
                + "/connect/"@ + token@);
            let warning: Option<String> = if stale {
                let mut w: String = String::new();
                w.append("Saved adapter is gone. QR uses Auto ");
                w.append(lan_ip.as_str());
                w.append(".");
                assert(w@ =~= "Saved adapter is gone. QR uses Auto "@ + ip.dotted() + "."@);
                Some(w)
            } else {
                None
            };
            (lan_ip, url, warning)
        },
        None => (
            String::new(),
            String::new(),
            Some("No LAN IPv4. Pick an adapter after Wi-Fi is up.".to_owned()),
        ),
    }
}

impl Pairing {
    /// What is printed for the phone.
    pub open spec fn printed(&self) -> EndpointModel {
        EndpointModel {
            lan_ip: self.lan_ip@,
            url: self.url@,
            warning: string_view(self.nic_warning),
        }
    }

    /// True of a token that no phone has used, printed for these settings.
    pub open spec fn fresh_for(&self, settings: &Settings, port: u16, nics: Seq<Adapter>) -> bool {
        &&& token_shaped(self.token@)
        &&& self.printed() == endpoint_of(
            string_view(settings.adapter),
            adapters_view(nics),
            port,
            self.token@,
        )
        &&& !self.consumed
        &&& self.phase == PairPhase::Waiting
        &&& self.grace_until is None
    }

    /// A first token.
    pub fn new(settings: &Settings, listen_port: u16, nics: &[Adapter]) -> (r: Pairing)
        ensures
            r.fresh_for(settings, listen_port, nics@),
            r.generation == 0,
    {
        Self::with_generation(0, settings, listen_port, nics)
    }

    fn with_generation(
        generation: u64,
        settings: &Settings,
        listen_port: u16,
        nics: &[Adapter],
    ) -> (r: Pairing)
        ensures
            r.fresh_for(settings, listen_port, nics@),
            r.generation == generation,
    {
        let token: String = mint_token();
        let (lan_ip, url, nic_warning) = endpoint(settings, listen_port, token.as_str(), nics);
        Pairing {
            token,
            url,
            lan_ip,
            nic_warning,
            consumed: false,
            phase: PairPhase::Waiting,
            generation,
            grace_until: None,
        }
    }

    /// Another token. The old one is good for nothing from now on.
    pub fn rotate(&mut self, settings: &Settings, listen_port: u16, nics: &[Adapter])
        ensures
            final(self).fresh_for(settings, listen_port, nics@),
            final(self).generation == (old(self).generation + 1) % 0x1_0000_0000_0000_0000,
    {
        let next: u64 = self.generation.wrapping_add(1);
        *self = Self::with_generation(next, settings, listen_port, nics);
    }

    /// Keeps the token and prints it anew, for another adapter or port.
    pub fn set_endpoint(&mut self, settings: &Settings, listen_port: u16, nics: &[Adapter])
        ensures
            final(self).printed() == endpoint_of(
                string_view(settings.adapter),
                adapters_view(nics@),
                listen_port,
                old(self).token@,
            ),
            final(self).token == old(self).token,
            final(self).consumed == old(self).consumed,
            final(self).phase == old(self).phase,
            final(self).generation == old(self).generation,
            final(self).grace_until == old(self).grace_until,
    {
        let (lan_ip, url, nic_warning) = endpoint(
            settings,
            listen_port,
            self.token.as_str(),
            nics,
        );
        self.lan_ip = lan_ip;
        self.url = url;
        self.nic_warning = nic_warning;
    }

    /// Takes the first phone that offers the token, however it was typed, and
    /// refuses every other.
    pub fn accept_token(&mut self, offered: &str) -> (r: Result<(), AcceptError>)
        ensures
            r == accepted(*old(self), offered@),
            *final(self) == (Pairing { consumed: old(self).consumed || r is Ok, ..*old(self) }),
    {
        let typed: String = normalize_token(offered);
        if !same(typed.as_str(), self.token.as_str()) {
            return Err(AcceptError::Unknown);
        }
        if self.consumed {
            return Err(AcceptError::Used);
        }
        self.consumed = true;
        Ok(())
    }
}

/// What an offered token comes to.
pub open spec fn accepted(p: Pairing, offered: Seq<char>) -> Result<(), AcceptError> {
    if normalized(offered, offered.len() as int) != p.token@ {
        Err(AcceptError::Unknown)
    } else if p.consumed {
        Err(AcceptError::Used)
    } else {
        Ok(())
    }
}

/// One phone per token: whoever comes after the one that was accepted is refused.
pub proof fn one_phone_per_token(p: Pairing, first: Seq<char>, second: Seq<char>)
    requires
        accepted(p, first) is Ok,
    ensures
        accepted(Pairing { consumed: true, ..p }, second) is Err,
        normalized(second, second.len() as int) == p.token@ ==> accepted(
            Pairing { consumed: true, ..p },
            second,
        ) == Err::<(), AcceptError>(AcceptError::Used),
{
}

/// A token can be typed as it is shown, in lower case, and with anything between
/// its characters that is no letter or digit.
pub proof fn shown_token_is_good(t: Seq<char>)
    requires
        token_shaped(t),
    ensures
        normalized(t, 8) == t,
        bytes_len(t, 8) == 8,
        bytes_len(t, 4) == 4,
        normalized(shown_token(t, 4), shown_token(t, 4).len() as int) == t,
{
    reveal_strlit("23456789ABCDEFGHJKLMNPQRSTUVWXYZ");
    reveal_strlit("  ");
    assert forall|i: int| 0 <= i < 8 implies alphanumeric(#[trigger] t[i]) && upper_of(t[i]) == t[i]
        && byte_len(t[i]) == 1 by {
        assert(alphabet().contains(t[i]));
        let k = choose|k: int| 0 <= k < alphabet().len() && alphabet()[k] == t[i];
        assert(alphabet()[k] == t[i]);
    }
    reveal_with_fuel(normalized, 11);
    reveal_with_fuel(bytes_len, 9);
    assert(normalized(t, 8) =~= t);
    let s = shown_token(t, 4);
    assert(s =~= seq![t[0], t[1], t[2], t[3], ' ', ' ', t[4], t[5], t[6], t[7]]);
    assert(normalized(s, 10) =~= t);
}

/// Case does not matter to a token.
pub proof fn case_does_not_matter(a: Seq<char>, b: Seq<char>, n: int)
    requires
        a.len() == b.len(),
        0 <= n <= a.len(),
        forall|i: int| 0 <= i < a.len() ==> upper_of(#[trigger] a[i]) == upper_of(b[i]),
    ensures
        normalized(a, n) == normalized(b, n),
    decreases n,
{
    if n > 0 {
        case_does_not_matter(a, b, n - 1);
        assert(upper_of(a[n - 1]) == upper_of(b[n - 1]));
    }
}

/// A token is taken where its letters and digits, in upper case and in order, are those
/// that were printed, and it was not taken before.
pub proof fn tokens_are_compared_by_letters(p: Pairing, offered: Seq<char>)
    ensures
        accepted(p, offered) is Ok <==> !p.consumed && letters_of(offered) == p.token@,
        letters_of(offered) != p.token@ ==> accepted(p, offered) == Err::<(), AcceptError>(
            AcceptError::Unknown,
        ),
        letters_of(offered) == p.token@ && p.consumed ==> accepted(p, offered) == Err::<
            (),
            AcceptError,
        >(AcceptError::Used),
{
    normalized_is_filtered(offered, offered.len() as int);
    assert(offered.take(offered.len() as int) =~= offered);
}

/// The letters and digits of a text, in upper case.
pub open spec fn letters_of(s: Seq<char>) -> Seq<char> {
    s.filter(|c: char| ('0' <= c && c <= '9') || ('A' <= c && c <= 'Z') || ('a' <= c && c <= 'z'))
        .map_values(
        |c: char|
            if 'a' <= c && c <= 'z' {
                (c as u32 - 32) as char
            } else {
                c
            },
    )
}

proof fn normalized_is_filtered(s: Seq<char>, n: int)
    requires
        0 <= n <= s.len(),
    ensures
        normalized(s, n) == letters_of(s.take(n)),
    decreases n,
{
    reveal(Seq::filter);
    if n > 0 {
        normalized_is_filtered(s, n - 1);
        assert(s.take(n).drop_last() =~= s.take(n - 1));
        assert(normalized(s, n) =~= letters_of(s.take(n)));
    } else {
        assert(normalized(s, n) =~= letters_of(s.take(n)));
    }
}

/// The link that is printed leads to this computer with the token: by HTTPS, at the
/// address of the adapter that is taken and the port that is listened on. Without an
/// address there is none, and the user is warned; so they are where the adapter that
/// they chose is gone.
pub proof fn links_lead_here(
    adapter: Option<Seq<char>>,
    nics: Seq<AdapterModel>,
    port: u16,
    token: Seq<char>,
)
    ensures
        ({
            let e = endpoint_of(adapter, nics, port, token);
            match lan_of(adapter, nics) {
                Some(ip) => {
                    let host = decimal(ip.a as nat) + "."@ + decimal(ip.b as nat) + "."@ + decimal(
                        ip.c as nat,
                    ) + "."@ + decimal(ip.d as nat);
                    &&& e.lan_ip == host
                    &&& e.url == "https://"@ + host + ":"@ + decimal(port as nat) + "/connect/"@
                        + token
                    &&& e.warning is Some <==> adapter is Some && named_at(
                        nics,
                        adapter->0,
                        0,
                    ) is None
                },
                None => e.lan_ip.len() == 0 && e.url.len() == 0 && e.warning is Some,
            }
        }),
{
}

} // verus!
