//! What the user has set, the network adapters to choose from, and where files live.

use crate::text::{
    chars, contains_text, decimal, decimal_stands_for, digits_value, holds, is_digit,
    last_cut_is_unique, lower, lower_chars, push_decimal, same, text, trim, trimmed,
};
use vstd::prelude::*;
use vstd::string::*;

verus! {

pub const DEFAULT_PORT: u16 = 8443;

pub const DEFAULT_STUN: &'static str = "stun:stun.l.google.com:19302";

/// An IPv4 address, first octet first.
#[derive(Clone, Copy, Debug, PartialEq, Eq, Structural)]
pub struct Ipv4 {
    pub a: u8,
    pub b: u8,
    pub c: u8,
    pub d: u8,
}

impl Ipv4 {
    /// An address in dotted decimal.
    pub open spec fn dotted(self) -> Seq<char> {
        decimal(self.a as nat) + "."@ + decimal(self.b as nat) + "."@ + decimal(self.c as nat)
            + "."@ + decimal(self.d as nat)
    }

    /// The address as a number; addresses are ordered by it.
    pub open spec fn number(self) -> int {
        self.a * 0x100_0000 + self.b * 0x1_0000 + self.c * 0x100 + self.d
    }

    /// An address out of its octets.
    pub fn new(a: u8, b: u8, c: u8, d: u8) -> (r: Ipv4)
        ensures
            r == (Ipv4 { a, b, c, d }),
    {
        Ipv4 { a, b, c, d }
    }

    /// An address in dotted decimal.
    pub fn to_text(self) -> (r: String)
        ensures
            r@ == self.dotted(),
    {
        let mut s: String = String::new();
        push_decimal(&mut s, self.a as u64);
        s.append(".");
        push_decimal(&mut s, self.b as u64);
        s.append(".");
        push_decimal(&mut s, self.c as u64);
        s.append(".");
        push_decimal(&mut s, self.d as u64);
        assert(s@ =~= self.dotted());
        s
    }

    fn to_number(self) -> (r: u32)
        ensures
            r == self.number(),
    {
        self.a as u32 * 0x100_0000 + self.b as u32 * 0x1_0000 + self.c as u32 * 0x100 + self.d as u32
    }

    /// True of an address that another machine on the network can have: not
    /// loopback, not link-local, not multicast.
    pub open spec fn on_lan(self) -> bool {
        self.a != 127 && !(self.a == 169 && self.b == 254) && !(224 <= self.a <= 239)
    }

    /// True of an address that another machine on the network can have.
    pub fn is_on_lan(self) -> (r: bool)
        ensures
            r == self.on_lan(),
    {
        self.a != 127 && !(self.a == 169 && self.b == 254) && !(224 <= self.a && self.a <= 239)
    }
}

/// Addresses with the same number are the same.
proof fn number_is_address(x: Ipv4, y: Ipv4)
    requires
        x.number() == y.number(),
    ensures
        x == y,
{
    octets_of(x);
    octets_of(y);
}

/// An address is read back from its number.
#[verifier::spinoff_prover]
proof fn octets_of(x: Ipv4)
    ensures
        x.number() / 0x100_0000 == x.a,
        x.number() / 0x1_0000 % 0x100 == x.b,
        x.number() / 0x100 % 0x100 == x.c,
        x.number() % 0x100 == x.d,
{
    let high = x.a * 0x100 + x.b;
    let low = x.c * 0x100 + x.d;
    assert(x.number() == high * 0x1_0000 + low);
    assert(x.number() / 0x1_0000 == high);
    assert(x.number() / 0x100_0000 == x.number() / 0x1_0000 / 0x100);
    assert(x.number() / 0x100 == high * 0x100 + x.c);
}

/// A network adapter with an address.
pub struct Adapter {
    pub name: String,
    pub ip: Ipv4,
}

/// What an adapter is.
pub ghost struct AdapterModel {
    pub name: Seq<char>,
    pub ip: Ipv4,
}

impl View for Adapter {
    type V = AdapterModel;

    open spec fn view(&self) -> AdapterModel {
        AdapterModel { name: self.name@, ip: self.ip }
    }
}

/// The models of a list of adapters.
pub open spec fn adapters_view(v: Seq<Adapter>) -> Seq<AdapterModel> {
    v.map_values(|a: Adapter| a@)
}

/// What the user has set.
pub struct Settings {
    /// The adapter to use. `None` picks one, passing over virtual ones.
    pub adapter: Option<String>,
    /// The port to listen on. Takes effect at the next start.
    pub port: u16,
    /// Whether to use a public STUN server. Off keeps everything on the LAN.
    pub stun: bool,
    /// Where recordings go. `None` or blank is the default folder.
    pub recordings: Option<String>,
    /// Start the virtual camera at launch.
    pub vcam_on_launch: bool,
    /// Keep the preview, whatever the load.
    pub keep_preview: bool,
}

impl Default for Settings {
    fn default() -> (r: Settings)
        ensures
            r.adapter is None && r.recordings is None,
            r.port == DEFAULT_PORT,
            !r.stun && !r.vcam_on_launch && !r.keep_preview,
    {
        Settings {
            adapter: None,
            port: DEFAULT_PORT,
            stun: false,
            recordings: None,
            vcam_on_launch: false,
            keep_preview: false,
        }
    }
}

/// A folder and a name in it. No separator is put behind one, behind a bare
/// drive, or at the front of an empty folder.
pub open spec fn joined(dir: Seq<char>, name: Seq<char>) -> Seq<char> {
    if dir.len() == 0 || dir.last() == '\\' || dir.last() == '/' || (dir.len() == 2 && dir[1] == ':'
        && (('a' <= dir[0] && dir[0] <= 'z') || ('A' <= dir[0] && dir[0] <= 'Z'))) {
        dir + name
    } else {
        dir + "\\"@ + name
    }
}

/// A folder and a name in it.
pub fn join(dir: &str, name: &str) -> (r: String)
    ensures
        r@ == joined(dir@, name@),
{
    let d: Vec<char> = chars(dir);
    let n: usize = d.len();
    let mut s: String = String::new();
    s.append(dir);
    if !(n == 0 || d[n - 1] == '\\' || d[n - 1] == '/' || (n == 2 && d[1] == ':' && (('a' <= d[0]
        && d[0] <= 'z') || ('A' <= d[0] && d[0] <= 'Z')))) {
        s.append("\\");
    }
    s.append(name);
    assert(s@ =~= joined(dir@, name@));
    s
}

/// The program's folder below the user's local data, or below the current folder.
pub open spec fn user_folder(local_data: Option<Seq<char>>) -> Seq<char> {
    joined(
        match local_data {
            Some(d) => d,
            None => "."@,
        },
        "PocketCam"@,
    )
}

/// The view of a text that may be missing.
pub open spec fn text_view(s: Option<&str>) -> Option<Seq<char>> {
    match s {
        Some(t) => Some(t@),
        None => None,
    }
}

/// The program's folder below the user's local data.
pub fn user_dir(local_data: Option<&str>) -> (r: String)
    ensures
        r@ == user_folder(text_view(local_data)),
{
    join(
        match local_data {
            Some(d) => d,
            None => ".",
        },
        "PocketCam",
    )
}

/// Where recordings go by default, given the user's home.
pub open spec fn videos_folder(home: Option<Seq<char>>) -> Seq<char> {
    joined(
        joined(
            match home {
                Some(h) => h,
                None => "."@,
            },
            "Videos"@,
        ),
        "PocketCam"@,
    )
}

/// Where recordings go by default, given the user's home.
pub fn default_recordings_dir(home: Option<&str>) -> (r: String)
    ensures
        r@ == videos_folder(text_view(home)),
{
    let videos: String = join(
        match home {
            Some(h) => h,
            None => ".",
        },
        "Videos",
    );
    join(videos.as_str(), "PocketCam")
}

/// What is kept of a folder that was typed in: nothing where it is blank.
pub open spec fn kept_folder(raw: Seq<char>) -> Option<Seq<char>> {
    if trimmed(raw).len() == 0 {
        None
    } else {
        Some(trimmed(raw))
    }
}

/// What is kept of a folder that was typed in. `None` stands for the default folder.
pub fn validate_recordings_dir(raw: &str) -> (r: Option<String>)
    ensures
        match r {
            Some(s) => kept_folder(raw@) == Some(s@),
            None => kept_folder(raw@) is None,
        },
{
    let c: Vec<char> = chars(raw);
    let t: Vec<char> = trim(c.as_slice());
    if t.is_empty() {
        None
    } else {
        Some(text(t.as_slice()))
    }
}

/// True of the address ranges of container bridges and host-only networks.
pub open spec fn virtual_range(ip: Ipv4) -> bool {
    (ip.a == 172 && (ip.b == 17 || ip.b == 18)) || (ip.a == 192 && ip.b == 168 && (ip.c == 56
        || ip.c == 59))
}

/// True of the address ranges of container bridges and host-only networks.
pub fn is_virtual_lan(ip: Ipv4) -> (r: bool)
    ensures
        r == virtual_range(ip),
{
    (ip.a == 172 && (ip.b == 17 || ip.b == 18)) || (ip.a == 192 && ip.b == 168 && (ip.c == 56
        || ip.c == 59))
}

/// True of an adapter that leads to no phone, by its name or its address.
pub open spec fn virtual_adapter(name: Seq<char>, ip: Ipv4) -> bool {
    let n = lower(name);
    holds(n, "wsl"@) || holds(n, "vethernet"@) || holds(n, "hyper-v"@) || holds(n, "vmware"@) || holds(
        n,
        "virtualbox"@,
    ) || holds(n, "vbox"@) || holds(n, "docker"@) || holds(n, "loopback"@) || holds(n, "bluetooth"@)
        || virtual_range(ip)
}

/// True of an adapter that leads to no phone, by its name or its address.
pub fn is_virtual_adapter(name: &str, ip: Ipv4) -> (r: bool)
    ensures
        r == virtual_adapter(name@, ip),
{
    let c: Vec<char> = chars(name);
    let n: Vec<char> = lower_chars(c.as_slice());
    let n: &[char] = n.as_slice();
    contains_text(n, "wsl") || contains_text(n, "vethernet") || contains_text(n, "hyper-v")
        || contains_text(n, "vmware") || contains_text(n, "virtualbox") || contains_text(n, "vbox")
        || contains_text(n, "docker") || contains_text(n, "loopback") || contains_text(
        n,
        "bluetooth",
    ) || is_virtual_lan(ip)
}

/// The STUN servers to use.
pub fn ice_servers(stun: bool) -> (r: Vec<String>)
    ensures
        stun ==> r@.len() == 1 && r@[0]@ == DEFAULT_STUN@,
        !stun ==> r@.len() == 0,
{
    let mut r: Vec<String> = Vec::new();
    if stun {
        r.push(DEFAULT_STUN.to_owned());
    }
    r
}

/// The first adapter with a name, at or behind `i`.
pub open spec fn named_at(nics: Seq<AdapterModel>, name: Seq<char>, i: int) -> Option<int>
    decreases nics.len() - i,
{
    if i < 0 || i >= nics.len() {
        None
    } else if nics[i].name == name {
        Some(i)
    } else {
        named_at(nics, name, i + 1)
    }
}

/// The first adapter that is not virtual, at or behind `i`.
pub open spec fn real_at(nics: Seq<AdapterModel>, i: int) -> Option<int>
    decreases nics.len() - i,
{
    if i < 0 || i >= nics.len() {
        None
    } else if !virtual_adapter(nics[i].name, nics[i].ip) {
        Some(i)
    } else {
        real_at(nics, i + 1)
    }
}

/// The address to print: that of the chosen adapter, if it is there, otherwise
/// that of the first adapter that is not virtual.
pub open spec fn lan_of(adapter: Option<Seq<char>>, nics: Seq<AdapterModel>) -> Option<Ipv4> {
    let chosen = match adapter {
        Some(name) => named_at(nics, name, 0),
        None => None,
    };
    match chosen {
        Some(i) => Some(nics[i].ip),
        None => match real_at(nics, 0) {
            Some(i) => Some(nics[i].ip),
            None => None,
        },
    }
}

/// Where the adapter with a name is.
pub fn find_adapter(nics: &[Adapter], name: &str) -> (r: Option<usize>)
    ensures
        match r {
            Some(i) => i < nics@.len() && named_at(adapters_view(nics@), name@, 0) == Some(
                i as int,
            ),
            None => named_at(adapters_view(nics@), name@, 0) is None,
        },
{
    let mut i: usize = 0;
    while i < nics.len()
        invariant
            i <= nics@.len(),
            named_at(adapters_view(nics@), name@, 0) == named_at(
                adapters_view(nics@),
                name@,
                i as int,
            ),
        decreases nics@.len() - i,
    {
        if same(nics[i].name.as_str(), name) {
            return Some(i);
        }
        i += 1;
    }
    None
}

/// The view of a text that may be missing.
pub open spec fn string_view(s: Option<String>) -> Option<Seq<char>> {
    match s {
        Some(t) => Some(t@),
        None => None,
    }
}

impl Settings {
    /// Where settings are kept.
    pub fn path(local_data: Option<&str>) -> (r: String)
        ensures
            r@ == joined(user_folder(text_view(local_data)), "settings.json"@),
    {
        let dir: String = user_dir(local_data);
        join(dir.as_str(), "settings.json")
    }

    /// The settings as read, or the default where none could be read.
    pub fn load(read: Option<Settings>) -> (r: Settings)
        ensures
            match read {
                Some(s) => {
                    &&& r.port == if s.port == 0 {
                        DEFAULT_PORT
                    } else {
                        s.port
                    }
                    &&& r == (Settings { port: r.port, ..s })
                },
                None => {
                    &&& r.adapter is None && r.recordings is None
                    &&& r.port == DEFAULT_PORT
                    &&& !r.stun && !r.vcam_on_launch && !r.keep_preview
                },
            },
    {
        match read {
            Some(s) => {
                let mut s: Settings = s;
                s.clamp_port();
                s
            },
            None => Settings::default(),
        }
    }

    /// No port is the default port.
    pub fn clamp_port(&mut self)
        ensures
            final(self).port == if old(self).port == 0 {
                DEFAULT_PORT
            } else {
                old(self).port
            },
            *final(self) == (Settings { port: final(self).port, ..*old(self) }),
    {
        if self.port == 0 {
            self.port = DEFAULT_PORT;
        }
    }

    /// The address to print, of the adapters there are.
    pub fn resolve_lan(&self, nics: &[Adapter]) -> (r: Option<Ipv4>)
        ensures
            r == lan_of(string_view(self.adapter), adapters_view(nics@)),
    {
        if let Some(name) = &self.adapter {
            if let Some(i) = find_adapter(nics, name.as_str()) {
                return Some(nics[i].ip);
            }
        }
        let mut i: usize = 0;
        while i < nics.len()
            invariant
                i <= nics@.len(),
                real_at(adapters_view(nics@), 0) == real_at(adapters_view(nics@), i as int),
                self.adapter matches Some(name) ==> named_at(adapters_view(nics@), name@, 0) is None,
            decreases nics@.len() - i,
        {
            if !is_virtual_adapter(nics[i].name.as_str(), nics[i].ip) {
                return Some(nics[i].ip);
            }
            i += 1;
        }
        None
    }

    /// Where recordings go, given the user's home.
    pub fn recordings_dir(&self, home: Option<&str>) -> (r: String)
        ensures
            r@ == match string_view(self.recordings) {
                Some(raw) => match kept_folder(raw) {
                    Some(dir) => dir,
                    None => videos_folder(text_view(home)),
                },
                None => videos_folder(text_view(home)),
            },
    {
        if let Some(raw) = &self.recordings {
            if let Some(dir) = validate_recordings_dir(raw.as_str()) {
                return dir;
            }
        }
        default_recordings_dir(home)
    }
}

/// True where `a` comes before `b` in a dictionary, from character `i` on.
pub open spec fn precedes(a: Seq<char>, b: Seq<char>, i: int) -> bool
    decreases b.len() - i,
{
    if i >= b.len() {
        false
    } else if i >= a.len() || a[i] < b[i] {
        true
    } else if a[i] > b[i] {
        false
    } else {
        precedes(a, b, i + 1)
    }
}

/// Adapters are listed by name, then by address.
pub open spec fn listed_before(a: AdapterModel, b: AdapterModel) -> bool {
    precedes(a.name, b.name, 0) || (a.name == b.name && a.ip.number() <= b.ip.number())
}

/// True of a list in order.
pub open spec fn listed(s: Seq<AdapterModel>) -> bool {
    forall|i: int, j: int| 0 <= i < j < s.len() ==> listed_before(s[i], s[j])
}

/// Of two texts one comes first, unless they are the same.
proof fn precedes_total(a: Seq<char>, b: Seq<char>, i: int)
    requires
        0 <= i,
        i <= a.len(),
        i <= b.len(),
        forall|k: int| 0 <= k < i ==> a[k] == b[k],
    ensures
        precedes(a, b, i) || precedes(b, a, i) || a == b,
    decreases b.len() - i,
{
    if i < a.len() && i < b.len() && a[i] == b[i] {
        precedes_total(a, b, i + 1);
    } else if i >= a.len() && i >= b.len() {
        assert(a =~= b);
    }
}

/// What comes before something that comes before a third comes before that.
proof fn precedes_transitive(a: Seq<char>, b: Seq<char>, c: Seq<char>, i: int)
    requires
        0 <= i,
        precedes(a, b, i),
        precedes(b, c, i),
    ensures
        precedes(a, c, i),
    decreases c.len() - i,
{
    if i < a.len() && i < b.len() && i < c.len() && a[i] == b[i] && b[i] == c[i] {
        precedes_transitive(a, b, c, i + 1);
    }
}

proof fn listed_before_transitive(a: AdapterModel, b: AdapterModel, c: AdapterModel)
    requires
        listed_before(a, b),
        listed_before(b, c),
    ensures
        listed_before(a, c),
{
    if precedes(a.name, b.name, 0) && precedes(b.name, c.name, 0) {
        precedes_transitive(a.name, b.name, c.name, 0);
    }
}

fn is_before(a: &Adapter, b: &Adapter) -> (r: bool)
    ensures
        r == listed_before(a@, b@),
{
    let x: Vec<char> = chars(a.name.as_str());
    let y: Vec<char> = chars(b.name.as_str());
    let mut i: usize = 0;
    while i < y.len()
        invariant
            x@ == a.name@,
            y@ == b.name@,
            i <= y@.len(),
            i <= x@.len(),
            forall|k: int| 0 <= k < i ==> x@[k] == y@[k],
            precedes(x@, y@, 0) == precedes(x@, y@, i as int),
        decreases y@.len() - i,
    {
        if i >= x.len() || x[i] < y[i] {
            return true;
        }
        if x[i] > y[i] {
            return false;
        }
        i += 1;
    }
    if x.len() > y.len() {
        return false;
    }
    assert(x@ =~= y@);
    a.ip.to_number() <= b.ip.to_number()
}

/// Those of the first `n` adapters that other machines can reach.
pub open spec fn lan_part(s: Seq<AdapterModel>, n: int) -> Seq<AdapterModel>
    decreases n,
{
    if n <= 0 {
        Seq::empty()
    } else if s[n - 1].ip.on_lan() {
        lan_part(s, n - 1).push(s[n - 1])
    } else {
        lan_part(s, n - 1)
    }
}

/// The adapters that other machines can reach, by name and then by address.
pub fn list_adapters(found: &[Adapter]) -> (r: Vec<Adapter>)
    ensures
        listed(adapters_view(r@)),
        adapters_view(r@).to_multiset() == lan_part(
            adapters_view(found@),
            found@.len() as int,
        ).to_multiset(),
{
    let ghost all = adapters_view(found@);
    let mut out: Vec<Adapter> = Vec::new();
    assert(adapters_view(out@) =~= Seq::empty());
    let mut i: usize = 0;
    while i < found.len()
        invariant
            i <= found@.len(),
            all == adapters_view(found@),
            listed(adapters_view(out@)),
            adapters_view(out@).to_multiset() == lan_part(all, i as int).to_multiset(),
        decreases found@.len() - i,
    {
        if found[i].ip.is_on_lan() {
            let x: Adapter = Adapter { name: found[i].name.clone(), ip: found[i].ip };
            assert(x@ == all[i as int]);
            let ghost before = adapters_view(out@);
            let mut k: usize = 0;
            while k < out.len() && is_before(&out[k], &x)
                invariant
                    k <= out@.len(),
                    before == adapters_view(out@),
                    listed(before),
                    forall|j: int| 0 <= j < k ==> listed_before(#[trigger] before[j], x@),
                decreases out@.len() - k,
            {
                k += 1;
            }
            proof {
                if k < before.len() {
                    precedes_total(before[k as int].name, x@.name, 0);
                    assert(listed_before(x@, before[k as int]));
                    assert forall|j: int| k <= j < before.len() implies listed_before(
                        x@,
                        #[trigger] before[j],
                    ) by {
                        if j > k {
                            listed_before_transitive(x@, before[k as int], before[j]);
                        }
                    }
                }
            }
            let ghost y = x@;
            out.insert(k, x);
            proof {
                assert(adapters_view(out@) =~= before.insert(k as int, y));
                vstd::seq_lib::to_multiset_insert(before, k as int, y);
                vstd::seq_lib::to_multiset_build(lan_part(all, i as int), y);
                let z = adapters_view(out@);
                assert forall|p: int, q: int| 0 <= p < q < z.len() implies listed_before(
                    z[p],
                    z[q],
                ) by {
                    if p != k && q != k {
                        let p0 = if p < k {
                            p
                        } else {
                            p - 1
                        };
                        let q0 = if q < k {
                            q
                        } else {
                            q - 1
                        };
                        assert(listed_before(before[p0], before[q0]));
                    } else if p == k {
                        assert(z[q] == before[q - 1]);
                    } else {
                        assert(z[p] == before[p]);
                    }
                }
            }
        }
        i += 1;
    }
    out
}

/// True of addresses in ascending order, none twice.
pub open spec fn ascending(s: Seq<Ipv4>) -> bool {
    forall|i: int, j: int| 0 <= i < j < s.len() ==> s[i].number() < s[j].number()
}

/// True of an address that one of the first `n` adapters has and other machines can reach.
pub open spec fn reachable(s: Seq<AdapterModel>, n: int, ip: Ipv4) -> bool {
    ip.on_lan() && exists|i: int| 0 <= i < n && (#[trigger] s[i]).ip == ip
}

/// The addresses that other machines can reach, in ascending order, none twice.
pub fn lan_ipv4s(found: &[Adapter]) -> (r: Vec<Ipv4>)
    ensures
        ascending(r@),
        forall|ip: Ipv4|
            #[trigger] r@.contains(ip) <==> reachable(
                adapters_view(found@),
                found@.len() as int,
                ip,
            ),
{
    let ghost all = adapters_view(found@);
    let mut out: Vec<Ipv4> = Vec::new();
    let mut i: usize = 0;
    while i < found.len()
        invariant
            i <= found@.len(),
            all == adapters_view(found@),
            ascending(out@),
            forall|ip: Ipv4| #[trigger] out@.contains(ip) <==> reachable(all, i as int, ip),
        decreases found@.len() - i,
    {
        let x: Ipv4 = found[i].ip;
        assert(all[i as int].ip == x);
        let ghost before = out@;
        if x.is_on_lan() {
            let mut k: usize = 0;
            while k < out.len() && out[k].to_number() < x.to_number()
                invariant
                    k <= out@.len(),
                    out@ == before,
                    forall|j: int| 0 <= j < k ==> (#[trigger] before[j]).number() < x.number(),
                decreases out@.len() - k,
            {
                k += 1;
            }
            if k < out.len() && out[k].to_number() == x.to_number() {
                proof {
                    number_is_address(x, before[k as int]);
                }
            } else {
                out.insert(k, x);
                proof {
                    assert forall|p: int, q: int| 0 <= p < q < out@.len() implies out@[p].number()
                        < out@[q].number() by {
                        let p0 = if p < k {
                            p
                        } else {
                            p - 1
                        };
                        let q0 = if q < k {
                            q
                        } else {
                            q - 1
                        };
                        if p != k && q != k {
                            assert(before[p0].number() < before[q0].number());
                        } else if p == k {
                            if q0 > k {
                                assert(before[k as int].number() < before[q0].number());
                            }
                        }
                    }
                }
            }
            proof {
                assert forall|ip: Ipv4| #[trigger] out@.contains(ip) <==> reachable(
                    all,
                    i + 1,
                    ip,
                ) by {
                    if out@.contains(ip) {
                        let j = choose|j: int| 0 <= j < out@.len() && out@[j] == ip;
                        if ip != x {
                            let j0 = if out@.len() == before.len() || j < k {
                                j
                            } else {
                                j - 1
                            };
                            assert(before[j0] == ip);
                            assert(before.contains(ip));
                        }
                    }
                    if reachable(all, i + 1, ip) {
                        if ip == x {
                            assert(out@[k as int] == x);
                        } else {
                            let n = choose|n: int| 0 <= n < i + 1 && (#[trigger] all[n]).ip == ip;
                            assert(n < i);
                            assert(reachable(all, i as int, ip));
                            assert(before.contains(ip));
                            let j = choose|j: int| 0 <= j < before.len() && before[j] == ip;
                            if out@.len() == before.len() || j < k {
                                assert(out@[j] == ip);
                            } else {
                                assert(out@[j + 1] == ip);
                            }
                        }
                    }
                }
            }
        } else {
            proof {
                assert forall|ip: Ipv4| #[trigger] out@.contains(ip) <==> reachable(
                    all,
                    i + 1,
                    ip,
                ) by {
                    if reachable(all, i + 1, ip) {
                        let n = choose|n: int| 0 <= n < i + 1 && (#[trigger] all[n]).ip == ip;
                        assert(n < i);
                        assert(reachable(all, i as int, ip));
                    }
                }
            }
        }
        i += 1;
    }
    out
}

/// The chosen adapter is used when it is there. Without a choice, or when it is
/// gone, no virtual adapter is ever used.
pub proof fn lan_choice(adapter: Option<Seq<char>>, nics: Seq<AdapterModel>)
    ensures
        match lan_of(adapter, nics) {
            Some(ip) => (exists|i: int|
                0 <= i < nics.len() && (#[trigger] nics[i]).ip == ip && (!virtual_adapter(
                    nics[i].name,
                    nics[i].ip,
                ) || adapter == Some(nics[i].name))),
            None => forall|i: int|
                0 <= i < nics.len() ==> virtual_adapter((#[trigger] nics[i]).name, nics[i].ip),
        },
{
    if let Some(name) = adapter {
        named_bounds(nics, name, 0);
    }
    real_bounds(nics, 0);
}

proof fn named_bounds(nics: Seq<AdapterModel>, name: Seq<char>, from: int)
    requires
        0 <= from,
    ensures
        match named_at(nics, name, from) {
            Some(i) => from <= i < nics.len() && nics[i].name == name,
            None => true,
        },
    decreases nics.len() - from,
{
    if from < nics.len() && nics[from].name != name {
        named_bounds(nics, name, from + 1);
    }
}

proof fn real_bounds(nics: Seq<AdapterModel>, from: int)
    requires
        0 <= from,
    ensures
        match real_at(nics, from) {
            Some(i) => from <= i < nics.len() && !virtual_adapter(nics[i].name, nics[i].ip),
            None => forall|i: int|
                from <= i < nics.len() ==> virtual_adapter((#[trigger] nics[i]).name, nics[i].ip),
        },
    decreases nics.len() - from,
{
    if from < nics.len() && virtual_adapter(nics[from].name, nics[from].ip) {
        real_bounds(nics, from + 1);
    }
}

/// The text of an octet stands for it, and has no dot.
proof fn octet_text(n: u8)
    ensures
        !decimal(n as nat).contains('.'),
        digits_value(decimal(n as nat)) == n,
{
    decimal_stands_for(n as nat);
    let d = decimal(n as nat);
    if d.contains('.') {
        let i = choose|i: int| 0 <= i < d.len() && d[i] == '.';
        assert(is_digit(d[i]));
    }
}

/// No two addresses have one text.
pub proof fn dotted_is_unique(x: Ipv4, y: Ipv4)
    requires
        x.dotted() == y.dotted(),
    ensures
        x == y,
{
    reveal_strlit(".");
    assert("."@ =~= seq!['.']);
    octet_text(x.a);
    octet_text(x.b);
    octet_text(x.c);
    octet_text(x.d);
    octet_text(y.a);
    octet_text(y.b);
    octet_text(y.c);
    octet_text(y.d);
    let (xa, xb, xc, xd) = (
        decimal(x.a as nat),
        decimal(x.b as nat),
        decimal(x.c as nat),
        decimal(x.d as nat),
    );
    let (ya, yb, yc, yd) = (
        decimal(y.a as nat),
        decimal(y.b as nat),
        decimal(y.c as nat),
        decimal(y.d as nat),
    );
    let dot = seq!['.'];
    last_cut_is_unique(xa + dot + xb + dot + xc, xd, ya + dot + yb + dot + yc, yd, '.');
    last_cut_is_unique(xa + dot + xb, xc, ya + dot + yb, yc, '.');
    last_cut_is_unique(xa, xb, ya, yb, '.');
}

/// The adapter that the user chose is taken, as long as it is there: the first of that
/// name. Otherwise the first is taken that is not virtual, and none where all are.
pub proof fn the_choice_is_kept(adapter: Option<Seq<char>>, nics: Seq<AdapterModel>, i: int)
    requires
        0 <= i < nics.len(),
    ensures
        adapter == Some(nics[i].name) && (forall|k: int|
            0 <= k < i ==> (#[trigger] nics[k]).name != nics[i].name) ==> lan_of(adapter, nics)
            == Some(nics[i].ip),
        (forall|k: int| 0 <= k < nics.len() ==> Some((#[trigger] nics[k]).name) != adapter)
            && !virtual_adapter(nics[i].name, nics[i].ip) && (forall|k: int|
            0 <= k < i ==> virtual_adapter((#[trigger] nics[k]).name, nics[k].ip)) ==> lan_of(
            adapter,
            nics,
        ) == Some(nics[i].ip),
{
    if let Some(name) = adapter {
        if name == nics[i].name && (forall|k: int|
            0 <= k < i ==> (#[trigger] nics[k]).name != nics[i].name) {
            named_is_first(nics, name, 0, i);
        }
        if forall|k: int| 0 <= k < nics.len() ==> Some((#[trigger] nics[k]).name) != adapter {
            named_bounds(nics, name, 0);
            if let Some(k) = named_at(nics, name, 0) {
                assert(Some(nics[k].name) != adapter);
            }
        }
    }
    if !virtual_adapter(nics[i].name, nics[i].ip) && (forall|k: int|
        0 <= k < i ==> virtual_adapter((#[trigger] nics[k]).name, nics[k].ip)) {
        real_is_first(nics, 0, i);
    }
}

proof fn named_is_first(nics: Seq<AdapterModel>, name: Seq<char>, from: int, i: int)
    requires
        0 <= from <= i < nics.len(),
        nics[i].name == name,
        forall|k: int| 0 <= k < i ==> (#[trigger] nics[k]).name != name,
    ensures
        named_at(nics, name, from) == Some(i),
    decreases i - from,
{
    if from < i {
        assert(nics[from].name != name);
        named_is_first(nics, name, from + 1, i);
    }
}

proof fn real_is_first(nics: Seq<AdapterModel>, from: int, i: int)
    requires
        0 <= from <= i < nics.len(),
        !virtual_adapter(nics[i].name, nics[i].ip),
        forall|k: int| 0 <= k < i ==> virtual_adapter((#[trigger] nics[k]).name, nics[k].ip),
    ensures
        real_at(nics, from) == Some(i),
    decreases i - from,
{
    if from < i {
        assert(virtual_adapter(nics[from].name, nics[from].ip));
        real_is_first(nics, from + 1, i);
    }
}

/// Addresses of this computer, of a link alone and of groups are not on the network, and
/// all others are. Container bridges and host-only networks have the ranges 172.17,
/// 172.18, 192.168.56 and 192.168.59.
pub proof fn ranges_of_addresses(ip: Ipv4)
    ensures
        !ip.on_lan() <==> (0x7F00_0000 <= ip.number() < 0x8000_0000 || 0xA9FE_0000 <= ip.number()
            < 0xA9FF_0000 || 0xE000_0000 <= ip.number() < 0xF000_0000),
        virtual_range(ip) <==> (0xAC11_0000 <= ip.number() < 0xAC13_0000 || 0xC0A8_3800
            <= ip.number() < 0xC0A8_3900 || 0xC0A8_3B00 <= ip.number() < 0xC0A8_3C00),
{
}

/// The order of a dictionary: one text comes before another where it is the beginning of
/// the other, or has the smaller character at the first place where they differ.
pub proof fn names_are_in_dictionary_order(a: Seq<char>, b: Seq<char>)
    ensures
        precedes(a, b, 0) <==> exists|k: int| #[trigger] differ_at(a, b, k),
{
    dictionary_from(a, b, 0);
}

/// True where `k` is the first place at which two texts differ, and the first one ends
/// there or has the smaller character.
pub open spec fn differ_at(a: Seq<char>, b: Seq<char>, k: int) -> bool {
    &&& 0 <= k < b.len()
    &&& k <= a.len()
    &&& forall|i: int| 0 <= i < k ==> a[i] == b[i]
    &&& k == a.len() || a[k] < b[k]
}

proof fn dictionary_from(a: Seq<char>, b: Seq<char>, i: int)
    requires
        0 <= i <= a.len(),
        i <= b.len(),
        forall|j: int| 0 <= j < i ==> a[j] == b[j],
    ensures
        precedes(a, b, i) <==> exists|k: int| #[trigger] differ_at(a, b, k),
    decreases b.len() - i,
{
    if i < b.len() && i < a.len() && a[i] == b[i] {
        dictionary_from(a, b, i + 1);
    } else if i < b.len() && (i >= a.len() || a[i] < b[i]) {
        assert(differ_at(a, b, i));
    } else {
        assert forall|k: int| !(#[trigger] differ_at(a, b, k)) by {
            if differ_at(a, b, k) {
                if k > i {
                    assert(a[i] == b[i]);
                } else if k < i {
                    assert(a[k] == b[k]);
                }
            }
        }
    }
}

/// The adapters that are listed are those that other machines can reach, and none else.
pub proof fn reachable_adapters_are_listed(s: Seq<AdapterModel>, n: int)
    requires
        0 <= n <= s.len(),
    ensures
        lan_part(s, n) == s.take(n).filter(
            |a: AdapterModel|
                a.ip.a != 127 && !(a.ip.a == 169 && a.ip.b == 254) && !(224 <= a.ip.a <= 239),
        ),
    decreases n,
{
    reveal(Seq::filter);
    if n > 0 {
        reachable_adapters_are_listed(s, n - 1);
        assert(s.take(n).drop_last() =~= s.take(n - 1));
    }
}

} // verus!
