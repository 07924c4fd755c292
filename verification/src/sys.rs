//! The load of this computer, as the overlay shows it, and when it is too much
//! for a preview.

use crate::figures::{divided, per, percent, percent_of};
use crate::float::{
    differences_keep_order, float, least, minus, over, plus, products_keep_order,
    quotients_keep_order, ratio, ratio_is_number, ratio_is_positive, seconds, sums_grow,
    sums_keep_order, times, zero, Single,
};
use crate::pairing::alphanumeric;
use crate::settings::string_view;
use crate::text::{
    begins, char_at, chars, contains_text, find, find_char, first_at, holds, is_digit, lower_char,
    lower_of, parse_number, parsed_number, remove_all, same, slice, stands_at, starts_with, text,
    trim, trimmed, without,
};
use vstd::prelude::*;
use vstd::string::*;

verus! {

/// Samples are at least this far apart, in nanoseconds.
pub const MIN_DT: u64 = 400_000_000;

/// The load of this computer.
pub struct SysLoad {
    pub cpu_app_pct: Single,
    pub cpu_pct: Single,
    pub ram_pct: Single,
    pub ram_used_gb: Single,
    pub ram_total_gb: Single,
    pub proc_mb: Single,
    pub nic_down_kbps: Single,
    pub nic_up_kbps: Single,
    pub gpu_name: String,
    pub gpu_3d_app: Single,
    pub gpu_3d_sys: Single,
    pub gpu_copy_app: Single,
    pub gpu_copy_sys: Single,
    pub gpu_vdec_app: Single,
    pub gpu_vdec_sys: Single,
    pub gpu_vp_app: Single,
    pub gpu_vp_sys: Single,
    pub gpu_compute_app: Single,
    pub gpu_compute_sys: Single,
    pub gpu_vram_used_mb: Single,
    pub gpu_vram_budget_mb: Single,
    pub gpu_shared_used_mb: Single,
    pub gpu_shared_budget_mb: Single,
}

impl SysLoad {
    /// Nothing measured.
    pub open spec fn is_blank(self) -> bool {
        &&& self.cpu_app_pct == zero() && self.cpu_pct == zero() && self.ram_pct == zero()
        &&& self.ram_used_gb == zero() && self.ram_total_gb == zero() && self.proc_mb == zero()
        &&& self.nic_down_kbps == zero() && self.nic_up_kbps == zero() && self.gpu_name@.len() == 0
        &&& self.gpu_3d_app == zero() && self.gpu_3d_sys == zero()
        &&& self.gpu_copy_app == zero() && self.gpu_copy_sys == zero()
        &&& self.gpu_vdec_app == zero() && self.gpu_vdec_sys == zero()
        &&& self.gpu_vp_app == zero() && self.gpu_vp_sys == zero()
        &&& self.gpu_compute_app == zero() && self.gpu_compute_sys == zero()
        &&& self.gpu_vram_used_mb == zero() && self.gpu_vram_budget_mb == zero()
        &&& self.gpu_shared_used_mb == zero() && self.gpu_shared_budget_mb == zero()
    }
}

impl Default for SysLoad {
    fn default() -> (r: SysLoad)
        ensures
            r.is_blank(),
    {
        SysLoad {
            cpu_app_pct: Single { bits: 0 },
            cpu_pct: Single { bits: 0 },
            ram_pct: Single { bits: 0 },
            ram_used_gb: Single { bits: 0 },
            ram_total_gb: Single { bits: 0 },
            proc_mb: Single { bits: 0 },
            nic_down_kbps: Single { bits: 0 },
            nic_up_kbps: Single { bits: 0 },
            gpu_name: String::new(),
            gpu_3d_app: Single { bits: 0 },
            gpu_3d_sys: Single { bits: 0 },
            gpu_copy_app: Single { bits: 0 },
            gpu_copy_sys: Single { bits: 0 },
            gpu_vdec_app: Single { bits: 0 },
            gpu_vdec_sys: Single { bits: 0 },
            gpu_vp_app: Single { bits: 0 },
            gpu_vp_sys: Single { bits: 0 },
            gpu_compute_app: Single { bits: 0 },
            gpu_compute_sys: Single { bits: 0 },
            gpu_vram_used_mb: Single { bits: 0 },
            gpu_vram_budget_mb: Single { bits: 0 },
            gpu_shared_used_mb: Single { bits: 0 },
            gpu_shared_budget_mb: Single { bits: 0 },
        }
    }
}

/// What there is too little of for a preview. The virtual camera and recordings
/// go on.
#[derive(Clone, Copy, Debug, PartialEq, Eq, Structural)]
pub enum PreviewHostStress {
    Cpu,
    AppCpu,
    Ram,
    Proc,
    Gpu,
    Vram,
    Decode,
}

impl PreviewHostStress {
    /// What the user is told.
    pub open spec fn words(self) -> Seq<char> {
        match self {
            PreviewHostStress::Cpu | PreviewHostStress::AppCpu => "Preview off \u{2014} CPU is maxed. Virtual camera and record stay native."@,
            PreviewHostStress::Ram => "Preview off \u{2014} host memory is too high."@,
            PreviewHostStress::Proc => "Preview off \u{2014} PocketCam memory is too high."@,
            PreviewHostStress::Gpu => "Preview off \u{2014} GPU is maxed. Virtual camera and record stay native."@,
            PreviewHostStress::Vram => "Preview off \u{2014} GPU memory is too high."@,
            PreviewHostStress::Decode => "Preview off \u{2014} decode is too slow. Virtual camera and record stay native."@,
        }
    }

    /// True of what threatens the whole computer.
    pub open spec fn of_memory(self) -> bool {
        self is Ram || self is Proc || self is Vram
    }

    /// What the user is told.
    pub fn toast(self) -> (r: &'static str)
        ensures
            r@ == self.words(),
    {
        match self {
            PreviewHostStress::Cpu | PreviewHostStress::AppCpu => "Preview off \u{2014} CPU is maxed. Virtual camera and record stay native.",
            PreviewHostStress::Ram => "Preview off \u{2014} host memory is too high.",
            PreviewHostStress::Proc => "Preview off \u{2014} PocketCam memory is too high.",
            PreviewHostStress::Gpu => "Preview off \u{2014} GPU is maxed. Virtual camera and record stay native.",
            PreviewHostStress::Vram => "Preview off \u{2014} GPU memory is too high.",
            PreviewHostStress::Decode => "Preview off \u{2014} decode is too slow. Virtual camera and record stay native.",
        }
    }

    /// How long it has to last before the preview goes, in nanoseconds.
    pub fn hold(self) -> (r: u64)
        ensures
            r == if self.of_memory() {
                250_000_000u64
            } else {
                800_000_000u64
            },
    {
        match self {
            PreviewHostStress::Ram | PreviewHostStress::Proc | PreviewHostStress::Vram => 250_000_000,
            _ => 800_000_000,
        }
    }

    /// True of what threatens the whole computer.
    pub fn is_oom(self) -> (r: bool)
        ensures
            r == self.of_memory(),
    {
        match self {
            PreviewHostStress::Ram | PreviewHostStress::Proc | PreviewHostStress::Vram => true,
            _ => false,
        }
    }
}

/// True where three quarters of a budget that matters are used.
pub open spec fn used_up(used: Single, budget: Single) -> bool {
    budget.bits > float(256).bits && percent_of(used, budget).reaches(75)
}

/// What there is too little of for a preview, if anything. Memory goes first,
/// then processors, then graphics, then decoding itself.
pub open spec fn stress_of(sys: SysLoad, decode_ms: Single) -> Option<PreviewHostStress> {
    let free = minus(sys.ram_total_gb, sys.ram_used_gb);
    if sys.ram_total_gb != zero() && (free.bits < ratio(3, 2).bits || sys.ram_pct.reaches(80)) {
        Some(PreviewHostStress::Ram)
    } else if sys.ram_total_gb != zero() && sys.proc_mb.reaches(450) {
        Some(PreviewHostStress::Proc)
    } else if sys.cpu_pct.reaches(75) {
        Some(PreviewHostStress::Cpu)
    } else if sys.cpu_app_pct.reaches(22) {
        Some(PreviewHostStress::AppCpu)
    } else if sys.gpu_3d_sys.reaches(75) {
        Some(PreviewHostStress::Gpu)
    } else if used_up(sys.gpu_vram_used_mb, sys.gpu_vram_budget_mb) || used_up(
        sys.gpu_shared_used_mb,
        sys.gpu_shared_budget_mb,
    ) {
        Some(PreviewHostStress::Vram)
    } else if decode_ms.reaches(28) {
        Some(PreviewHostStress::Decode)
    } else {
        None
    }
}

fn is_used_up(used: Single, budget: Single) -> (r: bool)
    ensures
        r == used_up(used, budget),
{
    budget.bits > Single::of(256).bits && percent(used, budget).at_least(75)
}

/// What there is too little of for a preview, if anything.
pub fn preview_host_stress(sys: &SysLoad, decode_ms: Single) -> (r: Option<PreviewHostStress>)
    ensures
        r == stress_of(*sys, decode_ms),
{
    if sys.ram_total_gb.bits > 0 {
        let free: Single = sys.ram_total_gb.minus(sys.ram_used_gb);
        if free.bits < Single::ratio(3, 2).bits || sys.ram_pct.at_least(80) {
            return Some(PreviewHostStress::Ram);
        }
        if sys.proc_mb.at_least(450) {
            return Some(PreviewHostStress::Proc);
        }
    }
    if sys.cpu_pct.at_least(75) {
        return Some(PreviewHostStress::Cpu);
    }
    if sys.cpu_app_pct.at_least(22) {
        return Some(PreviewHostStress::AppCpu);
    }
    if sys.gpu_3d_sys.at_least(75) {
        return Some(PreviewHostStress::Gpu);
    }
    if is_used_up(sys.gpu_vram_used_mb, sys.gpu_vram_budget_mb) || is_used_up(
        sys.gpu_shared_used_mb,
        sys.gpu_shared_budget_mb,
    ) {
        return Some(PreviewHostStress::Vram);
    }
    if decode_ms.at_least(28) {
        return Some(PreviewHostStress::Decode);
    }
    None
}

/// What the operating system counts. What could not be read is missing.
#[derive(Clone, Copy, Debug)]
pub struct Counters {
    /// Idle, kernel and user time of all processors. Kernel time holds idle time.
    pub system: Option<(u64, u64, u64)>,
    /// Kernel and user time of this program.
    pub process: Option<(u64, u64)>,
    /// Percentage in use, bytes there are, and bytes free.
    pub memory: Option<(u32, u64, u64)>,
    /// Bytes that this program has in memory.
    pub working_set: Option<u64>,
    /// Bytes received and sent.
    pub nic: Option<(u64, u64)>,
}

/// What was counted at the last sample.
#[derive(Clone, Copy, Debug, PartialEq, Eq, Structural)]
pub struct LastCounts {
    pub idle: u64,
    pub kernel: u64,
    pub user: u64,
    pub proc_kernel: u64,
    pub proc_user: u64,
    pub nic_in: u64,
    pub nic_out: u64,
}

/// A difference, none where a counter went back.
pub open spec fn diff(now: u64, before: u64) -> int {
    if now >= before {
        now - before
    } else {
        0
    }
}

/// A sum, as far as 64 bits go.
pub open spec fn sum64(a: int, b: int) -> int {
    if a + b > u64::MAX {
        u64::MAX as int
    } else {
        a + b
    }
}

/// Processor time of all processors since the last sample.
pub open spec fn busy_and_idle(last: LastCounts, c: Counters, have_prev: bool) -> int {
    match c.system {
        Some((_, k, u)) => if have_prev {
            sum64(diff(k, last.kernel), diff(u, last.user))
        } else {
            0
        },
        None => 0,
    }
}

/// Percentage of processor time that was not idle.
pub open spec fn cpu_of(last: LastCounts, c: Counters, have_prev: bool) -> Single {
    let total = busy_and_idle(last, c, have_prev);
    match c.system {
        Some((i, _, _)) => if total > 0 {
            let idle = over(float(diff(i, last.idle)), float(total));
            least(times(minus(float(1), idle), float(100)), float(100))
        } else {
            zero()
        },
        None => zero(),
    }
}

/// Percentage of processor time that this program took.
pub open spec fn app_cpu_of(last: LastCounts, c: Counters, have_prev: bool) -> Single {
    let total = busy_and_idle(last, c, have_prev);
    match c.process {
        Some((k, u)) => if have_prev && total > 0 {
            let own = sum64(diff(k, last.proc_kernel), diff(u, last.proc_user));
            least(percent_of(float(own), float(total)), float(100))
        } else {
            zero()
        },
        None => zero(),
    }
}

/// Kilobits per second that bytes in a time make. A time that is too short tells nothing.
pub open spec fn kbps_of(bytes: int, have_prev: bool, dt: u64) -> Single {
    let t = seconds(dt as int);
    if have_prev && t.bits > ratio(5, 100).bits {
        per(over(times(float(bytes), float(8)), t), 1000)
    } else {
        zero()
    }
}

/// The counts to compare the next sample with.
pub open spec fn next_counts(last: LastCounts, c: Counters) -> LastCounts {
    let a = match c.system {
        Some((i, k, u)) => LastCounts { idle: i, kernel: k, user: u, ..last },
        None => last,
    };
    let b = match c.process {
        Some((k, u)) => LastCounts { proc_kernel: k, proc_user: u, ..a },
        None => a,
    };
    match c.nic {
        Some((i, o)) => LastCounts { nic_in: i, nic_out: o, ..b },
        None => b,
    }
}

fn kbps(bytes: u64, have_prev: bool, dt: u64) -> (r: Single)
    ensures
        r == kbps_of(bytes as int, have_prev, dt),
{
    let t: Single = Single::seconds(dt);
    if have_prev && t.bits > Single::ratio(5, 100).bits {
        divided(Single::of(bytes).times(Single::of(8)).over(t), 1000)
    } else {
        Single { bits: 0 }
    }
}

/// Bytes as thousands of millions.
pub open spec fn gigabytes(n: u64) -> Single {
    per(float(n as int), 1_000_000_000)
}

/// Bytes as binary millions.
pub open spec fn megabytes(n: u64) -> Single {
    per(float(n as int), 1_048_576)
}

fn in_mb(n: u64) -> (r: Single)
    ensures
        r == megabytes(n),
{
    divided(Single::of(n), 1_048_576)
}

/// True of the load since the last sample, but for graphics. `dt` is the time since
/// then, in nanoseconds.
pub open spec fn measured(last: LastCounts, c: Counters, have_prev: bool, dt: u64, r: SysLoad) -> bool {
    &&& r.cpu_pct == cpu_of(last, c, have_prev)
    &&& r.cpu_app_pct == app_cpu_of(last, c, have_prev)
    &&& r.ram_pct == match c.memory {
        Some((p, _, _)) => float(p as int),
        None => zero(),
    }
    &&& r.ram_total_gb == match c.memory {
        Some((_, t, _)) => gigabytes(t),
        None => zero(),
    }
    &&& r.ram_used_gb == match c.memory {
        Some((_, t, f)) => minus(gigabytes(t), gigabytes(f)),
        None => zero(),
    }
    &&& r.proc_mb == match c.working_set {
        Some(b) => megabytes(b),
        None => zero(),
    }
    &&& r.nic_down_kbps == match c.nic {
        Some((i, _)) => kbps_of(diff(i, last.nic_in), have_prev, dt),
        None => zero(),
    }
    &&& r.nic_up_kbps == match c.nic {
        Some((_, o)) => kbps_of(diff(o, last.nic_out), have_prev, dt),
        None => zero(),
    }
    &&& r.gpu_name@.len() == 0
    &&& r.gpu_3d_app == zero() && r.gpu_3d_sys == zero() && r.gpu_copy_app == zero() && r.gpu_copy_sys == zero()
    &&& r.gpu_vdec_app == zero() && r.gpu_vdec_sys == zero() && r.gpu_vp_app == zero() && r.gpu_vp_sys == zero()
    &&& r.gpu_compute_app == zero() && r.gpu_compute_sys == zero()
    &&& r.gpu_vram_used_mb == zero() && r.gpu_vram_budget_mb == zero()
    &&& r.gpu_shared_used_mb == zero() && r.gpu_shared_budget_mb == zero()
}

/// The load since the last sample, but for graphics. `dt` is the time since
/// then, in nanoseconds.
pub fn read_load(last: &mut LastCounts, c: &Counters, have_prev: bool, dt: u64) -> (r: SysLoad)
    ensures
        *final(last) == next_counts(*old(last), *c),
        measured(*old(last), *c, have_prev, dt, r),
{
    let mut load: SysLoad = SysLoad::default();
    let mut total: u64 = 0;
    if let Some((idle, kernel, user)) = c.system {
        if have_prev {
            let di: u64 = idle.saturating_sub(last.idle);
            total = kernel.saturating_sub(last.kernel).saturating_add(
                user.saturating_sub(last.user),
            );
            if total > 0 {
                proof {
                    ratio_is_positive(total as int, 1);
                }
                let one: Single = Single::of(1);
                let busy: Single = one.minus(Single::of(di).over(Single::of(total)));
                load.cpu_pct = busy.times(Single::of(100)).least(Single::of(100));
            }
        }
        last.idle = idle;
        last.kernel = kernel;
        last.user = user;
    }
    if let Some((kernel, user)) = c.process {
        if have_prev && total > 0 {
            let dp: u64 = kernel.saturating_sub(last.proc_kernel).saturating_add(
                user.saturating_sub(last.proc_user),
            );
            proof {
                ratio_is_positive(total as int, 1);
            }
            let own: Single = percent(Single::of(dp), Single::of(total));
            load.cpu_app_pct = own.least(Single::of(100));
        }
        last.proc_kernel = kernel;
        last.proc_user = user;
    }
    if let Some((pct, all, free)) = c.memory {
        load.ram_pct = Single::of(pct as u64);
        load.ram_total_gb = divided(Single::of(all), 1_000_000_000);
        load.ram_used_gb = load.ram_total_gb.minus(divided(Single::of(free), 1_000_000_000));
    }
    if let Some(bytes) = c.working_set {
        load.proc_mb = in_mb(bytes);
    }
    if let Some((inn, out)) = c.nic {
        load.nic_down_kbps = kbps(inn.saturating_sub(last.nic_in), have_prev, dt);
        load.nic_up_kbps = kbps(out.saturating_sub(last.nic_out), have_prev, dt);
        last.nic_in = inn;
        last.nic_out = out;
    }
    load
}

/// A network interface.
#[derive(Clone, Copy, Debug, PartialEq, Eq, Structural)]
pub struct NicRow {
    pub loopback: bool,
    pub up: bool,
    pub ucast_in: u64,
    pub ucast_out: u64,
    pub octets_in: u64,
    pub octets_out: u64,
}

/// Lifetime traffic of an interface.
pub open spec fn traffic(r: NicRow) -> int {
    sum64(r.ucast_in as int, r.ucast_out as int)
}

/// True of an interface that is up and leads out.
pub open spec fn counts(r: NicRow) -> bool {
    r.up && !r.loopback
}

/// The first of the busiest interfaces among the first `n`.
pub open spec fn busiest(rows: Seq<NicRow>, n: int) -> Option<int>
    decreases n,
{
    if n <= 0 {
        None
    } else {
        let before = busiest(rows, n - 1);
        if !counts(rows[n - 1]) {
            before
        } else {
            match before {
                Some(k) => if traffic(rows[n - 1]) > traffic(rows[k]) {
                    Some(n - 1)
                } else {
                    Some(k)
                },
                None => Some(n - 1),
            }
        }
    }
}

/// Bytes received and sent by the busiest interface, which is most likely the
/// one in use.
pub fn nic_octets(rows: &[NicRow]) -> (r: Option<(u64, u64)>)
    ensures
        r == match busiest(rows@, rows@.len() as int) {
            Some(k) => Some((rows@[k].octets_in, rows@[k].octets_out)),
            None => None,
        },
{
    let mut best: Option<usize> = None;
    let mut i: usize = 0;
    while i < rows.len()
        invariant
            i <= rows@.len(),
            match best {
                Some(k) => k < i && busiest(rows@, i as int) == Some(k as int),
                None => busiest(rows@, i as int) is None,
            },
        decreases rows@.len() - i,
    {
        let row: NicRow = rows[i];
        if row.up && !row.loopback {
            let t: u64 = row.ucast_in.saturating_add(row.ucast_out);
            let better: bool = match best {
                Some(k) => t > rows[k].ucast_in.saturating_add(rows[k].ucast_out),
                None => true,
            };
            if better {
                best = Some(i);
            }
        }
        i += 1;
    }
    match best {
        Some(k) => Some((rows[k].octets_in, rows[k].octets_out)),
        None => None,
    }
}

/// What a part of a graphics processor does.
#[derive(Clone, Copy, Debug, PartialEq, Eq, Structural)]
pub enum EngineKind {
    ThreeD,
    Copy,
    VideoDecode,
    VideoProcess,
    Compute,
    Other,
}

/// What stands behind the last `p` that begins at or before `n`, or all of the text.
pub open spec fn behind_last(s: Seq<char>, p: Seq<char>, n: int) -> Seq<char>
    decreases n + 1,
{
    if n < 0 {
        s
    } else if stands_at(s, p, n) {
        s.subrange(n + p.len(), s.len() as int)
    } else {
        behind_last(s, p, n - 1)
    }
}

/// The letters and digits among the first `n` characters, in lower case.
pub open spec fn plain(s: Seq<char>, n: int) -> Seq<char>
    decreases n,
{
    if n <= 0 {
        Seq::empty()
    } else if alphanumeric(s[n - 1]) {
        plain(s, n - 1).push(lower_of(s[n - 1]))
    } else {
        plain(s, n - 1)
    }
}

/// What an engine does, by the plain name of its type.
pub open spec fn kind_of(t: Seq<char>) -> EngineKind {
    if begins(t, "3d"@) || begins(t, "graphics"@) {
        EngineKind::ThreeD
    } else if begins(t, "copy"@) {
        EngineKind::Copy
    } else if holds(t, "videodecode"@) || holds(t, "decode"@) || holds(t, "codec"@) {
        EngineKind::VideoDecode
    } else if holds(t, "videoprocess"@) || holds(t, "videoproc"@) {
        EngineKind::VideoProcess
    } else if begins(t, "compute"@) {
        EngineKind::Compute
    } else {
        EngineKind::Other
    }
}

/// What an engine does, by the name of its counter.
pub open spec fn engine_of(name: Seq<char>) -> EngineKind {
    let t = behind_last(name, "engtype_"@, name.len() as int);
    kind_of(plain(t, t.len() as int))
}

fn engine_suffix(name: &[char]) -> (r: Vec<char>)
    ensures
        r@ == behind_last(name@, "engtype_"@, name@.len() as int),
{
    let p: Vec<char> = chars("engtype_");
    let len: usize = name.len();
    let mut n: usize = len;
    loop
        invariant
            n <= len == name@.len(),
            p@ == "engtype_"@,
            behind_last(name@, p@, name@.len() as int) == behind_last(name@, p@, n as int),
        decreases n,
    {
        if crate::text::is_at(name, p.as_slice(), n) {
            return slice(name, n + p.len(), len);
        }
        if n == 0 {
            assert(behind_last(name@, p@, -1) == name@);
            return vstd::slice::slice_to_vec(name);
        }
        n -= 1;
    }
}

/// What an engine does, by the name of its counter.
pub fn engine_kind(name: &str) -> (r: EngineKind)
    ensures
        r == engine_of(name@),
{
    let c: Vec<char> = chars(name);
    let suffix: Vec<char> = engine_suffix(c.as_slice());
    let mut t: Vec<char> = Vec::new();
    let mut i: usize = 0;
    while i < suffix.len()
        invariant
            i <= suffix@.len(),
            t@ == plain(suffix@, i as int),
        decreases suffix@.len() - i,
    {
        let x: char = suffix[i];
        if ('0' <= x && x <= '9') || ('A' <= x && x <= 'Z') || ('a' <= x && x <= 'z') {
            t.push(lower_char(x));
        }
        i += 1;
    }
    let t: &[char] = t.as_slice();
    if starts_with(t, "3d") || starts_with(t, "graphics") {
        EngineKind::ThreeD
    } else if starts_with(t, "copy") {
        EngineKind::Copy
    } else if contains_text(t, "videodecode") || contains_text(t, "decode") || contains_text(
        t,
        "codec",
    ) {
        EngineKind::VideoDecode
    } else if contains_text(t, "videoprocess") || contains_text(t, "videoproc") {
        EngineKind::VideoProcess
    } else if starts_with(t, "compute") {
        EngineKind::Compute
    } else {
        EngineKind::Other
    }
}

/// Where the digits that begin at `i` end.
pub open spec fn digits_end(s: Seq<char>, i: int) -> int
    decreases s.len() - i,
{
    if i < 0 || i >= s.len() || !is_digit(s[i]) {
        i
    } else {
        digits_end(s, i + 1)
    }
}

/// The process that a counter is of.
pub open spec fn pid_of(name: Seq<char>) -> Option<int> {
    match first_at(name, "pid_"@, 0) {
        Some(i) => parsed_number(
            name.subrange(i + "pid_"@.len(), digits_end(name, i + "pid_"@.len())),
            u32::MAX as int,
        ),
        None => None,
    }
}

/// The process that a counter is of.
pub fn instance_pid(name: &str) -> (r: Option<u32>)
    ensures
        match r {
            Some(v) => pid_of(name@) == Some(v as int),
            None => pid_of(name@) is None,
        },
{
    let c: Vec<char> = chars(name);
    let p: Vec<char> = chars("pid_");
    match find(c.as_slice(), p.as_slice(), 0) {
        None => None,
        Some(i) => {
            assert(i + p.len() <= c.len());
            let from: usize = i + p.len();
            let mut to: usize = from;
            while to < c.len() && '0' <= c[to] && c[to] <= '9'
                invariant
                    from <= to <= c@.len(),
                    digits_end(c@, from as int) == digits_end(c@, to as int),
                decreases c@.len() - to,
            {
                to += 1;
            }
            let d: Vec<char> = slice(c.as_slice(), from, to);
            parse_number(d.as_slice(), u32::MAX)
        },
    }
}

/// The part of a counter's name that tells graphics adapters apart.
pub open spec fn luid_key_of(name: Seq<char>) -> Option<Seq<char>> {
    match first_at(name, "luid_"@, 0) {
        Some(i) => {
            let from = i + "luid_"@.len();
            match first_at(name, "_phys"@, from) {
                Some(e) => Some(name.subrange(i, e)),
                None => match first_at(name, "_eng"@, from) {
                    Some(e) => Some(name.subrange(i, e)),
                    None => None,
                },
            }
        },
        None => None,
    }
}

/// The part of a counter's name that tells graphics adapters apart.
pub fn instance_luid_key(name: &str) -> (r: Option<String>)
    ensures
        string_view(r) == luid_key_of(name@),
{
    let c: Vec<char> = chars(name);
    let p: Vec<char> = chars("luid_");
    match find(c.as_slice(), p.as_slice(), 0) {
        None => None,
        Some(i) => {
            assert(i + p.len() <= c.len());
            let from: usize = i + p.len();
            let phys: Vec<char> = chars("_phys");
            let eng: Vec<char> = chars("_eng");
            match find(c.as_slice(), phys.as_slice(), from) {
                Some(e) => {
                    let k: Vec<char> = slice(c.as_slice(), i, e);
                    Some(text(k.as_slice()))
                },
                None => match find(c.as_slice(), eng.as_slice(), from) {
                    Some(e) => {
                        let k: Vec<char> = slice(c.as_slice(), i, e);
                        Some(text(k.as_slice()))
                    },
                    None => None,
                },
            }
        },
    }
}

/// The value of a hexadecimal digit.
pub open spec fn hex_digit(c: char) -> Option<int> {
    if '0' <= c && c <= '9' {
        Some(c as int - '0' as int)
    } else if 'a' <= c && c <= 'f' {
        Some(c as int - 'a' as int + 10)
    } else if 'A' <= c && c <= 'F' {
        Some(c as int - 'A' as int + 10)
    } else {
        None
    }
}

/// The number that hexadecimal digits from `i` on stand for, given what those
/// before them do; nothing where one is no digit, or it exceeds a limit.
pub open spec fn hex_from(s: Seq<char>, i: int, sofar: int, limit: int) -> Option<int>
    decreases s.len() - i,
{
    if i < 0 || i >= s.len() {
        Some(sofar)
    } else {
        match hex_digit(s[i]) {
            Some(d) => if 16 * sofar + d <= limit {
                hex_from(s, i + 1, 16 * sofar + d, limit)
            } else {
                None
            },
            None => None,
        }
    }
}

/// A hexadecimal number as it is written: a sign or none, and digits. A minus
/// sign is taken where there is a lower limit.
pub open spec fn parsed_hex(s: Seq<char>, low: int, high: int) -> Option<int> {
    if s.len() == 0 {
        None
    } else if s[0] == '-' && low > 0 {
        if s.len() == 1 {
            None
        } else {
            match hex_from(s, 1, 0, low) {
                Some(v) => Some(-v),
                None => None,
            }
        }
    } else if s[0] == '+' {
        if s.len() == 1 {
            None
        } else {
            hex_from(s, 1, 0, high)
        }
    } else {
        hex_from(s, 0, 0, high)
    }
}

fn hex_value(s: &[char], from: usize, limit: u64) -> (r: Option<u64>)
    requires
        from <= s@.len(),
        limit <= 0xFFFF_FFFF,
    ensures
        match r {
            Some(v) => hex_from(s@, from as int, 0, limit as int) == Some(v as int) && v <= limit,
            None => hex_from(s@, from as int, 0, limit as int) is None,
        },
{
    let mut v: u64 = 0;
    let mut i: usize = from;
    while i < s.len()
        invariant
            from <= i <= s@.len(),
            v <= limit <= 0xFFFF_FFFF,
            hex_from(s@, from as int, 0, limit as int) == hex_from(
                s@,
                i as int,
                v as int,
                limit as int,
            ),
        decreases s@.len() - i,
    {
        let c: char = s[i];
        let d: u64 = if '0' <= c && c <= '9' {
            c as u64 - '0' as u64
        } else if 'a' <= c && c <= 'f' {
            c as u64 - 'a' as u64 + 10
        } else if 'A' <= c && c <= 'F' {
            c as u64 - 'A' as u64 + 10
        } else {
            return None;
        };
        if 16 * v + d > limit {
            return None;
        }
        v = 16 * v + d;
        i += 1;
    }
    Some(v)
}

/// A hexadecimal number within limits.
fn parse_hex(s: &[char], low: u64, high: u64) -> (r: Option<i64>)
    requires
        low <= 0xFFFF_FFFF,
        high <= 0xFFFF_FFFF,
    ensures
        match r {
            Some(v) => parsed_hex(s@, low as int, high as int) == Some(v as int) && -low <= v
                <= high,
            None => parsed_hex(s@, low as int, high as int) is None,
        },
{
    if s.len() == 0 {
        return None;
    }
    if s[0] == '-' && low > 0 {
        if s.len() == 1 {
            return None;
        }
        return match hex_value(s, 1, low) {
            Some(v) => Some(-(v as i64)),
            None => None,
        };
    }
    if s[0] == '+' {
        if s.len() == 1 {
            return None;
        }
        return match hex_value(s, 1, high) {
            Some(v) => Some(v as i64),
            None => None,
        };
    }
    match hex_value(s, 0, high) {
        Some(v) => Some(v as i64),
        None => None,
    }
}

/// Where a number begins behind any `0x` at `i`.
pub open spec fn past_prefix(s: Seq<char>, i: int) -> int
    decreases s.len() - i,
{
    if 0 <= i && i + 2 <= s.len() && s[i] == '0' && s[i + 1] == 'x' {
        past_prefix(s, i + 2)
    } else {
        i
    }
}

fn strip_prefix(s: &[char]) -> (r: Vec<char>)
    ensures
        r@ == s@.subrange(past_prefix(s@, 0), s@.len() as int),
{
    let mut i: usize = 0;
    while s.len() - i >= 2 && s[i] == '0' && s[i + 1] == 'x'
        invariant
            i <= s@.len(),
            past_prefix(s@, 0) == past_prefix(s@, i as int),
        decreases s@.len() - i,
    {
        i += 2;
    }
    slice(s, i, s.len())
}

/// A hexadecimal part of a counter's name.
pub open spec fn hex_part(s: Seq<char>, low: int, high: int) -> Option<int> {
    parsed_hex(s.subrange(past_prefix(s, 0), s.len() as int), low, high)
}

/// The identifier of the graphics adapter that a counter is of: low and high part.
pub open spec fn luid_of(name: Seq<char>) -> Option<(int, int)> {
    match first_at(name, "luid_"@, 0) {
        None => None,
        Some(i) => {
            let from = i + "luid_"@.len();
            let mid = char_at(name, '_', from);
            let end = char_at(name, '_', mid + 1);
            if mid >= name.len() {
                None
            } else {
                match hex_part(name.subrange(from, mid), 0x8000_0000, 0x7FFF_FFFF) {
                    None => None,
                    Some(high) => match hex_part(name.subrange(mid + 1, end), 0, 0xFFFF_FFFF) {
                        None => None,
                        Some(low) => Some((low, high)),
                    },
                }
            }
        },
    }
}

/// The identifier of the graphics adapter that a counter is of: low and high part.
pub fn instance_luid(name: &str) -> (r: Option<(u32, i32)>)
    ensures
        match r {
            Some((low, high)) => luid_of(name@) == Some((low as int, high as int)),
            None => luid_of(name@) is None,
        },
{
    let c: Vec<char> = chars(name);
    let p: Vec<char> = chars("luid_");
    match find(c.as_slice(), p.as_slice(), 0) {
        None => None,
        Some(i) => {
            assert(i + p.len() <= c.len());
            let from: usize = i + p.len();
            let mid: usize = find_char(c.as_slice(), '_', from);
            if mid >= c.len() {
                return None;
            }
            let end: usize = find_char(c.as_slice(), '_', mid + 1);
            let a: Vec<char> = slice(c.as_slice(), from, mid);
            let b: Vec<char> = slice(c.as_slice(), mid + 1, end);
            let a: Vec<char> = strip_prefix(a.as_slice());
            let b: Vec<char> = strip_prefix(b.as_slice());
            match parse_hex(a.as_slice(), 0x8000_0000, 0x7FFF_FFFF) {
                None => None,
                Some(high) => match parse_hex(b.as_slice(), 0, 0xFFFF_FFFF) {
                    None => None,
                    Some(low) => Some((low as u32, high as i32)),
                },
            }
        },
    }
}

/// A graphics adapter's name without its maker.
pub open spec fn short_name(raw: Seq<char>) -> Seq<char> {
    let a = without(raw, "NVIDIA GeForce "@);
    let b = without(a, "NVIDIA "@);
    let c = without(b, "Intel(R) "@);
    let d = without(c, "Intel "@);
    let e = without(d, "AMD Radeon "@);
    let f = without(e, "AMD "@);
    trimmed(f)
}

/// A graphics adapter's name without its maker.
pub fn short_gpu_name(raw: &str) -> (r: String)
    ensures
        r@ == short_name(raw@),
{
    let c: Vec<char> = chars(raw);
    let a: Vec<char> = remove_all(c.as_slice(), "NVIDIA GeForce ");
    let a: Vec<char> = remove_all(a.as_slice(), "NVIDIA ");
    let a: Vec<char> = remove_all(a.as_slice(), "Intel(R) ");
    let a: Vec<char> = remove_all(a.as_slice(), "Intel ");
    let a: Vec<char> = remove_all(a.as_slice(), "AMD Radeon ");
    let a: Vec<char> = remove_all(a.as_slice(), "AMD ");
    let t: Vec<char> = trim(a.as_slice());
    text(t.as_slice())
}

/// A counter of a graphics engine, as it was read.
pub struct GpuItem {
    pub name: String,
    /// Percentage in use.
    pub value: Single,
}

/// What a counter tells.
pub struct GpuHit {
    pub pid: u32,
    pub luid_key: String,
    pub kind: EngineKind,
    pub v: Single,
    pub luid: Option<(u32, i32)>,
}

/// What a counter tells.
pub ghost struct HitModel {
    pub pid: u32,
    pub key: Seq<char>,
    pub kind: EngineKind,
    pub v: Single,
    pub luid: Option<(u32, i32)>,
}

impl View for GpuHit {
    type V = HitModel;

    open spec fn view(&self) -> HitModel {
        HitModel {
            pid: self.pid,
            key: self.luid_key@,
            kind: self.kind,
            v: self.v,
            luid: self.luid,
        }
    }
}

/// What counters tell.
pub open spec fn hits_view(v: Seq<GpuHit>) -> Seq<HitModel> {
    v.map_values(|h: GpuHit| h@)
}

/// What a counter tells.
pub open spec fn hit_of(name: Seq<char>, value: Single) -> HitModel {
    HitModel {
        pid: match pid_of(name) {
            Some(p) => p as u32,
            None => 0,
        },
        key: match luid_key_of(name) {
            Some(k) => k,
            None => Seq::empty(),
        },
        kind: engine_of(name),
        v: value,
        luid: match luid_of(name) {
            Some((low, high)) => Some((low as u32, high as i32)),
            None => None,
        },
    }
}

/// What counters tell. One that stands at nothing, or at no finite number, tells
/// nothing.
pub open spec fn hits_of(items: Seq<GpuItem>, n: int) -> Seq<HitModel>
    decreases n,
{
    if n <= 0 {
        Seq::empty()
    } else if items[n - 1].value.bits == 0 || items[n - 1].value.bits >= 0x7F80_0000 {
        hits_of(items, n - 1)
    } else {
        hits_of(items, n - 1).push(hit_of(items[n - 1].name@, items[n - 1].value))
    }
}

fn read_hits(items: &[GpuItem]) -> (r: Vec<GpuHit>)
    ensures
        hits_view(r@) == hits_of(items@, items@.len() as int),
{
    let mut r: Vec<GpuHit> = Vec::new();
    assert(hits_view(r@) =~= Seq::empty());
    let mut i: usize = 0;
    while i < items.len()
        invariant
            i <= items@.len(),
            hits_view(r@) == hits_of(items@, i as int),
        decreases items@.len() - i,
    {
        let item: &GpuItem = &items[i];
        if item.value.bits > 0 && item.value.bits < 0x7F80_0000 {
            let ghost before = r@;
            let name: &str = item.name.as_str();
            let hit: GpuHit = GpuHit {
                pid: match instance_pid(name) {
                    Some(p) => p,
                    None => 0,
                },
                luid_key: match instance_luid_key(name) {
                    Some(k) => k,
                    None => String::new(),
                },
                kind: engine_kind(name),
                v: item.value,
                luid: instance_luid(name),
            };
            let ghost m = hit@;
            assert(m == hit_of(item.name@, item.value));
            r.push(hit);
            assert(hits_view(r@) =~= hits_view(before).push(m));
        }
        i += 1;
    }
    r
}

/// True where a counter has a say in which adapter is shown: it names one, and
/// it is of this program, or no counter that names one is.
pub open spec fn has_say(hits: Seq<HitModel>, pid: u32, i: int) -> bool {
    hits[i].key.len() > 0 && (hits[i].pid == pid || !any_ours(hits, pid))
}

/// True where a counter that names an adapter is of this program.
pub open spec fn any_ours(hits: Seq<HitModel>, pid: u32) -> bool {
    exists|i: int| 0 <= i < hits.len() && (#[trigger] hits[i]).key.len() > 0 && hits[i].pid == pid
}

/// What the first `n` counters with a say add up to for an adapter.
pub open spec fn weight(hits: Seq<HitModel>, pid: u32, key: Seq<char>, n: int) -> Single
    decreases n,
{
    if n <= 0 {
        zero()
    } else if has_say(hits, pid, n - 1) && hits[n - 1].key == key {
        plus(weight(hits, pid, key, n - 1), hits[n - 1].v)
    } else {
        weight(hits, pid, key, n - 1)
    }
}

/// True of the adapter to show: the one that is used most, by this program if it
/// uses any. Of adapters that are used alike, either may be it.
pub open spec fn shown_adapter(hits: Seq<HitModel>, pid: u32, key: Option<Seq<char>>) -> bool {
    let n = hits.len() as int;
    match key {
        None => forall|i: int| 0 <= i < n ==> !#[trigger] has_say(hits, pid, i),
        Some(k) => {
            &&& exists|i: int| 0 <= i < n && #[trigger] has_say(hits, pid, i) && hits[i].key == k
            &&& forall|i: int|
                0 <= i < n && #[trigger] has_say(hits, pid, i) ==> weight(
                    hits,
                    pid,
                    hits[i].key,
                    n,
                ).bits <= weight(hits, pid, k, n).bits
        },
    }
}

fn uses_any(hits: &[GpuHit], pid: u32) -> (r: bool)
    ensures
        r == any_ours(hits_view(hits@), pid),
{
    let ghost hs = hits_view(hits@);
    let mut i: usize = 0;
    while i < hits.len()
        invariant
            i <= hits@.len(),
            hs == hits_view(hits@),
            forall|k: int| 0 <= k < i ==> !((#[trigger] hs[k]).key.len() > 0 && hs[k].pid == pid),
        decreases hits@.len() - i,
    {
        assert(hs[i as int] == hits@[i as int]@);
        if !hits[i].luid_key.as_str().is_empty() && hits[i].pid == pid {
            return true;
        }
        i += 1;
    }
    false
}

fn weigh(hits: &[GpuHit], pid: u32, ours: bool, key: &str) -> (r: Single)
    requires
        ours == any_ours(hits_view(hits@), pid),
    ensures
        r == weight(hits_view(hits@), pid, key@, hits@.len() as int),
{
    let ghost hs = hits_view(hits@);
    let len: usize = hits.len();
    let mut sum: Single = Single { bits: 0 };
    let mut i: usize = 0;
    while i < len
        invariant
            i <= len == hits@.len(),
            hs == hits_view(hits@),
            ours == any_ours(hs, pid),
            sum == weight(hs, pid, key@, i as int),
        decreases len - i,
    {
        assert(hs[i as int] == hits@[i as int]@);
        let h: &GpuHit = &hits[i];
        if !h.luid_key.as_str().is_empty() && (h.pid == pid || !ours) && same(
            h.luid_key.as_str(),
            key,
        ) {
            sum = sum.plus(h.v);
        }
        i += 1;
    }
    sum
}

/// The graphics adapter to show.
pub fn pick_luid_key(hits: &[GpuHit], pid: u32) -> (r: Option<String>)
    ensures
        shown_adapter(hits_view(hits@), pid, string_view(r)),
{
    let ghost hs = hits_view(hits@);
    let ours: bool = uses_any(hits, pid);
    let mut best: Option<usize> = None;
    let mut top: Single = Single { bits: 0 };
    let mut i: usize = 0;
    while i < hits.len()
        invariant
            i <= hits@.len(),
            hs == hits_view(hits@),
            ours == any_ours(hs, pid),
            match best {
                Some(b) => {
                    &&& b < i
                    &&& has_say(hs, pid, b as int)
                    &&& top == weight(hs, pid, hs[b as int].key, hs.len() as int)
                    &&& forall|k: int|
                        0 <= k < i && #[trigger] has_say(hs, pid, k) ==> weight(
                            hs,
                            pid,
                            hs[k].key,
                            hs.len() as int,
                        ).bits <= top.bits
                },
                None => forall|k: int| 0 <= k < i ==> !#[trigger] has_say(hs, pid, k),
            },
        decreases hits@.len() - i,
    {
        assert(hs[i as int] == hits@[i as int]@);
        let h: &GpuHit = &hits[i];
        if !h.luid_key.as_str().is_empty() && (h.pid == pid || !ours) {
            assert(has_say(hs, pid, i as int));
            let w: Single = weigh(hits, pid, ours, h.luid_key.as_str());
            if best.is_none() || w.bits > top.bits {
                best = Some(i);
                top = w;
            }
        }
        i += 1;
    }
    match best {
        Some(b) => {
            assert(hs[b as int] == hits@[b as int]@);
            Some(hits[b].luid_key.clone())
        },
        None => None,
    }
}

/// How much of each kind of engine is in use.
#[derive(Clone, Copy, Debug, PartialEq, Eq, Structural)]
pub struct EngineUse {
    pub d3: Single,
    pub copy: Single,
    pub vdec: Single,
    pub vp: Single,
    pub compute: Single,
    pub other: Single,
}

/// A sum, up to one hundred percent.
pub open spec fn up_to_full(a: Single, v: Single) -> Single {
    least(plus(a, v), float(100))
}

impl EngineUse {
    /// Nothing in use.
    pub open spec fn none() -> EngineUse {
        EngineUse {
            d3: zero(),
            copy: zero(),
            vdec: zero(),
            vp: zero(),
            compute: zero(),
            other: zero(),
        }
    }

    /// With more in use.
    pub open spec fn plus(self, kind: EngineKind, v: Single) -> EngineUse {
        match kind {
            EngineKind::ThreeD => EngineUse { d3: up_to_full(self.d3, v), ..self },
            EngineKind::Copy => EngineUse { copy: up_to_full(self.copy, v), ..self },
            EngineKind::VideoDecode => EngineUse { vdec: up_to_full(self.vdec, v), ..self },
            EngineKind::VideoProcess => EngineUse { vp: up_to_full(self.vp, v), ..self },
            EngineKind::Compute => EngineUse { compute: up_to_full(self.compute, v), ..self },
            EngineKind::Other => EngineUse { other: up_to_full(self.other, v), ..self },
        }
    }

    fn add_use(&mut self, kind: EngineKind, v: Single)
        ensures
            *final(self) == old(self).plus(kind, v),
    {
        match kind {
            EngineKind::ThreeD => {
                self.d3 = capped_sum(self.d3, v);
            },
            EngineKind::Copy => {
                self.copy = capped_sum(self.copy, v);
            },
            EngineKind::VideoDecode => {
                self.vdec = capped_sum(self.vdec, v);
            },
            EngineKind::VideoProcess => {
                self.vp = capped_sum(self.vp, v);
            },
            EngineKind::Compute => {
                self.compute = capped_sum(self.compute, v);
            },
            EngineKind::Other => {
                self.other = capped_sum(self.other, v);
            },
        }
    }
}

fn capped_sum(a: Single, v: Single) -> (r: Single)
    ensures
        r == up_to_full(a, v),
{
    a.plus(v).least(Single::of(100))
}

fn no_use() -> (r: EngineUse)
    ensures
        r == EngineUse::none(),
{
    let none: Single = Single { bits: 0 };
    EngineUse { d3: none, copy: none, vdec: none, vp: none, compute: none, other: none }
}

/// True of a counter of the adapter that is shown.
pub open spec fn on_adapter(h: HitModel, key: Option<Seq<char>>) -> bool {
    key matches Some(k) ==> h.key == k
}

/// What the first `n` counters of an adapter add up to, of all programs or of one.
pub open spec fn use_of(
    hits: Seq<HitModel>,
    key: Option<Seq<char>>,
    pid: Option<u32>,
    n: int,
) -> EngineUse
    decreases n,
{
    if n <= 0 {
        EngineUse::none()
    } else {
        let before = use_of(hits, key, pid, n - 1);
        let h = hits[n - 1];
        if on_adapter(h, key) && (pid matches Some(p) ==> h.pid == p) {
            before.plus(h.kind, h.v)
        } else {
            before
        }
    }
}

/// The identifier that this program's first counters of an adapter give.
pub open spec fn own_luid(hits: Seq<HitModel>, key: Option<Seq<char>>, pid: u32, n: int) -> Option<
    (u32, i32),
>
    decreases n,
{
    if n <= 0 {
        None
    } else {
        match own_luid(hits, key, pid, n - 1) {
            Some(l) => Some(l),
            None => if on_adapter(hits[n - 1], key) && hits[n - 1].pid == pid {
                hits[n - 1].luid
            } else {
                None
            },
        }
    }
}

/// Adds up the counters of an adapter: this program's, all, and the identifier.
pub fn add_up(hits: &[GpuHit], key: &Option<String>, pid: u32) -> (r: (
    EngineUse,
    EngineUse,
    Option<(u32, i32)>,
))
    ensures
        r.0 == use_of(hits_view(hits@), string_view(*key), Some(pid), hits@.len() as int),
        r.1 == use_of(hits_view(hits@), string_view(*key), None, hits@.len() as int),
        r.2 == own_luid(hits_view(hits@), string_view(*key), pid, hits@.len() as int),
{
    let ghost hs = hits_view(hits@);
    let ghost k = string_view(*key);
    let mut app: EngineUse = no_use();
    let mut all: EngineUse = no_use();
    let mut luid: Option<(u32, i32)> = None;
    let mut i: usize = 0;
    while i < hits.len()
        invariant
            i <= hits@.len(),
            hs == hits_view(hits@),
            k == string_view(*key),
            app == use_of(hs, k, Some(pid), i as int),
            all == use_of(hs, k, None, i as int),
            luid == own_luid(hs, k, pid, i as int),
        decreases hits@.len() - i,
    {
        assert(hs[i as int] == hits@[i as int]@);
        let h: &GpuHit = &hits[i];
        let here: bool = match key {
            Some(s) => same(h.luid_key.as_str(), s.as_str()),
            None => true,
        };
        if here {
            all.add_use(h.kind, h.v);
            if h.pid == pid {
                app.add_use(h.kind, h.v);
                if luid.is_none() {
                    luid = h.luid;
                }
            }
        }
        i += 1;
    }
    (app, all, luid)
}

/// A graphics adapter.
pub struct GpuAdapter {
    pub software: bool,
    pub raw_name: String,
    /// Bytes of its own memory.
    pub dedicated: u64,
    /// Bytes of it that this program has, and may have.
    pub used: u64,
    pub budget: u64,
    /// Bytes of the memory of all that this program has through it, and may have.
    pub shared_used: u64,
    pub shared_budget: u64,
    pub luid: (u32, i32),
}

/// True of an adapter worth showing.
pub open spec fn real_adapter(a: GpuAdapter) -> bool {
    &&& !a.software
    &&& short_name(a.raw_name@).len() > 0
    &&& !holds(short_name(a.raw_name@), "Microsoft Basic"@)
}

/// The last of the first `n` adapters with an identifier.
pub open spec fn adapter_with(rows: Seq<GpuAdapter>, luid: Option<(u32, i32)>, n: int) -> Option<int>
    decreases n,
{
    if n <= 0 {
        None
    } else if real_adapter(rows[n - 1]) && luid == Some(rows[n - 1].luid) {
        Some(n - 1)
    } else {
        adapter_with(rows, luid, n - 1)
    }
}

/// The first of the first `n` adapters with the most memory of its own.
pub open spec fn largest_adapter(rows: Seq<GpuAdapter>, n: int) -> Option<int>
    decreases n,
{
    if n <= 0 {
        None
    } else {
        let before = largest_adapter(rows, n - 1);
        if !real_adapter(rows[n - 1]) {
            before
        } else {
            match before {
                Some(k) => if rows[n - 1].dedicated > rows[k].dedicated {
                    Some(n - 1)
                } else {
                    Some(k)
                },
                None => Some(n - 1),
            }
        }
    }
}

/// The adapter whose memory is shown: the one in use, otherwise the largest.
pub open spec fn memory_adapter(rows: Seq<GpuAdapter>, prefer: Option<(u32, i32)>) -> Option<int> {
    match adapter_with(rows, prefer, rows.len() as int) {
        Some(k) => Some(k),
        None => largest_adapter(rows, rows.len() as int),
    }
}

fn same_luid(a: Option<(u32, i32)>, b: (u32, i32)) -> (r: bool)
    ensures
        r == (a == Some(b)),
{
    match a {
        Some((x, y)) => x == b.0 && y == b.1,
        None => false,
    }
}

fn find_memory_adapter(rows: &[GpuAdapter], prefer: Option<(u32, i32)>) -> (r: Option<usize>)
    ensures
        match r {
            Some(k) => k < rows@.len() && memory_adapter(rows@, prefer) == Some(k as int),
            None => memory_adapter(rows@, prefer) is None,
        },
{
    let mut matched: Option<usize> = None;
    let mut best: Option<usize> = None;
    let mut i: usize = 0;
    while i < rows.len()
        invariant
            i <= rows@.len(),
            match matched {
                Some(k) => k < i && adapter_with(rows@, prefer, i as int) == Some(k as int),
                None => adapter_with(rows@, prefer, i as int) is None,
            },
            match best {
                Some(k) => k < i && largest_adapter(rows@, i as int) == Some(k as int),
                None => largest_adapter(rows@, i as int) is None,
            },
        decreases rows@.len() - i,
    {
        let a: &GpuAdapter = &rows[i];
        let name: String = short_gpu_name(a.raw_name.as_str());
        let c: Vec<char> = chars(name.as_str());
        if !a.software && !c.is_empty() && !contains_text(c.as_slice(), "Microsoft Basic") {
            if same_luid(prefer, a.luid) {
                matched = Some(i);
            }
            let take: bool = match best {
                Some(k) => a.dedicated > rows[k].dedicated,
                None => true,
            };
            if take {
                best = Some(i);
            }
        }
        i += 1;
    }
    match matched {
        Some(k) => Some(k),
        None => best,
    }
}

/// True of a load with the use of engines and the memory of an adapter filled in.
pub open spec fn filled(
    before: SysLoad,
    after: SysLoad,
    app: EngineUse,
    all: EngineUse,
    adapter: Option<GpuAdapter>,
) -> bool {
    &&& after == (SysLoad {
        gpu_3d_app: least(app.d3, all.d3),
        gpu_3d_sys: all.d3,
        gpu_copy_app: least(app.copy, all.copy),
        gpu_copy_sys: all.copy,
        gpu_vdec_app: least(app.vdec, all.vdec),
        gpu_vdec_sys: all.vdec,
        gpu_vp_app: least(app.vp, all.vp),
        gpu_vp_sys: all.vp,
        gpu_compute_app: least(app.compute, all.compute),
        gpu_compute_sys: all.compute,
        gpu_name: after.gpu_name,
        gpu_vram_used_mb: after.gpu_vram_used_mb,
        gpu_vram_budget_mb: after.gpu_vram_budget_mb,
        gpu_shared_used_mb: after.gpu_shared_used_mb,
        gpu_shared_budget_mb: after.gpu_shared_budget_mb,
        ..before
    })
    &&& match adapter {
        Some(a) => {
            &&& after.gpu_name@ == short_name(a.raw_name@)
            &&& after.gpu_vram_used_mb == megabytes(a.used)
            &&& after.gpu_vram_budget_mb == megabytes(a.budget)
            &&& after.gpu_shared_used_mb == megabytes(a.shared_used)
            &&& after.gpu_shared_budget_mb == megabytes(a.shared_budget)
        },
        None => {
            &&& after.gpu_name == before.gpu_name
            &&& after.gpu_vram_used_mb == before.gpu_vram_used_mb
            &&& after.gpu_vram_budget_mb == before.gpu_vram_budget_mb
            &&& after.gpu_shared_used_mb == before.gpu_shared_used_mb
            &&& after.gpu_shared_budget_mb == before.gpu_shared_budget_mb
        },
    }
}

/// The graphics part of the load, given which adapter is shown.
pub open spec fn filled_for(
    before: SysLoad,
    after: SysLoad,
    hits: Seq<HitModel>,
    key: Option<Seq<char>>,
    pid: u32,
    rows: Seq<GpuAdapter>,
) -> bool {
    let n = hits.len() as int;
    filled(
        before,
        after,
        use_of(hits, key, Some(pid), n),
        use_of(hits, key, None, n),
        match memory_adapter(rows, own_luid(hits, key, pid, n)) {
            Some(k) => Some(rows[k]),
            None => None,
        },
    )
}

/// Fills in the graphics part of the load, out of counters and adapters.
pub fn fill_gpu(load: &mut SysLoad, items: &[GpuItem], pid: u32, rows: &[GpuAdapter])
    ensures
        exists|key: Option<Seq<char>>|
            shown_adapter(hits_of(items@, items@.len() as int), pid, key) && #[trigger] filled_for(
                *old(load),
                *final(load),
                hits_of(items@, items@.len() as int),
                key,
                pid,
                rows@,
            ),
{
    let hits: Vec<GpuHit> = read_hits(items);
    let ghost hs = hits_view(hits@);
    let key: Option<String> = pick_luid_key(hits.as_slice(), pid);
    let ghost k = string_view(key);
    let (app, all, luid) = add_up(hits.as_slice(), &key, pid);
    load.gpu_3d_app = app.d3.least(all.d3);
    load.gpu_3d_sys = all.d3;
    load.gpu_copy_app = app.copy.least(all.copy);
    load.gpu_copy_sys = all.copy;
    load.gpu_vdec_app = app.vdec.least(all.vdec);
    load.gpu_vdec_sys = all.vdec;
    load.gpu_vp_app = app.vp.least(all.vp);
    load.gpu_vp_sys = all.vp;
    load.gpu_compute_app = app.compute.least(all.compute);
    load.gpu_compute_sys = all.compute;
    if let Some(i) = find_memory_adapter(rows, luid) {
        let a: &GpuAdapter = &rows[i];
        load.gpu_name = short_gpu_name(a.raw_name.as_str());
        load.gpu_vram_used_mb = in_mb(a.used);
        load.gpu_vram_budget_mb = in_mb(a.budget);
        load.gpu_shared_used_mb = in_mb(a.shared_used);
        load.gpu_shared_budget_mb = in_mb(a.shared_budget);
    }
    assert(hs.len() == hits@.len());
    assert(filled_for(*old(load), *load, hs, k, pid, rows@));
}

/// Takes samples of the load, no more often than is worth it.
pub struct SysSampler {
    pub last: LastCounts,
    /// When the last sample was taken, in nanoseconds.
    pub last_at: Option<u64>,
    pub cached: SysLoad,
    pub pid: u32,
}

/// True where it is time for another sample.
pub open spec fn due(last_at: Option<u64>, now: u64) -> bool {
    match last_at {
        Some(t) => diff(now, t) >= MIN_DT,
        None => true,
    }
}

/// True of a sample, out of what was counted before and now.
pub open spec fn sampled(
    before: SysSampler,
    c: Counters,
    hits: Seq<HitModel>,
    rows: Seq<GpuAdapter>,
    now: u64,
    load: SysLoad,
) -> bool {
    exists|base: SysLoad, key: Option<Seq<char>>|
        measured(
            before.last,
            c,
            before.last_at is Some,
            match before.last_at {
                Some(t) => diff(now, t) as u64,
                None => 0,
            },
            base,
        ) && shown_adapter(hits, before.pid, key) && #[trigger] filled_for(
            base,
            load,
            hits,
            key,
            before.pid,
            rows,
        )
}

impl SysSampler {
    /// Before the first sample, for the program with an identifier.
    pub fn new(pid: u32) -> (r: SysSampler)
        ensures
            r.last == (LastCounts {
                idle: 0,
                kernel: 0,
                user: 0,
                proc_kernel: 0,
                proc_user: 0,
                nic_in: 0,
                nic_out: 0,
            }),
            r.last_at is None,
            r.cached.is_blank(),
            r.pid == pid,
    {
        SysSampler {
            last: LastCounts {
                idle: 0,
                kernel: 0,
                user: 0,
                proc_kernel: 0,
                proc_user: 0,
                nic_in: 0,
                nic_out: 0,
            },
            last_at: None,
            cached: SysLoad::default(),
            pid,
        }
    }

    /// True where it is time for another sample.
    pub fn is_due(&self, now: u64) -> (r: bool)
        ensures
            r == due(self.last_at, now),
    {
        match self.last_at {
            Some(t) => now.saturating_sub(t) >= MIN_DT,
            None => true,
        }
    }

    /// Takes a sample where it is time for one. Until then the last one stands.
    pub fn sample(&mut self, c: &Counters, items: &[GpuItem], rows: &[GpuAdapter], now: u64) -> (r:
        bool)
        ensures
            r == due(old(self).last_at, now),
            !r ==> *final(self) == *old(self),
            r ==> {
                &&& final(self).last == next_counts(old(self).last, *c)
                &&& final(self).last_at == Some(now)
                &&& final(self).pid == old(self).pid
                &&& sampled(
                    *old(self),
                    *c,
                    hits_of(items@, items@.len() as int),
                    rows@,
                    now,
                    final(self).cached,
                )
            },
    {
        if !self.is_due(now) {
            return false;
        }
        let dt: u64 = match self.last_at {
            Some(t) => now.saturating_sub(t),
            None => 0,
        };
        let mut load: SysLoad = read_load(&mut self.last, c, self.last_at.is_some(), dt);
        fill_gpu(&mut load, items, self.pid, rows);
        self.cached = load;
        self.last_at = Some(now);
        true
    }
}

/// This program never uses more than all programs together, and no kind of
/// engine is used for more than one hundred percent.
pub proof fn use_is_bounded(hits: Seq<HitModel>, key: Option<Seq<char>>, pid: u32, n: int)
    requires
        0 <= n <= hits.len(),
    ensures
        ({
            let app = use_of(hits, key, Some(pid), n);
            let all = use_of(hits, key, None, n);
            &&& app.d3.bits <= all.d3.bits <= float(100).bits
            &&& app.copy.bits <= all.copy.bits <= float(100).bits
            &&& app.vdec.bits <= all.vdec.bits <= float(100).bits
            &&& app.vp.bits <= all.vp.bits <= float(100).bits
            &&& app.compute.bits <= all.compute.bits <= float(100).bits
            &&& app.other.bits <= all.other.bits <= float(100).bits
        }),
    decreases n,
{
    if n > 0 {
        use_is_bounded(hits, key, pid, n - 1);
        let app = use_of(hits, key, Some(pid), n - 1);
        let all = use_of(hits, key, None, n - 1);
        let v = hits[n - 1].v;
        sums_keep_order(app.d3, all.d3, v);
        sums_keep_order(app.copy, all.copy, v);
        sums_keep_order(app.vdec, all.vdec, v);
        sums_keep_order(app.vp, all.vp, v);
        sums_keep_order(app.compute, all.compute, v);
        sums_keep_order(app.other, all.other, v);
        ratio_is_number(100, 1);
        sums_grow(all.d3, v);
        sums_grow(all.copy, v);
        sums_grow(all.vdec, v);
        sums_grow(all.vp, v);
        sums_grow(all.compute, v);
        sums_grow(all.other, v);
    }
}

/// More load never brings a preview back.
pub proof fn more_load_is_no_relief(a: SysLoad, a_ms: Single, b: SysLoad, b_ms: Single)
    requires
        stress_of(a, a_ms) is Some,
        b.ram_total_gb == a.ram_total_gb,
        b.gpu_vram_budget_mb == a.gpu_vram_budget_mb,
        b.gpu_shared_budget_mb == a.gpu_shared_budget_mb,
        b.ram_used_gb.bits >= a.ram_used_gb.bits,
        b.ram_pct.bits >= a.ram_pct.bits,
        b.proc_mb.bits >= a.proc_mb.bits,
        b.cpu_pct.bits >= a.cpu_pct.bits,
        b.cpu_app_pct.bits >= a.cpu_app_pct.bits,
        b.gpu_3d_sys.bits >= a.gpu_3d_sys.bits,
        b.gpu_vram_used_mb.bits >= a.gpu_vram_used_mb.bits,
        b.gpu_shared_used_mb.bits >= a.gpu_shared_used_mb.bits,
        b_ms.bits >= a_ms.bits,
    ensures
        stress_of(b, b_ms) is Some,
{
    differences_keep_order(a.ram_total_gb, a.ram_used_gb, b.ram_used_gb);
    let hundred = float(100);
    let vram = a.gpu_vram_budget_mb;
    let shared = a.gpu_shared_budget_mb;
    if vram.bits > 0 {
        let (x, y) = (a.gpu_vram_used_mb, b.gpu_vram_used_mb);
        quotients_keep_order(x, y, vram);
        products_keep_order(over(x, vram), over(y, vram), hundred);
    }
    if shared.bits > 0 {
        let (x, y) = (a.gpu_shared_used_mb, b.gpu_shared_used_mb);
        quotients_keep_order(x, y, shared);
        products_keep_order(over(x, shared), over(y, shared), hundred);
    }
}

/// What is too much for a preview: less than a gigabyte and a half free or four fifths of
/// memory in use, 450 megabytes of this program, three quarters of the processors or 22
/// percent for this program, three quarters of the graphics engine or of its memory, or
/// 28 milliseconds to decode a frame.
pub proof fn limits_of_a_preview(sys: SysLoad, ms: Single)
    ensures
        ({
            let known = sys.ram_total_gb.bits > 0;
            let memory = known && (minus(sys.ram_total_gb, sys.ram_used_gb).bits < ratio(
                3,
                2,
            ).bits || sys.ram_pct.bits >= float(80).bits);
            let program = known && sys.proc_mb.bits >= float(450).bits;
            let vram = |used: Single, budget: Single|
                budget.bits > float(256).bits && times(over(used, budget), float(100)).bits >= float(
                    75,
                ).bits;
            let graphics = vram(sys.gpu_vram_used_mb, sys.gpu_vram_budget_mb) || vram(
                sys.gpu_shared_used_mb,
                sys.gpu_shared_budget_mb,
            );
            let r = stress_of(sys, ms);
            &&& r is None <==> !memory && !program && sys.cpu_pct.bits < float(75).bits
                && sys.cpu_app_pct.bits < float(22).bits && sys.gpu_3d_sys.bits < float(75).bits
                && !graphics && ms.bits < float(28).bits
            &&& r == Some(PreviewHostStress::Ram) <==> memory
            &&& r == Some(PreviewHostStress::Proc) <==> !memory && program
            &&& r == Some(PreviewHostStress::Cpu) ==> sys.cpu_pct.bits >= float(75).bits
            &&& r == Some(PreviewHostStress::AppCpu) ==> sys.cpu_app_pct.bits >= float(22).bits
            &&& r == Some(PreviewHostStress::Gpu) ==> sys.gpu_3d_sys.bits >= float(75).bits
            &&& r == Some(PreviewHostStress::Vram) ==> graphics
            &&& r == Some(PreviewHostStress::Decode) ==> ms.bits >= float(28).bits
        }),
{
}

} // verus!
