//! The mark of the program, in the colours that the window and the notification
//! area show it in.

use crate::bytes::{le32, numbers_are_their_bytes, push_all};
use crate::float::{float, integers_compare, integers_compute, minus, Single};
use crate::text::{chars, replace_all, replaced, text};
use vstd::prelude::*;
use vstd::string::*;

verus! {

/// The mark on a light theme.
pub const LIGHT_FG: &'static str = "#18181b";

/// The mark on a dark theme, and in the window, which is always dark.
pub const DARK_FG: &'static str = "#f4f4f5";

/// Width and height of the window's icon, in pixels.
pub const WINDOW_ICON: u32 = 256;

/// Width and height of the mark in the heading, in pixels.
pub const HEADING: u32 = 64;

/// The colour of the mark in the notification area.
#[derive(Clone, Copy, Debug, PartialEq, Eq, Structural)]
pub enum TrayTint {
    /// Neither the virtual camera nor a recording is on.
    Idle,
    /// All frames, or all but one.
    Good,
    /// Up to five frames are missing.
    Warn,
    /// Anything slower, or no recent frames.
    Bad,
}

impl TrayTint {
    /// The colour.
    pub open spec fn colour(self) -> Seq<char> {
        match self {
            TrayTint::Idle => "#ffffff"@,
            TrayTint::Good => "#22c55e"@,
            TrayTint::Warn => "#eab308"@,
            TrayTint::Bad => "#ef4444"@,
        }
    }

    /// The colour.
    pub fn hex(self) -> (r: &'static str)
        ensures
            r@ == self.colour(),
    {
        match self {
            TrayTint::Idle => "#ffffff",
            TrayTint::Good => "#22c55e",
            TrayTint::Warn => "#eab308",
            TrayTint::Bad => "#ef4444",
        }
    }

    /// The tint at a rate out of the best one. A best rate of nothing counts as one
    /// frame.
    pub open spec fn at_rate(fps: Single, max_fps: u32) -> TrayTint {
        let max = if max_fps < 1 {
            float(1)
        } else {
            float(max_fps as int)
        };
        if fps.bits >= minus(max, float(1)).bits {
            TrayTint::Good
        } else if fps.bits >= minus(max, float(5)).bits {
            TrayTint::Warn
        } else {
            TrayTint::Bad
        }
    }

    /// The tint at a rate out of the best one.
    pub fn from_fps(fps: Single, max_fps: u32) -> (r: TrayTint)
        ensures
            r == TrayTint::at_rate(fps, max_fps),
    {
        let max: Single = Single::of(
            if max_fps < 1 {
                1
            } else {
                max_fps as u64
            },
        );
        if fps.bits >= max.minus(Single::of(1)).bits {
            TrayTint::Good
        } else if fps.bits >= max.minus(Single::of(5)).bits {
            TrayTint::Warn
        } else {
            TrayTint::Bad
        }
    }

    /// How good a tint is.
    pub open spec fn rank(self) -> int {
        match self {
            TrayTint::Good => 2,
            TrayTint::Warn => 1,
            TrayTint::Bad => 0,
            TrayTint::Idle => -1,
        }
    }
}

/// A faster stream never gets a worse tint, and any stream gets one.
pub proof fn faster_is_no_worse(slow: Single, fast: Single, max_fps: u32)
    requires
        slow.bits <= fast.bits,
    ensures
        TrayTint::at_rate(slow, max_fps) != TrayTint::Idle,
        TrayTint::at_rate(slow, max_fps).rank() <= TrayTint::at_rate(fast, max_fps).rank(),
{
}

/// At whole rates the tint is good from one frame below the best, and a warning from
/// five below.
pub proof fn tint_at_whole_rates(fps: int, max_fps: u32)
    requires
        0 <= fps <= 0x100_0000,
        max_fps <= 0x100_0000,
    ensures
        ({
            let max = if max_fps < 1 {
                1
            } else {
                max_fps as int
            };
            TrayTint::at_rate(float(fps), max_fps) == if fps >= max - 1 {
                TrayTint::Good
            } else if fps >= max - 5 {
                TrayTint::Warn
            } else {
                TrayTint::Bad
            }
        }),
{
    let max = if max_fps < 1 {
        1
    } else {
        max_fps as int
    };
    integers_compute(max, 1);
    integers_compute(max, 5);
    integers_compare(max - 1, fps);
    if max >= 5 {
        integers_compare(max - 5, fps);
    }
}

/// The colour of the mark on a theme.
pub fn fg_hex(light_theme: bool) -> (r: &'static str)
    ensures
        r@ == if light_theme {
            LIGHT_FG@
        } else {
            DARK_FG@
        },
{
    if light_theme {
        LIGHT_FG
    } else {
        DARK_FG
    }
}

/// The drawing of the mark in a colour.
pub fn recolor(svg: &str, color: &str) -> (r: String)
    ensures
        r@ == replaced(svg@, "currentColor"@, color@, 0),
{
    let c: Vec<char> = chars(svg);
    let out: Vec<char> = replace_all(c.as_slice(), "currentColor", color);
    text(out.as_slice())
}

/// The first `n` pixels with red and blue in each other's place.
pub open spec fn red_and_blue_swapped(s: Seq<u8>, n: int) -> Seq<u8> {
    Seq::new(
        (4 * n) as nat,
        |i: int|
            if i % 4 == 0 {
                s[i + 2]
            } else if i % 4 == 2 {
                s[i - 2]
            } else {
                s[i]
            },
    )
}

/// The first `n` pixels, as the window system wants them: blue first.
pub fn bgra(rgba: &[u8], n: usize) -> (r: Vec<u8>)
    requires
        4 * n <= rgba@.len(),
    ensures
        r@ == red_and_blue_swapped(rgba@, n as int),
{
    let mut r: Vec<u8> = Vec::new();
    let mut i: usize = 0;
    let len: usize = rgba.len();
    while i < n
        invariant
            i <= n,
            4 * n <= len == rgba@.len(),
            r@.len() == 4 * i,
            forall|k: int|
                0 <= k < 4 * i ==> #[trigger] r@[k] == red_and_blue_swapped(rgba@, n as int)[k],
        decreases n - i,
    {
        r.push(rgba[4 * i + 2]);
        r.push(rgba[4 * i + 1]);
        r.push(rgba[4 * i]);
        r.push(rgba[4 * i + 3]);
        i += 1;
    }
    assert(r@ =~= red_and_blue_swapped(rgba@, n as int));
    r
}

/// Swapping red and blue twice changes nothing.
pub proof fn swapping_twice_is_nothing(s: Seq<u8>, n: int)
    requires
        0 <= n,
        4 * n <= s.len(),
    ensures
        red_and_blue_swapped(red_and_blue_swapped(s, n), n) == s.take(4 * n),
{
    assert(red_and_blue_swapped(red_and_blue_swapped(s, n), n) =~= s.take(4 * n));
}

/// A picture in an icon file: its side in pixels, and its bytes.
pub struct IcoPicture {
    pub size: u32,
    pub png: Vec<u8>,
}

/// Bytes of the first `n` pictures.
pub open spec fn pictures(v: Seq<IcoPicture>, n: int) -> Seq<u8>
    decreases n,
{
    if n <= 0 {
        Seq::empty()
    } else {
        pictures(v, n - 1) + v[n - 1].png@
    }
}

/// Where picture `k` begins in the file.
pub open spec fn picture_at(v: Seq<IcoPicture>, k: int) -> int {
    6 + 16 * v.len() as int + pictures(v, k).len()
}

/// The entry of picture `k`: its sides, of which 256 and more are told as 0, one
/// plane of 32 bits, its length, and where it begins.
pub open spec fn entry(v: Seq<IcoPicture>, k: int) -> Seq<u8> {
    let dim = if v[k].size >= 256 {
        0u8
    } else {
        v[k].size as u8
    };
    seq![dim, dim, 0u8, 0u8, 1u8, 0u8, 32u8, 0u8] + le32(v[k].png@.len() as u32) + le32(
        picture_at(v, k) as u32,
    )
}

/// The entries of the first `n` pictures.
pub open spec fn entries(v: Seq<IcoPicture>, n: int) -> Seq<u8>
    decreases n,
{
    if n <= 0 {
        Seq::empty()
    } else {
        entries(v, n - 1) + entry(v, n - 1)
    }
}

/// An icon file.
pub open spec fn ico(v: Seq<IcoPicture>) -> Seq<u8> {
    seq![0u8, 0u8, 1u8, 0u8, (v.len() % 256) as u8, (v.len() / 256) as u8] + entries(
        v,
        v.len() as int,
    ) + pictures(v, v.len() as int)
}

proof fn pictures_grow(v: Seq<IcoPicture>, k: int, n: int)
    requires
        0 <= k <= n <= v.len(),
    ensures
        pictures(v, k).len() <= pictures(v, n).len(),
        pictures(v, n).take(pictures(v, k).len() as int) == pictures(v, k),
    decreases n,
{
    if k < n {
        pictures_grow(v, k, n - 1);
        assert(pictures(v, n).take(pictures(v, k).len() as int) =~= pictures(v, k)) by {
            assert(pictures(v, n).take(pictures(v, k).len() as int) =~= pictures(v, n - 1).take(
                pictures(v, k).len() as int,
            ));
        }
    } else {
        assert(pictures(v, n).take(pictures(v, k).len() as int) =~= pictures(v, k));
    }
}

proof fn entries_len(v: Seq<IcoPicture>, n: int)
    requires
        0 <= n <= v.len(),
    ensures
        entries(v, n).len() == 16 * n,
    decreases n,
{
    if n > 0 {
        entries_len(v, n - 1);
    }
}

fn push_le32(out: &mut Vec<u8>, v: u32)
    ensures
        final(out)@ == old(out)@ + le32(v),
{
    out.push((v % 256) as u8);
    out.push((v / 256 % 256) as u8);
    out.push((v / 65536 % 256) as u8);
    out.push((v / 16777216) as u8);
    assert(out@ =~= old(out)@ + le32(v));
}

/// Packs pictures into an icon file.
pub fn pack_ico(v: &[IcoPicture]) -> (r: Vec<u8>)
    requires
        v@.len() <= 0xFFFF,
        picture_at(v@, v@.len() as int) <= 0xFFFF_FFFF,
    ensures
        r@ == ico(v@),
{
    let n: usize = v.len();
    let mut out: Vec<u8> = Vec::new();
    out.push(0);
    out.push(0);
    out.push(1);
    out.push(0);
    out.push((n % 256) as u8);
    out.push((n / 256) as u8);
    let ghost head = out@;
    let mut at: u32 = 6 + 16 * n as u32;
    let mut k: usize = 0;
    assert(out@ =~= head + entries(v@, 0));
    while k < n
        invariant
            k <= n == v@.len(),
            n <= 0xFFFF,
            picture_at(v@, n as int) <= 0xFFFF_FFFF,
            at == picture_at(v@, k as int),
            out@ == head + entries(v@, k as int),
        decreases n - k,
    {
        proof {
            pictures_grow(v@, k + 1, n as int);
        }
        let ghost before = out@;
        let size: u32 = v[k].size;
        let dim: u8 = if size >= 256 {
            0
        } else {
            size as u8
        };
        let len: u32 = v[k].png.len() as u32;
        out.push(dim);
        out.push(dim);
        out.push(0);
        out.push(0);
        out.push(1);
        out.push(0);
        out.push(32);
        out.push(0);
        push_le32(&mut out, len);
        push_le32(&mut out, at);
        assert(out@ =~= before + entry(v@, k as int));
        assert(out@ =~= head + entries(v@, k + 1));
        at = at + len;
        k += 1;
    }
    let ghost table = out@;
    let mut k: usize = 0;
    assert(out@ =~= table + pictures(v@, 0));
    while k < n
        invariant
            k <= n == v@.len(),
            out@ == table + pictures(v@, k as int),
        decreases n - k,
    {
        push_all(&mut out, v[k].png.as_slice());
        k += 1;
        assert(out@ =~= table + pictures(v@, k as int));
    }
    assert(out@ =~= ico(v@));
    out
}

/// Each picture is in the file, whole, where its entry says.
pub proof fn pictures_are_where_entries_say(v: Seq<IcoPicture>, k: int)
    requires
        0 <= k < v.len(),
    ensures
        picture_at(v, k) + v[k].png@.len() <= ico(v).len(),
        ico(v).subrange(picture_at(v, k), picture_at(v, k) + v[k].png@.len()) == v[k].png@,
{
    let n = v.len() as int;
    entries_len(v, n);
    pictures_grow(v, k + 1, n);
    let all = pictures(v, n);
    let from = pictures(v, k).len() as int;
    assert(ico(v).len() == 6 + 16 * n + all.len());
    assert forall|i: int| 0 <= i < v[k].png@.len() implies ico(v)[picture_at(v, k) + i]
        == v[k].png@[i] by {
        assert(ico(v)[picture_at(v, k) + i] == all[from + i]);
        assert(all[from + i] == all.take(pictures(v, k + 1).len() as int)[from + i]);
    }
    assert(ico(v).subrange(picture_at(v, k), picture_at(v, k) + v[k].png@.len()) =~= v[k].png@);
}

/// The window system gets blue, green, red and opacity of each pixel, in that order.
pub proof fn blue_comes_first(s: Seq<u8>, n: int, k: int)
    requires
        0 <= k < n,
        4 * n <= s.len(),
    ensures
        ({
            let r = red_and_blue_swapped(s, n);
            &&& r.len() == 4 * n
            &&& r[4 * k] == s[4 * k + 2]
            &&& r[4 * k + 1] == s[4 * k + 1]
            &&& r[4 * k + 2] == s[4 * k]
            &&& r[4 * k + 3] == s[4 * k + 3]
        }),
{
}

/// The number in four bytes of a file, least significant first.
pub open spec fn number_at(f: Seq<u8>, at: int) -> int {
    f[at] + 0x100 * f[at + 1] + 0x1_0000 * f[at + 2] + 0x100_0000 * f[at + 3]
}

/// An icon file opens with its type and how many pictures it has. The entry of each
/// says its side, and leads to its bytes.
pub proof fn icons_are_read(v: Seq<IcoPicture>, k: int)
    requires
        0 <= k < v.len() <= 65535,
        ico(v).len() <= u32::MAX,
    ensures
        ({
            let f = ico(v);
            let e = 6 + 16 * k;
            let n = number_at(f, e + 8);
            let at = number_at(f, e + 12);
            &&& f[0] == 0 && f[1] == 0 && f[2] == 1 && f[3] == 0
            &&& f[4] + 0x100 * f[5] == v.len()
            &&& v[k].size < 256 ==> f[e] == v[k].size && f[e + 1] == v[k].size
            &&& v[k].size >= 256 ==> f[e] == 0 && f[e + 1] == 0
            &&& f[e + 4] == 1 && f[e + 5] == 0 && f[e + 6] == 32 && f[e + 7] == 0
            &&& at + n <= f.len()
            &&& f.subrange(at, at + n) == v[k].png@
        }),
{
    let f = ico(v);
    let n = v.len() as int;
    let e = 6 + 16 * k;
    entries_len(v, n);
    entry_is_in_place(v, n, k);
    pictures_are_where_entries_say(v, k);
    let x = entry(v, k);
    assert forall|i: int| 0 <= i < 16 implies #[trigger] f[e + i] == x[i] by {
        assert(f[e + i] == entries(v, n)[16 * k + i]);
        assert(entries(v, n).subrange(16 * k, 16 * k + 16)[i] == x[i]);
    }
    let a = v[k].png@.len() as u32;
    let b = picture_at(v, k) as u32;
    numbers_are_their_bytes(a, 0, 0);
    numbers_are_their_bytes(b, 0, 0);
    assert(x.subrange(8, 12) =~= le32(a));
    assert(x.subrange(12, 16) =~= le32(b));
    assert(f[e + 0] == x[0] && f[e + 1] == x[1] && f[e + 4] == x[4] && f[e + 5] == x[5]);
    assert(f[e + 6] == x[6] && f[e + 7] == x[7]);
    assert(number_at(f, e + 8) == a) by {
        assert(f[e + 8] == le32(a)[0] && f[e + 9] == le32(a)[1]);
        assert(f[e + 10] == le32(a)[2] && f[e + 11] == le32(a)[3]);
    }
    assert(number_at(f, e + 12) == b) by {
        assert(f[e + 12] == le32(b)[0] && f[e + 13] == le32(b)[1]);
        assert(f[e + 14] == le32(b)[2] && f[e + 15] == le32(b)[3]);
    }
}

proof fn entry_is_in_place(v: Seq<IcoPicture>, n: int, k: int)
    requires
        0 <= k < n <= v.len(),
    ensures
        entries(v, n).len() == 16 * n,
        entries(v, n).subrange(16 * k, 16 * k + 16) == entry(v, k),
    decreases n,
{
    entries_len(v, n);
    entries_len(v, n - 1);
    if k < n - 1 {
        entry_is_in_place(v, n - 1, k);
        assert(entries(v, n).subrange(16 * k, 16 * k + 16) =~= entries(v, n - 1).subrange(
            16 * k,
            16 * k + 16,
        ));
    } else {
        assert(entries(v, n).subrange(16 * k, 16 * k + 16) =~= entry(v, k));
    }
}

} // verus!
