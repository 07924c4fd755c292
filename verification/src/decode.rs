//! From decoded NV12 buffers to pictures: which part of a buffer is the
//! picture, where its planes lie, and what the preview makes of it.
//!
//! Decoders pad pictures to whole macroblocks, and say so in several places
//! that do not always agree. Padding has no chroma and shows as a green strip.

use crate::nv12::{one_stands_for_each, some_stands_for_each, stands_for};
use crate::preview::PreviewPlan;
use crate::single::{apart, nearest, round_to_even, single, single_is_close, to_single, Fraction};
use crate::sps::{sps_crop_from_annex_b, stream_rectangle, SpsCrop};
use crate::text::{chars, contains_text, holds};
use vstd::prelude::*;

verus! {

/// What the preview does with a decoded frame.
#[derive(Clone, Copy, PartialEq, Eq, Structural, Debug)]
pub enum PreviewRgb {
    /// The frame is taken out of the decoder, and no picture is made.
    Skip,
    /// The whole picture.
    Native,
    /// A picture with a limited long edge.
    Downscale { max_long: usize },
}

/// The time between two frames at a rate: a second over the rate in single
/// precision, to the nearest nanosecond.
pub open spec fn frame_gap(fps: int) -> int {
    let (n, d) = single(1, fps);
    nearest(n * 1_000_000_000, d)
}

fn gap_of(fps: u32) -> (r: u64)
    requires
        fps > 0,
    ensures
        r == frame_gap(fps as int),
{
    let f: Fraction = to_single(1, fps as u128);
    let r: u128 = round_to_even(f.n * 1_000_000_000, f.d);
    proof {
        quotient_bound(f.n * 1_000_000_000, f.d as int);
    }
    r as u64
}

/// True where the last picture is too fresh for another.
pub open spec fn too_soon(plan: PreviewPlan, last: Option<u64>, now: u64) -> bool {
    match (plan.max_fps, last) {
        (Some(fps), Some(t)) => fps > 0 && (if now >= t {
            now - t
        } else {
            0
        }) < frame_gap(fps as int),
        _ => false,
    }
}

/// What the preview does with a frame.
pub open spec fn rgb_mode(queue_empty: bool, plan: PreviewPlan, last: Option<u64>, now: u64) -> PreviewRgb {
    if !queue_empty || plan.skip_always || too_soon(plan, last, now) {
        PreviewRgb::Skip
    } else if plan.native {
        PreviewRgb::Native
    } else {
        PreviewRgb::Downscale {
            max_long: if plan.max_long < 2 {
                2
            } else if plan.max_long > 1920 {
                1920
            } else {
                plan.max_long
            },
        }
    }
}

/// What the preview does with a frame that comes `now`. None is made while more
/// frames wait, nor faster than the plan says.
pub fn preview_rgb_mode(
    queue_empty: bool,
    plan: PreviewPlan,
    last_rgb: &mut Option<u64>,
    now: u64,
) -> (r: PreviewRgb)
    ensures
        r == rgb_mode(queue_empty, plan, *old(last_rgb), now),
        *final(last_rgb) == if r == PreviewRgb::Skip {
            *old(last_rgb)
        } else {
            Some(now)
        },
{
    if !queue_empty || plan.skip_always {
        return PreviewRgb::Skip;
    }
    if let Some(fps) = plan.max_fps {
        if fps > 0 {
            if let Some(t) = *last_rgb {
                if now.saturating_sub(t) < gap_of(fps) {
                    return PreviewRgb::Skip;
                }
            }
        }
    }
    *last_rgb = Some(now);
    if plan.native {
        PreviewRgb::Native
    } else {
        PreviewRgb::Downscale {
            max_long: if plan.max_long < 2 {
                2
            } else if plan.max_long > 1920 {
                1920
            } else {
                plan.max_long
            },
        }
    }
}

/// The time between two frames is a second over the rate, to within a nanosecond and
/// what single precision leaves out.
pub proof fn frame_gap_is_near(fps: int)
    requires
        fps > 0,
    ensures
        2 * apart(frame_gap(fps) * fps, 1_000_000_000) <= fps + 120,
{
    let (n, d) = single(1, fps);
    single_is_close(1, fps);
    let e = n * fps - d;
    assert(1 * d == d) by (nonlinear_arith);
    assert(0x100_0000 * apart(n * fps, d) <= d);
    let m = n * 1_000_000_000;
    let g = nearest(m, d);
    let q = m / d;
    let r = m % d;
    assert(m == q * d + r && 0 <= r < d) by (nonlinear_arith)
        requires
            q == m / d,
            r == m % d,
            d >= 1,
    ;
    assert((q + 1) * d == q * d + d) by (nonlinear_arith);
    let h = g * d - m;
    assert(-d <= 2 * h <= d);
    let x = g * fps - 1_000_000_000;
    assert(x * d == fps * h + 1_000_000_000 * e) by (nonlinear_arith)
        requires
            x == g * fps - 1_000_000_000,
            h == g * d - n * 1_000_000_000,
            e == n * fps - d,
    ;
    let fh = fps * h;
    assert(-(fps * d) <= 2 * fh <= fps * d) by (nonlinear_arith)
        requires
            fh == fps * h,
            -d <= 2 * h <= d,
            fps > 0,
    ;
    let fd = fps * d;
    assert(-(fd + 120 * d) <= 2 * (x * d) <= fd + 120 * d);
    assert(-(fps + 120) <= 2 * x <= fps + 120) by (nonlinear_arith)
        requires
            -(fps * d + 120 * d) <= 2 * (x * d) <= fps * d + 120 * d,
            d >= 1,
    ;
}

/// A picture is made of a frame where no other frame waits, the plan wants pictures, and
/// the last one is old enough: in the source's size or with the long edge that the plan
/// has, within 2 and 1920.
pub proof fn pictures_follow_the_plan(
    queue_empty: bool,
    plan: PreviewPlan,
    last: Option<u64>,
    now: u64,
)
    ensures
        ({
            let fresh = match (plan.max_fps, last) {
                (Some(f), Some(t)) => f > 0 && now - t < frame_gap(f as int),
                _ => false,
            };
            let r = rgb_mode(queue_empty, plan, last, now);
            &&& (last matches Some(t) ==> t <= now) ==> (r == PreviewRgb::Skip <==> !queue_empty
                || plan.skip_always || fresh)
            &&& r == PreviewRgb::Native ==> plan.native
            &&& r matches PreviewRgb::Downscale { max_long } ==> !plan.native && 2 <= max_long
                <= 1920 && (2 <= plan.max_long <= 1920 ==> max_long == plan.max_long)
        }),
{
}

/// What the decoder says of its output.
#[derive(Clone, Copy, Debug)]
pub struct OutputLayout {
    pub frame_w: u32,
    pub frame_h: u32,
    pub default_stride: Option<i32>,
    /// Left, top, width and height of the part to show.
    pub aperture: Option<(i32, i32, i32, i32)>,
    /// What the stream itself declares.
    pub sps_crop: Option<SpsCrop>,
}

impl Default for OutputLayout {
    fn default() -> (r: OutputLayout)
        ensures
            r == (OutputLayout {
                frame_w: 0,
                frame_h: 0,
                default_stride: None,
                aperture: None,
                sps_crop: None,
            }),
    {
        OutputLayout {
            frame_w: 0,
            frame_h: 0,
            default_stride: None,
            aperture: None,
            sps_crop: None,
        }
    }
}

/// The picture within a plane.
#[derive(Clone, Copy, PartialEq, Eq, Structural, Debug)]
pub struct Crop {
    pub x: u64,
    pub y: u64,
    pub w: u64,
    pub h: u64,
}

impl Crop {
    /// Crops lie on chroma samples.
    pub open spec fn wf(self) -> bool {
        &&& self.x % 2 == 0 && self.y % 2 == 0
        &&& self.w % 2 == 0 && self.h % 2 == 0
        &&& self.w >= 2 && self.h >= 2
    }

    /// True of a crop within a plane.
    pub open spec fn within(self, stride: u64, rows: u64) -> bool {
        self.x + self.w <= stride && self.y + self.h <= rows
    }
}

/// Why no picture was made.
#[derive(Clone, Copy, PartialEq, Eq, Structural, Debug)]
pub enum DecodeError {
    /// The crop reaches beyond the planes.
    Outside,
    /// A picture of no pixels, or of too many.
    Range(u64),
    /// There was no memory for the picture.
    Alloc(u64),
    /// The buffer is shorter than its planes.
    Short,
}

/// The larger of two numbers.
pub open spec fn larger(a: int, b: int) -> int {
    if a >= b {
        a
    } else {
        b
    }
}

/// The smaller of two numbers.
pub open spec fn smaller(a: int, b: int) -> int {
    if a <= b {
        a
    } else {
        b
    }
}

fn max(a: u64, b: u64) -> (r: u64)
    ensures
        r == larger(a as int, b as int),
{
    if a >= b {
        a
    } else {
        b
    }
}

fn min(a: u64, b: u64) -> (r: u64)
    ensures
        r == smaller(a as int, b as int),
{
    if a <= b {
        a
    } else {
        b
    }
}

/// The next multiple of 16 at or above `n`.
pub open spec fn aligned(n: int) -> int {
    (n + 15) / 16 * 16
}

/// The even number at or below `n`.
pub open spec fn evened(n: int) -> int {
    n - n % 2
}

fn align16(n: u64) -> (r: u64)
    requires
        n <= 0xFFFF_FFFF_FFFF,
    ensures
        r == aligned(n as int),
{
    (n + 15) / 16 * 16
}

fn even(n: u64) -> (r: u64)
    ensures
        r == evened(n as int),
{
    n - n % 2
}

/// The whole macroblocks of a side. 1080 is not one of them: its last lines
/// share a macroblock with padding.
pub open spec fn whole_blocks(n: int) -> int {
    n - n % 16
}

fn mb_safe(n: u64) -> (r: u64)
    ensures
        r == whole_blocks(n as int),
{
    n - n % 16
}

/// A padded side of a common size, without its padding.
pub open spec fn tightened(n: int) -> int {
    if n == 1088 {
        1080
    } else if n == 2176 {
        2160
    } else {
        n
    }
}

fn tighten_mb(n: u64) -> (r: u64)
    ensures
        r == tightened(n as int),
{
    match n {
        1088 => 1080,
        2176 => 2160,
        _ => n,
    }
}

/// The side to show of a plane, where only the reported side is known.
pub open spec fn visible_side(reported: int, plane: int) -> int {
    let coded = larger(reported, plane);
    if (reported > 0 && reported < plane) || (coded == aligned(reported) && reported % 16 != 0) {
        tightened(larger(evened(reported), 2))
    } else {
        tightened(evened(larger(smaller(reported, plane), 2)))
    }
}

fn visible_luma(reported: u64, plane: u64) -> (r: u64)
    requires
        reported <= 0xFFFF_FFFF,
    ensures
        r == visible_side(reported as int, plane as int),
{
    let coded: u64 = max(reported, plane);
    if reported > 0 && reported < plane {
        return tighten_mb(max(even(reported), 2));
    }
    if coded == align16(reported) && reported % 16 != 0 {
        return tighten_mb(max(even(reported), 2));
    }
    tighten_mb(even(max(min(reported, plane), 2)))
}

/// The rectangle that a layout names: what the stream declares goes first, then
/// the decoder's aperture, then the frame.
pub open spec fn named(l: OutputLayout, stride: int, rows: int) -> (int, int, int, int) {
    match l.sps_crop {
        Some(c) => (c.x as int, c.y as int, c.w as int, c.h as int),
        None => match l.aperture {
            Some((ax, ay, aw, ah)) => if aw > 0 && ah > 0 {
                (
                    larger(ax as int, 0),
                    larger(ay as int, 0),
                    tightened(aw as int),
                    tightened(ah as int),
                )
            } else {
                (
                    0,
                    0,
                    visible_side(l.frame_w as int, stride),
                    visible_side(l.frame_h as int, rows),
                )
            },
            None => (
                0,
                0,
                visible_side(l.frame_w as int, stride),
                visible_side(l.frame_h as int, rows),
            ),
        },
    }
}

/// Where a side of the crop begins: on an even sample within the plane.
pub open spec fn crop_from(at: int, plane: int) -> int {
    if evened(at) >= plane {
        0
    } else {
        evened(at)
    }
}

/// How long a side of the crop is: even, without padding, and within the plane,
/// but never below two.
pub open spec fn crop_len(len: int, plane: int, from: int) -> int {
    larger(
        smaller(
            larger(evened(tightened(len)), 2),
            evened(
                if plane >= from {
                    plane - from
                } else {
                    0
                },
            ),
        ),
        2,
    )
}

/// The picture within planes of so many columns and rows.
pub open spec fn crop_of(l: OutputLayout, stride: int, rows: int) -> Crop {
    let (x, y, w, h) = named(l, stride, rows);
    let cx = crop_from(x, stride);
    let cy = crop_from(y, rows);
    Crop {
        x: cx as u64,
        y: cy as u64,
        w: crop_len(w, stride, cx) as u64,
        h: crop_len(h, rows, cy) as u64,
    }
}

fn crop_side(at: u64, len: u64, plane: u64) -> (r: (u64, u64))
    ensures
        r.0 == crop_from(at as int, plane as int),
        r.1 == crop_len(len as int, plane as int, r.0 as int),
{
    let mut from: u64 = even(at);
    if from >= plane {
        from = 0;
    }
    let want: u64 = max(even(tighten_mb(len)), 2);
    (from, max(min(want, even(plane.saturating_sub(from))), 2))
}

/// The picture within planes of so many columns and rows.
pub fn resolve_crop(layout: &OutputLayout, stride: u64, coded_h: u64) -> (r: Crop)
    ensures
        r == crop_of(*layout, stride as int, coded_h as int),
        r.wf(),
{
    let fw: u64 = layout.frame_w as u64;
    let fh: u64 = layout.frame_h as u64;
    let (x, y, w, h): (u64, u64, u64, u64) = match layout.sps_crop {
        Some(c) => (c.x as u64, c.y as u64, c.w as u64, c.h as u64),
        None => match layout.aperture {
            Some((ax, ay, aw, ah)) => if aw > 0 && ah > 0 {
                (
                    if ax > 0 {
                        ax as u64
                    } else {
                        0
                    },
                    if ay > 0 {
                        ay as u64
                    } else {
                        0
                    },
                    tighten_mb(aw as u64),
                    tighten_mb(ah as u64),
                )
            } else {
                (0, 0, visible_luma(fw, stride), visible_luma(fh, coded_h))
            },
            None => (0, 0, visible_luma(fw, stride), visible_luma(fh, coded_h)),
        },
    };
    let (cx, cw) = crop_side(x, w, stride);
    let (cy, ch) = crop_side(y, h, coded_h);
    Crop { x: cx, y: cy, w: cw, h: ch }
}

/// A crop lies within planes that have room for two columns and rows where it
/// begins.
pub proof fn crop_stays_inside(l: OutputLayout, stride: u64, rows: u64)
    requires
        stride >= 2,
        rows >= 2,
        crop_from(named(l, stride as int, rows as int).0, stride as int) + 2 <= stride,
        crop_from(named(l, stride as int, rows as int).1, rows as int) + 2 <= rows,
    ensures
        crop_of(l, stride as int, rows as int).within(stride, rows),
{
}

/// Rows of luma before the chroma plane. The reported height is trusted unless
/// the buffer is clearly long enough for a padded one.
pub open spec fn uv_rows_of(frame_h: int, stride: int, packed: int) -> int {
    let h = larger(evened(frame_h), 2);
    let packed_h = if packed >= stride * 3 / 2 {
        evened(packed * 2 / (stride * 3))
    } else {
        0
    };
    if stride >= 2 && aligned(h) > h && packed_h >= aligned(h) {
        aligned(h)
    } else {
        h
    }
}

/// Rows of luma before the chroma plane.
pub fn uv_plane_rows(frame_h: u32, stride: u32, packed_len: u32) -> (r: u64)
    ensures
        r == uv_rows_of(frame_h as int, stride as int, packed_len as int),
        2 <= r <= 0x1_0000_000F,
        r % 2 == 0,
{
    let h: u64 = max(even(frame_h as u64), 2);
    let up: u64 = align16(h);
    let s: u64 = stride as u64;
    let n: u64 = packed_len as u64;
    if s < 2 {
        return h;
    }
    let packed_h: u64 = if n >= s * 3 / 2 {
        even(n * 2 / (s * 3))
    } else {
        0
    };
    if up > h && packed_h >= up {
        up
    } else {
        h
    }
}

/// The stride that a buffer length stands for, if it does: the height, or the
/// padded height, goes into it evenly and leaves at least the width.
pub open spec fn inferred_stride(w: int, h: int, len: int) -> int {
    let plain = h * 3 / 2;
    let padded = aligned(h) * 3 / 2;
    if h == 0 {
        larger(w, 2)
    } else if plain > 0 && len % plain == 0 && len / plain >= w {
        len / plain
    } else if padded > 0 && len % padded == 0 && len / padded >= w {
        len / padded
    } else {
        larger(w, 2)
    }
}

/// The stride that a buffer length stands for.
pub fn infer_stride(width: u32, height: u32, len: u32) -> (r: u32)
    ensures
        r == inferred_stride(width as int, height as int, len as int),
{
    let floor: u32 = if width < 2 {
        2
    } else {
        width
    };
    if height == 0 {
        return floor;
    }
    let n: u64 = len as u64;
    let plain: u64 = height as u64 * 3 / 2;
    let padded: u64 = align16(height as u64) * 3 / 2;
    proof {
        if plain > 0 {
            quotient_bound(n as int, plain as int);
        }
        if padded > 0 {
            quotient_bound(n as int, padded as int);
        }
    }
    if plain > 0 && n % plain == 0 && n / plain >= width as u64 {
        return (n / plain) as u32;
    }
    if padded > 0 && n % padded == 0 && n / padded >= width as u64 {
        return (n / padded) as u32;
    }
    floor
}

proof fn quotient_bound(a: int, b: int)
    requires
        a >= 0,
        b >= 1,
    ensures
        0 <= a / b <= a,
{
    assert(0 <= a / b <= a) by (nonlinear_arith)
        requires
            a >= 0,
            b >= 1,
    ;
}

/// The stride of a buffer without rows of its own: the declared one, if it is
/// wide enough, otherwise the one that its length stands for.
pub open spec fn flat_stride(l: OutputLayout, len: int) -> int {
    let declared = match l.default_stride {
        Some(s) => if s >= 0 {
            s as int
        } else {
            -(s as int)
        },
        None => -1,
    };
    if l.default_stride is Some && declared >= l.frame_w {
        declared
    } else {
        inferred_stride(l.frame_w as int, l.frame_h as int, len)
    }
}

/// The stride of a buffer without rows of its own.
pub fn pick_stride(layout: &OutputLayout, len: u32) -> (r: u32)
    ensures
        r == flat_stride(*layout, len as int),
{
    if let Some(s) = layout.default_stride {
        let declared: u32 = if s >= 0 {
            s as u32
        } else {
            (-(s as i64)) as u32
        };
        if declared >= layout.frame_w {
            return declared;
        }
    }
    infer_stride(layout.frame_w, layout.frame_h, len)
}

/// A quotient towards zero.
pub open spec fn towards_zero(a: int, b: int) -> int {
    if a >= 0 {
        a / b
    } else {
        -((-a) / b)
    }
}

/// A number brought into a byte.
pub open spec fn clamped(v: int) -> int {
    if v < 0 {
        0
    } else if v > 255 {
        255
    } else {
        v
    }
}

/// Red, green and blue of a full-range Rec.709 sample, in the low 24 bits.
pub open spec fn rgb709(y: int, u: int, v: int) -> u32 {
    let r = clamped(y + towards_zero(459 * (v - 128), 256));
    let g = clamped(y - towards_zero(55 * (u - 128), 256) - towards_zero(136 * (v - 128), 256));
    let b = clamped(y + towards_zero(541 * (u - 128), 256));
    (r * 65536 + g * 256 + b) as u32
}

fn by_256(a: i32) -> (r: i32)
    requires
        -0x10_0000 <= a <= 0x10_0000,
    ensures
        r == towards_zero(a as int, 256),
        -4096 <= r <= 4096,
{
    if a >= 0 {
        a / 256
    } else {
        -((-a) / 256)
    }
}

fn clamp(v: i32) -> (r: u32)
    ensures
        r == clamped(v as int),
        r <= 255,
{
    if v < 0 {
        0
    } else if v > 255 {
        255
    } else {
        v as u32
    }
}

/// Red, green and blue of a full-range Rec.709 sample, in the low 24 bits.
pub fn yuv709_full(y: u8, u: u8, v: u8) -> (r: u32)
    ensures
        r == rgb709(y as int, u as int, v as int),
{
    let y: i32 = y as i32;
    let u: i32 = u as i32 - 128;
    let v: i32 = v as i32 - 128;
    let r: u32 = clamp(y + by_256(459 * v));
    let g: u32 = clamp(y - by_256(55 * u) - by_256(136 * v));
    let b: u32 = clamp(y + by_256(541 * u));
    r * 65536 + g * 256 + b
}

/// Grey stays grey: without chroma, all three colours are the luma.
pub proof fn grey_stays_grey(y: u8)
    ensures
        rgb709(y as int, 128, 128) == y * 65536 + y * 256 + y,
{
}

/// True where `q` is `n` over 256, what is left over cut off.
pub open spec fn cut_256(q: int, n: int) -> bool {
    if n >= 0 {
        256 * q <= n < 256 * q + 256
    } else {
        256 * q - 256 < n <= 256 * q
    }
}

/// True where `c` is the byte nearest to `x`.
pub open spec fn nearest_byte(c: int, x: int) -> bool {
    0 <= c <= 255 && (c == x || (c == 0 && x < 0) || (c == 255 && x > 255))
}

/// True of the colour of a sample: red in bits 16 to 23 is luma and 459/256 of what V
/// is above its middle, blue in the low byte is luma and 541/256 of what U is above
/// it, and green between them is luma less 55/256 of that of U and 136/256 of that of
/// V.
pub open spec fn is_colour(c: u32, y: u8, u: u8, v: u8) -> bool {
    &&& c < 0x100_0000
    &&& exists|a: int| #[trigger]
        cut_256(a, 459 * (v - 128)) && nearest_byte(c as int / 0x1_0000, y + a)
    &&& exists|a: int, b: int| #[trigger]
        cut_256(a, 55 * (u - 128)) && #[trigger] cut_256(b, 136 * (v - 128)) && nearest_byte(
            c as int / 0x100 % 0x100,
            y - a - b,
        )
    &&& exists|a: int| #[trigger]
        cut_256(a, 541 * (u - 128)) && nearest_byte(c as int % 0x100, y + a)
}

/// Every sample gets its colour, channel by channel.
pub proof fn colours_are_right(y: u8, u: u8, v: u8)
    ensures
        is_colour(rgb709(y as int, u as int, v as int), y, u, v),
{
    let (u2, v2) = (u as int - 128, v as int - 128);
    channels_of(y as int, u as int, v as int);
    assert(cut_256(towards_zero(459 * v2, 256), 459 * v2));
    assert(cut_256(towards_zero(55 * u2, 256), 55 * u2));
    assert(cut_256(towards_zero(136 * v2, 256), 136 * v2));
    assert(cut_256(towards_zero(541 * u2, 256), 541 * u2));
}

/// More of V is no less red and no more green, more of U is no less blue and no more
/// green; red does not go by U, nor blue by V.
pub proof fn colours_follow_chroma(y: u8, u: u8, v: u8, u2: u8, v2: u8)
    requires
        u <= u2,
        v <= v2,
    ensures
        ({
            let c = rgb709(y as int, u as int, v as int) as int;
            let d = rgb709(y as int, u2 as int, v2 as int) as int;
            let e = rgb709(y as int, u2 as int, v as int) as int;
            &&& c / 0x1_0000 <= d / 0x1_0000
            &&& c / 0x100 % 0x100 >= d / 0x100 % 0x100
            &&& c % 0x100 <= d % 0x100
            &&& c / 0x1_0000 == e / 0x1_0000
            &&& d % 0x100 == e % 0x100
        }),
{
    channels_of(y as int, u as int, v as int);
    channels_of(y as int, u2 as int, v2 as int);
    channels_of(y as int, u2 as int, v as int);
}

/// The channels of a colour are those that it was put together from.
proof fn channels_of(y: int, u: int, v: int)
    ensures
        ({
            let c = rgb709(y, u, v) as int;
            &&& 0 <= c < 0x100_0000
            &&& c / 0x1_0000 == clamped(y + towards_zero(459 * (v - 128), 256))
            &&& c / 0x100 % 0x100 == clamped(
                y - towards_zero(55 * (u - 128), 256) - towards_zero(136 * (v - 128), 256),
            )
            &&& c % 0x100 == clamped(y + towards_zero(541 * (u - 128), 256))
        }),
{
    let r = clamped(y + towards_zero(459 * (v - 128), 256));
    let g = clamped(y - towards_zero(55 * (u - 128), 256) - towards_zero(136 * (v - 128), 256));
    let b = clamped(y + towards_zero(541 * (u - 128), 256));
    put_together(r, g, b);
}

proof fn put_together(r: int, g: int, b: int)
    requires
        0 <= r <= 255,
        0 <= g <= 255,
        0 <= b <= 255,
    ensures
        ({
            let c = r * 65536 + g * 256 + b;
            &&& 0 <= c < 0x100_0000
            &&& c / 0x1_0000 == r
            &&& c / 0x100 % 0x100 == g
            &&& c % 0x100 == b
        }),
{
}

/// The most pixels that a picture for the preview may have.
pub const MAX_PIXELS: u64 = 8_294_400;

/// True where a picture of `n` pixels may be made.
pub open spec fn in_range(n: int) -> bool {
    0 < n <= MAX_PIXELS
}

/// Asks for memory so that a vector may hold `n` things. None is asked for where
/// it holds as many already; otherwise the answer is the machine's.
pub(crate) fn make_room<T>(out: &mut Vec<T>, n: usize) -> (r: bool)
    ensures
        old(out)@.len() >= n ==> r,
        final(out)@ == old(out)@,
{
    out.len() >= n || out.try_reserve(n - out.len()).is_ok()
}

/// Brings a picture to `n` pixels, where there is room for them. Without room
/// it leaves nothing behind.
fn resize_rgb(out: &mut Vec<u32>, n: u64, room: bool) -> (r: Result<(), DecodeError>)
    ensures
        r == (if !in_range(n as int) {
            Err(DecodeError::Range(n))
        } else if !room {
            Err(DecodeError::Alloc(n))
        } else {
            Ok(())
        }),
        match r {
            Ok(_) => final(out)@.len() == n,
            Err(DecodeError::Alloc(_)) => final(out)@.len() == 0,
            Err(_) => final(out)@ == old(out)@,
        },
{
    if n == 0 || n > MAX_PIXELS {
        return Err(DecodeError::Range(n));
    }
    if !room {
        *out = Vec::new();
        return Err(DecodeError::Alloc(n));
    }
    out.resize(n as usize, 0);
    Ok(())
}

/// A size with a limited long edge, on even samples.
pub open spec fn size_within(w: int, h: int, max_long: int) -> (int, int) {
    let long = larger(w, h);
    if long <= max_long {
        (larger(evened(w), 2), larger(evened(h), 2))
    } else {
        (larger(evened(w * max_long / long), 2), larger(evened(h * max_long / long), 2))
    }
}

/// A size with a limited long edge.
pub fn scaled_size(w: u64, h: u64, max_long: u64) -> (r: (u64, u64))
    ensures
        (r.0 as int, r.1 as int) == size_within(w as int, h as int, max_long as int),
        2 <= r.0 <= larger(w as int, 2),
        2 <= r.1 <= larger(h as int, 2),
{
    let long: u64 = max(w, h);
    if long <= max_long {
        return (max(even(w), 2), max(even(h), 2));
    }
    proof {
        shrinks(w as int, max_long as int, long as int);
        shrinks(h as int, max_long as int, long as int);
    }
    let sw: u64 = (w as u128 * max_long as u128 / long as u128) as u64;
    let sh: u64 = (h as u128 * max_long as u128 / long as u128) as u64;
    (max(even(sw), 2), max(even(sh), 2))
}

proof fn shrinks(a: int, m: int, long: int)
    requires
        0 <= a <= u64::MAX,
        0 <= m <= u64::MAX,
        m < long,
    ensures
        0 <= a * m <= u64::MAX * u64::MAX,
        0 <= a * m / long <= a,
{
    assert(0 <= a * m <= u64::MAX * u64::MAX && 0 <= a * m / long <= a) by (nonlinear_arith)
        requires
            0 <= a <= u64::MAX,
            0 <= m <= u64::MAX,
            m < long,
    ;
}

/// The size of the stream's own picture.
pub open spec fn display_size(l: OutputLayout, fallback: (u32, u32)) -> (u32, u32) {
    match l.sps_crop {
        Some(c) => (
            tightened(larger(evened(c.w as int), 2)) as u32,
            tightened(larger(evened(c.h as int), 2)) as u32,
        ),
        None => {
            let (aw, ah) = match l.aperture {
                Some((_, _, aw, ah)) => (aw as int, ah as int),
                None => (0, 0),
            };
            if aw > 0 && ah > 0 {
                (tightened(aw) as u32, tightened(ah) as u32)
            } else if l.frame_w > 0 && l.frame_h > 0 {
                (tightened(l.frame_w as int) as u32, tightened(l.frame_h as int) as u32)
            } else {
                fallback
            }
        },
    }
}

/// The size of the stream's own picture.
pub fn native_display_size(layout: &OutputLayout, fallback_w: u32, fallback_h: u32) -> (r: (
    u32,
    u32,
))
    ensures
        r == display_size(*layout, (fallback_w, fallback_h)),
{
    if let Some(c) = layout.sps_crop {
        return (
            tighten_mb(max(even(c.w as u64), 2)) as u32,
            tighten_mb(max(even(c.h as u64), 2)) as u32,
        );
    }
    if let Some((_, _, aw, ah)) = layout.aperture {
        if aw > 0 && ah > 0 {
            return (tighten_mb(aw as u64) as u32, tighten_mb(ah as u64) as u32);
        }
    }
    if layout.frame_w > 0 && layout.frame_h > 0 {
        return (
            tighten_mb(layout.frame_w as u64) as u32,
            tighten_mb(layout.frame_h as u64) as u32,
        );
    }
    (fallback_w, fallback_h)
}

/// Bytes of a cropped picture: luma, and half as much chroma.
pub open spec fn crop_bytes(c: Crop) -> int {
    c.w * c.h + c.w * c.h / 2
}

/// Bytes that a buffer must have for a crop to be cut out of it: all luma rows,
/// and chroma up to the end of the crop's last row.
pub open spec fn crop_end(stride: int, rows: int, c: Crop) -> int {
    stride * rows + (c.y as int / 2 + c.h as int / 2 - 1) * stride + c.x + c.w
}

/// What comes of cutting a crop out of a buffer of `len` bytes.
pub open spec fn crop_result(len: int, stride: u64, rows: u64, c: Crop, room: bool) -> Result<
    (u32, u32),
    DecodeError,
> {
    if !c.within(stride, rows) {
        Err(DecodeError::Outside)
    } else if len < crop_end(stride as int, rows as int, c) {
        Err(DecodeError::Short)
    } else if !room {
        Err(DecodeError::Alloc(crop_bytes(c) as u64))
    } else {
        Ok((c.w as u32, c.h as u32))
    }
}

/// Byte `k` of a cropped picture with its own stride.
pub open spec fn cropped_byte(data: Seq<u8>, stride: int, rows: int, c: Crop, k: int) -> u8 {
    if k < c.w * c.h {
        data[(c.y + k / (c.w as int)) * stride + c.x + k % (c.w as int)]
    } else {
        let j = k - c.w * c.h;
        data[stride * rows + (c.y as int / 2 + j / (c.w as int)) * stride + c.x + j % (c.w as int)]
    }
}

/// A cropped picture, luma and then chroma.
pub open spec fn cropped(data: Seq<u8>, stride: int, rows: int, c: Crop) -> Seq<u8> {
    Seq::new(crop_bytes(c) as nat, |k: int| cropped_byte(data, stride, rows, c, k))
}

/// A column and a row of a plane are a position within it.
proof fn spot(w: int, h: int, x: int, y: int)
    requires
        0 <= x < w,
        0 <= y < h,
    ensures
        0 <= y * w + x < w * h,
        (y * w + x) / w == y,
        (y * w + x) % w == x,
{
    assert(0 <= y * w + x < w * h) by (nonlinear_arith)
        requires
            0 <= x < w,
            0 <= y < h,
    ;
    vstd::arithmetic::div_mod::lemma_fundamental_div_mod_converse(y * w + x, w, y, x);
}

/// A position within a plane has a row within it.
proof fn row_within(w: int, h: int, i: int)
    requires
        0 < w,
        0 <= i < w * h,
    ensures
        0 <= i / w < h,
{
    assert(0 <= i / w < h) by (nonlinear_arith)
        requires
            0 < w,
            0 <= i < w * h,
    ;
}

/// The chroma rows of a picture with an even height.
proof fn half_rows(w: int, h: int)
    requires
        w >= 0,
        h >= 0,
        h % 2 == 0,
    ensures
        w * h / 2 == w * (h / 2),
        w * h >= 0,
{
    let k = h / 2;
    assert(w * h == 2 * (w * k) && w * h >= 0) by (nonlinear_arith)
        requires
            h == 2 * k,
            w >= 0,
            k >= 0,
    ;
}

/// Bytes that a buffer must have for a crop to be cut out of it.
pub fn nv12_extent(stride: u64, uv_rows: u64, crop: Crop) -> (r: u128)
    requires
        crop.wf(),
        stride <= 0xFFFF_FFFF,
        uv_rows <= 0x1_0000_000F,
    ensures
        r == crop_end(stride as int, uv_rows as int, crop),
{
    let last: u128 = crop.y as u128 / 2 + crop.h as u128 / 2 - 1;
    proof {
        product_fits(stride as int, uv_rows as int);
        assert(0 <= last * stride <= 0x1_0000_0000_0000_0000 * 0xFFFF_FFFF) by (nonlinear_arith)
            requires
                0 <= last <= 0x1_0000_0000_0000_0000,
                0 <= stride <= 0xFFFF_FFFF,
        ;
    }
    stride as u128 * uv_rows as u128 + last * stride as u128 + crop.x as u128 + crop.w as u128
}

/// True where a crop lies within its plane.
fn lies_within(crop: Crop, stride: u64, rows: u64) -> (r: bool)
    ensures
        r == crop.within(stride, rows),
{
    crop.w <= stride && crop.x <= stride - crop.w && crop.h <= rows && crop.y <= rows - crop.h
}

/// Bytes of the picture that is cut out of a buffer of `len` bytes, or why none
/// is.
pub fn crop_size(len: usize, stride: u64, uv_rows: u64, crop: Crop) -> (r: Result<
    usize,
    DecodeError,
>)
    requires
        crop.wf(),
        stride <= 0xFFFF_FFFF,
        uv_rows <= 0x1_0000_000F,
    ensures
        match r {
            Ok(n) => {
                &&& crop_result(len as int, stride, uv_rows, crop, true) is Ok
                &&& n == crop_bytes(crop)
            },
            Err(e) => crop_result(len as int, stride, uv_rows, crop, true) == Err::<
                (u32, u32),
                DecodeError,
            >(e),
        },
{
    if !lies_within(crop, stride, uv_rows) {
        return Err(DecodeError::Outside);
    }
    if (len as u128) < nv12_extent(stride, uv_rows, crop) {
        return Err(DecodeError::Short);
    }
    proof {
        crop_is_shorter(crop, stride as int, uv_rows as int);
    }
    let luma: u64 = crop.w * crop.h;
    Ok((luma + luma / 2) as usize)
}

/// A picture is no longer than what it is cut out of.
proof fn crop_is_shorter(c: Crop, stride: int, rows: int)
    requires
        c.wf(),
        c.x + c.w <= stride,
        c.y + c.h <= rows,
    ensures
        0 <= c.w * c.h <= stride * rows,
        c.w * c.h / 2 == c.w * (c.h / 2),
        stride * rows <= crop_end(stride, rows, c),
        crop_bytes(c) <= crop_end(stride, rows, c),
{
    half_rows(c.w as int, c.h as int);
    crop_fits(c.w as int, c.h as int, stride, rows);
    let k = c.h as int / 2 - 1;
    let at = c.y as int / 2 + k;
    assert(c.w * (k + 1) == c.w * k + c.w) by (nonlinear_arith);
    crop_fits(c.w as int, k, stride, at);
    assert(stride * at == at * stride) by (nonlinear_arith);
}

/// Cuts the picture out of a buffer, with room for it or without. A picture is
/// made where the crop lies within the planes, the buffer holds it, and there is
/// room. Without room nothing is left behind; otherwise an error changes nothing.
pub fn fill_crop_nv12(
    data: &[u8],
    stride: u64,
    uv_rows: u64,
    crop: Crop,
    out: &mut Vec<u8>,
    room: bool,
) -> (r: Result<(u32, u32), DecodeError>)
    requires
        crop.wf(),
        stride <= 0xFFFF_FFFF,
        uv_rows <= 0x1_0000_000F,
    ensures
        r == crop_result(data@.len() as int, stride, uv_rows, crop, room),
        match r {
            Ok(_) => final(out)@ == cropped(data@, stride as int, uv_rows as int, crop),
            Err(DecodeError::Alloc(_)) => final(out)@.len() == 0,
            Err(_) => final(out)@ == old(out)@,
        },
{
    let need: u64 = match crop_size(data.len(), stride, uv_rows, crop) {
        Ok(n) => n as u64,
        Err(e) => return Err(e),
    };
    if !room {
        *out = Vec::new();
        return Err(DecodeError::Alloc(need));
    }
    proof {
        crop_is_shorter(crop, stride as int, uv_rows as int);
    }
    let ghost end = crop_end(stride as int, uv_rows as int, crop);
    let uv_off: u64 = stride * uv_rows;
    let luma: u64 = crop.w * crop.h;
    out.clear();
    let mut k: u64 = 0;
    let mut x: u64 = 0;
    let mut y: u64 = 0;
    while k < need
        invariant
            crop.wf(),
            crop.within(stride, uv_rows),
            stride <= 0xFFFF_FFFF,
            uv_rows <= 0x1_0000_000F,
            uv_off == stride * uv_rows,
            end == crop_end(stride as int, uv_rows as int, crop),
            uv_off <= end <= data.len(),
            luma == crop.w * crop.h,
            luma / 2 == crop.w * (crop.h / 2),
            need == luma + luma / 2,
            need <= end,
            k <= need,
            x < crop.w,
            k < luma ==> k == y * crop.w + x,
            k >= luma ==> k - luma == y * crop.w + x,
            out@.len() == k,
            forall|i: int|
                0 <= i < k ==> out@[i] == cropped_byte(
                    data@,
                    stride as int,
                    uv_rows as int,
                    crop,
                    i,
                ),
        decreases need - k,
    {
        if k < luma {
            proof {
                spot(crop.w as int, y + 1, x as int, y as int);
                row_within(crop.w as int, crop.h as int, k as int);
                spot(stride as int, uv_rows as int, crop.x + x, crop.y + y);
            }
            out.push(data[((crop.y + y) * stride + crop.x + x) as usize]);
        } else {
            proof {
                spot(crop.w as int, y + 1, x as int, y as int);
                row_within(crop.w as int, (crop.h / 2) as int, k - luma);
                rows_in_order(
                    stride as int,
                    crop.y as int / 2 + y,
                    crop.y as int / 2 + crop.h as int / 2 - 1,
                );
            }
            out.push(data[(uv_off + (crop.y / 2 + y) * stride + crop.x + x) as usize]);
        }
        k += 1;
        x += 1;
        if x == crop.w {
            x = 0;
            y += 1;
            assert(y * crop.w == (y - 1) * crop.w + crop.w) by (nonlinear_arith);
        }
        proof {
            if k == luma {
                row_turn(crop.w as int, crop.h as int, x as int, y as int);
            }
        }
        if k == luma {
            y = 0;
        }
    }
    assert(out@ =~= cropped(data@, stride as int, uv_rows as int, crop));
    Ok((crop.w as u32, crop.h as u32))
}

/// Cuts the picture out of a buffer. Whether there is memory for it is the
/// machine's to say, but a vector that is long enough has the room.
pub fn copy_crop_nv12(data: &[u8], stride: u64, uv_rows: u64, crop: Crop, out: &mut Vec<u8>) -> (r:
    Result<(u32, u32), DecodeError>)
    requires
        crop.wf(),
        stride <= 0xFFFF_FFFF,
        uv_rows <= 0x1_0000_000F,
    ensures
        r == crop_result(data@.len() as int, stride, uv_rows, crop, true) || r == crop_result(
            data@.len() as int,
            stride,
            uv_rows,
            crop,
            false,
        ),
        old(out)@.len() >= crop_bytes(crop) ==> r == crop_result(
            data@.len() as int,
            stride,
            uv_rows,
            crop,
            true,
        ),
        match r {
            Ok(_) => final(out)@ == cropped(data@, stride as int, uv_rows as int, crop),
            Err(DecodeError::Alloc(_)) => final(out)@.len() == 0,
            Err(_) => final(out)@ == old(out)@,
        },
{
    let room: bool = match crop_size(data.len(), stride, uv_rows, crop) {
        Ok(n) => make_room(out, n),
        Err(_) => false,
    };
    fill_crop_nv12(data, stride, uv_rows, crop, out, room)
}

/// An earlier row starts no later.
proof fn rows_in_order(stride: int, a: int, b: int)
    requires
        0 <= stride,
        0 <= a <= b,
    ensures
        0 <= a * stride <= b * stride,
{
    assert(0 <= a * stride <= b * stride) by (nonlinear_arith)
        requires
            0 <= stride,
            0 <= a <= b,
    ;
}

/// A position one past the last of a plane is the first of a row.
proof fn row_turn(w: int, h: int, x: int, y: int)
    requires
        0 <= x < w,
        w * h == y * w + x,
    ensures
        x == 0,
        y == h,
{
    vstd::arithmetic::div_mod::lemma_fundamental_div_mod_converse(y * w + x, w, y, x);
    assert(w * h == h * w) by (nonlinear_arith);
    vstd::arithmetic::div_mod::lemma_fundamental_div_mod_converse(h * w, w, h, 0);
}

/// Planes of 32-bit sides have a length that a 64-bit number holds.
proof fn product_fits(stride: int, rows: int)
    requires
        0 <= stride <= 0xFFFF_FFFF,
        0 <= rows <= 0x1_0000_000F,
    ensures
        0 <= stride * rows <= 0x1_0000_000E_FFFF_FFF1,
        0 <= stride * (rows / 2) <= 0x8000_0007_0000_0000,
{
    assert(0 <= stride * rows <= 0x1_0000_000E_FFFF_FFF1) by (nonlinear_arith)
        requires
            0 <= stride <= 0xFFFF_FFFF,
            0 <= rows <= 0x1_0000_000F,
    ;
    let k = rows / 2;
    assert(0 <= stride * k <= 0x8000_0007_0000_0000) by (nonlinear_arith)
        requires
            0 <= stride <= 0xFFFF_FFFF,
            0 <= k <= 0x8000_0007,
    ;
}

/// A crop is no longer than its plane.
proof fn crop_fits(w: int, h: int, stride: int, rows: int)
    requires
        0 <= w <= stride,
        0 <= h <= rows,
    ensures
        0 <= w * h <= stride * rows,
{
    assert(0 <= w * h <= stride * rows) by (nonlinear_arith)
        requires
            0 <= w <= stride,
            0 <= h <= rows,
    ;
}

/// The size of the preview's picture of a crop.
pub open spec fn preview_size(c: Crop, max_long: Option<u64>) -> (int, int) {
    match max_long {
        Some(m) => if larger(c.w as int, c.h as int) > m {
            size_within(c.w as int, c.h as int, m as int)
        } else {
            (c.w as int, c.h as int)
        },
        None => (c.w as int, c.h as int),
    }
}

/// The part of a side that padding does not touch.
pub open spec fn clean_side(n: int) -> int {
    larger(whole_blocks(n), 2)
}

/// Which of `s` samples stands for place `i` of `d`. The last clean one stands
/// for those that padding may touch.
pub open spec fn sample_for(i: int, d: int, s: int) -> int {
    smaller(i * s / d, clean_side(s) - 1)
}

/// The preview's pixel in column `i` and row `j`.
pub open spec fn pixel_of(
    data: Seq<u8>,
    stride: int,
    rows: int,
    c: Crop,
    d: (int, int),
    i: int,
    j: int,
) -> u32 {
    let sx = c.x + sample_for(i, d.0, c.w as int);
    let sy = c.y + sample_for(j, d.1, c.h as int);
    let uv = stride * rows + (sy / 2) * stride + evened(sx);
    rgb709(data[sy * stride + sx] as int, data[uv] as int, data[uv + 1] as int)
}

/// The preview's picture of a crop.
pub open spec fn preview_pixels(
    data: Seq<u8>,
    stride: int,
    rows: int,
    c: Crop,
    max_long: Option<u64>,
) -> Seq<u32> {
    let d = preview_size(c, max_long);
    Seq::new(
        (d.0 * d.1) as nat,
        |k: int| pixel_of(data, stride, rows, c, d, k % d.0, k / d.0),
    )
}

/// Bytes that a buffer must have for the preview's picture of a crop: up to the
/// chroma of the last sample taken.
pub open spec fn preview_end(stride: int, rows: int, c: Crop, d: (int, int)) -> int {
    let sx = c.x + sample_for(d.0 - 1, d.0, c.w as int);
    let sy = c.y + sample_for(d.1 - 1, d.1, c.h as int);
    stride * rows + (sy / 2) * stride + evened(sx) + 2
}

/// What comes of making the preview's picture from a buffer of `len` bytes.
pub open spec fn preview_result(
    len: int,
    stride: u64,
    rows: u64,
    c: Crop,
    max_long: Option<u64>,
    room: bool,
) -> Result<(u32, u32), DecodeError> {
    let d = preview_size(c, max_long);
    if !c.within(stride, rows) {
        Err(DecodeError::Outside)
    } else if !in_range(d.0 * d.1) {
        Err(DecodeError::Range(saturated(d.0 * d.1)))
    } else if len < preview_end(stride as int, rows as int, c, d) {
        Err(DecodeError::Short)
    } else if !room {
        Err(DecodeError::Alloc((d.0 * d.1) as u64))
    } else {
        Ok((d.0 as u32, d.1 as u32))
    }
}

/// A product, as far as 64 bits go.
pub open spec fn saturated(n: int) -> u64 {
    if n > u64::MAX {
        u64::MAX
    } else {
        n as u64
    }
}

fn times(a: u64, b: u64) -> (r: u64)
    ensures
        r == saturated(a * b),
{
    proof {
        assert(0 <= a * b <= u64::MAX * u64::MAX) by (nonlinear_arith)
            requires
                0 <= a <= u64::MAX,
                0 <= b <= u64::MAX,
        ;
    }
    let p: u128 = a as u128 * b as u128;
    if p > u64::MAX as u128 {
        u64::MAX
    } else {
        p as u64
    }
}

fn sample_at(i: u64, d: u64, s: u64) -> (r: u64)
    requires
        i < d,
        2 <= s,
        s <= 0xFF_FFFF_FFFF,
        d <= s,
    ensures
        r == sample_for(i as int, d as int, s as int),
        r < clean_side(s as int),
        r < s,
{
    proof {
        assert(0 <= i * s <= 0xFF_FFFF_FFFF * 0xFF_FFFF_FFFF && 0 <= i * s / (d as int) < s)
            by (nonlinear_arith)
            requires
                0 <= i < d,
                0 < s <= 0xFF_FFFF_FFFF,
                d <= 0xFF_FFFF_FFFF,
        ;
    }
    let at: u64 = if d == s {
        assert(i * s / (d as int) == i) by (nonlinear_arith)
            requires
                d == s,
                s > 0,
        ;
        i
    } else {
        (i as u128 * s as u128 / d as u128) as u64
    };
    min(at, max(mb_safe(s), 2) - 1)
}

/// The size of the picture that the preview makes from a buffer of `len` bytes,
/// or why it makes none.
pub fn preview_dims(
    len: usize,
    stride: u64,
    uv_rows: u64,
    crop: Crop,
    max_long: Option<u64>,
) -> (r: Result<(u32, u32), DecodeError>)
    requires
        crop.wf(),
        stride <= 0xFFFF_FFFF,
        uv_rows <= 0x1_0000_000F,
    ensures
        r == preview_result(len as int, stride, uv_rows, crop, max_long, true),
{
    if !lies_within(crop, stride, uv_rows) {
        return Err(DecodeError::Outside);
    }
    let (dw, dh): (u64, u64) = match max_long {
        Some(m) => if max(crop.w, crop.h) > m {
            scaled_size(crop.w, crop.h, m)
        } else {
            (crop.w, crop.h)
        },
        None => (crop.w, crop.h),
    };
    let ghost d = preview_size(crop, max_long);
    assert((dw as int, dh as int) == d);
    let n: u64 = times(dw, dh);
    if n == 0 || n > MAX_PIXELS {
        proof {
            let m = dw as int;
            let k = dh as int;
            assert(m * k > 0) by (nonlinear_arith)
                requires
                    m >= 2,
                    k >= 2,
            ;
        }
        return Err(DecodeError::Range(n));
    }
    proof {
        sides_in_range(dw as int, dh as int);
        product_fits(stride as int, uv_rows as int);
    }
    let sx: u64 = crop.x + sample_at(dw - 1, dw, crop.w);
    let sy: u64 = crop.y + sample_at(dh - 1, dh, crop.h);
    proof {
        product_fits(stride as int, sy as int);
        let hy = (sy / 2) as int;
        assert(stride * hy == hy * stride) by (nonlinear_arith);
    }
    let end: u128 = stride as u128 * uv_rows as u128 + (sy / 2) as u128 * stride as u128 + even(sx)
        as u128 + 2;
    if (len as u128) < end {
        return Err(DecodeError::Short);
    }
    Ok((dw as u32, dh as u32))
}

/// The sample for a later place comes no earlier.
proof fn samples_in_order(i: int, j: int, d: int, s: int)
    requires
        0 <= i <= j < d,
        s >= 0,
    ensures
        sample_for(i, d, s) <= sample_for(j, d, s),
{
    assert(i * s <= j * s) by (nonlinear_arith)
        requires
            i <= j,
            s >= 0,
    ;
    vstd::arithmetic::div_mod::lemma_div_is_ordered(i * s, j * s, d);
}

/// Makes the preview's picture of a crop, with room for it or without. One is
/// made where the crop lies within the planes, the size is in range, the buffer
/// holds every sample that it takes, and there is room. Without room nothing is
/// left behind; otherwise an error changes nothing.
pub fn fill_rgb_from_nv12(
    data: &[u8],
    stride: u64,
    uv_rows: u64,
    crop: Crop,
    max_long: Option<u64>,
    out: &mut Vec<u32>,
    room: bool,
) -> (r: Result<(u32, u32), DecodeError>)
    requires
        crop.wf(),
        stride <= 0xFFFF_FFFF,
        uv_rows <= 0x1_0000_000F,
    ensures
        r == preview_result(data@.len() as int, stride, uv_rows, crop, max_long, room),
        match r {
            Ok(_) => final(out)@ == preview_pixels(
                data@,
                stride as int,
                uv_rows as int,
                crop,
                max_long,
            ),
            Err(DecodeError::Alloc(_)) => final(out)@.len() == 0,
            Err(_) => final(out)@ == old(out)@,
        },
{
    let ghost d = preview_size(crop, max_long);
    proof {
        size_is_smaller(crop, max_long);
    }
    let (dw, dh): (u64, u64) = match preview_dims(data.len(), stride, uv_rows, crop, max_long) {
        Ok((w, h)) => (w as u64, h as u64),
        Err(e) => return Err(e),
    };
    proof {
        sides_in_range(d.0, d.1);
    }
    if let Err(e) = resize_rgb(out, dw * dh, room) {
        return Err(e);
    }
    let ghost end = preview_end(stride as int, uv_rows as int, crop, d);
    let ghost last = crop.y + sample_for(d.1 - 1, d.1, crop.h as int);
    let ghost edge = crop.x + sample_for(d.0 - 1, d.0, crop.w as int);
    proof {
        sample_within(d.0 - 1, d.0, crop.w as int);
        sample_within(d.1 - 1, d.1, crop.h as int);
        rows_in_order(stride as int, 0, last / 2);
    }
    let uv_off: u64 = stride * uv_rows;
    let mut j: u64 = 0;
    assert(0 * dw == 0) by (nonlinear_arith);
    while j < dh
        invariant
            crop.wf(),
            crop.within(stride, uv_rows),
            stride <= 0xFFFF_FFFF,
            uv_rows <= 0x1_0000_000F,
            uv_off == stride * uv_rows,
            last == crop.y + sample_for(d.1 - 1, d.1, crop.h as int),
            edge == crop.x + sample_for(d.0 - 1, d.0, crop.w as int),
            end == uv_off + (last / 2) * stride + evened(edge) + 2,
            end <= data.len(),
            d == (dw as int, dh as int),
            2 <= dw <= crop.w,
            2 <= dh <= crop.h,
            dw * dh <= MAX_PIXELS,
            j <= dh,
            out@.len() == dw * dh,
            forall|k: int|
                0 <= k < j * dw ==> out@[k] == pixel_of(
                    data@,
                    stride as int,
                    uv_rows as int,
                    crop,
                    d,
                    k % d.0,
                    k / d.0,
                ),
        decreases dh - j,
    {
        let sy: u64 = crop.y + sample_at(j, dh, crop.h);
        proof {
            samples_in_order(j as int, dh - 1, dh as int, crop.h as int);
            rows_in_order(stride as int, sy as int / 2, last / 2);
            assert(0 <= sy * stride && sy * stride + stride <= stride * uv_rows)
                by (nonlinear_arith)
                requires
                    sy < uv_rows,
            ;
        }
        let y_row: u64 = sy * stride;
        let uv_row: u64 = uv_off + (sy / 2) * stride;
        let mut i: u64 = 0;
        while i < dw
            invariant
                crop.wf(),
                crop.within(stride, uv_rows),
                stride <= 0xFFFF_FFFF,
                uv_off == stride * uv_rows,
                edge == crop.x + sample_for(d.0 - 1, d.0, crop.w as int),
                end <= data.len(),
                d == (dw as int, dh as int),
                2 <= dw <= crop.w,
                2 <= dh <= crop.h,
                dw * dh <= MAX_PIXELS,
                j < dh,
                sy == crop.y + sample_for(j as int, dh as int, crop.h as int),
                y_row == sy * stride,
                uv_row == uv_off + (sy / 2) * stride,
                y_row + stride <= uv_off,
                uv_off <= data.len(),
                uv_row + evened(edge) + 2 <= end,
                i <= dw,
                out@.len() == dw * dh,
                forall|k: int|
                    0 <= k < j * dw + i ==> out@[k] == pixel_of(
                        data@,
                        stride as int,
                        uv_rows as int,
                        crop,
                        d,
                        k % d.0,
                        k / d.0,
                    ),
            decreases dw - i,
        {
            let sx: u64 = crop.x + sample_at(i, dw, crop.w);
            proof {
                samples_in_order(i as int, dw - 1, dw as int, crop.w as int);
                spot(dw as int, dh as int, i as int, j as int);
            }
            let at: u64 = uv_row + even(sx);
            let v: u32 = yuv709_full(
                data[(y_row + sx) as usize],
                data[at as usize],
                data[(at + 1) as usize],
            );
            assert(v == pixel_of(
                data@,
                stride as int,
                uv_rows as int,
                crop,
                d,
                i as int,
                j as int,
            ));
            out[(j * dw + i) as usize] = v;
            i += 1;
        }
        j += 1;
        assert(j * dw == (j - 1) * dw + dw) by (nonlinear_arith);
    }
    assert(dh * dw == dw * dh) by (nonlinear_arith);
    assert(out@ =~= preview_pixels(data@, stride as int, uv_rows as int, crop, max_long));
    Ok((dw as u32, dh as u32))
}

/// Makes the preview's picture of a crop. Whether there is memory for it is the
/// machine's to say, but a vector that is long enough has the room.
pub fn rgb_from_nv12(
    data: &[u8],
    stride: u64,
    uv_rows: u64,
    crop: Crop,
    max_long: Option<u64>,
    out: &mut Vec<u32>,
) -> (r: Result<(u32, u32), DecodeError>)
    requires
        crop.wf(),
        stride <= 0xFFFF_FFFF,
        uv_rows <= 0x1_0000_000F,
    ensures
        r == preview_result(data@.len() as int, stride, uv_rows, crop, max_long, true) || r
            == preview_result(data@.len() as int, stride, uv_rows, crop, max_long, false),
        old(out)@.len() >= preview_size(crop, max_long).0 * preview_size(crop, max_long).1 ==> r
            == preview_result(data@.len() as int, stride, uv_rows, crop, max_long, true),
        match r {
            Ok(_) => final(out)@ == preview_pixels(
                data@,
                stride as int,
                uv_rows as int,
                crop,
                max_long,
            ),
            Err(DecodeError::Alloc(_)) => final(out)@.len() == 0,
            Err(_) => final(out)@ == old(out)@,
        },
{
    let room: bool = match preview_dims(data.len(), stride, uv_rows, crop, max_long) {
        Ok((w, h)) => {
            proof {
                size_is_smaller(crop, max_long);
                let d = preview_size(crop, max_long);
                sides_in_range(d.0, d.1);
            }
            make_room(out, w as usize * h as usize)
        },
        Err(_) => false,
    };
    fill_rgb_from_nv12(data, stride, uv_rows, crop, max_long, out, room)
}

/// The preview's picture is no larger than the crop.
proof fn size_is_smaller(c: Crop, max_long: Option<u64>)
    requires
        c.wf(),
    ensures
        2 <= preview_size(c, max_long).0 <= c.w,
        2 <= preview_size(c, max_long).1 <= c.h,
{
    if let Some(m) = max_long {
        let long = larger(c.w as int, c.h as int);
        if long > m {
            shrinks(c.w as int, m as int, long);
            shrinks(c.h as int, m as int, long);
        }
    }
}

/// A sample is one of those there are.
proof fn sample_within(i: int, d: int, s: int)
    requires
        0 <= i < d,
        2 <= s,
    ensures
        0 <= sample_for(i, d, s) < s,
{
    assert(0 <= i * s / d < s) by (nonlinear_arith)
        requires
            0 <= i < d,
            0 < s,
    ;
}

/// A buffer with both planes, luma and chroma at half the rows, is long enough for
/// any crop within them, and one that a crop can be cut out of is long enough for
/// the preview's picture of it.
pub proof fn whole_planes_suffice(c: Crop, stride: u64, rows: u64, max_long: Option<u64>)
    requires
        c.wf(),
        c.within(stride, rows),
    ensures
        crop_end(stride as int, rows as int, c) <= stride * rows + stride * (rows as int / 2),
        preview_end(stride as int, rows as int, c, preview_size(c, max_long)) <= crop_end(
            stride as int,
            rows as int,
            c,
        ),
{
    let st = stride as int;
    let last = c.y as int / 2 + c.h as int / 2 - 1;
    let d = preview_size(c, max_long);
    size_is_smaller(c, max_long);
    sample_within(d.0 - 1, d.0, c.w as int);
    sample_within(d.1 - 1, d.1, c.h as int);
    let sy = c.y + sample_for(d.1 - 1, d.1, c.h as int);
    rows_in_order(st, sy / 2, last);
    rows_in_order(st, last + 1, rows as int / 2);
    let half = rows as int / 2;
    assert((last + 1) * st == last * st + st && half * st == st * half) by (nonlinear_arith);
}

/// The sides of a picture in range are short.
proof fn sides_in_range(w: int, h: int)
    requires
        w >= 1,
        h >= 1,
        w * h <= MAX_PIXELS,
    ensures
        w <= MAX_PIXELS,
        h <= MAX_PIXELS,
{
    assert(w <= w * h && h <= w * h) by (nonlinear_arith)
        requires
            w >= 1,
            h >= 1,
    ;
}

/// The crop of a converted plane.
pub open spec fn bgrx_crop(l: OutputLayout, plane_w: int, plane_h: int) -> Crop {
    crop_of(l, larger(plane_w, 1), larger(plane_h, 1))
}

/// Columns and rows of a converted plane of `len` bytes. Rows too short for a
/// pixel tell nothing, and the frame's own size stands.
pub open spec fn converted_plane(l: OutputLayout, stride: int, len: int) -> (int, int) {
    if stride >= 4 {
        (stride / 4, larger(larger(len, stride) / stride, l.frame_h as int))
    } else {
        (l.frame_w as int, l.frame_h as int)
    }
}

/// Columns and rows of a converted plane of `len` bytes.
pub fn plane_of(layout: &OutputLayout, stride: u32, len: u32) -> (r: (u64, u64))
    ensures
        (r.0 as int, r.1 as int) == converted_plane(*layout, stride as int, len as int),
        r.0 <= 0xFFFF_FFFF && r.1 <= 0xFFFF_FFFF,
{
    if stride < 4 {
        return (layout.frame_w as u64, layout.frame_h as u64);
    }
    let rows: u32 = if len >= stride {
        len / stride
    } else {
        1
    };
    assert(stride / stride == 1);
    ((stride / 4) as u64, max(rows as u64, layout.frame_h as u64))
}

/// Bytes that a converted plane must have for its crop to be read: up to the red
/// of the last sample taken. The byte behind it is not read.
pub open spec fn bgrx_end(c: Crop, stride: int) -> int {
    (c.y + clean_side(c.h as int) - 1) * stride + (c.x + clean_side(c.w as int)) * 4 - 1
}

/// What comes of taking a crop out of a converted plane of `len` bytes.
pub open spec fn bgrx_result(len: int, stride: int, c: Crop, room: bool) -> Result<
    (u32, u32),
    DecodeError,
> {
    if !in_range(c.w * c.h) {
        Err(DecodeError::Range(saturated(c.w * c.h)))
    } else if len < bgrx_end(c, stride) {
        Err(DecodeError::Short)
    } else if !room {
        Err(DecodeError::Alloc((c.w * c.h) as u64))
    } else {
        Ok((c.w as u32, c.h as u32))
    }
}

/// The pixel in column `i` and row `j` of a converted crop.
pub open spec fn bgrx_pixel(data: Seq<u8>, stride: int, c: Crop, i: int, j: int) -> u32 {
    let sx = c.x + smaller(i, clean_side(c.w as int) - 1);
    let sy = c.y + smaller(j, clean_side(c.h as int) - 1);
    let at = sy * stride + sx * 4;
    (data[at + 2] * 65536 + data[at + 1] * 256 + data[at]) as u32
}

/// The picture in a converted crop.
pub open spec fn bgrx_pixels(data: Seq<u8>, stride: int, c: Crop) -> Seq<u32> {
    Seq::new(
        (c.w * c.h) as nat,
        |k: int| bgrx_pixel(data, stride, c, k % (c.w as int), k / (c.w as int)),
    )
}

/// Bytes that a converted plane must have for its crop to be read.
pub fn bgrx_extent(stride: u64, crop: Crop) -> (r: u128)
    requires
        crop.wf(),
        stride <= 0xFFFF_FFFF,
    ensures
        r == bgrx_end(crop, stride as int),
{
    let last: u128 = crop.y as u128 + max(mb_safe(crop.h), 2) as u128 - 1;
    proof {
        rows_in_order(stride as int, 0, last as int);
        assert(last * stride <= 0x1_FFFF_FFFF_FFFF_FFFF * 0xFFFF_FFFF) by (nonlinear_arith)
            requires
                0 <= last <= 0x1_FFFF_FFFF_FFFF_FFFF,
                0 <= stride <= 0xFFFF_FFFF,
        ;
    }
    last * stride as u128 + (crop.x as u128 + max(mb_safe(crop.w), 2) as u128) * 4 - 1
}

/// The size of the picture in a converted plane of `len` bytes, or why there is
/// none.
pub fn bgrx_dims(len: usize, stride: u64, plane_w: u64, plane_h: u64, layout: &OutputLayout) -> (r:
    Result<(u32, u32), DecodeError>)
    requires
        stride <= 0xFFFF_FFFF,
        plane_w <= 0xFFFF_FFFF,
        plane_h <= 0xFFFF_FFFF,
    ensures
        r == bgrx_result(
            len as int,
            stride as int,
            bgrx_crop(*layout, plane_w as int, plane_h as int),
            true,
        ),
{
    let crop: Crop = resolve_crop(layout, max(plane_w, 1), max(plane_h, 1));
    let n: u64 = times(crop.w, crop.h);
    if n == 0 || n > MAX_PIXELS {
        return Err(DecodeError::Range(n));
    }
    if (len as u128) < bgrx_extent(stride, crop) {
        return Err(DecodeError::Short);
    }
    proof {
        sides_in_range(crop.w as int, crop.h as int);
    }
    Ok((crop.w as u32, crop.h as u32))
}

/// Takes the picture out of a plane that was converted to blue, green, red and
/// a byte unused, with room for it or without. One is made where its size is in
/// range, the buffer holds every sample that it takes, and there is room.
/// Without room nothing is left behind; otherwise an error changes nothing.
pub fn fill_rgb_from_bgrx(
    data: &[u8],
    stride: u64,
    plane_w: u64,
    plane_h: u64,
    layout: &OutputLayout,
    out: &mut Vec<u32>,
    room: bool,
) -> (r: Result<(u32, u32), DecodeError>)
    requires
        stride <= 0xFFFF_FFFF,
        plane_w <= 0xFFFF_FFFF,
        plane_h <= 0xFFFF_FFFF,
    ensures
        ({
            let c = bgrx_crop(*layout, plane_w as int, plane_h as int);
            &&& r == bgrx_result(data@.len() as int, stride as int, c, room)
            &&& match r {
                Ok(_) => final(out)@ == bgrx_pixels(data@, stride as int, c),
                Err(DecodeError::Alloc(_)) => final(out)@.len() == 0,
                Err(_) => final(out)@ == old(out)@,
            }
        }),
{
    if let Err(e) = bgrx_dims(data.len(), stride, plane_w, plane_h, layout) {
        return Err(e);
    }
    let crop: Crop = resolve_crop(layout, max(plane_w, 1), max(plane_h, 1));
    let ghost c = bgrx_crop(*layout, plane_w as int, plane_h as int);
    proof {
        sides_in_range(crop.w as int, crop.h as int);
    }
    if let Err(e) = resize_rgb(out, crop.w * crop.h, room) {
        return Err(e);
    }
    let safe_w: u64 = max(mb_safe(crop.w), 2);
    let safe_h: u64 = max(mb_safe(crop.h), 2);
    let ghost last = crop.y + safe_h - 1;
    let ghost end = bgrx_end(c, stride as int);
    let mut j: u64 = 0;
    assert(0 * crop.w == 0) by (nonlinear_arith);
    while j < crop.h
        invariant
            c == crop,
            crop.wf(),
            crop.w <= MAX_PIXELS,
            crop.h <= MAX_PIXELS,
            crop.w * crop.h <= MAX_PIXELS,
            crop.x <= 0x1_0000_0000,
            crop.y <= 0x1_0000_0000,
            stride <= 0xFFFF_FFFF,
            safe_w == clean_side(crop.w as int),
            safe_h == clean_side(crop.h as int),
            last == crop.y + safe_h - 1,
            end == last * stride + (crop.x + safe_w) * 4 - 1,
            end <= data.len(),
            j <= crop.h,
            out@.len() == crop.w * crop.h,
            forall|k: int|
                0 <= k < j * crop.w ==> out@[k] == bgrx_pixel(
                    data@,
                    stride as int,
                    c,
                    k % (c.w as int),
                    k / (c.w as int),
                ),
        decreases crop.h - j,
    {
        let sy: u64 = crop.y + min(j, safe_h - 1);
        proof {
            assert(sy * stride <= last * stride) by (nonlinear_arith)
                requires
                    sy <= last,
                    stride >= 0,
            ;
            assert(0 <= sy * stride) by (nonlinear_arith)
                requires
                    sy >= 0,
                    stride >= 0,
            ;
        }
        let row: u64 = sy * stride;
        let mut i: u64 = 0;
        while i < crop.w
            invariant
                c == crop,
                crop.wf(),
                crop.w <= MAX_PIXELS,
                crop.h <= MAX_PIXELS,
                crop.w * crop.h <= MAX_PIXELS,
                crop.x <= 0x1_0000_0000,
                stride <= 0xFFFF_FFFF,
                safe_w == clean_side(crop.w as int),
                safe_h == clean_side(crop.h as int),
                j < crop.h,
                sy == crop.y + smaller(j as int, safe_h - 1),
                row == sy * stride,
                row + (crop.x + safe_w) * 4 - 1 <= end,
                end <= data.len(),
                i <= crop.w,
                out@.len() == crop.w * crop.h,
                forall|k: int|
                    0 <= k < j * crop.w + i ==> out@[k] == bgrx_pixel(
                        data@,
                        stride as int,
                        c,
                        k % (c.w as int),
                        k / (c.w as int),
                    ),
            decreases crop.w - i,
        {
            let sx: u64 = crop.x + min(i, safe_w - 1);
            let at: usize = (row + sx * 4) as usize;
            proof {
                spot(crop.w as int, crop.h as int, i as int, j as int);
            }
            let b: u32 = data[at] as u32;
            let g: u32 = data[at + 1] as u32;
            let r: u32 = data[at + 2] as u32;
            out[(j * crop.w + i) as usize] = r * 65536 + g * 256 + b;
            i += 1;
        }
        j += 1;
        assert(j * crop.w == (j - 1) * crop.w + crop.w) by (nonlinear_arith);
    }
    assert(crop.h * crop.w == crop.w * crop.h) by (nonlinear_arith);
    assert(out@ =~= bgrx_pixels(data@, stride as int, c));
    Ok((crop.w as u32, crop.h as u32))
}

/// Takes the picture out of a converted plane. Whether there is memory for it is
/// the machine's to say, but a vector that is long enough has the room.
pub fn rgb_from_bgrx(
    data: &[u8],
    stride: u64,
    plane_w: u64,
    plane_h: u64,
    layout: &OutputLayout,
    out: &mut Vec<u32>,
) -> (r: Result<(u32, u32), DecodeError>)
    requires
        stride <= 0xFFFF_FFFF,
        plane_w <= 0xFFFF_FFFF,
        plane_h <= 0xFFFF_FFFF,
    ensures
        ({
            let c = bgrx_crop(*layout, plane_w as int, plane_h as int);
            let made = bgrx_result(data@.len() as int, stride as int, c, true);
            let refused = bgrx_result(data@.len() as int, stride as int, c, false);
            &&& r == made || r == refused
            &&& old(out)@.len() >= c.w * c.h ==> r == made
            &&& match r {
                Ok(_) => final(out)@ == bgrx_pixels(data@, stride as int, c),
                Err(DecodeError::Alloc(_)) => final(out)@.len() == 0,
                Err(_) => final(out)@ == old(out)@,
            }
        }),
{
    let room: bool = match bgrx_dims(data.len(), stride, plane_w, plane_h, layout) {
        Ok((w, h)) => {
            proof {
                let c = bgrx_crop(*layout, plane_w as int, plane_h as int);
                sides_in_range(c.w as int, c.h as int);
            }
            make_room(out, w as usize * h as usize)
        },
        Err(_) => false,
    };
    fill_rgb_from_bgrx(data, stride, plane_w, plane_h, layout, out, room)
}

/// A cropped picture holds the crop's pixels in their places, and the chroma over
/// each: U for none, V for one.
pub proof fn crop_keeps_places(
    data: Seq<u8>,
    stride: int,
    rows: int,
    c: Crop,
    x: int,
    y: int,
    k: int,
)
    requires
        c.wf(),
        0 <= x < c.w,
        0 <= y < c.h,
        0 <= k <= 1,
    ensures
        ({
            let out = cropped(data, stride, rows, c);
            &&& out.len() == c.w * c.h + c.w * c.h / 2
            &&& out[y * c.w + x] == data[(c.y + y) * stride + (c.x + x)]
            &&& out[c.w * c.h + (y / 2) * c.w + 2 * (x / 2) + k] == data[stride * rows + ((c.y + y)
                / 2) * stride + 2 * ((c.x + x) / 2) + k]
        }),
{
    let w = c.w as int;
    let h = c.h as int;
    half_rows(w, h);
    spot(w, h, x, y);
    spot(w, h / 2, 2 * (x / 2) + k, y / 2);
    assert((c.y + y) / 2 == c.y as int / 2 + y / 2);
    assert(2 * ((c.x + x) / 2) == c.x + 2 * (x / 2));
}

/// The sample that is taken at place `q` of a side: that one, or the last of the whole
/// macroblocks, where padding may touch it.
pub open spec fn untouched(q: int, side: int) -> int {
    let end = if side < 16 {
        2
    } else {
        side - side % 16
    };
    if q < end {
        q
    } else {
        end - 1
    }
}

/// The preview shows the crop upright and not mirrored: each of its pixels has the
/// colour of the sample at the same part of the way across and down, and of the chroma
/// over that.
pub proof fn preview_keeps_places(
    data: Seq<u8>,
    stride: int,
    rows: int,
    c: Crop,
    max_long: Option<u64>,
    i: int,
    j: int,
    p: int,
    q: int,
)
    requires
        c.wf(),
        0 <= i < preview_size(c, max_long).0,
        0 <= j < preview_size(c, max_long).1,
        stands_for(p, c.w as int, i, preview_size(c, max_long).0),
        stands_for(q, c.h as int, j, preview_size(c, max_long).1),
    ensures
        ({
            let dw = preview_size(c, max_long).0;
            let x = c.x + untouched(p, c.w as int);
            let y = c.y + untouched(q, c.h as int);
            let uv = stride * rows + (y / 2) * stride + 2 * (x / 2);
            &&& preview_pixels(data, stride, rows, c, max_long).len() == dw * preview_size(
                c,
                max_long,
            ).1
            &&& is_colour(
                preview_pixels(data, stride, rows, c, max_long)[j * dw + i],
                data[y * stride + x],
                data[uv],
                data[uv + 1],
            )
        }),
{
    let (dw, dh) = preview_size(c, max_long);
    size_is_smaller(c, max_long);
    spot(dw, dh, i, j);
    some_stands_for_each(i, c.w as int, dw);
    some_stands_for_each(j, c.h as int, dh);
    one_stands_for_each(p, i * c.w / dw, c.w as int, i, i, dw);
    one_stands_for_each(q, j * c.h / dh, c.h as int, j, j, dh);
    let x = c.x + untouched(p, c.w as int);
    let y = c.y + untouched(q, c.h as int);
    assert(x == c.x + sample_for(i, dw, c.w as int));
    assert(y == c.y + sample_for(j, dh, c.h as int));
    assert(evened(x) == 2 * (x / 2));
    let uv = stride * rows + (y / 2) * stride + 2 * (x / 2);
    colours_are_right(data[y * stride + x], data[uv], data[uv + 1]);
}

/// The size of the preview: the crop's own, where its long edge is within the limit,
/// and otherwise the crop's shape at that limit, to within a chroma sample.
pub proof fn preview_keeps_shape(c: Crop, max_long: Option<u64>)
    requires
        c.wf(),
    ensures
        ({
            let (dw, dh) = preview_size(c, max_long);
            let long = if c.w >= c.h {
                c.w as int
            } else {
                c.h as int
            };
            match max_long {
                Some(m) => if long <= m {
                    dw == c.w && dh == c.h
                } else {
                    &&& dw % 2 == 0 && dh % 2 == 0 && dw >= 2 && dh >= 2
                    &&& c.w * m < (dw + 2) * long && (dw == 2 || dw * long <= c.w * m)
                    &&& c.h * m < (dh + 2) * long && (dh == 2 || dh * long <= c.h * m)
                    &&& m >= 2 ==> dw <= m && dh <= m
                },
                None => dw == c.w && dh == c.h,
            }
        }),
{
    if let Some(m) = max_long {
        let long = larger(c.w as int, c.h as int);
        if long > m {
            scaled_side_is_near(c.w as int, m as int, long);
            scaled_side_is_near(c.h as int, m as int, long);
        }
    }
}

proof fn scaled_side_is_near(a: int, m: int, long: int)
    requires
        0 <= a <= long,
        0 <= m < long,
    ensures
        ({
            let s = larger(evened(a * m / long), 2);
            &&& s % 2 == 0 && s >= 2
            &&& a * m < (s + 2) * long
            &&& s == 2 || s * long <= a * m
            &&& m >= 2 ==> s <= m
        }),
{
    let q = a * m / long;
    assert(q * long <= a * m < (q + 1) * long && 0 <= q <= m) by (nonlinear_arith)
        requires
            q == a * m / long,
            0 <= a <= long,
            0 <= m < long,
    ;
    let s = larger(evened(q), 2);
    assert((q + 1) * long <= (s + 2) * long) by (nonlinear_arith)
        requires
            q + 1 <= s + 2,
            long >= 0,
    ;
    if s != 2 {
        assert(s * long <= q * long) by (nonlinear_arith)
            requires
                s <= q,
                long >= 0,
        ;
    }
}

/// A converted picture shows the crop upright and not mirrored, and in its own colours:
/// blue, green and red stand in a plane in that order, and red comes out on top.
pub proof fn converted_keeps_places(data: Seq<u8>, stride: int, c: Crop, i: int, j: int)
    requires
        c.wf(),
        0 <= i < c.w,
        0 <= j < c.h,
    ensures
        ({
            let x = c.x + untouched(i, c.w as int);
            let y = c.y + untouched(j, c.h as int);
            let at = y * stride + 4 * x;
            let p = bgrx_pixels(data, stride, c)[j * c.w + i] as int;
            &&& bgrx_pixels(data, stride, c).len() == c.w * c.h
            &&& p / 0x1_0000 == data[at + 2]
            &&& p / 0x100 % 0x100 == data[at + 1]
            &&& p % 0x100 == data[at]
        }),
{
    spot(c.w as int, c.h as int, i, j);
    let x = c.x + untouched(i, c.w as int);
    let y = c.y + untouched(j, c.h as int);
    let at = y * stride + 4 * x;
    put_together(data[at + 2] as int, data[at + 1] as int, data[at] as int);
}

/// A rectangle that the stream declares is the picture, as it is: where it lies within
/// the planes on even samples, and no padded size.
pub proof fn declared_rectangle_is_shown(l: OutputLayout, c: SpsCrop, stride: int, rows: int)
    requires
        l.sps_crop == Some(c),
        c.x % 2 == 0 && c.y % 2 == 0 && c.w % 2 == 0 && c.h % 2 == 0,
        c.w >= 2 && c.h >= 2,
        c.w != 1088 && c.w != 2176 && c.h != 1088 && c.h != 2176,
        c.x + c.w <= stride,
        c.y + c.h <= rows,
    ensures
        crop_of(l, stride, rows) == (Crop {
            x: c.x as u64,
            y: c.y as u64,
            w: c.w as u64,
            h: c.h as u64,
        }),
{
}

/// An aperture is the picture where the stream declares none, and the frame's own size
/// where there is neither.
pub proof fn aperture_or_frame_is_shown(l: OutputLayout, stride: int, rows: int)
    requires
        l.sps_crop is None,
        stride % 2 == 0 && rows % 2 == 0,
    ensures
        match l.aperture {
            Some((x, y, w, h)) => x >= 0 && y >= 0 && w >= 2 && h >= 2 && x % 2 == 0 && y % 2 == 0
                && w % 2 == 0 && h % 2 == 0 && w != 1088 && w != 2176 && h != 1088 && h != 2176 && x
                + w <= stride && y + h <= rows ==> crop_of(l, stride, rows) == (Crop {
                x: x as u64,
                y: y as u64,
                w: w as u64,
                h: h as u64,
            }),
            None => true,
        },
        l.aperture is None && 2 <= l.frame_w <= stride && 2 <= l.frame_h <= rows && l.frame_w % 2
            == 0 && l.frame_h % 2 == 0 && l.frame_w != 1088 && l.frame_w != 2176 && l.frame_h
            != 1088 && l.frame_h != 2176 ==> crop_of(l, stride, rows) == (Crop {
            x: 0,
            y: 0,
            w: l.frame_w as u64,
            h: l.frame_h as u64,
        }),
{
}

/// A buffer tells its stride and where its chroma begins: planes of an even height, or
/// of one that is padded to macroblocks, are found again by their length.
pub proof fn buffers_tell_their_layout(w: int, h: int, stride: int)
    requires
        2 <= w <= stride,
        2 <= h,
        h % 2 == 0,
    ensures
        inferred_stride(w, h, stride * (h * 3 / 2)) == stride,
        uv_rows_of(h, stride, stride * (h * 3 / 2)) == h,
        uv_rows_of(h, stride, stride * (aligned(h) * 3 / 2)) == aligned(h),
{
    let k = h / 2;
    let plain = 3 * k;
    assert(h * 3 / 2 == plain);
    vstd::arithmetic::div_mod::lemma_fundamental_div_mod_converse(stride * plain, plain, stride, 0);
    rows_by_length(h, stride);
    let g = aligned(h);
    rows_by_length(g, stride);
}

/// So many rows are found again by the length of the planes.
proof fn rows_by_length(h: int, stride: int)
    requires
        2 <= stride,
        2 <= h,
        h % 2 == 0,
    ensures
        stride * (h * 3 / 2) >= stride * 3 / 2,
        evened(stride * (h * 3 / 2) * 2 / (stride * 3)) == h,
{
    let k = h / 2;
    assert(h * 3 / 2 == 3 * k);
    let n = stride * (3 * k);
    assert(n >= 3 * stride && 2 * n == h * (stride * 3)) by (nonlinear_arith)
        requires
            n == stride * (3 * k),
            h == 2 * k,
            k >= 1,
            stride >= 2,
    ;
    vstd::arithmetic::div_mod::lemma_fundamental_div_mod_converse(2 * n, stride * 3, h, 0);
}

/// True of an error message that tells of memory running out.
pub open spec fn tells_oom(m: Seq<char>) -> bool {
    holds(m, "0x8007000E"@) || holds(m, "RGB alloc"@) || holds(m, "Not enough memory"@)
}

/// True of an error message that tells of memory running out.
pub fn is_oom(message: &str) -> (r: bool)
    ensures
        r == tells_oom(message@),
{
    let m: Vec<char> = chars(message);
    contains_text(m.as_slice(), "0x8007000E") || contains_text(m.as_slice(), "RGB alloc")
        || contains_text(m.as_slice(), "Not enough memory")
}

/// The result code for running out of memory.
pub const E_OUTOFMEMORY: i32 = -2147024882;

/// True of the result code for running out of memory.
pub fn hresult_oom(code: i32) -> (r: bool)
    ensures
        r == (code == E_OUTOFMEMORY),
{
    code == E_OUTOFMEMORY
}

/// Whether the decoder brings samples of its own, by its flags.
pub fn provides_samples(flags: u32) -> (r: bool)
    ensures
        r == (flags & 0x100 != 0 || flags & 0x200 != 0),
{
    flags & 0x100 != 0 || flags & 0x200 != 0
}

/// What a call into the decoder came to.
#[derive(Clone, Copy, PartialEq, Eq, Structural, Debug)]
pub enum CallResult {
    Done,
    /// Output has to be taken out first.
    NotAccepting,
    /// There is no output yet.
    NeedMoreInput,
    /// The output has another format from now on.
    StreamChange,
    NoMemory,
    Failed,
}

/// What to do after input was offered.
#[derive(Clone, Copy, PartialEq, Eq, Structural, Debug)]
pub enum FeedStep {
    /// Take out what there is.
    Drain,
    /// Take out what there is, then offer the same input once more.
    DrainAndRetry,
    /// The access unit is lost, the stream goes on.
    Drop,
    /// The decoder failed.
    Fail,
}

/// What to do after output was asked for.
#[derive(Clone, Copy, PartialEq, Eq, Structural, Debug)]
pub enum OutputStep {
    /// A frame: whether it goes to the virtual camera, and what the preview does with it.
    Frame { pack: bool, route: Route },
    /// There is no more for now.
    Done,
    /// Choose an output format again; there is no more for now.
    Reselect,
    /// The decoder failed.
    Fail,
}

/// How the preview's picture of a frame is made.
#[derive(Clone, Copy, PartialEq, Eq, Structural, Debug)]
pub enum Route {
    /// Not at all.
    Nothing,
    /// By the colour converter, which is made first where there is none.
    Convert,
    /// From the planes, with a limited long edge.
    Planes { max_long: Option<u64> },
}

/// What a new parameter set changes.
#[derive(Clone, Copy, PartialEq, Eq, Structural, Debug)]
pub enum SpsChange {
    /// Nothing.
    Same,
    /// The first rectangle.
    First,
    /// Another rectangle: what is in the decoder is thrown away.
    Other,
}

/// What is kept between access units.
#[derive(Clone, Copy, Debug)]
pub struct MfH264Decoder {
    pub layout: OutputLayout,
    /// There is a colour converter.
    pub color: bool,
    /// The colour converter ran out of memory once, and is not tried again.
    pub color_oom: bool,
    /// Memory ran out since last asked.
    pub hit_oom: bool,
    pub last_oom_log: Option<u64>,
}

impl MfH264Decoder {
    /// The long edge of the source, by all that is known of it.
    pub open spec fn long_edge(self) -> int {
        let sps = match self.layout.sps_crop {
            Some(c) => larger(c.w as int, c.h as int),
            None => 0,
        };
        larger(larger(self.layout.frame_w as int, self.layout.frame_h as int), sps)
    }

    /// After memory ran out.
    pub open spec fn starved(self, now: u64) -> MfH264Decoder {
        MfH264Decoder {
            color: false,
            color_oom: true,
            hit_oom: true,
            last_oom_log: if self.quiet(now) {
                self.last_oom_log
            } else {
                Some(now)
            },
            ..self
        }
    }

    /// True within two seconds of the last complaint.
    pub open spec fn quiet(self, now: u64) -> bool {
        match self.last_oom_log {
            Some(t) => now < t + 2_000_000_000,
            None => false,
        }
    }

    /// How the preview's picture of a frame is made.
    pub open spec fn routed(self, rgb: PreviewRgb) -> Route {
        match rgb {
            PreviewRgb::Skip => Route::Nothing,
            PreviewRgb::Native => if self.long_edge() > 1920 {
                Route::Planes { max_long: Some(1920) }
            } else if self.color_oom {
                Route::Planes { max_long: None }
            } else {
                Route::Convert
            },
            PreviewRgb::Downscale { max_long } => Route::Planes { max_long: Some(max_long as u64) },
        }
    }

    /// A decoder that has seen nothing.
    pub fn new() -> (r: MfH264Decoder)
        ensures
            !r.color && !r.color_oom && !r.hit_oom && r.last_oom_log is None,
            r.layout == (OutputLayout {
                frame_w: 0,
                frame_h: 0,
                default_stride: None,
                aperture: None,
                sps_crop: None,
            }),
    {
        MfH264Decoder {
            layout: OutputLayout::default(),
            color: false,
            color_oom: false,
            hit_oom: false,
            last_oom_log: None,
        }
    }

    /// True once after memory ran out.
    pub fn take_oom(&mut self) -> (r: bool)
        ensures
            r == old(self).hit_oom,
            *final(self) == (MfH264Decoder { hit_oom: false, ..*old(self) }),
    {
        let r: bool = self.hit_oom;
        self.hit_oom = false;
        r
    }

    /// The long edge of the source.
    pub fn src_long(&self) -> (r: u32)
        ensures
            r == self.long_edge(),
    {
        let sps: u64 = match self.layout.sps_crop {
            Some(c) => max(c.w as u64, c.h as u64),
            None => 0,
        };
        max(max(self.layout.frame_w as u64, self.layout.frame_h as u64), sps) as u32
    }

    /// Memory ran out: the preview gives way, the stream goes on. True where
    /// that is worth a line in the log.
    pub fn note_oom(&mut self, now: u64) -> (r: bool)
        ensures
            *final(self) == old(self).starved(now),
            r == !old(self).quiet(now),
    {
        self.hit_oom = true;
        self.color_oom = true;
        self.color = false;
        let quiet: bool = match self.last_oom_log {
            Some(t) => (now as u128) < t as u128 + 2_000_000_000,
            None => false,
        };
        if !quiet {
            self.last_oom_log = Some(now);
        }
        !quiet
    }

    /// The decoder has another output format. What the stream declares stays known.
    pub fn refresh_output_info(
        &mut self,
        frame_w: u32,
        frame_h: u32,
        default_stride: Option<i32>,
        aperture: Option<(i32, i32, i32, i32)>,
    )
        ensures
            *final(self) == (MfH264Decoder {
                layout: OutputLayout {
                    frame_w,
                    frame_h,
                    default_stride,
                    aperture,
                    sps_crop: old(self).layout.sps_crop,
                },
                ..*old(self)
            }),
    {
        self.layout = OutputLayout {
            frame_w,
            frame_h,
            default_stride,
            aperture,
            sps_crop: self.layout.sps_crop,
        };
    }

    /// Takes note of what an access unit declares. An empty one, or one without
    /// a readable parameter set, changes nothing.
    pub fn note_sps(&mut self, annex_b: &[u8]) -> (r: SpsChange)
        ensures
            match stream_rectangle(annex_b@) {
                None => r == SpsChange::Same && *final(self) == *old(self),
                Some(c) => if old(self).layout.sps_crop == Some(c) {
                    r == SpsChange::Same && *final(self) == *old(self)
                } else {
                    &&& r == if old(self).layout.sps_crop is None {
                        SpsChange::First
                    } else {
                        SpsChange::Other
                    }
                    &&& final(self).layout == (OutputLayout {
                        sps_crop: Some(c),
                        ..old(self).layout
                    })
                    &&& final(self).color == (old(self).color && r == SpsChange::First)
                    &&& final(self).color_oom == old(self).color_oom
                    &&& final(self).hit_oom == old(self).hit_oom
                    &&& final(self).last_oom_log == old(self).last_oom_log
                },
            },
    {
        match sps_crop_from_annex_b(annex_b) {
            None => SpsChange::Same,
            Some(c) => {
                match self.layout.sps_crop {
                    Some(d) => {
                        if c == d {
                            return SpsChange::Same;
                        }
                        self.color = false;
                        self.layout.sps_crop = Some(c);
                        SpsChange::Other
                    },
                    None => {
                        self.layout.sps_crop = Some(c);
                        SpsChange::First
                    },
                }
            },
        }
    }

    /// What to do after input was offered. `again` is true of the second offer.
    pub fn decode_access_unit(&mut self, fed: CallResult, again: bool, now: u64) -> (r: FeedStep)
        ensures
            r == match fed {
                CallResult::Done => FeedStep::Drain,
                CallResult::NoMemory => FeedStep::Drop,
                CallResult::NotAccepting => if again {
                    FeedStep::Fail
                } else {
                    FeedStep::DrainAndRetry
                },
                _ => FeedStep::Fail,
            },
            *final(self) == if fed == CallResult::NoMemory {
                old(self).starved(now)
            } else {
                *old(self)
            },
    {
        match fed {
            CallResult::Done => FeedStep::Drain,
            CallResult::NoMemory => {
                let _ = self.note_oom(now);
                FeedStep::Drop
            },
            CallResult::NotAccepting => if again {
                FeedStep::Fail
            } else {
                FeedStep::DrainAndRetry
            },
            _ => FeedStep::Fail,
        }
    }

    /// True where the colour converter has to go before output is asked for: the
    /// source has become too large for it.
    pub fn before_output(&mut self) -> (r: bool)
        ensures
            r == (old(self).color && old(self).long_edge() > 1920),
            *final(self) == (MfH264Decoder { color: old(self).color && !r, ..*old(self) }),
    {
        if self.color && self.src_long() > 1920 {
            self.color = false;
            return true;
        }
        false
    }

    /// How the preview's picture of a frame is made.
    fn route(&self, rgb: PreviewRgb) -> (r: Route)
        ensures
            r == self.routed(rgb),
    {
        match rgb {
            PreviewRgb::Skip => Route::Nothing,
            PreviewRgb::Native => if self.src_long() > 1920 {
                Route::Planes { max_long: Some(1920) }
            } else if self.color_oom {
                Route::Planes { max_long: None }
            } else {
                Route::Convert
            },
            PreviewRgb::Downscale { max_long } => Route::Planes { max_long: Some(max_long as u64) },
        }
    }

    /// What to do after output was asked for. Every frame is taken out of the
    /// decoder, whether a picture is made of it or not, so that order is kept.
    pub fn process_output(&mut self, got: CallResult, rgb: PreviewRgb, vcam_on: bool, now: u64) -> (r:
        OutputStep)
        ensures
            r == match got {
                CallResult::Done => OutputStep::Frame { pack: vcam_on, route: old(self).routed(rgb) },
                CallResult::NeedMoreInput | CallResult::NoMemory => OutputStep::Done,
                CallResult::StreamChange => OutputStep::Reselect,
                _ => OutputStep::Fail,
            },
            *final(self) == match got {
                CallResult::NoMemory => old(self).starved(now),
                CallResult::StreamChange => MfH264Decoder { color: false, ..*old(self) },
                _ => *old(self),
            },
    {
        match got {
            CallResult::Done => OutputStep::Frame { pack: vcam_on, route: self.route(rgb) },
            CallResult::NeedMoreInput => OutputStep::Done,
            CallResult::NoMemory => {
                let _ = self.note_oom(now);
                OutputStep::Done
            },
            CallResult::StreamChange => {
                self.color = false;
                OutputStep::Reselect
            },
            _ => OutputStep::Fail,
        }
    }

    /// Where the picture comes from after the colour converter could not be made,
    /// or failed: from the planes, or from nowhere where memory ran out.
    pub fn after_convert(&mut self, made: bool, oom: bool, now: u64) -> (r: Route)
        ensures
            *final(self) == if oom {
                old(self).starved(now)
            } else {
                MfH264Decoder { color: made, ..*old(self) }
            },
            r == if oom {
                Route::Nothing
            } else {
                Route::Planes { max_long: None }
            },
    {
        if oom {
            let _ = self.note_oom(now);
            return Route::Nothing;
        }
        self.color = made;
        Route::Planes { max_long: None }
    }
}

/// Once memory ran out, the colour converter is never tried again, whatever the
/// preview asks for.
pub proof fn converter_stays_off(d: MfH264Decoder, rgb: PreviewRgb, now: u64)
    ensures
        d.starved(now).routed(rgb) != Route::Convert,
        !d.starved(now).color,
{
}

/// A picture made from planes has a long edge of at most 1920, whatever the source.
pub proof fn pictures_stay_small(d: MfH264Decoder, plan: PreviewPlan, last: Option<u64>, now: u64)
    ensures
        match d.routed(rgb_mode(true, plan, last, now)) {
            Route::Planes { max_long: Some(m) } => m <= 1920,
            Route::Planes { max_long: None } => d.long_edge() <= 1920,
            Route::Convert => d.long_edge() <= 1920,
            Route::Nothing => true,
        },
{
}

/// The stream's own size is what it declares, then the aperture's, then the frame's, and
/// last what is known otherwise. Padding of 1080 and 2160 lines does not count.
pub proof fn sizes_are_the_streams_own(l: OutputLayout, w: u32, h: u32)
    ensures
        match l.sps_crop {
            Some(c) => c.w % 2 == 0 && c.h % 2 == 0 && c.w >= 2 && c.h >= 2 ==> display_size(
                l,
                (w, h),
            ) == (unpadded(c.w), unpadded(c.h)),
            None => match l.aperture {
                Some((_, _, aw, ah)) => aw > 0 && ah > 0 ==> display_size(l, (w, h)) == (
                    unpadded(aw as u32),
                    unpadded(ah as u32),
                ),
                None => true,
            },
        },
        l.sps_crop is None && l.aperture is None && l.frame_w > 0 && l.frame_h > 0 ==> display_size(
            l,
            (w, h),
        ) == (unpadded(l.frame_w), unpadded(l.frame_h)),
        l.sps_crop is None && l.aperture is None && (l.frame_w == 0 || l.frame_h == 0)
            ==> display_size(l, (w, h)) == (w, h),
{
}

/// A side without the padding of 1080 and 2160 lines to whole macroblocks.
pub open spec fn unpadded(n: u32) -> u32 {
    if n == 1088 {
        1080
    } else if n == 2176 {
        2160
    } else {
        n
    }
}

/// A picture whose padding is left out begins where it did, and loses nothing but the
/// padding.
pub proof fn padding_is_left_out(l: OutputLayout, c: SpsCrop, stride: int, rows: int)
    requires
        l.sps_crop == Some(c),
        c.x == 0 && c.y == 0,
        c.w % 2 == 0 && c.h % 2 == 0 && c.w >= 2 && c.h >= 2,
        c.w <= stride,
        c.h <= rows,
    ensures
        crop_of(l, stride, rows) == (Crop {
            x: 0,
            y: 0,
            w: unpadded(c.w) as u64,
            h: unpadded(c.h) as u64,
        }),
{
}

} // verus!
