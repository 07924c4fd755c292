//! NV12 pictures fitted into a camera canvas, never stretched.
//!
//! A portrait picture for a landscape canvas, or the reverse, is turned by 90
//! degrees clockwise so that it fills the canvas.

use crate::ipc::{nv12_len, nv12_size};
use crate::single::{apart, contain_scale, contained, containing_fills, scaled_side};
use crate::text::chars;
use vstd::prelude::*;

verus! {

/// The side of the brand mark, in pixels.
pub const MARK_PX: u32 = 256;

/// The even number at or below `n`.
pub open spec fn even_of(n: int) -> int {
    n - n % 2
}

/// The side of a picture as it is used: even, and at least two.
pub open spec fn side_of(n: int) -> int {
    if n < 2 {
        2
    } else {
        even_of(n)
    }
}

fn even(n: usize) -> (r: usize)
    ensures
        r == even_of(n as int),
{
    n - n % 2
}

fn side(n: u32) -> (r: usize)
    ensures
        r == side_of(n as int),
{
    if n < 2 {
        2
    } else {
        even(n as usize)
    }
}

/// A picture of even sides whose bytes a 32-bit number can count.
pub open spec fn picture(w: int, h: int) -> bool {
    w >= 2 && h >= 2 && w % 2 == 0 && h % 2 == 0 && nv12_len(w, h) <= u32::MAX
}

/// Position `i` of a plane of width `w` is in column `i % w` of row `i / w`.
proof fn place(w: int, x: int, y: int)
    requires
        0 <= x < w,
        0 <= y,
    ensures
        (y * w + x) / w == y,
        (y * w + x) % w == x,
{
    vstd::arithmetic::div_mod::lemma_fundamental_div_mod_converse(y * w + x, w, y, x);
}

/// A column and a row within a plane are a position within it.
proof fn within(w: int, h: int, x: int, y: int)
    requires
        0 <= x < w,
        0 <= y < h,
    ensures
        0 <= y * w + x < w * h,
{
    assert(0 <= y * w + x < w * h) by (nonlinear_arith)
        requires
            0 <= x < w,
            0 <= y < h,
    ;
}

/// A position within a plane is in one of its columns and rows.
proof fn column_and_row(w: int, h: int, i: int)
    requires
        0 < w,
        0 <= i < w * h,
    ensures
        0 <= i % w < w,
        0 <= i / w < h,
        i == (i / w) * w + i % w,
{
    assert(0 <= i % w < w && 0 <= i / w < h && i == (i / w) * w + i % w) by (nonlinear_arith)
        requires
            0 < w,
            0 <= i < w * h,
    ;
}

/// The sizes of the planes of a picture.
proof fn planes(w: int, h: int)
    requires
        picture(w, h),
    ensures
        0 < w * h <= u32::MAX,
        (w * h) % 2 == 0,
        (w * h) / 2 == w * (h / 2),
        nv12_len(w, h) == w * h + w * (h / 2),
        w <= w * h,
        h <= w * h,
{
    let k = h / 2;
    assert(w * h == 2 * (w * k)) by (nonlinear_arith)
        requires
            h == 2 * k,
    ;
    assert(w * h >= w && w * h >= h) by (nonlinear_arith)
        requires
            w >= 1,
            h >= 1,
    ;
}

/// A black picture over `s`; what lies behind it stays.
pub open spec fn blackened(s: Seq<u8>, w: int, h: int) -> Seq<u8> {
    if s.len() < nv12_len(w, h) {
        s
    } else {
        Seq::new(
            s.len(),
            |i: int|
                if i < w * h {
                    16
                } else if i < nv12_len(w, h) {
                    128
                } else {
                    s[i]
                },
        )
    }
}

/// Fills the front of `dst` with a black picture, if it is long enough.
pub fn fill_black(dst: &mut [u8], w: usize, h: usize)
    requires
        w <= u32::MAX,
        h <= u32::MAX,
        nv12_len(w as int, h as int) <= u32::MAX,
    ensures
        final(dst)@ == blackened(old(dst)@, w as int, h as int),
{
    let n: usize = nv12_size(w as u32, h as u32) as usize;
    assert(w * h >= 0) by (nonlinear_arith)
        requires
            w >= 0,
            h >= 0,
    ;
    if dst.len() < n {
        return;
    }
    let y: usize = w * h;
    let mut i: usize = 0;
    while i < n
        invariant
            i <= n <= dst@.len(),
            n == nv12_len(w as int, h as int),
            y == w * h,
            dst@.len() == old(dst)@.len(),
            forall|k: int| 0 <= k < i ==> dst@[k] == if k < w * h {
                16u8
            } else {
                128u8
            },
            forall|k: int| i <= k < dst@.len() ==> dst@[k] == old(dst)@[k],
        decreases n - i,
    {
        dst[i] = if i < y {
            16
        } else {
            128
        };
        i += 1;
    }
    assert(dst@ =~= blackened(old(dst)@, w as int, h as int));
}

/// The byte at `i` of a picture turned clockwise. Column `x` and row `y` come
/// from column `y` and row `sh - 1 - x`; chroma goes by pairs.
pub open spec fn turned_byte(src: Seq<u8>, sw: int, sh: int, i: int) -> u8 {
    if i < sw * sh {
        src[(sh - 1 - i % sh) * sw + i / sh]
    } else {
        let j = i - sw * sh;
        let x = even_of(j % sh);
        src[sw * sh + ((sh - 2 - x) / 2) * sw + 2 * (j / sh) + (j % sh) % 2]
    }
}

/// `dst` with a turned picture at its front, if it is long enough.
pub open spec fn turned(src: Seq<u8>, sw: int, sh: int, dst: Seq<u8>) -> Seq<u8> {
    if dst.len() < nv12_len(sw, sh) {
        dst
    } else {
        Seq::new(
            dst.len(),
            |i: int|
                if i < nv12_len(sw, sh) {
                    turned_byte(src, sw, sh, i)
                } else {
                    dst[i]
                },
        )
    }
}

/// Turns a picture clockwise by 90 degrees: its sides swap.
fn rotate_nv12_90_cw(src: &[u8], sw: usize, sh: usize, dst: &mut [u8])
    requires
        picture(sw as int, sh as int),
        src@.len() >= nv12_len(sw as int, sh as int),
    ensures
        final(dst)@ == turned(src@, sw as int, sh as int, old(dst)@),
{
    proof {
        planes(sw as int, sh as int);
        assert(sw * sh == sh * sw) by (nonlinear_arith);
    }
    let y_len: usize = sw * sh;
    let need: usize = y_len + y_len / 2;
    if dst.len() < need {
        return;
    }
    let mut i: usize = 0;
    let mut x: usize = 0;
    let mut y: usize = 0;
    while i < y_len
        invariant
            picture(sw as int, sh as int),
            src@.len() >= nv12_len(sw as int, sh as int),
            y_len == sw * sh,
            sw * sh == sh * sw,
            i <= y_len <= dst@.len(),
            x < sh,
            i == y * sh + x,
            dst@.len() == old(dst)@.len(),
            forall|k: int| 0 <= k < i ==> dst@[k] == turned_byte(src@, sw as int, sh as int, k),
            forall|k: int| i <= k < dst@.len() ==> dst@[k] == old(dst)@[k],
        decreases y_len - i,
    {
        proof {
            planes(sw as int, sh as int);
            place(sh as int, x as int, y as int);
            column_and_row(sh as int, sw as int, i as int);
            within(sw as int, sh as int, y as int, sh - 1 - x);
        }
        dst[i] = src[(sh - 1 - x) * sw + y];
        i += 1;
        x += 1;
        if x == sh {
            x = 0;
            y += 1;
            assert(y * sh == (y - 1) * sh + sh) by (nonlinear_arith);
        }
    }
    let mut j: usize = 0;
    let mut cx: usize = 0;
    let mut row: usize = 0;
    proof {
        planes(sw as int, sh as int);
        planes(sh as int, sw as int);
    }
    while i < need
        invariant
            picture(sw as int, sh as int),
            picture(sh as int, sw as int),
            src@.len() >= nv12_len(sw as int, sh as int),
            y_len == sw * sh,
            sw * sh == sh * sw,
            need == nv12_len(sw as int, sh as int),
            need <= dst@.len(),
            need == y_len + sh * (sw / 2),
            i <= need,
            i == y_len + j,
            cx < sh,
            j == row * sh + cx,
            dst@.len() == old(dst)@.len(),
            forall|k: int| 0 <= k < i ==> dst@[k] == turned_byte(src@, sw as int, sh as int, k),
            forall|k: int| i <= k < dst@.len() ==> dst@[k] == old(dst)@[k],
        decreases need - i,
    {
        let pair: usize = cx % 2;
        let px: usize = cx - pair;
        proof {
            planes(sw as int, sh as int);
            place(sh as int, cx as int, row as int);
            column_and_row(sh as int, (sw / 2) as int, j as int);
            within(sw as int, (sh / 2) as int, 2 * row + pair, ((sh - 2 - px) / 2) as int);
        }
        dst[i] = src[y_len + ((sh - 2 - px) / 2) * sw + 2 * row + pair];
        i += 1;
        j += 1;
        cx += 1;
        if cx == sh {
            cx = 0;
            row += 1;
            assert(row * sh == (row - 1) * sh + sh) by (nonlinear_arith);
        }
    }
    assert(dst@ =~= turned(src@, sw as int, sh as int, old(dst)@));
}

/// A side that is contained in `limit`: even, at least two, and not above the limit.
pub open spec fn fitted_side(scaled: int, limit: int) -> int {
    let e = side_of(scaled);
    if e < limit {
        e
    } else {
        limit
    }
}

/// The sides that a picture has in a canvas.
pub open spec fn fitted(sw: int, sh: int, dw: int, dh: int) -> (int, int) {
    let scale = contain_scale(sw, sh, dw, dh);
    (fitted_side(scaled_side(sw, scale), dw), fitted_side(scaled_side(sh, scale), dh))
}

/// Where something of length `len` begins in the middle of `room`, on an even pixel.
pub open spec fn centred(room: int, len: int) -> int {
    even_of((room - len) / 2)
}

/// The byte at `i` of a canvas that shows a picture in its middle, black around.
pub open spec fn contained_byte(
    src: Seq<u8>,
    sw: int,
    sh: int,
    dw: int,
    dh: int,
    i: int,
) -> u8 {
    let (fw, fh) = fitted(sw, sh, dw, dh);
    shown_byte(src, sw, sh, dw, dh, fw, fh, i)
}

/// The byte at `i` of a canvas that shows a picture at `fw` by `fh`.
pub open spec fn shown_byte(
    src: Seq<u8>,
    sw: int,
    sh: int,
    dw: int,
    dh: int,
    fw: int,
    fh: int,
    i: int,
) -> u8 {
    let ox = centred(dw, fw);
    let oy = centred(dh, fh);
    if i < dw * dh {
        let x = i % dw;
        let y = i / dw;
        if ox <= x < ox + fw && oy <= y < oy + fh {
            src[((y - oy) * sh / fh) * sw + (x - ox) * sw / fw]
        } else {
            16
        }
    } else {
        let j = i - dw * dh;
        let x = j % dw;
        let y = 2 * (j / dw);
        if ox <= x < ox + fw && oy <= y < oy + fh {
            let sy = pair_at((y - oy) * sh / fh, sh);
            let sx = pair_at(even_of(x - ox) * sw / fw, sw);
            src[sw * sh + (sy / 2) * sw + sx + x % 2]
        } else {
            128
        }
    }
}

/// The chroma pair at or before position `n` of a side.
pub open spec fn pair_at(n: int, side: int) -> int {
    if n < side - 2 {
        even_of(n)
    } else {
        even_of(side - 2)
    }
}

/// `dst` with a canvas that shows a picture at its front.
pub open spec fn contained_in(
    src: Seq<u8>,
    sw: int,
    sh: int,
    dst: Seq<u8>,
    dw: int,
    dh: int,
) -> Seq<u8> {
    Seq::new(
        dst.len(),
        |i: int|
            if i >= nv12_len(dw, dh) {
                dst[i]
            } else if sw == dw && sh == dh {
                src[i]
            } else {
                contained_byte(src, sw, sh, dw, dh, i)
            },
    )
}

/// Scaling a position keeps it within the side.
proof fn scaled_within(a: int, s: int, f: int)
    requires
        0 <= a < f,
        s >= 1,
    ensures
        0 <= a * s / f < s,
        0 <= a * s,
{
    assert(0 <= a * s / f < s && 0 <= a * s) by (nonlinear_arith)
        requires
            0 <= a < f,
            s >= 1,
    ;
}

fn scaled(a: usize, s: usize, f: usize) -> (r: usize)
    requires
        a < f <= u32::MAX,
        1 <= s <= u32::MAX,
    ensures
        r == (a * s) / (f as int),
        r < s,
{
    proof {
        scaled_within(a as int, s as int, f as int);
        assert(a * s <= 0xFFFF_FFFF * 0xFFFF_FFFF) by (nonlinear_arith)
            requires
                0 <= a <= 0xFFFF_FFFF,
                0 <= s <= 0xFFFF_FFFF,
        ;
    }
    (a as u64 * s as u64 / f as u64) as usize
}

/// The sides and the place that a picture gets in a canvas.
fn fit(sw: usize, sh: usize, dw: usize, dh: usize) -> (r: (usize, usize))
    requires
        picture(sw as int, sh as int),
        picture(dw as int, dh as int),
    ensures
        (r.0 as int, r.1 as int) == fitted(sw as int, sh as int, dw as int, dh as int),
        2 <= r.0 <= dw,
        2 <= r.1 <= dh,
        r.0 % 2 == 0,
        r.1 % 2 == 0,
{
    proof {
        planes(sw as int, sh as int);
        planes(dw as int, dh as int);
    }
    let (a, b) = contained(sw as u32, sh as u32, dw as u32, dh as u32);
    (limit_side(a, dw), limit_side(b, dh))
}

fn limit_side(a: u128, limit: usize) -> (r: usize)
    requires
        limit >= 2,
        limit % 2 == 0,
    ensures
        r == fitted_side(a as int, limit as int),
        2 <= r <= limit,
        r % 2 == 0,
{
    if a >= limit as u128 {
        limit
    } else if a < 2 {
        2
    } else {
        even(a as usize)
    }
}

/// Shows a picture in the middle of a canvas, as large as fits.
fn contain_copy(src: &[u8], sw: usize, sh: usize, dst: &mut [u8], dw: usize, dh: usize)
    requires
        picture(sw as int, sh as int),
        picture(dw as int, dh as int),
        src@.len() >= nv12_len(sw as int, sh as int),
        old(dst)@.len() >= nv12_len(dw as int, dh as int),
    ensures
        final(dst)@ == contained_in(
            src@,
            sw as int,
            sh as int,
            old(dst)@,
            dw as int,
            dh as int,
        ),
{
    proof {
        planes(sw as int, sh as int);
        planes(dw as int, dh as int);
    }
    let y_len: usize = dw * dh;
    let need: usize = y_len + y_len / 2;
    let src_uv: usize = sw * sh;
    if sw == dw && sh == dh {
        let mut i: usize = 0;
        while i < need
            invariant
                i <= need <= dst@.len(),
                need <= src@.len(),
                need == nv12_len(dw as int, dh as int),
                dst@.len() == old(dst)@.len(),
                forall|k: int| 0 <= k < i ==> dst@[k] == src@[k],
                forall|k: int| i <= k < dst@.len() ==> dst@[k] == old(dst)@[k],
            decreases need - i,
        {
            dst[i] = src[i];
            i += 1;
        }
        assert(dst@ =~= contained_in(src@, sw as int, sh as int, old(dst)@, dw as int, dh as int));
        return;
    }
    let (fw, fh) = fit(sw, sh, dw, dh);
    let ox: usize = even((dw - fw) / 2);
    let oy: usize = even((dh - fh) / 2);
    let mut i: usize = 0;
    let mut x: usize = 0;
    let mut y: usize = 0;
    while i < y_len
        invariant
            picture(sw as int, sh as int),
            picture(dw as int, dh as int),
            src@.len() >= nv12_len(sw as int, sh as int),
            y_len == dw * dh,
            i <= y_len <= dst@.len(),
            2 <= fw <= dw,
            2 <= fh <= dh,
            ox == centred(dw as int, fw as int),
            oy == centred(dh as int, fh as int),
            x < dw,
            i == y * dw + x,
            dst@.len() == old(dst)@.len(),
            forall|k: int|
                0 <= k < i ==> dst@[k] == shown_byte(
                    src@,
                    sw as int,
                    sh as int,
                    dw as int,
                    dh as int,
                    fw as int,
                    fh as int,
                    k,
                ),
            forall|k: int| i <= k < dst@.len() ==> dst@[k] == old(dst)@[k],
        decreases y_len - i,
    {
        proof {
            planes(sw as int, sh as int);
            planes(dw as int, dh as int);
            place(dw as int, x as int, y as int);
            column_and_row(dw as int, dh as int, i as int);
        }
        let v: u8 = if ox <= x && x < ox + fw && oy <= y && y < oy + fh {
            let sy: usize = scaled(y - oy, sh, fh);
            let sx: usize = scaled(x - ox, sw, fw);
            proof {
                within(sw as int, sh as int, sx as int, sy as int);
            }
            src[sy * sw + sx]
        } else {
            16
        };
        dst[i] = v;
        i += 1;
        x += 1;
        if x == dw {
            x = 0;
            y += 1;
            assert(y * dw == (y - 1) * dw + dw) by (nonlinear_arith);
        }
    }
    let mut j: usize = 0;
    let mut cx: usize = 0;
    let mut row: usize = 0;
    while i < need
        invariant
            picture(sw as int, sh as int),
            picture(dw as int, dh as int),
            src@.len() >= nv12_len(sw as int, sh as int),
            y_len == dw * dh,
            src_uv == sw * sh,
            need == nv12_len(dw as int, dh as int),
            need == y_len + dw * (dh / 2),
            i <= need <= dst@.len(),
            i == y_len + j,
            2 <= fw <= dw,
            2 <= fh <= dh,
            ox == centred(dw as int, fw as int),
            oy == centred(dh as int, fh as int),
            cx < dw,
            j == row * dw + cx,
            dst@.len() == old(dst)@.len(),
            forall|k: int|
                0 <= k < i ==> dst@[k] == shown_byte(
                    src@,
                    sw as int,
                    sh as int,
                    dw as int,
                    dh as int,
                    fw as int,
                    fh as int,
                    k,
                ),
            forall|k: int| i <= k < dst@.len() ==> dst@[k] == old(dst)@[k],
        decreases need - i,
    {
        proof {
            planes(sw as int, sh as int);
            planes(dw as int, dh as int);
            place(dw as int, cx as int, row as int);
            column_and_row(dw as int, (dh / 2) as int, j as int);
        }
        let cy: usize = 2 * row;
        let v: u8 = if ox <= cx && cx < ox + fw && oy <= cy && cy < oy + fh {
            let sy: usize = pair_before(scaled(cy - oy, sh, fh), sh);
            let sx: usize = pair_before(scaled(even(cx - ox), sw, fw), sw);
            proof {
                within(sw as int, (sh / 2) as int, sx + cx % 2, (sy / 2) as int);
            }
            src[src_uv + (sy / 2) * sw + sx + cx % 2]
        } else {
            128
        };
        dst[i] = v;
        i += 1;
        j += 1;
        cx += 1;
        if cx == dw {
            cx = 0;
            row += 1;
            assert(row * dw == (row - 1) * dw + dw) by (nonlinear_arith);
        }
    }
    assert(dst@ =~= contained_in(src@, sw as int, sh as int, old(dst)@, dw as int, dh as int));
}

fn pair_before(n: usize, side: usize) -> (r: usize)
    requires
        side >= 2,
        side % 2 == 0,
    ensures
        r == pair_at(n as int, side as int),
        r + 1 < side,
        r % 2 == 0,
{
    if n < side - 2 {
        even(n)
    } else {
        even(side - 2)
    }
}

/// A canvas after a picture was fitted into it. A canvas that is too short is
/// left alone, and one for which there is no whole picture goes black.
pub open spec fn fitted_into(
    src: Seq<u8>,
    src_w: int,
    src_h: int,
    dst: Seq<u8>,
    dst_w: int,
    dst_h: int,
) -> Seq<u8> {
    let sw = side_of(src_w);
    let sh = side_of(src_h);
    let dw = side_of(dst_w);
    let dh = side_of(dst_h);
    if dst.len() < nv12_len(dw, dh) {
        dst
    } else if src.len() < nv12_len(sw, sh) {
        blackened(dst, dw, dh)
    } else if (sh > sw) == (dh > dw) {
        contained_in(src, sw, sh, dst, dw, dh)
    } else if sh == dw && sw == dh {
        turned(src, sw, sh, dst)
    } else {
        contained_in(upright(src, sw, sh), sh, sw, dst, dw, dh)
    }
}

/// A picture turned clockwise, on its own.
pub open spec fn upright(src: Seq<u8>, sw: int, sh: int) -> Seq<u8> {
    Seq::new(nv12_len(sw, sh) as nat, |i: int| turned_byte(src, sw, sh, i))
}

/// Fits a picture into a canvas. Where one is upright and the other is not, the
/// picture is turned first.
pub fn contain_fit(src: &[u8], src_w: u32, src_h: u32, dst: &mut [u8], dst_w: u32, dst_h: u32)
    requires
        nv12_len(side_of(dst_w as int), side_of(dst_h as int)) <= u32::MAX,
        old(dst)@.len() >= nv12_len(side_of(dst_w as int), side_of(dst_h as int)) ==> nv12_len(
            side_of(src_w as int),
            side_of(src_h as int),
        ) <= u32::MAX,
    ensures
        final(dst)@ == fitted_into(
            src@,
            src_w as int,
            src_h as int,
            old(dst)@,
            dst_w as int,
            dst_h as int,
        ),
{
    let sw: usize = side(src_w);
    let sh: usize = side(src_h);
    let dw: usize = side(dst_w);
    let dh: usize = side(dst_h);
    let need: usize = nv12_size(dw as u32, dh as u32) as usize;
    if dst.len() < need {
        return;
    }
    let src_need: usize = nv12_size(sw as u32, sh as u32) as usize;
    if src.len() < src_need {
        fill_black(dst, dw, dh);
        return;
    }
    if (sh > sw) != (dh > dw) {
        proof {
            assert(sw * sh == sh * sw) by (nonlinear_arith);
        }
        if sh == dw && sw == dh {
            rotate_nv12_90_cw(src, sw, sh, dst);
            return;
        }
        let mut rot: Vec<u8> = vec![0; src_need];
        rotate_nv12_90_cw(src, sw, sh, rot.as_mut_slice());
        assert(rot@ =~= upright(src@, sw as int, sh as int));
        contain_copy(rot.as_slice(), sh, sw, dst, dw, dh);
        return;
    }
    contain_copy(src, sw, sh, dst, dw, dh);
}

/// The rows of a letter, top down, five columns each. Unknown letters are boxes.
pub open spec fn glyph_of(ch: char) -> Seq<u8> {
    if ch == 'A' {
        seq![0b01110u8, 0b10001, 0b10001, 0b11111, 0b10001, 0b10001, 0b10001]
    } else if ch == 'C' {
        seq![0b01110u8, 0b10001, 0b10000, 0b10000, 0b10000, 0b10001, 0b01110]
    } else if ch == 'E' {
        seq![0b11111u8, 0b10000, 0b10000, 0b11110, 0b10000, 0b10000, 0b11111]
    } else if ch == 'G' {
        seq![0b01110u8, 0b10001, 0b10000, 0b10111, 0b10001, 0b10001, 0b01110]
    } else if ch == 'I' {
        seq![0b01110u8, 0b00100, 0b00100, 0b00100, 0b00100, 0b00100, 0b01110]
    } else if ch == 'K' {
        seq![0b10001u8, 0b10010, 0b10100, 0b11000, 0b10100, 0b10010, 0b10001]
    } else if ch == 'M' {
        seq![0b10001u8, 0b11011, 0b10101, 0b10101, 0b10001, 0b10001, 0b10001]
    } else if ch == 'N' {
        seq![0b10001u8, 0b11001, 0b10101, 0b10011, 0b10001, 0b10001, 0b10001]
    } else if ch == 'O' {
        seq![0b01110u8, 0b10001, 0b10001, 0b10001, 0b10001, 0b10001, 0b01110]
    } else if ch == 'P' {
        seq![0b11110u8, 0b10001, 0b10001, 0b11110, 0b10000, 0b10000, 0b10000]
    } else if ch == 'Q' {
        seq![0b01110u8, 0b10001, 0b10001, 0b10001, 0b10101, 0b10010, 0b01101]
    } else if ch == 'R' {
        seq![0b11110u8, 0b10001, 0b10001, 0b11110, 0b10100, 0b10010, 0b10001]
    } else if ch == 'S' {
        seq![0b01111u8, 0b10000, 0b10000, 0b01110, 0b00001, 0b00001, 0b11110]
    } else if ch == 'T' {
        seq![0b11111u8, 0b00100, 0b00100, 0b00100, 0b00100, 0b00100, 0b00100]
    } else if ch == 'U' {
        seq![0b10001u8, 0b10001, 0b10001, 0b10001, 0b10001, 0b10001, 0b01110]
    } else if ch == 'W' {
        seq![0b10001u8, 0b10001, 0b10001, 0b10101, 0b10101, 0b10101, 0b01010]
    } else if ch == 'Y' {
        seq![0b10001u8, 0b10001, 0b01010, 0b00100, 0b00100, 0b00100, 0b00100]
    } else if ch == ' ' {
        seq![0b00000u8, 0b00000, 0b00000, 0b00000, 0b00000, 0b00000, 0b00000]
    } else {
        seq![0b11111u8, 0b10001, 0b10001, 0b10001, 0b10001, 0b10001, 0b11111]
    }
}

/// The rows of a letter.
fn glyph(ch: char) -> (r: [u8; 7])
    ensures
        r@ == glyph_of(ch),
{
    let r: [u8; 7] = if ch == 'A' {
        [0b01110u8, 0b10001, 0b10001, 0b11111, 0b10001, 0b10001, 0b10001]
    } else if ch == 'C' {
        [0b01110u8, 0b10001, 0b10000, 0b10000, 0b10000, 0b10001, 0b01110]
    } else if ch == 'E' {
        [0b11111u8, 0b10000, 0b10000, 0b11110, 0b10000, 0b10000, 0b11111]
    } else if ch == 'G' {
        [0b01110u8, 0b10001, 0b10000, 0b10111, 0b10001, 0b10001, 0b01110]
    } else if ch == 'I' {
        [0b01110u8, 0b00100, 0b00100, 0b00100, 0b00100, 0b00100, 0b01110]
    } else if ch == 'K' {
        [0b10001u8, 0b10010, 0b10100, 0b11000, 0b10100, 0b10010, 0b10001]
    } else if ch == 'M' {
        [0b10001u8, 0b11011, 0b10101, 0b10101, 0b10001, 0b10001, 0b10001]
    } else if ch == 'N' {
        [0b10001u8, 0b11001, 0b10101, 0b10011, 0b10001, 0b10001, 0b10001]
    } else if ch == 'O' {
        [0b01110u8, 0b10001, 0b10001, 0b10001, 0b10001, 0b10001, 0b01110]
    } else if ch == 'P' {
        [0b11110u8, 0b10001, 0b10001, 0b11110, 0b10000, 0b10000, 0b10000]
    } else if ch == 'Q' {
        [0b01110u8, 0b10001, 0b10001, 0b10001, 0b10101, 0b10010, 0b01101]
    } else if ch == 'R' {
        [0b11110u8, 0b10001, 0b10001, 0b11110, 0b10100, 0b10010, 0b10001]
    } else if ch == 'S' {
        [0b01111u8, 0b10000, 0b10000, 0b01110, 0b00001, 0b00001, 0b11110]
    } else if ch == 'T' {
        [0b11111u8, 0b00100, 0b00100, 0b00100, 0b00100, 0b00100, 0b00100]
    } else if ch == 'U' {
        [0b10001u8, 0b10001, 0b10001, 0b10001, 0b10001, 0b10001, 0b01110]
    } else if ch == 'W' {
        [0b10001u8, 0b10001, 0b10001, 0b10101, 0b10101, 0b10101, 0b01010]
    } else if ch == 'Y' {
        [0b10001u8, 0b10001, 0b01010, 0b00100, 0b00100, 0b00100, 0b00100]
    } else if ch == ' ' {
        [0b00000u8, 0b00000, 0b00000, 0b00000, 0b00000, 0b00000, 0b00000]
    } else {
        [0b11111u8, 0b10001, 0b10001, 0b10001, 0b10001, 0b10001, 0b11111]
    };
    assert(r@ =~= glyph_of(ch));
    r
}

/// True where row `r` and column `c` of a letter are lit.
pub open spec fn cell_lit(ch: char, r: int, c: int) -> bool {
    (glyph_of(ch)[r] >> ((4 - c) as u8)) & 1u8 == 1u8
}

/// Half of `a`, towards zero.
pub open spec fn half(a: int) -> int {
    if a >= 0 {
        a / 2
    } else {
        -((-a) / 2)
    }
}

/// True where a line of text lights a pixel. Letters are six columns by seven
/// rows of `scale` pixels, the last column empty.
pub open spec fn text_lit(text: Seq<char>, scale: int, x0: int, y0: int, x: int, y: int) -> bool {
    let gx = x - x0;
    let gy = y - y0;
    &&& 0 <= gx < text.len() * (6 * scale)
    &&& 0 <= gy < 7 * scale
    &&& (gx % (6 * scale)) / scale < 5
    &&& cell_lit(text[gx / (6 * scale)], gy / scale, (gx % (6 * scale)) / scale)
}

/// Luma of a pixel of the mark on black, in limited range.
pub open spec fn mark_luma(r: int, g: int, b: int, a: int) -> int {
    16 + 219 * ((77 * r + 150 * g + 29 * b) / 255) * a / 65025
}

/// Luma of the mark at a pixel, where it is not transparent.
pub open spec fn mark_at(mark: Seq<u8>, size: int, x0: int, y0: int, x: int, y: int) -> Option<int> {
    let dx = x - x0;
    let dy = y - y0;
    if 0 <= dx < size && 0 <= dy < size {
        let i = ((dy * 256 / size) * 256 + dx * 256 / size) * 4;
        if mark[i + 3] < 16 {
            None
        } else {
            Some(
                mark_luma(mark[i] as int, mark[i + 1] as int, mark[i + 2] as int, mark[i + 3] as int),
            )
        }
    } else {
        None
    }
}

/// The side of a letter's dot on a canvas of height `h`.
pub open spec fn dot(h: int) -> int {
    if h / 100 < 2 {
        2
    } else {
        h / 100
    }
}

/// The side of the mark on a canvas of height `h`.
pub open spec fn mark_side(h: int) -> int {
    even_of(
        if h / 6 < 48 {
            48
        } else if h / 6 > 280 {
            280
        } else {
            h / 6
        },
    )
}

/// The top of the mark: mark, name and word stand in the middle as one.
pub open spec fn stack_top(h: int) -> int {
    half(h - (mark_side(h) + 24 * dot(h)))
}

/// Luma of the waiting picture at a pixel: the words, then the mark, then black.
pub open spec fn waiting_luma(w: int, h: int, mark: Seq<u8>, x: int, y: int) -> int {
    let d = dot(h);
    let name_y = stack_top(h) + mark_side(h) + 5 * d;
    let word_y = name_y + 12 * d;
    if text_lit("POCKETCAM"@, d, half(w - 54 * d), name_y, x, y) || text_lit(
        "WAITING"@,
        d,
        half(w - 42 * d),
        word_y,
        x,
        y,
    ) {
        235
    } else if mark.len() == 262144 {
        match mark_at(mark, mark_side(h), half(w - mark_side(h)), stack_top(h), x, y) {
            Some(v) => v,
            None => 16,
        }
    } else {
        16
    }
}

/// A buffer with the waiting picture at its front, if it is long enough.
pub open spec fn waiting_in(dst: Seq<u8>, w: int, h: int, mark: Seq<u8>) -> Seq<u8> {
    if dst.len() < nv12_len(w, h) {
        dst
    } else {
        Seq::new(
            dst.len(),
            |i: int|
                if i < w * h {
                    waiting_luma(w, h, mark, i % w, i / w) as u8
                } else if i < nv12_len(w, h) {
                    128
                } else {
                    dst[i]
                },
        )
    }
}

fn half_of(a: i64) -> (r: i64)
    requires
        -0x1_0000_0000 <= a <= 0x1_0000_0000,
    ensures
        r == half(a as int),
{
    if a >= 0 {
        a / 2
    } else {
        -((-a) / 2)
    }
}

/// True where a line of text lights a pixel.
fn text_lights(text: &[char], scale: i64, x0: i64, y0: i64, x: i64, y: i64) -> (r: bool)
    requires
        text@.len() <= 16,
        2 <= scale <= 0x1000_0000,
        -0x10_0000_0000 <= x0 <= 0x10_0000_0000,
        -0x10_0000_0000 <= y0 <= 0x10_0000_0000,
        0 <= x <= 0x10_0000_0000,
        0 <= y <= 0x10_0000_0000,
    ensures
        r == text_lit(text@, scale as int, x0 as int, y0 as int, x as int, y as int),
{
    let gx: i64 = x - x0;
    let gy: i64 = y - y0;
    if gx < 0 || gy < 0 || gy >= 7 * scale {
        return false;
    }
    let gw: i64 = 6 * scale;
    let n: usize = text.len();
    let mut k: usize = 0;
    let mut left: i64 = gx;
    while k < n && left >= gw
        invariant
            gw == 6 * scale,
            2 <= scale <= 0x1000_0000,
            n == text@.len(),
            k <= n,
            0 <= left,
            gx == k * gw + left,
        decreases n - k,
    {
        left -= gw;
        k += 1;
        assert(k * gw == (k - 1) * gw + gw) by (nonlinear_arith);
    }
    proof {
        assert((gx < n * gw) == (k < n)) by (nonlinear_arith)
            requires
                gx == k * gw + left,
                0 <= left,
                k <= n,
                k < n ==> left < gw,
                gw >= 1,
        ;
        if k < n {
            vstd::arithmetic::div_mod::lemma_fundamental_div_mod_converse(
                gx as int,
                gw as int,
                k as int,
                left as int,
            );
        }
    }
    if k >= n {
        return false;
    }
    proof {
        assert(left / scale < 6) by (nonlinear_arith)
            requires
                0 <= left < 6 * scale,
                scale >= 1,
        ;
        assert(0 <= gy / scale < 7) by (nonlinear_arith)
            requires
                0 <= gy < 7 * scale,
                scale >= 1,
        ;
        assert(0 <= left / scale) by (nonlinear_arith)
            requires
                0 <= left,
                scale >= 1,
        ;
    }
    let c: u64 = left as u64 / scale as u64;
    if c >= 5 {
        return false;
    }
    let row: u64 = gy as u64 / scale as u64;
    let rows: [u8; 7] = glyph(text[k]);
    (rows[row as usize] >> (4 - c as u8)) & 1u8 == 1u8
}

/// Luma of the mark at a pixel, where it is not transparent.
fn mark_value(mark: &[u8], size: i64, x0: i64, y0: i64, x: i64, y: i64) -> (r: Option<u8>)
    requires
        mark@.len() == 262144,
        2 <= size <= 280,
        -0x10_0000_0000 <= x0 <= 0x10_0000_0000,
        -0x10_0000_0000 <= y0 <= 0x10_0000_0000,
        0 <= x <= 0x10_0000_0000,
        0 <= y <= 0x10_0000_0000,
    ensures
        match r {
            Some(v) => mark_at(mark@, size as int, x0 as int, y0 as int, x as int, y as int) == Some(
                v as int,
            ),
            None => mark_at(mark@, size as int, x0 as int, y0 as int, x as int, y as int) is None,
        },
{
    let dx: i64 = x - x0;
    let dy: i64 = y - y0;
    if dx < 0 || dx >= size || dy < 0 || dy >= size {
        return None;
    }
    proof {
        scaled_within(dx as int, 256, size as int);
        scaled_within(dy as int, 256, size as int);
    }
    let sx: u64 = dx as u64 * 256 / size as u64;
    let sy: u64 = dy as u64 * 256 / size as u64;
    let i: usize = ((sy * 256 + sx) * 4) as usize;
    let a: u32 = mark[i + 3] as u32;
    if a < 16 {
        return None;
    }
    let r: u32 = mark[i] as u32;
    let g: u32 = mark[i + 1] as u32;
    let b: u32 = mark[i + 2] as u32;
    let luma: u32 = (77 * r + 150 * g + 29 * b) / 255;
    assert(luma <= 256);
    assert(219 * luma * a <= 219 * 256 * 255) by (nonlinear_arith)
        requires
            0 <= luma <= 256,
            0 <= a <= 255,
    ;
    Some((16 + 219 * luma * a / 65025) as u8)
}

/// Fills the front of `dst` with the waiting picture: the brand mark, the
/// program's name, and a word. `mark` is the mark's pixels, red, green, blue and
/// alpha, [`MARK_PX`] each way; without them the words stand alone.
pub fn waiting_still(dst: &mut [u8], width: u32, height: u32, mark: &[u8])
    requires
        nv12_len(side_of(width as int), side_of(height as int)) <= u32::MAX,
    ensures
        final(dst)@ == waiting_in(
            old(dst)@,
            side_of(width as int),
            side_of(height as int),
            mark@,
        ),
{
    let w: usize = side(width);
    let h: usize = side(height);
    proof {
        planes(w as int, h as int);
    }
    let y_len: usize = w * h;
    let need: usize = y_len + y_len / 2;
    if dst.len() < need {
        return;
    }
    let wi: i64 = w as i64;
    let hi: i64 = h as i64;
    let d: i64 = if h / 100 < 2 {
        2
    } else {
        (h / 100) as i64
    };
    let icon: i64 = if h / 6 < 48 {
        48
    } else if h / 6 > 280 {
        280
    } else {
        even(h / 6) as i64
    };
    let top: i64 = half_of(hi - (icon + 24 * d));
    let left: i64 = half_of(wi - icon);
    let name_y: i64 = top + icon + 5 * d;
    let word_y: i64 = name_y + 12 * d;
    let name: Vec<char> = chars("POCKETCAM");
    let word: Vec<char> = chars("WAITING");
    proof {
        reveal_strlit("POCKETCAM");
        reveal_strlit("WAITING");
    }
    let name_x: i64 = half_of(wi - 54 * d);
    let word_x: i64 = half_of(wi - 42 * d);
    let marked: bool = mark.len() == 262144;
    let mut i: usize = 0;
    let mut x: i64 = 0;
    let mut y: i64 = 0;
    while i < y_len
        invariant
            picture(w as int, h as int),
            y_len == w * h,
            i <= y_len <= dst@.len(),
            wi == w,
            hi == h,
            w <= 0xFFFF_FFFF,
            h <= 0xFFFF_FFFF,
            0 <= x < wi,
            0 <= y,
            i == y * w + x,
            d == dot(h as int),
            2 <= d <= 0x1000_0000,
            icon == mark_side(h as int),
            top == stack_top(h as int),
            left == half(w - icon),
            name_y == top + icon + 5 * d,
            word_y == name_y + 12 * d,
            name_x == half(w - 54 * d),
            word_x == half(w - 42 * d),
            name@ == "POCKETCAM"@,
            word@ == "WAITING"@,
            name@.len() == 9,
            word@.len() == 7,
            marked == (mark@.len() == 262144),
            dst@.len() == old(dst)@.len(),
            forall|k: int|
                0 <= k < i ==> dst@[k] == waiting_luma(
                    w as int,
                    h as int,
                    mark@,
                    k % (w as int),
                    k / (w as int),
                ) as u8,
            forall|k: int| i <= k < dst@.len() ==> dst@[k] == old(dst)@[k],
        decreases y_len - i,
    {
        proof {
            place(w as int, x as int, y as int);
            column_and_row(w as int, h as int, i as int);
        }
        let v: u8 = if text_lights(name.as_slice(), d, name_x, name_y, x, y) || text_lights(
            word.as_slice(),
            d,
            word_x,
            word_y,
            x,
            y,
        ) {
            235
        } else if marked {
            match mark_value(mark, icon, left, top, x, y) {
                Some(v) => v,
                None => 16,
            }
        } else {
            16
        };
        dst[i] = v;
        i += 1;
        x += 1;
        if x == wi {
            x = 0;
            y += 1;
            assert(y * w == (y - 1) * w + w) by (nonlinear_arith);
        }
    }
    while i < need
        invariant
            y_len <= i <= need <= dst@.len(),
            y_len == w * h,
            need == nv12_len(w as int, h as int),
            dst@.len() == old(dst)@.len(),
            forall|k: int|
                0 <= k < y_len ==> dst@[k] == waiting_luma(
                    w as int,
                    h as int,
                    mark@,
                    k % (w as int),
                    k / (w as int),
                ) as u8,
            forall|k: int| y_len <= k < i ==> dst@[k] == 128,
            forall|k: int| i <= k < dst@.len() ==> dst@[k] == old(dst)@[k],
        decreases need - i,
    {
        dst[i] = 128;
        i += 1;
    }
    assert(dst@ =~= waiting_in(old(dst)@, w as int, h as int, mark@));
}

/// A fitted picture has even sides, lies within the canvas on even pixels, and
/// is centred to within two pixels.
pub proof fn fit_stays_in_canvas(sw: int, sh: int, dw: int, dh: int)
    requires
        picture(dw, dh),
    ensures
        ({
            let (fw, fh) = fitted(sw, sh, dw, dh);
            &&& 2 <= fw <= dw && fw % 2 == 0
            &&& 2 <= fh <= dh && fh % 2 == 0
            &&& centred(dw, fw) % 2 == 0 && centred(dh, fh) % 2 == 0
            &&& 0 <= centred(dw, fw) && centred(dw, fw) + fw <= dw
            &&& 0 <= centred(dh, fh) && centred(dh, fh) + fh <= dh
            &&& dw - (centred(dw, fw) + fw) - centred(dw, fw) <= 3
            &&& dh - (centred(dh, fh) + fh) - centred(dh, fh) <= 3
        }),
{
}

/// Making a side even and cutting it to the canvas moves it by less than two.
proof fn evened_side(x: int, o: int, s: int, d: int, limit: int)
    requires
        o > 0,
        s > 0,
        d > 0,
        limit >= 2,
        apart(x * o, s * d) < o,
        s * d < limit * o + o,
    ensures
        apart(fitted_side(x, limit) * o, s * d) < 2 * o,
{
    let v = s * d;
    assert(v > 0) by (nonlinear_arith)
        requires
            v == s * d,
            s > 0,
            d > 0,
    ;
    let e = side_of(x);
    assert(x >= 0) by (nonlinear_arith)
        requires
            v - x * o < o,
            v > 0,
            o > 0,
    ;
    if x < 2 {
        assert(x * o <= o) by (nonlinear_arith)
            requires
                x <= 1,
                o > 0,
        ;
        assert(e * o == 2 * o);
    } else {
        let r = x % 2;
        assert(e * o == x * o - r * o && 0 <= r * o <= o) by (nonlinear_arith)
            requires
                e == x - r,
                0 <= r <= 1,
                o > 0,
        ;
    }
    assert(apart(e * o, v) < 2 * o);
    if e >= limit {
        assert(limit * o <= e * o) by (nonlinear_arith)
            requires
                limit <= e,
                o > 0,
        ;
    }
}

/// A picture fills the canvas one way, and the other way it keeps its shape to
/// less than two pixels.
pub proof fn fit_fills_one_side(sw: int, sh: int, dw: int, dh: int)
    requires
        picture(sw, sh),
        picture(dw, dh),
        sw <= 0x10_0000 && sh <= 0x10_0000 && dw <= 0x10_0000 && dh <= 0x10_0000,
    ensures
        ({
            let (fw, fh) = fitted(sw, sh, dw, dh);
            ||| fw == dw && apart(fh * sw, sh * dw) < 2 * sw
            ||| fh == dh && apart(fw * sh, sw * dh) < 2 * sh
        }),
{
    containing_fills(sw, sh, dw, dh);
    let scale = contain_scale(sw, sh, dw, dh);
    let w = scaled_side(sw, scale);
    let h = scaled_side(sh, scale);
    if w == dw && apart(h * sw, sh * dw) < sw && sh * dw < dh * sw + sw {
        evened_side(h, sw, sh, dw, dh);
    } else {
        evened_side(w, sh, sw, dh, dw);
    }
}

/// A picture of the canvas's own size is copied byte for byte.
pub proof fn same_size_is_copied(src: Seq<u8>, w: int, h: int, dst: Seq<u8>)
    requires
        picture(w, h),
        src.len() >= nv12_len(w, h),
        dst.len() == nv12_len(w, h),
    ensures
        fitted_into(src, w, h, dst, w, h) == src.subrange(0, nv12_len(w, h)),
{
    assert(fitted_into(src, w, h, dst, w, h) =~= src.subrange(0, nv12_len(w, h)));
}

/// True where place `s` of `n` stands for place `x` of `f`: the one at the same part
/// of the way.
pub open spec fn stands_for(s: int, n: int, x: int, f: int) -> bool {
    0 <= s < n && s * f <= x * n < (s + 1) * f
}

/// Some place stands for each.
pub proof fn some_stands_for_each(x: int, n: int, f: int)
    requires
        0 <= x < f,
        0 < n,
    ensures
        stands_for(x * n / f, n, x, f),
{
    let s = x * n / f;
    assert(s * f <= x * n < (s + 1) * f && 0 <= s < n) by (nonlinear_arith)
        requires
            s == x * n / f,
            0 <= x < f,
            0 < n,
    ;
}

/// One place stands for each.
pub proof fn one_stands_for_each(s: int, t: int, n: int, x: int, y: int, f: int)
    requires
        stands_for(s, n, x, f),
        stands_for(t, n, y, f),
        0 <= x <= y < f,
    ensures
        s <= t,
        x == y ==> s == t,
        x == 0 ==> s == 0,
{
    assert(x * n <= y * n) by (nonlinear_arith)
        requires
            x <= y,
            0 < n,
    ;
    assert(s <= t) by (nonlinear_arith)
        requires
            s * f <= x * n,
            x * n <= y * n,
            y * n < (t + 1) * f,
            f > 0,
    ;
    if x == y {
        assert(t <= s) by (nonlinear_arith)
            requires
                t * f <= x * n,
                x * n < (s + 1) * f,
                f > 0,
        ;
    }
    if x == 0 {
        assert(0 * n == 0) by (nonlinear_arith);
        assert(s == 0) by (nonlinear_arith)
            requires
                s * f <= 0,
                0 <= s,
                f > 0,
        ;
    }
}

/// The luma of a picture of width `w`.
pub open spec fn luma_at(p: Seq<u8>, w: int, x: int, y: int) -> u8 {
    p[y * w + x]
}

/// The chroma of a picture over a pixel: U for none, V for one.
pub open spec fn chroma_at(p: Seq<u8>, w: int, h: int, x: int, y: int, c: int) -> u8 {
    p[w * h + (y / 2) * w + 2 * (x / 2) + c]
}

/// True where each pixel of a rectangle is the picture's at the same part of the way
/// across and down.
pub open spec fn shows_luma(
    canvas: Seq<u8>,
    dw: int,
    p: Seq<u8>,
    w: int,
    h: int,
    at: (int, int),
    size: (int, int),
) -> bool {
    forall|x: int, y: int, sx: int, sy: int|
        0 <= x < size.0 && 0 <= y < size.1 && #[trigger] stands_for(sx, w, x, size.0)
            && #[trigger] stands_for(sy, h, y, size.1) ==> luma_at(canvas, dw, at.0 + x, at.1 + y)
            == luma_at(p, w, sx, sy)
}

/// True where the chroma over each second pixel of each second row of a rectangle is
/// the picture's at the same part of the way across and down.
pub open spec fn shows_chroma(
    canvas: Seq<u8>,
    dw: int,
    dh: int,
    p: Seq<u8>,
    w: int,
    h: int,
    at: (int, int),
    size: (int, int),
) -> bool {
    forall|x: int, y: int, sx: int, sy: int, c: int|
        0 <= x < size.0 && 0 <= y < size.1 && x % 2 == 0 && y % 2 == 0 && 0 <= c <= 1
            && #[trigger] stands_for(sx, w, x, size.0) && #[trigger] stands_for(sy, h, y, size.1)
            ==> #[trigger] chroma_at(canvas, dw, dh, at.0 + x, at.1 + y, c) == chroma_at(
            p,
            w,
            h,
            sx,
            sy,
            c,
        )
}

/// True where all of a canvas but a rectangle is black.
pub open spec fn black_around(
    canvas: Seq<u8>,
    dw: int,
    dh: int,
    at: (int, int),
    size: (int, int),
) -> bool {
    forall|x: int, y: int|
        0 <= x < dw && 0 <= y < dh && !(at.0 <= x < at.0 + size.0 && at.1 <= y < at.1 + size.1)
            ==> {
            &&& #[trigger] luma_at(canvas, dw, x, y) == 16
            &&& chroma_at(canvas, dw, dh, x, y, 0) == 128
            &&& chroma_at(canvas, dw, dh, x, y, 1) == 128
        }
}

/// True where a canvas shows a picture in a rectangle, black around.
#[verifier::opaque]
pub open spec fn shows(
    canvas: Seq<u8>,
    dw: int,
    dh: int,
    p: Seq<u8>,
    w: int,
    h: int,
    at: (int, int),
    size: (int, int),
) -> bool {
    &&& shows_luma(canvas, dw, p, w, h, at, size)
    &&& shows_chroma(canvas, dw, dh, p, w, h, at, size)
    &&& black_around(canvas, dw, dh, at, size)
}

/// True of where a picture is shown in a canvas: within it, on even pixels, as near to
/// the middle as those go, and as large as it can be with its shape kept to within two
/// pixels.
pub open spec fn is_frame(
    at: (int, int),
    size: (int, int),
    w: int,
    h: int,
    dw: int,
    dh: int,
) -> bool {
    &&& at.0 >= 0 && at.1 >= 0 && at.0 % 2 == 0 && at.1 % 2 == 0
    &&& size.0 >= 2 && size.1 >= 2 && size.0 % 2 == 0 && size.1 % 2 == 0
    &&& at.0 + size.0 <= dw && at.1 + size.1 <= dh
    &&& 0 <= dw - size.0 - 2 * at.0 <= 3
    &&& 0 <= dh - size.1 - 2 * at.1 <= 3
    &&& (size.0 == dw && apart(size.1 * w, h * dw) < 2 * w) || (size.1 == dh && apart(
        size.0 * h,
        w * dh,
    ) < 2 * h)
}

/// A canvas shows the whole picture, upright and not mirrored, in its middle, where
/// both stand or both lie.
pub proof fn picture_keeps_its_order(
    src: Seq<u8>,
    w: int,
    h: int,
    dst: Seq<u8>,
    dw: int,
    dh: int,
)
    requires
        picture(w, h),
        picture(dw, dh),
        w <= 0x10_0000 && h <= 0x10_0000 && dw <= 0x10_0000 && dh <= 0x10_0000,
        src.len() >= nv12_len(w, h),
        dst.len() >= nv12_len(dw, dh),
        (h > w) == (dh > dw),
        !(w == dw && h == dh),
    ensures
        exists|at: (int, int), size: (int, int)|
            is_frame(at, size, w, h, dw, dh) && #[trigger] shows(
                fitted_into(src, w, h, dst, dw, dh),
                dw,
                dh,
                src,
                w,
                h,
                at,
                size,
            ),
{
    let (fw, fh) = fitted(w, h, dw, dh);
    let at = (centred(dw, fw), centred(dh, fh));
    fit_stays_in_canvas(w, h, dw, dh);
    fit_fills_one_side(w, h, dw, dh);
    contained_shows(src, w, h, dst, dw, dh);
    assert(is_frame(at, (fw, fh), w, h, dw, dh));
    let out = fitted_into(src, w, h, dst, dw, dh);
    assert(out == contained_in(src, w, h, dst, dw, dh));
    assert(shows(out, dw, dh, src, w, h, at, (fw, fh)));
}

/// A canvas shows the whole picture turned clockwise, where one of them stands and the
/// other lies.
pub proof fn picture_is_turned_for_the_canvas(
    src: Seq<u8>,
    w: int,
    h: int,
    dst: Seq<u8>,
    dw: int,
    dh: int,
)
    requires
        picture(w, h),
        picture(dw, dh),
        w <= 0x10_0000 && h <= 0x10_0000 && dw <= 0x10_0000 && dh <= 0x10_0000,
        src.len() >= nv12_len(w, h),
        dst.len() >= nv12_len(dw, dh),
        (h > w) != (dh > dw),
        !(h == dw && w == dh),
    ensures
        exists|at: (int, int), size: (int, int)|
            is_frame(at, size, h, w, dw, dh) && #[trigger] shows(
                fitted_into(src, w, h, dst, dw, dh),
                dw,
                dh,
                upright(src, w, h),
                h,
                w,
                at,
                size,
            ),
{
    let (fw, fh) = fitted(h, w, dw, dh);
    let at = (centred(dw, fw), centred(dh, fh));
    assert(w * h == h * w) by (nonlinear_arith);
    fit_stays_in_canvas(h, w, dw, dh);
    fit_fills_one_side(h, w, dw, dh);
    contained_shows(upright(src, w, h), h, w, dst, dw, dh);
    assert(is_frame(at, (fw, fh), h, w, dw, dh));
    let out = fitted_into(src, w, h, dst, dw, dh);
    assert(out == contained_in(upright(src, w, h), h, w, dst, dw, dh));
    assert(shows(out, dw, dh, upright(src, w, h), h, w, at, (fw, fh)));
}

/// Fitting a picture touches nothing behind the canvas, and leaves one alone that is
/// too short. A picture that is not whole leaves the canvas black.
pub proof fn fitting_keeps_to_the_canvas(
    src: Seq<u8>,
    w: int,
    h: int,
    dst: Seq<u8>,
    dw: int,
    dh: int,
)
    requires
        picture(w, h),
        picture(dw, dh),
    ensures
        ({
            let out = fitted_into(src, w, h, dst, dw, dh);
            let n = nv12_len(dw, dh);
            &&& out.len() == dst.len()
            &&& forall|i: int| n <= i < out.len() ==> out[i] == dst[i]
            &&& dst.len() < n ==> out == dst
            &&& dst.len() >= n && src.len() < nv12_len(w, h) ==> (forall|i: int|
                0 <= i < dw * dh ==> out[i] == 16) && (forall|i: int|
                dw * dh <= i < n ==> out[i] == 128)
        }),
{
    assert(w * h == h * w) by (nonlinear_arith);
    planes(dw, dh);
    if h == dw && w == dh {
        planes(w, h);
        assert(dw * dh == dh * dw) by (nonlinear_arith);
    }
}

#[verifier::spinoff_prover]
#[verifier::rlimit(50)]
proof fn contained_shows(p: Seq<u8>, w: int, h: int, dst: Seq<u8>, dw: int, dh: int)
    requires
        picture(w, h),
        picture(dw, dh),
        !(w == dw && h == dh),
        dst.len() >= nv12_len(dw, dh),
    ensures
        ({
            let (fw, fh) = fitted(w, h, dw, dh);
            shows(
                contained_in(p, w, h, dst, dw, dh),
                dw,
                dh,
                p,
                w,
                h,
                (centred(dw, fw), centred(dh, fh)),
                (fw, fh),
            )
        }),
{
    let (fw, fh) = fitted(w, h, dw, dh);
    let (ox, oy) = (centred(dw, fw), centred(dh, fh));
    let out = contained_in(p, w, h, dst, dw, dh);
    fit_stays_in_canvas(w, h, dw, dh);
    reveal(shows);
    assert forall|x: int, y: int, sx: int, sy: int|
        0 <= x < fw && 0 <= y < fh && #[trigger] stands_for(sx, w, x, fw) && #[trigger] stands_for(
            sy,
            h,
            y,
            fh,
        ) implies luma_at(out, dw, ox + x, oy + y) == luma_at(p, w, sx, sy) by {
        luma_shown(p, w, h, dst, dw, dh, ox + x, oy + y);
        some_stands_for_each(x, w, fw);
        some_stands_for_each(y, h, fh);
        one_stands_for_each(sx, x * w / fw, w, x, x, fw);
        one_stands_for_each(sy, y * h / fh, h, y, y, fh);
    }
    assert forall|x: int, y: int, sx: int, sy: int, c: int|
        0 <= x < fw && 0 <= y < fh && x % 2 == 0 && y % 2 == 0 && 0 <= c <= 1
            && #[trigger] stands_for(sx, w, x, fw) && #[trigger] stands_for(
            sy,
            h,
            y,
            fh,
        ) implies #[trigger] chroma_at(out, dw, dh, ox + x, oy + y, c) == chroma_at(
        p,
        w,
        h,
        sx,
        sy,
        c,
    ) by {
        chroma_shown(p, w, h, dst, dw, dh, ox + x, oy + y, c);
        some_stands_for_each(x, w, fw);
        some_stands_for_each(y, h, fh);
        one_stands_for_each(sx, x * w / fw, w, x, x, fw);
        one_stands_for_each(sy, y * h / fh, h, y, y, fh);
    }
    assert forall|x: int, y: int|
        0 <= x < dw && 0 <= y < dh && !(ox <= x < ox + fw && oy <= y < oy + fh) implies {
        &&& #[trigger] luma_at(out, dw, x, y) == 16
        &&& chroma_at(out, dw, dh, x, y, 0) == 128
        &&& chroma_at(out, dw, dh, x, y, 1) == 128
    } by {
        luma_shown(p, w, h, dst, dw, dh, x, y);
        chroma_shown(p, w, h, dst, dw, dh, x, y, 0);
        chroma_shown(p, w, h, dst, dw, dh, x, y, 1);
    }
}

proof fn luma_shown(p: Seq<u8>, w: int, h: int, dst: Seq<u8>, dw: int, dh: int, x: int, y: int)
    requires
        picture(w, h),
        picture(dw, dh),
        !(w == dw && h == dh),
        dst.len() >= nv12_len(dw, dh),
        0 <= x < dw,
        0 <= y < dh,
    ensures
        ({
            let (fw, fh) = fitted(w, h, dw, dh);
            let (ox, oy) = (centred(dw, fw), centred(dh, fh));
            let out = contained_in(p, w, h, dst, dw, dh);
            luma_at(out, dw, x, y) == if ox <= x < ox + fw && oy <= y < oy + fh {
                luma_at(p, w, (x - ox) * w / fw, (y - oy) * h / fh)
            } else {
                16
            }
        }),
{
    planes(dw, dh);
    place(dw, x, y);
    within(dw, dh, x, y);
}

#[verifier::spinoff_prover]
#[verifier::rlimit(50)]
proof fn chroma_shown(
    p: Seq<u8>,
    w: int,
    h: int,
    dst: Seq<u8>,
    dw: int,
    dh: int,
    x: int,
    y: int,
    c: int,
)
    requires
        picture(w, h),
        picture(dw, dh),
        !(w == dw && h == dh),
        dst.len() >= nv12_len(dw, dh),
        0 <= x < dw,
        0 <= y < dh,
        0 <= c <= 1,
    ensures
        ({
            let (fw, fh) = fitted(w, h, dw, dh);
            let (ox, oy) = (centred(dw, fw), centred(dh, fh));
            let out = contained_in(p, w, h, dst, dw, dh);
            chroma_at(out, dw, dh, x, y, c) == if ox <= x < ox + fw && oy <= y < oy + fh {
                chroma_at(
                    p,
                    w,
                    h,
                    (2 * (x / 2) - ox) * w / fw,
                    (2 * (y / 2) - oy) * h / fh,
                    c,
                )
            } else {
                128
            }
        }),
{
    let (fw, fh) = fitted(w, h, dw, dh);
    let (ox, oy) = (centred(dw, fw), centred(dh, fh));
    planes(dw, dh);
    fit_stays_in_canvas(w, h, dw, dh);
    let x2 = 2 * (x / 2);
    let y2 = 2 * (y / 2);
    let j = (y / 2) * dw + x2 + c;
    place(dw, x2 + c, y / 2);
    within(dw, dh / 2, x2 + c, y / 2);
    assert(j % dw == x2 + c && j / dw == y / 2);
    let i = dw * dh + j;
    assert(i == dw * dh + (y / 2) * dw + 2 * (x / 2) + c);
    assert(contained_in(p, w, h, dst, dw, dh)[i] == shown_byte(p, w, h, dw, dh, fw, fh, i));
    if ox <= x < ox + fw && oy <= y < oy + fh {
        assert(even_of(x2 + c - ox) == x2 - ox);
        some_stands_for_each(x2 - ox, w, fw);
        some_stands_for_each(y2 - oy, h, fh);
        let sx = (x2 - ox) * w / fw;
        let sy = (y2 - oy) * h / fh;
        assert(pair_at(sx, w) == 2 * (sx / 2));
        assert(pair_at(sy, h) == 2 * (sy / 2));
    }
}

/// A picture whose sides are those of the canvas swapped fills it, turned.
pub proof fn swapped_size_is_turned(src: Seq<u8>, w: int, h: int, dst: Seq<u8>)
    requires
        picture(w, h),
        w != h,
        src.len() >= nv12_len(w, h),
        dst.len() == nv12_len(h, w),
    ensures
        fitted_into(src, w, h, dst, h, w) == upright(src, w, h),
{
    assert(w * h == h * w) by (nonlinear_arith);
    assert(fitted_into(src, w, h, dst, h, w) =~= upright(src, w, h));
}

/// The pixel in column `x` and row `y` of a turned picture comes from column `y`
/// and row `h - 1 - x`.
pub proof fn turn_moves_pixels(src: Seq<u8>, w: int, h: int, x: int, y: int)
    requires
        picture(w, h),
        0 <= x < h,
        0 <= y < w,
    ensures
        upright(src, w, h)[y * h + x] == src[(h - 1 - x) * w + y],
{
    planes(w, h);
    assert(w * h == h * w) by (nonlinear_arith);
    place(h, x, y);
    within(h, w, x, y);
}

/// The chroma pair in column `x` and row `y` of a turned picture comes from
/// column `y` and row `h / 2 - 1 - x`.
pub proof fn turn_moves_chroma(src: Seq<u8>, w: int, h: int, x: int, y: int, c: int)
    requires
        picture(w, h),
        0 <= x < h / 2,
        0 <= y < w / 2,
        c == 0 || c == 1,
    ensures
        upright(src, w, h)[w * h + y * h + 2 * x + c] == src[w * h + (h / 2 - 1 - x) * w + 2 * y
            + c],
{
    planes(w, h);
    planes(h, w);
    assert(w * h == h * w) by (nonlinear_arith);
    place(h, 2 * x + c, y);
    within(h, w / 2, 2 * x + c, y);
}

/// Four turns give a picture back.
pub proof fn four_turns_are_none(src: Seq<u8>, w: int, h: int)
    requires
        picture(w, h),
        src.len() == nv12_len(w, h),
    ensures
        upright(upright(upright(upright(src, w, h), h, w), w, h), h, w) == src,
{
    assert(w * h == h * w) by (nonlinear_arith);
    let one = upright(src, w, h);
    let two = upright(one, h, w);
    let three = upright(two, w, h);
    let four = upright(three, h, w);
    planes(w, h);
    planes(h, w);
    assert forall|i: int| 0 <= i < src.len() implies four[i] == src[i] by {
        if i < w * h {
            column_and_row(w, h, i);
            let x = i % w;
            let y = i / w;
            turn_moves_pixels(three, h, w, x, y);
            turn_moves_pixels(two, w, h, y, w - 1 - x);
            turn_moves_pixels(one, h, w, w - 1 - x, h - 1 - y);
            turn_moves_pixels(src, w, h, h - 1 - y, x);
        } else {
            let j = i - w * h;
            column_and_row(w, h / 2, j);
            let x = (j % w) / 2;
            let c = (j % w) % 2;
            let y = j / w;
            turn_moves_chroma(three, h, w, x, y, c);
            turn_moves_chroma(two, w, h, y, w / 2 - 1 - x, c);
            turn_moves_chroma(one, h, w, w / 2 - 1 - x, h / 2 - 1 - y, c);
            turn_moves_chroma(src, w, h, h / 2 - 1 - y, x, c);
        }
    }
    assert(four =~= src);
}

/// The waiting picture keeps to limited-range luma.
pub proof fn waiting_is_limited_range(w: int, h: int, mark: Seq<u8>, x: int, y: int)
    ensures
        16 <= waiting_luma(w, h, mark, x, y) <= 235,
{
    let size = mark_side(h);
    let x0 = half(w - size);
    let y0 = stack_top(h);
    if let Some(v) = mark_at(mark, size, x0, y0, x, y) {
        let i = (((y - y0) * 256 / size) * 256 + (x - x0) * 256 / size) * 4;
        let l = (77 * mark[i] + 150 * mark[i + 1] + 29 * mark[i + 2]) / 255;
        let a = mark[i + 3] as int;
        assert(0 <= 219 * l * a <= 219 * 256 * 255) by (nonlinear_arith)
            requires
                0 <= l <= 256,
                0 <= a <= 255,
        ;
    }
}

/// Letters stand upright and in reading order: letter `k` takes six columns behind those
/// before it, and each of its cells is a square of pixels that is lit where the letter's
/// picture has ink, the first column leftmost and the first row on top.
pub proof fn letters_stand_upright(
    text: Seq<char>,
    scale: int,
    x0: int,
    y0: int,
    k: int,
    r: int,
    c: int,
    dx: int,
    dy: int,
)
    requires
        scale >= 1,
        0 <= k < text.len(),
        0 <= r < 7,
        0 <= c < 6,
        0 <= dx < scale,
        0 <= dy < scale,
    ensures
        text_lit(
            text,
            scale,
            x0,
            y0,
            x0 + (6 * k + c) * scale + dx,
            y0 + r * scale + dy,
        ) <==> c < 5 && cell_lit(text[k], r, c),
        c < 5 ==> (cell_lit(text[k], r, c) <==> (glyph_of(text[k])[r] as int / (if c == 0 {
            16int
        } else if c == 1 {
            8
        } else if c == 2 {
            4
        } else if c == 3 {
            2
        } else {
            1
        })) % 2 == 1),
{
    let w = 6 * scale;
    let gx = (6 * k + c) * scale + dx;
    let gy = r * scale + dy;
    let rest = c * scale + dx;
    assert(gx == k * w + rest && 0 <= rest < w && gx < text.len() * w && gx >= 0 && 0 <= gy < 7
        * scale) by (nonlinear_arith)
        requires
            w == 6 * scale,
            gx == (6 * k + c) * scale + dx,
            gy == r * scale + dy,
            rest == c * scale + dx,
            0 <= k < text.len(),
            0 <= c < 6,
            0 <= r < 7,
            0 <= dx < scale,
            0 <= dy < scale,
    ;
    vstd::arithmetic::div_mod::lemma_fundamental_div_mod_converse(gx, w, k, rest);
    vstd::arithmetic::div_mod::lemma_fundamental_div_mod_converse(rest, scale, c, dx);
    vstd::arithmetic::div_mod::lemma_fundamental_div_mod_converse(gy, scale, r, dy);
    let g = glyph_of(text[k])[r];
    assert(((g >> 4u8) & 1u8 == 1u8) == (g / 16 % 2 == 1)) by (bit_vector);
    assert(((g >> 3u8) & 1u8 == 1u8) == (g / 8 % 2 == 1)) by (bit_vector);
    assert(((g >> 2u8) & 1u8 == 1u8) == (g / 4 % 2 == 1)) by (bit_vector);
    assert(((g >> 1u8) & 1u8 == 1u8) == (g / 2 % 2 == 1)) by (bit_vector);
    assert(((g >> 0u8) & 1u8 == 1u8) == (g % 2 == 1)) by (bit_vector);
}

/// The mark is shown upright and not mirrored, as large as its square: each pixel is that
/// at the same part of the way across and down, where it is not transparent.
pub proof fn mark_stands_upright(
    mark: Seq<u8>,
    size: int,
    x0: int,
    y0: int,
    dx: int,
    dy: int,
    sx: int,
    sy: int,
)
    requires
        size > 0,
        0 <= dx < size,
        0 <= dy < size,
        stands_for(sx, 256, dx, size),
        stands_for(sy, 256, dy, size),
    ensures
        ({
            let i = 4 * (sy * 256 + sx);
            let v = mark_at(mark, size, x0, y0, x0 + dx, y0 + dy);
            &&& v is None <==> mark[i + 3] < 16
            &&& v matches Some(l) ==> l == mark_luma(
                mark[i] as int,
                mark[i + 1] as int,
                mark[i + 2] as int,
                mark[i + 3] as int,
            )
        }),
{
    some_stands_for_each(dx, 256, size);
    some_stands_for_each(dy, 256, size);
    one_stands_for_each(sx, dx * 256 / size, 256, dx, dx, size);
    one_stands_for_each(sy, dy * 256 / size, 256, dy, dy, size);
}

/// The mark's brightness: black stays black and white comes out as white is in limited
/// range, more of a colour is no darker, and green counts most and blue least.
pub proof fn mark_is_as_bright(r: int, g: int, b: int, a: int, more: int)
    requires
        0 <= r <= 255,
        0 <= g <= 255,
        0 <= b <= 255,
        0 <= a <= 255,
        0 <= more,
    ensures
        mark_luma(0, 0, 0, a) == 16,
        mark_luma(255, 255, 255, 255) == 235,
        mark_luma(r, g, b, 0) == 16,
        mark_luma(r, g, b, a) <= mark_luma(r + more, g, b, a),
        mark_luma(r, g, b, a) <= mark_luma(r, g + more, b, a),
        mark_luma(r, g, b, a) <= mark_luma(r, g, b + more, a),
        mark_luma(0, 0, r, a) <= mark_luma(r, 0, 0, a) <= mark_luma(0, r, 0, a),
{
    assert(0 * a == 0) by (nonlinear_arith);
    brighter((77 * r + 150 * g + 29 * b) / 255, (77 * (r + more) + 150 * g + 29 * b) / 255, a);
    brighter((77 * r + 150 * g + 29 * b) / 255, (77 * r + 150 * (g + more) + 29 * b) / 255, a);
    brighter((77 * r + 150 * g + 29 * b) / 255, (77 * r + 150 * g + 29 * (b + more)) / 255, a);
    brighter(29 * r / 255, 77 * r / 255, a);
    brighter(77 * r / 255, 150 * r / 255, a);
    let l = (77 * r + 150 * g + 29 * b) / 255;
    assert(219 * l * 0 == 0) by (nonlinear_arith);
}

proof fn brighter(l: int, m: int, a: int)
    requires
        0 <= l <= m,
        0 <= a,
    ensures
        219 * l * a / 65025 <= 219 * m * a / 65025,
{
    assert(219 * l * a <= 219 * m * a) by (nonlinear_arith)
        requires
            0 <= l <= m,
            0 <= a,
    ;
    vstd::arithmetic::div_mod::lemma_div_is_ordered(219 * l * a, 219 * m * a, 65025);
}

/// The waiting picture is grey, row by row, and touches nothing behind the canvas.
pub proof fn waiting_is_laid_out(dst: Seq<u8>, w: int, h: int, mark: Seq<u8>, x: int, y: int)
    requires
        picture(w, h),
        dst.len() >= nv12_len(w, h),
        0 <= x < w,
        0 <= y < h,
    ensures
        ({
            let out = waiting_in(dst, w, h, mark);
            &&& out.len() == dst.len()
            &&& luma_at(out, w, x, y) == waiting_luma(w, h, mark, x, y)
            &&& chroma_at(out, w, h, x, y, 0) == 128
            &&& chroma_at(out, w, h, x, y, 1) == 128
            &&& forall|i: int| nv12_len(w, h) <= i < dst.len() ==> out[i] == dst[i]
        }),
{
    planes(w, h);
    place(w, x, y);
    within(w, h, x, y);
    within(w, h / 2, 2 * (x / 2), y / 2);
    within(w, h / 2, 2 * (x / 2) + 1, y / 2);
    waiting_is_limited_range(w, h, mark, x, y);
}

} // verus!
