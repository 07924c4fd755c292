//! The QR code of a link, as a bitmap.

use qrcode::{Color, QrCode};
use vstd::prelude::*;
use vstd::string::*;

verus! {

/// Modules of white around the code.
pub const QUIET: usize = 4;

/// Pixels that a module is wide.
pub const MODULE: usize = 6;

/// A square picture: red, green, blue and alpha for each pixel, row by row.
pub struct QrBitmap {
    pub size: usize,
    pub rgba: Vec<u8>,
}

/// Why there is no code.
#[derive(Clone, Copy, Debug, PartialEq, Eq, Structural)]
pub enum QrFailure {
    /// The data cannot be put into a code, because there is too much of it.
    Encode,
}

#[verifier::external_type_specification]
#[verifier::external_body]
pub struct ExQrError(qrcode::types::QrError);

/// What `qrcode`'s `QrCode::new` makes of data: the modules on a side, and
/// for each module, row by row, whether it is dark. `None` where it makes nothing.
pub uninterp spec fn code_of(data: Seq<u8>) -> Option<(usize, Seq<bool>)>;

/// The code that `qrcode`'s `QrCode::new` makes of data, which depends on the data
/// alone. The largest code has 177 modules on a side, and there is one colour
/// for each module.
#[verifier::external_body]
fn encode(data: &[u8]) -> (r: Result<(usize, Vec<bool>), qrcode::types::QrError>)
    ensures
        match r {
            Ok((dim, dark)) => {
                &&& code_of(data@) == Some((dim, dark@))
                &&& dim <= 177
                &&& dark@.len() == dim * dim
            },
            Err(_) => code_of(data@) is None,
        },
{
    let qr = QrCode::new(data)?;
    let dark = qr.to_colors().into_iter().map(|c| c == Color::Dark).collect();
    Ok((qr.width(), dark))
}

/// The pixels on a side of the bitmap of a code.
pub open spec fn side_of(dim: int) -> int {
    (dim + 2 * QUIET) * MODULE
}

/// True where a pixel belongs to a dark module.
pub open spec fn is_ink(dim: int, dark: Seq<bool>, x: int, y: int) -> bool {
    let mx = x / (MODULE as int) - QUIET;
    let my = y / (MODULE as int) - QUIET;
    0 <= mx < dim && 0 <= my < dim && dark[my * dim + mx]
}

/// Byte `i` of the bitmap of a code: nearly black where there is ink, white elsewhere.
pub open spec fn bitmap_byte(dim: int, dark: Seq<bool>, i: int) -> u8 {
    let p = i / 4;
    if i % 4 != 3 && is_ink(dim, dark, p % side_of(dim), p / side_of(dim)) {
        17
    } else {
        255
    }
}

/// The bitmap of a code.
pub open spec fn bitmap(dim: int, dark: Seq<bool>) -> Seq<u8> {
    Seq::new(
        (side_of(dim) * side_of(dim) * 4) as nat,
        |i: int| bitmap_byte(dim, dark, i),
    )
}

/// Draws a code: each module a square, and a white margin around all of them.
pub fn render_modules(dim: usize, dark: &[bool]) -> (r: QrBitmap)
    requires
        dark@.len() == dim * dim,
        side_of(dim as int) * side_of(dim as int) * 4 <= usize::MAX,
    ensures
        r.size == side_of(dim as int),
        r.rgba@ == bitmap(dim as int, dark@),
{
    let ghost n = side_of(dim as int);
    proof {
        assert(n <= n * n) by (nonlinear_arith)
            requires
                n >= 1,
        ;
    }
    let size: usize = (dim + 2 * QUIET) * MODULE;
    let mut rgba: Vec<u8> = Vec::with_capacity(size * size * 4);
    let mut y: usize = 0;
    assert(0 * size == 0) by (nonlinear_arith);
    while y < size
        invariant
            size == side_of(dim as int),
            dark.len() == dim * dim,
            y <= size,
            rgba@.len() == 4 * (y * size),
            forall|i: int| 0 <= i < rgba@.len() ==> rgba@[i] == bitmap_byte(dim as int, dark@, i),
        decreases size - y,
    {
        let row: usize = y / MODULE;
        let mut x: usize = 0;
        while x < size
            invariant
                size == side_of(dim as int),
                dark.len() == dim * dim,
                y < size,
                row == y / MODULE,
                x <= size,
                rgba@.len() == 4 * (y * size + x),
                forall|i: int|
                    0 <= i < rgba@.len() ==> rgba@[i] == bitmap_byte(dim as int, dark@, i),
            decreases size - x,
        {
            let col: usize = x / MODULE;
            let inside: bool = QUIET <= col && col < dim + QUIET && QUIET <= row && row < dim
                + QUIET;
            proof {
                vstd::arithmetic::div_mod::lemma_fundamental_div_mod_converse(
                    y * size + x,
                    size as int,
                    y as int,
                    x as int,
                );
                if inside {
                    let mx = col - QUIET;
                    let my = row - QUIET;
                    assert(0 <= my * dim + mx < dim * dim) by (nonlinear_arith)
                        requires
                            0 <= mx < dim,
                            0 <= my < dim,
                    ;
                    assert(0 <= my * dim) by (nonlinear_arith)
                        requires
                            0 <= my,
                            0 <= dim,
                    ;
                }
            }
            let ink: bool = inside && dark[(row - QUIET) * dim + (col - QUIET)];
            let v: u8 = if ink {
                17
            } else {
                255
            };
            let ghost at = 4 * (y * size + x);
            assert(ink == is_ink(dim as int, dark@, x as int, y as int));
            rgba.push(v);
            rgba.push(v);
            rgba.push(v);
            rgba.push(255);
            x += 1;
            assert forall|i: int| at <= i < at + 4 implies rgba@[i] == bitmap_byte(
                dim as int,
                dark@,
                i,
            ) by {
                assert(i / 4 == y * size + (x - 1));
            }
        }
        y += 1;
        assert(y * size == (y - 1) * size + size) by (nonlinear_arith);
    }
    assert(rgba@ =~= bitmap(dim as int, dark@));
    QrBitmap { size, rgba }
}

/// The bitmap of the code for data: its side and its bytes, where there is a code.
pub open spec fn drawn(data: Seq<u8>) -> Option<(int, Seq<u8>)> {
    match code_of(data) {
        Some((dim, dark)) => Some((side_of(dim as int), bitmap(dim as int, dark))),
        None => None,
    }
}

/// Draws the QR code of a link.
pub fn render(url: &str) -> (r: Result<QrBitmap, QrFailure>)
    ensures
        match r {
            Ok(b) => drawn(url.spec_bytes()) == Some((b.size as int, b.rgba@)),
            Err(e) => drawn(url.spec_bytes()) is None && e == QrFailure::Encode,
        },
{
    match encode(url.as_bytes()) {
        Err(_) => Err(QrFailure::Encode),
        Ok((dim, dark)) => {
            proof {
                let n = side_of(dim as int);
                assert(n * n * 4 <= 1110 * 1110 * 4) by (nonlinear_arith)
                    requires
                        0 <= n <= 1110,
                ;
            }
            Ok(render_modules(dim, dark.as_slice()))
        },
    }
}

/// A bitmap has four bytes for each pixel of a square, and a white margin.
pub proof fn margin_is_white(dim: int, dark: Seq<bool>, x: int, y: int)
    requires
        0 <= dim,
        0 <= x < side_of(dim),
        0 <= y < side_of(dim),
        x < QUIET * MODULE || y < QUIET * MODULE || x >= (dim + QUIET) * MODULE || y >= (dim + QUIET)
            * MODULE,
    ensures
        !is_ink(dim, dark, x, y),
        bitmap(dim, dark).len() == 4 * (side_of(dim) * side_of(dim)),
{
    assert(side_of(dim) * side_of(dim) >= 0) by (nonlinear_arith);
}

/// Every module is a square of pixels in its place, behind the margin: nearly black
/// where the module is dark and white where it is not, and opaque.
pub proof fn modules_are_squares(
    dim: int,
    dark: Seq<bool>,
    mx: int,
    my: int,
    dx: int,
    dy: int,
    c: int,
)
    requires
        0 <= mx < dim,
        0 <= my < dim,
        0 <= dx < MODULE,
        0 <= dy < MODULE,
        0 <= c < 4,
    ensures
        ({
            let side = (dim + 2 * QUIET) * MODULE;
            let x = (mx + QUIET) * MODULE + dx;
            let y = (my + QUIET) * MODULE + dy;
            let b = bitmap(dim, dark)[4 * (y * side + x) + c];
            &&& c < 3 && dark[my * dim + mx] ==> b == 17
            &&& c < 3 && !dark[my * dim + mx] ==> b == 255
            &&& c == 3 ==> b == 255
        }),
{
    let side = side_of(dim);
    let x = (mx + QUIET) * MODULE + dx;
    let y = (my + QUIET) * MODULE + dy;
    assert(0 <= x < side && 0 <= y < side);
    let p = y * side + x;
    vstd::arithmetic::div_mod::lemma_fundamental_div_mod_converse(p, side, y, x);
    assert(0 <= p < side * side) by (nonlinear_arith)
        requires
            p == y * side + x,
            0 <= x < side,
            0 <= y < side,
    ;
    assert((4 * p + c) / 4 == p && (4 * p + c) % 4 == c);
}

} // verus!
