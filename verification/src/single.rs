//! Positive single-precision arithmetic, in integers.
//!
//! A number is a fraction. Rounding keeps 24 significant bits and goes to the
//! nearest, on a tie to the even one, as a single-precision unit does.

use vstd::prelude::*;

verus! {

/// `n / d` to the nearest integer, on a tie to the even one.
pub open spec fn nearest(n: int, d: int) -> int {
    let q = n / d;
    let r = n % d;
    if 2 * r < d || (2 * r == d && q % 2 == 0) {
        q
    } else {
        q + 1
    }
}

/// `n / d`, which is too small to fill 24 bits, rounded to 24 bits.
pub open spec fn grown(n: int, d: int) -> (int, int)
    decreases d * 0x100_0000 - n,
{
    if n <= 0 || n >= d * 0x80_0000 {
        (nearest(n, d), 1)
    } else {
        let (a, b) = grown(2 * n, d);
        (a, 2 * b)
    }
}

/// `n / d` rounded to 24 significant bits.
pub open spec fn single(n: int, d: int) -> (int, int)
    decreases n - d,
{
    if d <= 0 || n < d * 0x100_0000 {
        grown(n, d)
    } else {
        let (a, b) = single(n, 2 * d);
        (2 * a, b)
    }
}

/// A fraction.
#[derive(Clone, Copy, PartialEq, Eq, Structural, Debug)]
pub struct Fraction {
    pub n: u128,
    pub d: u128,
}

/// A fraction as a pair of integers.
pub open spec fn pair(f: Fraction) -> (int, int) {
    (f.n as int, f.d as int)
}

/// `n / d` to the nearest integer, on a tie to the even one.
pub fn round_to_even(n: u128, d: u128) -> (r: u128)
    requires
        0 < d <= 0x4000_0000_0000_0000_0000_0000_0000_0000,
        n <= 0x4000_0000_0000_0000_0000_0000_0000_0000,
    ensures
        r == nearest(n as int, d as int),
        r <= n / d + 1,
{
    let q: u128 = n / d;
    let r: u128 = n % d;
    proof {
        assert(n / d <= n) by (nonlinear_arith)
            requires
                d >= 1,
                n >= 0,
        ;
        assert(n % d < d) by (nonlinear_arith)
            requires
                d >= 1,
        ;
    }
    if 2 * r < d || (2 * r == d && q % 2 == 0) {
        q
    } else {
        q + 1
    }
}

fn grow(n: u128, d: u128) -> (f: Fraction)
    requires
        0 < d <= 0x1000_0000_0000_0000,
        0 < n < d * 0x100_0000,
    ensures
        pair(f) == grown(n as int, d as int),
        1 <= f.n <= 0x100_0000,
        1 <= f.d <= d * 0x100_0000,
        f.d * n <= d * 0x100_0000,
    decreases d * 0x100_0000 - n,
{
    if n >= d * 0x80_0000 {
        proof {
            quotient_range(n as int, d as int);
        }
        Fraction { n: round_to_even(n, d), d: 1 }
    } else {
        let f: Fraction = grow(2 * n, d);
        assert(f.d * (2 * n) == 2 * (f.d * n)) by (nonlinear_arith);
        assert(2 * f.d <= d * 0x100_0000) by (nonlinear_arith)
            requires
                f.d * (2 * n) <= d * 0x100_0000,
                n >= 1,
                f.d >= 1,
        ;
        assert((2 * f.d) * n == f.d * (2 * n)) by (nonlinear_arith);
        Fraction { n: f.n, d: 2 * f.d }
    }
}

/// A quotient with 24 bits stays within 24 bits, or rounds up to the next power.
proof fn quotient_range(n: int, d: int)
    requires
        d > 0,
        d * 0x80_0000 <= n < d * 0x100_0000,
    ensures
        0x80_0000 <= n / d < 0x100_0000,
{
    assert(0x80_0000 <= n / d < 0x100_0000) by (nonlinear_arith)
        requires
            d > 0,
            d * 0x80_0000 <= n < d * 0x100_0000,
    ;
}

/// `n / d` rounded to 24 significant bits.
pub fn to_single(n: u128, d: u128) -> (f: Fraction)
    requires
        0 < d <= 0x1000_0000_0000_0000,
        0 < n <= 0x40_0000_0000_0000_0000,
    ensures
        pair(f) == single(n as int, d as int),
        1 <= f.n,
        f.n <= 0x100_0000 || f.n <= 4 * n,
        1 <= f.d <= d * 0x100_0000,
        f.d == 1 || f.n <= 0x100_0000,
{
    rounded(n, d)
}

fn rounded(n: u128, d: u128) -> (f: Fraction)
    requires
        0 < d <= 0x1000_0000_0000_0000,
        0 < n <= 0x40_0000_0000_0000_0000,
    ensures
        pair(f) == single(n as int, d as int),
        1 <= f.n,
        n < d * 0x100_0000 ==> f.n <= 0x100_0000 && f.d <= d * 0x100_0000,
        n >= d * 0x100_0000 ==> f.d == 1 && f.n * d <= 4 * n,
        f.n <= 0x100_0000 || f.n <= 4 * n,
        1 <= f.d <= d * 0x100_0000,
        f.d == 1 || f.n <= 0x100_0000,
    decreases n - d,
{
    if n < d * 0x100_0000 {
        grow(n, d)
    } else {
        let f: Fraction = rounded(n, 2 * d);
        proof {
            if n < 2 * d * 0x100_0000 {
                shrunk_once(n as int, d as int);
            } else {
                assert((2 * f.n) * d == f.n * (2 * d)) by (nonlinear_arith);
            }
            assert(2 * f.n <= 4 * n) by (nonlinear_arith)
                requires
                    (2 * f.n) * d <= 4 * n,
                    d >= 1,
                    f.n >= 1,
            ;
        }
        Fraction { n: 2 * f.n, d: f.d }
    }
}

/// The step on which a large quotient has come down to 24 bits.
proof fn shrunk_once(n: int, d: int)
    requires
        d > 0,
        d * 0x100_0000 <= n < 2 * d * 0x100_0000,
    ensures
        single(n, 2 * d) == (nearest(n, 2 * d), 1int),
        2 * nearest(n, 2 * d) * d <= 4 * n,
{
    let e = 2 * d;
    assert(single(n, e) == grown(n, e));
    assert(grown(n, e) == (nearest(n, e), 1int));
    let q = n / e;
    assert(q * e <= n) by (nonlinear_arith)
        requires
            q == n / e,
            e > 0,
    ;
    let m = nearest(n, e);
    assert(m <= q + 1);
    assert(m * e <= n + e) by (nonlinear_arith)
        requires
            m <= q + 1,
            q * e <= n,
            e > 0,
    ;
    assert(2 * m * d == m * e) by (nonlinear_arith)
        requires
            e == 2 * d,
    ;
}

/// True where one fraction is not above another.
pub open spec fn at_most(a: (int, int), b: (int, int)) -> bool {
    a.0 * b.1 <= b.0 * a.1
}

/// A fraction to the nearest integer, on a tie away from zero.
pub open spec fn rounded_off(a: (int, int)) -> int {
    (2 * a.0 + a.1) / (2 * a.1)
}

/// An integer in single precision.
pub open spec fn single_int(n: int) -> int {
    if n < 0x100_0000 {
        n
    } else {
        single(n, 1).0
    }
}

/// An integer in single precision.
fn int_to_single(n: u128) -> (r: u128)
    requires
        0 < n <= 0xFFFF_FFFF,
    ensures
        r == single_int(n as int),
        1 <= r <= 0x4_0000_0000,
{
    if n < 0x100_0000 {
        n
    } else {
        to_single(n, 1).n
    }
}

/// The factor that brings a picture into a frame without exceeding either side.
pub open spec fn contain_scale(sw: int, sh: int, dw: int, dh: int) -> (int, int) {
    let across = single(single_int(dw), single_int(sw));
    let down = single(single_int(dh), single_int(sh));
    if at_most(across, down) {
        across
    } else {
        down
    }
}

/// A side after scaling, to the nearest integer.
pub open spec fn scaled_side(s: int, scale: (int, int)) -> int {
    rounded_off(single(single_int(s) * scale.0, scale.1))
}

/// The sides of a picture scaled to be contained in a frame, before they are
/// made even and cut to the frame.
pub fn contained(sw: u32, sh: u32, dw: u32, dh: u32) -> (r: (u128, u128))
    requires
        sw > 0 && sh > 0 && dw > 0 && dh > 0,
    ensures
        r.0 == scaled_side(sw as int, contain_scale(sw as int, sh as int, dw as int, dh as int)),
        r.1 == scaled_side(sh as int, contain_scale(sw as int, sh as int, dw as int, dh as int)),
{
    let fw: u128 = int_to_single(sw as u128);
    let fh: u128 = int_to_single(sh as u128);
    let across: Fraction = to_single(int_to_single(dw as u128), fw);
    let down: Fraction = to_single(int_to_single(dh as u128), fh);
    proof {
        product_bound(across.n as int, down.d as int, 0x10_0000_0000, 0x400_0000_0000_0000);
        product_bound(down.n as int, across.d as int, 0x10_0000_0000, 0x400_0000_0000_0000);
    }
    let scale: Fraction = if across.n * down.d <= down.n * across.d {
        across
    } else {
        down
    };
    (side(fw, scale), side(fh, scale))
}

proof fn product_bound(a: int, b: int, x: int, y: int)
    requires
        0 <= a <= x,
        0 <= b <= y,
    ensures
        0 <= a * b <= x * y,
{
    assert(0 <= a * b <= x * y) by (nonlinear_arith)
        requires
            0 <= a <= x,
            0 <= b <= y,
    ;
}

fn side(s: u128, scale: Fraction) -> (r: u128)
    requires
        1 <= s <= 0x4_0000_0000,
        1 <= scale.n <= 0x10_0000_0000,
        1 <= scale.d <= 0x400_0000_0000_0000,
    ensures
        r == rounded_off(single(s * scale.n, scale.d as int)),
{
    proof {
        product_bound(s as int, scale.n as int, 0x4_0000_0000, 0x10_0000_0000);
        assert(s * scale.n >= 1) by (nonlinear_arith)
            requires
                s >= 1,
                scale.n >= 1,
        ;
    }
    let p: Fraction = to_single(s * scale.n, scale.d);
    (2 * p.n + p.d) / (2 * p.d)
}

/// The distance between two numbers.
pub open spec fn apart(a: int, b: int) -> int {
    if a >= b {
        a - b
    } else {
        b - a
    }
}

/// True where `a / b` is `n / d` to within one part in 2^24.
pub open spec fn is_close(a: int, b: int, n: int, d: int) -> bool {
    b >= 1 && a >= 0 && 0x100_0000 * apart(a * d, n * b) <= n * b
}

proof fn grown_is_close(n: int, d: int)
    requires
        0 < d,
        0 < n,
    ensures
        is_close(grown(n, d).0, grown(n, d).1, n, d),
    decreases d * 0x100_0000 - n,
{
    let (a, b) = grown(n, d);
    if n >= d * 0x80_0000 {
        let q = n / d;
        let r = n % d;
        assert(n == q * d + r && 0 <= r < d && q >= 0) by (nonlinear_arith)
            requires
                q == n / d,
                r == n % d,
                d > 0,
                n > 0,
        ;
        assert((q + 1) * d == q * d + d) by (nonlinear_arith);
        assert(2 * apart(a * d, n) <= d);
        assert(n * b == n);
    } else {
        grown_is_close(2 * n, d);
        let (a, c) = grown(2 * n, d);
        assert((2 * n) * c == n * (2 * c)) by (nonlinear_arith);
    }
}

/// Rounding is off by less than one part in 2^24.
pub proof fn single_is_close(n: int, d: int)
    requires
        0 < d,
        0 < n,
    ensures
        is_close(single(n, d).0, single(n, d).1, n, d),
    decreases n - d,
{
    if n < d * 0x100_0000 {
        grown_is_close(n, d);
    } else {
        single_is_close(n, 2 * d);
        let (a, b) = single(n, 2 * d);
        assert((2 * a) * d == a * (2 * d)) by (nonlinear_arith);
    }
}

/// A side scaled by `d / o` is off by less than one, as long as it does not come
/// out above 2^21.
pub proof fn scaling_is_near(s: int, o: int, d: int)
    requires
        0 < s < 0x100_0000,
        0 < o,
        0 < d,
        s * d <= o * 0x20_0000,
    ensures
        apart(scaled_side(s, single(d, o)) * o, s * d) < o,
{
    let (a, b) = single(d, o);
    single_is_close(d, o);
    assert(a > 0) by {
        if a == 0 {
            assert(0 * o == 0) by (nonlinear_arith);
            assert(d * b > 0) by (nonlinear_arith)
                requires
                    d > 0,
                    b >= 1,
            ;
        }
    }
    assert(s * a > 0) by (nonlinear_arith)
        requires
            s > 0,
            a > 0,
    ;
    let (p, q) = single(s * a, b);
    single_is_close(s * a, b);
    let m = 0x100_0000int;
    let first = a * o - d * b;
    let second = p * b - (s * a) * q;
    // |p * o - s * d * q| * b, in two parts.
    let all = p * o - s * d * q;
    assert(all * b == o * second + s * q * first) by {
        assert(all * b == p * o * b - s * d * q * b) by (nonlinear_arith)
            requires
                all == p * o - s * d * q,
        ;
        assert(o * second == o * (p * b) - o * ((s * a) * q)) by (nonlinear_arith)
            requires
                second == p * b - (s * a) * q,
        ;
        assert(s * q * first == s * q * (a * o) - s * q * (d * b)) by (nonlinear_arith)
            requires
                first == a * o - d * b,
        ;
        assert(p * o * b == o * (p * b)) by (nonlinear_arith);
        assert(o * ((s * a) * q) == s * q * (a * o)) by (nonlinear_arith);
        assert(s * d * q * b == s * q * (d * b)) by (nonlinear_arith);
    }
    let db = d * b;
    assert(0 < db) by (nonlinear_arith)
        requires
            db == d * b,
            d > 0,
            b >= 1,
    ;
    assert(a * o <= 2 * db);
    let saq = (s * a) * q;
    let sq = s * q;
    assert(0 < sq) by (nonlinear_arith)
        requires
            sq == s * q,
            s > 0,
            q >= 1,
    ;
    assert(o * saq == sq * (a * o)) by (nonlinear_arith)
        requires
            saq == (s * a) * q,
            sq == s * q,
    ;
    assert(sq * (a * o) <= sq * (2 * db)) by (nonlinear_arith)
        requires
            sq > 0,
            a * o <= 2 * db,
    ;
    assert(m * (o * second) <= o * saq && -(o * saq) <= m * (o * second)) by (nonlinear_arith)
        requires
            m == 0x100_0000,
            o > 0,
            m * second <= saq,
            -saq <= m * second,
    ;
    assert(m * (sq * first) <= sq * db && -(sq * db) <= m * (sq * first)) by (nonlinear_arith)
        requires
            m == 0x100_0000,
            sq > 0,
            m * first <= db,
            -db <= m * first,
    ;
    let t = sq * db;
    assert(sq * (2 * db) == 2 * t) by (nonlinear_arith)
        requires
            t == sq * db,
    ;
    assert(s * q * first == sq * first);
    assert(m * (all * b) <= 3 * t && -(3 * t) <= m * (all * b)) by {
        assert(m * (all * b) == m * (o * second) + m * (sq * first)) by (nonlinear_arith)
            requires
                all * b == o * second + sq * first,
        ;
    }
    let u = (s * d) * q;
    assert(t == u * b) by (nonlinear_arith)
        requires
            t == sq * db,
            sq == s * q,
            db == d * b,
            u == (s * d) * q,
    ;
    assert(m * all <= 3 * u && -(3 * u) <= m * all) by (nonlinear_arith)
        requires
            m == 0x100_0000,
            m * (all * b) <= 3 * (u * b),
            -(3 * (u * b)) <= m * (all * b),
            b >= 1,
    ;
    assert(u <= (o * q) * 0x20_0000) by (nonlinear_arith)
        requires
            u == (s * d) * q,
            s * d <= o * 0x20_0000,
            q >= 1,
    ;
    // 8 * |all| <= 3 * o * q.
    let x = rounded_off((p, q));
    let oq = o * q;
    assert(0 < oq) by (nonlinear_arith)
        requires
            oq == o * q,
            o > 0,
            q >= 1,
    ;
    assert(8 * all <= 3 * oq && -(3 * oq) <= 8 * all);
    let w = 2 * q;
    let rest = (2 * p + q) % w;
    assert(2 * p + q == x * w + rest && 0 <= rest < w) by (nonlinear_arith)
        requires
            x == (2 * p + q) / w,
            rest == (2 * p + q) % w,
            w > 0,
    ;
    let off = 2 * (x * q - p);
    assert(x * w == 2 * (x * q)) by (nonlinear_arith)
        requires
            w == 2 * q,
    ;
    assert(-q < off <= q);
    assert(o * off <= oq && -oq <= o * off) by (nonlinear_arith)
        requires
            oq == o * q,
            o > 0,
            -q < off <= q,
    ;
    let gap = x * o - s * d;
    assert(2 * (gap * q) == o * off + 2 * all) by (nonlinear_arith)
        requires
            gap == x * o - s * d,
            off == 2 * (x * q - p),
            all == p * o - s * d * q,
    ;
    assert(8 * (gap * q) <= 7 * oq && -(7 * oq) <= 8 * (gap * q));
    assert(gap < o && -o < gap) by (nonlinear_arith)
        requires
            8 * (gap * q) <= 7 * (o * q),
            -(7 * (o * q)) <= 8 * (gap * q),
            q >= 1,
            o > 0,
    ;
}

/// A factor that is not above another leaves a side that is hardly above what the
/// other one would.
proof fn smaller_factor(sw: int, sh: int, dw: int, dh: int)
    requires
        0 < sw,
        0 < sh,
        0 < dw,
        0 < dh,
        at_most(single(dw, sw), single(dh, sh)),
    ensures
        0xff_ffff * (dw * sh) <= 0x100_0001 * (dh * sw),
{
    let (a, b) = single(dw, sw);
    let (c, d) = single(dh, sh);
    single_is_close(dw, sw);
    single_is_close(dh, sh);
    let m = 0x100_0000int;
    let l = m - 1;
    let g = m + 1;
    assert(l * (dw * b) <= m * (a * sw));
    assert(m * (c * sh) <= g * (dh * d));
    let bd = b * d;
    assert(bd >= 1) by (nonlinear_arith)
        requires
            bd == b * d,
            b >= 1,
            d >= 1,
    ;
    let x = l * (dw * b);
    let y = m * (a * sw);
    let k = d * sh;
    assert(x * k <= y * k) by (nonlinear_arith)
        requires
            x <= y,
            k == d * sh,
            d >= 1,
            sh > 0,
    ;
    assert(l * (dw * sh) * (b * d) == l * (dw * b) * (d * sh)) by (nonlinear_arith);
    assert(m * (a * d) * (sw * sh) == m * (a * sw) * (d * sh)) by (nonlinear_arith);
    assert(l * (dw * sh) * bd <= m * (a * d) * (sw * sh));
    assert(m * (a * d) * (sw * sh) <= m * (c * b) * (sw * sh)) by (nonlinear_arith)
        requires
            m == 0x100_0000,
            a * d <= c * b,
            sw > 0,
            sh > 0,
    ;
    assert(m * (c * b) * (sw * sh) <= g * (dh * sw) * bd) by (nonlinear_arith)
        requires
            m * (c * sh) <= g * (dh * d),
            bd == b * d,
            b >= 1,
            sw > 0,
    ;
    assert(l * (dw * sh) <= g * (dh * sw)) by (nonlinear_arith)
        requires
            l * (dw * sh) * bd <= g * (dh * sw) * bd,
            bd >= 1,
    ;
}

/// A picture that is scaled to be contained in a frame fills it one way, and
/// the other way is off by less than one.
pub proof fn containing_fills(sw: int, sh: int, dw: int, dh: int)
    requires
        0 < sw <= 0x10_0000,
        0 < sh <= 0x10_0000,
        0 < dw <= 0x10_0000,
        0 < dh <= 0x10_0000,
    ensures
        ({
            let scale = contain_scale(sw, sh, dw, dh);
            let w = scaled_side(sw, scale);
            let h = scaled_side(sh, scale);
            ||| w == dw && apart(h * sw, sh * dw) < sw && sh * dw < dh * sw + sw
            ||| h == dh && apart(w * sh, sw * dh) < sh && sw * dh < dw * sh + sh
        }),
{
    let across = single(dw, sw);
    let down = single(dh, sh);
    if at_most(across, down) {
        smaller_factor(sw, sh, dw, dh);
        filled_side(sw, sh, dw, dh);
    } else {
        assert(at_most(down, across));
        smaller_factor(sh, sw, dh, dw);
        filled_side(sh, sw, dh, dw);
    }
}

proof fn filled_side(s: int, other: int, d: int, room: int)
    requires
        0 < s <= 0x10_0000,
        0 < other <= 0x10_0000,
        0 < d <= 0x10_0000,
        0 < room <= 0x10_0000,
        0xff_ffff * (d * other) <= 0x100_0001 * (room * s),
    ensures
        scaled_side(s, single(d, s)) == d,
        apart(scaled_side(other, single(d, s)) * s, other * d) < s,
        other * d < room * s + s,
{
    let y = room * s;
    assert(0 < y <= 0x10_0000 * s) by (nonlinear_arith)
        requires
            y == room * s,
            0 < room <= 0x10_0000,
            0 < s,
    ;
    assert(d * other == other * d) by (nonlinear_arith);
    assert(other * d < y + s);
    assert(s * d <= s * 0x20_0000) by (nonlinear_arith)
        requires
            0 < s,
            0 < d <= 0x10_0000,
    ;
    assert(other * d <= s * 0x20_0000);
    scaling_is_near(s, s, d);
    scaling_is_near(other, s, d);
    let x = scaled_side(s, single(d, s));
    assert(x == d) by (nonlinear_arith)
        requires
            x * s - s * d < s,
            s * d - x * s < s,
            s > 0,
    ;
}

} // verus!
