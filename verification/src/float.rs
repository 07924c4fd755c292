//! Single-precision numbers that are not negative, held by their bits.
//!
//! Every one of them is a whole multiple of the smallest, 2^-149, so a number is
//! an integer in that unit. What is computed is the exact result, rounded to 24
//! significant bits: to the nearest, on a tie to the even one. (`single` rounds
//! fractions of any size in the same way.)

use crate::single::{nearest, round_to_even};
use vstd::prelude::*;

verus! {

/// `n`, doubled `s` times.
pub open spec fn up(n: int, s: nat) -> int
    decreases s,
{
    if s == 0 {
        n
    } else {
        up(2 * n, (s - 1) as nat)
    }
}

/// A single-precision number that is not negative. Numbers are in the order of
/// their bits.
#[derive(Clone, Copy, PartialEq, Eq, Structural, Debug)]
pub struct Single {
    pub bits: u32,
}

/// Zero.
pub open spec fn zero() -> Single {
    Single { bits: 0 }
}

/// Larger than every number.
pub open spec fn infinite() -> Single {
    Single { bits: 0x7F80_0000 }
}

impl Single {
    /// The significant digits.
    pub open spec fn digits(self) -> int {
        if self.bits < 0x100_0000 {
            self.bits as int
        } else {
            0x80_0000 + self.bits % 0x80_0000
        }
    }

    /// How often the digits are doubled.
    pub open spec fn scale(self) -> nat {
        if self.bits < 0x100_0000 {
            0
        } else {
            (self.bits / 0x80_0000 - 1) as nat
        }
    }

    /// True of a number that is not below an integer.
    pub open spec fn reaches(self, n: int) -> bool {
        self.bits >= float(n).bits
    }

    /// The number, in units of 2^-149.
    pub open spec fn val(self) -> int {
        up(self.digits(), self.scale())
    }
}

/// The number with these digits, doubled `e` times.
pub open spec fn packed(q: int, e: nat) -> Single {
    if e >= 254 {
        infinite()
    } else {
        Single { bits: (e * 0x80_0000 + q) as u32 }
    }
}

/// `n / d`, doubled `e` times and rounded.
#[verifier::opaque]
pub open spec fn fit(n: int, d: int, e: nat) -> Single
    decreases n - d,
{
    if d <= 0 || n < d * 0x100_0000 {
        packed(nearest(n, d), e)
    } else {
        fit(n, 2 * d, e + 1)
    }
}

/// `n / d`, rounded.
pub open spec fn ratio(n: int, d: int) -> Single {
    fit(up(n, 149), d, 0)
}

/// An integer, rounded.
pub open spec fn float(n: int) -> Single {
    ratio(n, 1)
}

/// A sum, rounded.
pub open spec fn plus(a: Single, b: Single) -> Single {
    fit(a.val() + b.val(), 1, 0)
}

/// A difference, rounded; zero where it would be negative.
pub open spec fn minus(a: Single, b: Single) -> Single {
    if a.bits < b.bits {
        zero()
    } else {
        fit(a.val() - b.val(), 1, 0)
    }
}

/// A product, rounded.
pub open spec fn times(a: Single, b: Single) -> Single {
    fit(a.val() * b.val(), up(1, 149), 0)
}

/// A quotient, rounded.
pub open spec fn over(a: Single, b: Single) -> Single {
    fit(up(a.val(), 149), b.val(), 0)
}

/// The smaller of two numbers.
pub open spec fn least(a: Single, b: Single) -> Single {
    if b.bits < a.bits {
        b
    } else {
        a
    }
}

/// The larger of two numbers.
pub open spec fn most(a: Single, b: Single) -> Single {
    if b.bits > a.bits {
        b
    } else {
        a
    }
}

/// Nanoseconds as seconds: the whole ones, and the rest of them.
pub open spec fn seconds(ns: int) -> Single {
    plus(float(ns / 1_000_000_000), over(float(ns % 1_000_000_000), float(1_000_000_000)))
}

/// A number to the nearest integer, on a tie to the even one.
pub open spec fn integer(a: Single) -> int {
    nearest(a.val(), up(1, 149))
}

/// A number to the nearest tenth, in tenths, on a tie to the even one.
pub open spec fn tenths(a: Single) -> int {
    nearest(10 * a.val(), up(1, 149))
}

/// Doubling is multiplying by a power of two.
proof fn up_is_product(n: int, s: nat)
    ensures
        up(n, s) == n * up(1, s),
        up(1, s) >= 1,
    decreases s,
{
    if s > 0 {
        let k = (s - 1) as nat;
        up_is_product(2 * n, k);
        up_is_product(2, k);
        let p = up(1, k);
        assert((2 * n) * p == n * (2 * p)) by (nonlinear_arith);
    }
}

/// Doubling goes on where it was left.
proof fn up_adds(n: int, a: nat, b: nat)
    ensures
        up(up(n, a), b) == up(n, a + b),
    decreases a,
{
    if a > 0 {
        up_adds(2 * n, (a - 1) as nat, b);
    }
}

/// Doubled numbers multiply like the numbers.
proof fn up_multiplies(x: int, a: nat, y: int, b: nat)
    ensures
        up(x, a) * up(y, b) == up(x * y, a + b),
{
    up_is_product(x, a);
    up_is_product(y, b);
    up_is_product(x * y, a + b);
    up_is_product(up(1, a), b);
    up_adds(1, a, b);
    let p = up(1, a);
    let q = up(1, b);
    assert((x * p) * (y * q) == (x * y) * (p * q)) by (nonlinear_arith);
}

/// Doubling keeps the order.
proof fn up_keeps_order(x: int, y: int, s: nat)
    requires
        x <= y,
    ensures
        up(x, s) <= up(y, s),
    decreases s,
{
    if s > 0 {
        up_keeps_order(2 * x, 2 * y, (s - 1) as nat);
    }
}

/// Numbers are no smaller for being doubled.
proof fn up_grows(n: int, s: nat)
    requires
        n >= 0,
    ensures
        n <= up(n, s),
    decreases s,
{
    if s > 0 {
        up_grows(2 * n, (s - 1) as nat);
    }
}

/// A fraction rounds alike in lowest terms and not.
proof fn nearest_scales(n: int, d: int)
    requires
        d > 0,
        n >= 0,
    ensures
        nearest(2 * n, 2 * d) == nearest(n, d),
{
    let q = n / d;
    let r = n % d;
    assert(n == q * d + r && 0 <= r < d) by (nonlinear_arith)
        requires
            q == n / d,
            r == n % d,
            d > 0,
    ;
    assert(q * (2 * d) == 2 * (q * d)) by (nonlinear_arith);
    vstd::arithmetic::div_mod::lemma_fundamental_div_mod_converse(2 * n, 2 * d, q, 2 * r);
}

proof fn nearest_scales_by(n: int, d: int, s: nat)
    requires
        d > 0,
        n >= 0,
    ensures
        nearest(up(n, s), up(d, s)) == nearest(n, d),
    decreases s,
{
    if s > 0 {
        nearest_scales(n, d);
        nearest_scales_by(2 * n, 2 * d, (s - 1) as nat);
    }
}

/// A fraction is rounded alike in lowest terms and not.
proof fn fit_scales(n: int, d: int, e: nat)
    requires
        d > 0,
        n >= 0,
    ensures
        fit(2 * n, 2 * d, e) == fit(n, d, e),
    decreases n - d,
{
    reveal_with_fuel(fit, 2);
    if n < d * 0x100_0000 {
        nearest_scales(n, d);
    } else {
        fit_scales(n, 2 * d, e + 1);
    }
}

proof fn fit_scales_by(n: int, d: int, s: nat, e: nat)
    requires
        d > 0,
        n >= 0,
    ensures
        fit(up(n, s), up(d, s), e) == fit(n, d, e),
    decreases s,
{
    if s > 0 {
        fit_scales(n, d, e);
        fit_scales_by(2 * n, 2 * d, (s - 1) as nat, e);
    }
}

/// What has more than 24 digits loses some.
proof fn fit_drops(n: int, d: int, s: nat, e: nat)
    requires
        d > 0,
        n >= up(d, s) * 0x80_0000,
    ensures
        fit(n, d, e) == fit(n, up(d, s), e + s),
    decreases s,
{
    if s > 0 {
        reveal_with_fuel(fit, 2);
        up_grows(2 * d, (s - 1) as nat);
        fit_drops(n, 2 * d, (s - 1) as nat, e + 1);
    }
}

/// What fills 24 digits fills them doubled.
proof fn fit_shifts(n: int, d: int, s: nat, e: nat)
    requires
        d > 0,
        n >= d * 0x80_0000,
    ensures
        fit(up(n, s), d, e) == fit(n, d, e + s),
{
    up_keeps_order(d * 0x80_0000, n, s);
    up_is_product(d * 0x80_0000, s);
    up_is_product(d, s);
    let p = up(1, s);
    assert((d * 0x80_0000) * p == (d * p) * 0x80_0000) by (nonlinear_arith);
    fit_drops(up(n, s), d, s, e);
    fit_scales_by(n, d, s, e + s);
}

/// A quotient below 2^24 rounds to no more than that.
proof fn nearest_is_small(n: int, d: int)
    requires
        d > 0,
        0 <= n < d * 0x100_0000,
    ensures
        0 <= nearest(n, d) <= 0x100_0000,
{
    let q = n / d;
    assert(0 <= q < 0x100_0000) by (nonlinear_arith)
        requires
            q == n / d,
            d > 0,
            0 <= n < d * 0x100_0000,
    ;
}

fn settle(n: u128, d: u128, e: u128) -> (r: Single)
    requires
        0 < d <= 0x1_0000_0000_0000_0000_0000_0000,
        n <= 0x4000_0000_0000_0000_0000_0000_0000_0000,
        e <= 0x1000,
    ensures
        r == fit(n as int, d as int, e as nat),
{
    let mut by: u128 = d;
    let mut scale: u128 = e;
    while n / 0x100_0000 >= by
        invariant
            0 < by,
            by <= 0x1_0000_0000_0000_0000_0000_0000_0000,
            n <= 0x4000_0000_0000_0000_0000_0000_0000_0000,
            scale <= 0x1000 + by,
            fit(n as int, by as int, scale as nat) == fit(n as int, d as int, e as nat),
        decreases n - by,
    {
        reveal_with_fuel(fit, 2);
        by = 2 * by;
        scale += 1;
    }
    proof {
        reveal_with_fuel(fit, 2);
        nearest_is_small(n as int, by as int);
    }
    let q: u128 = round_to_even(n, by);
    if scale >= 254 {
        Single { bits: 0x7F80_0000 }
    } else {
        Single { bits: (scale * 0x80_0000 + q) as u32 }
    }
}

fn fit_up(n: u128, d: u128, s: u128) -> (r: Single)
    requires
        0 < d <= 0xFFFF_FFFF_FFFF_FFFF,
        n <= 0x1_0000_0000_0000_0000_0000_0000_0000,
        s <= 0x1000,
    ensures
        r == fit(up(n as int, s as nat), d as int, 0),
{
    let mut n: u128 = n;
    let mut left: u128 = s;
    let ghost want = up(n as int, s as nat);
    while left > 0 && n < d * 0x80_0000
        invariant
            0 < d <= 0xFFFF_FFFF_FFFF_FFFF,
            n <= 0x1_0000_0000_0000_0000_0000_0000_0000,
            left <= 0x1000,
            up(n as int, left as nat) == want,
        decreases left,
    {
        n = 2 * n;
        left -= 1;
    }
    proof {
        if left > 0 {
            fit_shifts(n as int, d as int, left as nat, 0);
        }
    }
    settle(n, d, left)
}

/// `n` over `d` doubled `s` times, rounded.
fn fit_down(n: u128, d: u128, s: u128) -> (r: Single)
    requires
        0 < d <= 0xFFFF_FFFF,
        n <= 0xFFFF_FFFF_FFFF_FFFF,
    ensures
        r == fit(n as int, up(d as int, s as nat), 0),
{
    let mut by: u128 = d;
    let mut left: u128 = s;
    while left > 0 && by <= 2 * n
        invariant
            0 < by <= 0x4_0000_0000_0000_0000,
            n <= 0xFFFF_FFFF_FFFF_FFFF,
            up(by as int, left as nat) == up(d as int, s as nat),
        decreases left,
    {
        by = 2 * by;
        left -= 1;
    }
    if left > 0 {
        proof {
            reveal_with_fuel(fit, 2);
            up_grows(by as int, left as nat);
            nearest_to_nothing(n as int, up(by as int, left as nat));
        }
        return Single { bits: 0 };
    }
    settle(n, by, 0)
}

/// Less than a half rounds to nothing.
proof fn nearest_to_nothing(n: int, d: int)
    requires
        0 <= 2 * n < d,
    ensures
        nearest(n, d) == 0,
{
    vstd::arithmetic::div_mod::lemma_fundamental_div_mod_converse(n, d, 0, n);
}

impl Single {
    fn parts(self) -> (r: (u128, u128))
        ensures
            r.0 == self.digits(),
            r.1 == self.scale(),
            r.0 < 0x100_0000,
            r.1 <= 511,
            r.1 > 0 ==> r.0 >= 0x80_0000,
    {
        if self.bits < 0x100_0000 {
            (self.bits as u128, 0)
        } else {
            (0x80_0000 + (self.bits % 0x80_0000) as u128, (self.bits / 0x80_0000 - 1) as u128)
        }
    }

    /// `n / d`, rounded.
    pub fn ratio(n: u64, d: u64) -> (r: Single)
        requires
            d > 0,
        ensures
            r == ratio(n as int, d as int),
    {
        fit_up(n as u128, d as u128, 149)
    }

    /// An integer, rounded.
    pub fn of(n: u64) -> (r: Single)
        ensures
            r == float(n as int),
    {
        Single::ratio(n, 1)
    }

    /// A product, rounded.
    pub fn times(self, b: Single) -> (r: Single)
        ensures
            r == times(self, b),
    {
        let (x, i): (u128, u128) = self.parts();
        let (y, j): (u128, u128) = b.parts();
        proof {
            up_multiplies(x as int, i as nat, y as int, j as nat);
            assert(0 <= x * y <= 0x100_0000 * 0x100_0000) by (nonlinear_arith)
                requires
                    0 <= x < 0x100_0000,
                    0 <= y < 0x100_0000,
            ;
        }
        let n: u128 = x * y;
        let t: u128 = i + j;
        if t >= 149 {
            proof {
                up_adds(n as int, (t - 149) as nat, 149);
                up_keeps_order(0, n as int, (t - 149) as nat);
                up_is_product(0, (t - 149) as nat);
                fit_scales_by(up(n as int, (t - 149) as nat), 1, 149, 0);
            }
            fit_up(n, 1, t - 149)
        } else {
            proof {
                up_adds(1, (149 - t) as nat, t as nat);
                up_grows(1, (149 - t) as nat);
                fit_scales_by(n as int, up(1, (149 - t) as nat), t as nat, 0);
            }
            fit_down(n, 1, 149 - t)
        }
    }

    /// A quotient, rounded.
    pub fn over(self, b: Single) -> (r: Single)
        requires
            b.bits > 0,
        ensures
            r == over(self, b),
    {
        let (x, i): (u128, u128) = self.parts();
        let (y, j): (u128, u128) = b.parts();
        let t: u128 = i + 149;
        proof {
            up_adds(x as int, i as nat, 149);
        }
        if t >= j {
            proof {
                up_adds(x as int, (t - j) as nat, j as nat);
                up_keeps_order(0, x as int, (t - j) as nat);
                up_is_product(0, (t - j) as nat);
                fit_scales_by(up(x as int, (t - j) as nat), y as int, j as nat, 0);
            }
            fit_up(x, y, t - j)
        } else {
            proof {
                up_adds(y as int, (j - t) as nat, t as nat);
                up_grows(y as int, (j - t) as nat);
                fit_scales_by(x as int, up(y as int, (j - t) as nat), t as nat, 0);
            }
            fit_down(x, y, j - t)
        }
    }

    /// A sum, rounded.
    pub fn plus(self, b: Single) -> (r: Single)
        ensures
            r == plus(self, b),
    {
        if self.bits < b.bits {
            return b.and_smaller(self);
        }
        self.and_smaller(b)
    }

    fn and_smaller(self, b: Single) -> (r: Single)
        requires
            self.bits >= b.bits,
        ensures
            r == plus(self, b),
    {
        let (x, i): (u128, u128) = self.parts();
        let (y, j): (u128, u128) = b.parts();
        let gap: u128 = i - j;
        if gap > 64 {
            proof {
                far_sum(self, b);
            }
            return if i >= 254 {
                Single { bits: 0x7F80_0000 }
            } else {
                self
            };
        }
        proof {
            up_below(gap as nat);
            up_keeps_order(x as int, 0x100_0000, gap as nat);
        }
        let n: u128 = doubled(x, gap);
        proof {
            up_adds(x as int, gap as nat, j as nat);
            up_is_product(n as int, j as nat);
            up_is_product(y as int, j as nat);
            up_is_product(n + y, j as nat);
            let p = up(1, j as nat);
            assert((n + y) * p == n * p + y * p) by (nonlinear_arith);
        }
        fit_up(n + y, 1, j)
    }

    /// A difference, rounded; zero where it would be negative.
    pub fn minus(self, b: Single) -> (r: Single)
        ensures
            r == minus(self, b),
    {
        if self.bits < b.bits {
            return Single { bits: 0 };
        }
        let (x, i): (u128, u128) = self.parts();
        let (y, j): (u128, u128) = b.parts();
        let gap: u128 = i - j;
        if gap > 64 {
            proof {
                far_difference(self, b);
            }
            return if i >= 255 || (i == 254 && x > 0x80_0000) {
                Single { bits: 0x7F80_0000 }
            } else {
                self
            };
        }
        proof {
            up_below(gap as nat);
            up_keeps_order(x as int, 0x100_0000, gap as nat);
        }
        let n: u128 = doubled(x, gap);
        proof {
            up_adds(x as int, gap as nat, j as nat);
            up_is_product(n as int, j as nat);
            up_is_product(y as int, j as nat);
            up_is_product(n - y, j as nat);
            if gap > 0 {
                up_grows(2 * x, (gap - 1) as nat);
            }
            let p = up(1, j as nat);
            assert((n - y) * p == n * p - y * p) by (nonlinear_arith);
        }
        fit_up((n - y) as u128, 1, j)
    }

    /// Nanoseconds as seconds.
    pub fn seconds(ns: u64) -> (r: Single)
        ensures
            r == seconds(ns as int),
    {
        proof {
            ratio_is_positive(1_000_000_000, 1);
        }
        let rest: Single = Single::of(ns % 1_000_000_000).over(Single::of(1_000_000_000));
        Single::of(ns / 1_000_000_000).plus(rest)
    }

    /// True of a number that is not below an integer.
    pub fn at_least(self, n: u64) -> (r: bool)
        ensures
            r == self.reaches(n as int),
    {
        self.bits >= Single::of(n).bits
    }

    /// The smaller of two numbers.
    pub fn least(self, b: Single) -> (r: Single)
        ensures
            r == least(self, b),
    {
        if b.bits < self.bits {
            b
        } else {
            self
        }
    }

    /// The larger of two numbers.
    pub fn most(self, b: Single) -> (r: Single)
        ensures
            r == most(self, b),
    {
        if b.bits > self.bits {
            b
        } else {
            self
        }
    }
}

fn doubled(n: u128, s: u128) -> (r: u128)
    requires
        up(n as int, s as nat) <= u128::MAX,
    ensures
        r == up(n as int, s as nat),
{
    let mut r: u128 = n;
    let mut left: u128 = s;
    while left > 0
        invariant
            up(r as int, left as nat) == up(n as int, s as nat),
            up(n as int, s as nat) <= u128::MAX,
        decreases left,
    {
        proof {
            up_grows(2 * r, (left - 1) as nat);
        }
        r = 2 * r;
        left -= 1;
    }
    r
}

fn nearest_down(n: u128, s: u128) -> (r: u128)
    requires
        n <= 0xFFFF_FFFF,
    ensures
        r == nearest(n as int, up(1, s as nat)),
{
    let mut by: u128 = 1;
    let mut left: u128 = s;
    while left > 0 && by <= 2 * n
        invariant
            0 < by <= 0x4_0000_0000,
            n <= 0xFFFF_FFFF,
            up(by as int, left as nat) == up(1, s as nat),
        decreases left,
    {
        by = 2 * by;
        left -= 1;
    }
    if left > 0 {
        proof {
            up_grows(by as int, left as nat);
            nearest_to_nothing(n as int, up(by as int, left as nat));
        }
        return 0;
    }
    round_to_even(n, by)
}

/// A number that is no fraction is its own nearest integer.
proof fn nearest_to_whole(n: int)
    requires
        n >= 0,
    ensures
        nearest(up(n, 149), up(1, 149)) == n,
{
    nearest_scales_by(n, 1, 149);
}

impl Single {
    /// A finite number to the nearest integer.
    pub fn integer(self) -> (r: u128)
        requires
            self.bits < 0x7F80_0000,
        ensures
            r == integer(self),
    {
        let (x, i): (u128, u128) = self.parts();
        if i >= 149 {
            let s: u128 = i - 149;
            proof {
                up_adds(x as int, s as nat, 149);
                up_in_range(x as int, s as nat);
                nearest_to_whole(up(x as int, s as nat));
            }
            doubled(x, s)
        } else {
            proof {
                up_adds(1, (149 - i) as nat, i as nat);
                up_grows(1, (149 - i) as nat);
                nearest_scales_by(x as int, up(1, (149 - i) as nat), i as nat);
            }
            nearest_down(x, 149 - i)
        }
    }

    /// A finite number to the nearest tenth: the integer, and the digit behind it.
    pub fn tenths(self) -> (r: (u128, u128))
        requires
            self.bits < 0x7F80_0000,
        ensures
            r.0 == tenths(self) / 10,
            r.1 == tenths(self) % 10,
    {
        let (x, i): (u128, u128) = self.parts();
        proof {
            up_is_product(x as int, i as nat);
            up_is_product(10 * x, i as nat);
            let p = up(1, i as nat);
            assert((10 * x) * p == 10 * (x * p)) by (nonlinear_arith);
        }
        if i >= 149 {
            let s: u128 = i - 149;
            proof {
                up_adds(10 * x, s as nat, 149);
                up_in_range(x as int, s as nat);
                up_is_product(x as int, s as nat);
                up_is_product(10 * x, s as nat);
                let p = up(1, s as nat);
                assert((10 * x) * p == 10 * (x * p)) by (nonlinear_arith);
                nearest_to_whole(up(10 * x, s as nat));
            }
            (doubled(x, s), 0)
        } else {
            proof {
                up_adds(1, (149 - i) as nat, i as nat);
                up_grows(1, (149 - i) as nat);
                nearest_scales_by(10 * x, up(1, (149 - i) as nat), i as nat);
            }
            let t: u128 = nearest_down(10 * x, 149 - i);
            (t / 10, t % 10)
        }
    }
}

/// Finite numbers are within 128 bits.
proof fn up_in_range(n: int, s: nat)
    requires
        0 <= n < 0x100_0000,
        s <= 104,
    ensures
        0 <= up(n, s) <= u128::MAX,
{
    up_to_64();
    up_adds(1, 64, 40);
    up_is_product(0x1_0000_0000_0000_0000, 40);
    assert(up(1, 40) == 0x100_0000_0000) by {
        reveal_with_fuel(up, 21);
        assert(up(1, 20) == 0x10_0000);
        up_adds(1, 20, 20);
        up_is_product(0x10_0000, 20);
    }
    assert(up(1, 104) == 0x100_0000_0000_0000_0000_0000_0000);
    up_is_product(n, 104);
    assert(n * up(1, 104) == n * 0x100_0000_0000_0000_0000_0000_0000);
    up_keeps_order(0, n, s);
    up_is_product(0, s);
    up_adds(n, s, (104 - s) as nat);
    up_grows(up(n, s), (104 - s) as nat);
}

proof fn up_below(s: nat)
    requires
        s <= 64,
    ensures
        up(0x100_0000, s) <= 0x1_0000_0000_0000_0000_0000_0000,
{
    up_to_64();
    up_is_product(0x100_0000, 64);
    up_adds(0x100_0000, s, (64 - s) as nat);
    up_keeps_order(0, 0x100_0000, s);
    up_is_product(0, s);
    up_grows(up(0x100_0000, s), (64 - s) as nat);
}

proof fn up_to_64()
    ensures
        up(1, 64) == 0x1_0000_0000_0000_0000,
{
    reveal_with_fuel(up, 17);
    assert(up(1, 16) == 0x1_0000);
    up_adds(1, 16, 16);
    up_is_product(0x1_0000, 16);
    up_adds(1, 32, 32);
    up_is_product(0x1_0000_0000, 32);
}

/// Digits that are doubled 65 times less often come to less than a quarter of one.
proof fn far_below(y: int, j: nat, i: nat)
    requires
        0 <= y < 0x100_0000,
        j + 64 < i,
    ensures
        0 <= 4 * up(y, j) < up(1, i),
{
    up_keeps_order(0, y, j);
    up_is_product(0, j);
    up_keeps_order(y, 0x100_0000, j);
    assert(up(1, 24) == 0x100_0000) by {
        reveal_with_fuel(up, 25);
    }
    up_adds(1, 24, j);
    up_adds(1, j + 24, (i - j - 24) as nat);
    let p = up(1, j + 24);
    up_is_product(1, j + 24);
    assert(up(p, (i - j - 24) as nat) >= 8 * p) by {
        up_adds(p, 3, (i - j - 27) as nat);
        assert(up(p, 3) == 8 * p) by {
            reveal_with_fuel(up, 4);
        }
        up_grows(8 * p, (i - j - 27) as nat);
    }
}

/// A sum with a number that is far smaller is the larger one.
proof fn far_sum(a: Single, b: Single)
    requires
        b.scale() + 64 < a.scale(),
    ensures
        plus(a, b) == packed(a.digits(), a.scale()),
{
    let i = a.scale();
    let x = a.digits();
    let p = up(1, i);
    let r = b.val();
    far_below(b.digits(), b.scale(), i);
    up_is_product(x, i);
    let n = a.val() + r;
    assert(x * p >= 0x80_0000 * p && x * p <= 0xFF_FFFF * p) by (nonlinear_arith)
        requires
            0x80_0000 <= x <= 0xFF_FFFF,
            p >= 1,
    ;
    fit_drops(n, 1, i, 0);
    reveal_with_fuel(fit, 2);
    vstd::arithmetic::div_mod::lemma_fundamental_div_mod_converse(n, p, x, r);
}

/// A difference from a number that is far smaller is the larger one.
proof fn far_difference(a: Single, b: Single)
    requires
        b.scale() + 64 < a.scale(),
        a.bits >= b.bits,
    ensures
        minus(a, b) == if a.digits() == 0x80_0000 && a.scale() == 254 {
            a
        } else {
            packed(a.digits(), a.scale())
        },
{
    let i = a.scale();
    let x = a.digits();
    let p = up(1, i);
    let r = b.val();
    far_below(b.digits(), b.scale(), i);
    up_is_product(x, i);
    let n = a.val() - r;
    reveal_with_fuel(fit, 2);
    if x > 0x80_0000 || r == 0 {
        assert(x * p >= 0x80_0000 * p && x * p <= 0xFF_FFFF * p) by (nonlinear_arith)
            requires
                0x80_0000 <= x <= 0xFF_FFFF,
                p >= 1,
        ;
        if x > 0x80_0000 {
            assert(x * p >= 0x80_0001 * p) by (nonlinear_arith)
                requires
                    0x80_0001 <= x,
                    p >= 1,
            ;
        }
        fit_drops(n, 1, i, 0);
        if r == 0 {
            vstd::arithmetic::div_mod::lemma_fundamental_div_mod_converse(n, p, x, 0);
        } else {
            assert((x - 1) * p == x * p - p) by (nonlinear_arith);
            vstd::arithmetic::div_mod::lemma_fundamental_div_mod_converse(n, p, x - 1, p - r);
        }
        assert(fit(n, 1, 0) == packed(x, i));
    } else {
        let k = (i - 1) as nat;
        let q = up(1, k);
        up_is_product(2, k);
        assert(p == 2 * q);
        fit_drops(n, 1, k, 0);
        vstd::arithmetic::div_mod::lemma_fundamental_div_mod_converse(n, q, 0xFF_FFFF, q - r);
        assert(fit(n, 1, 0) == packed(0x100_0000, k));
    }
}

proof fn fit_is_positive(n: int, d: int, e: nat)
    requires
        0 < d <= n,
    ensures
        fit(n, d, e).bits > 0,
    decreases n - d,
{
    reveal_with_fuel(fit, 2);
    if n < d * 0x100_0000 {
        let q = n / d;
        assert(q >= 1) by (nonlinear_arith)
            requires
                q == n / d,
                0 < d <= n,
        ;
        nearest_is_small(n, d);
    } else if 2 * d <= n {
        fit_is_positive(n, 2 * d, e + 1);
    }
}

/// A positive fraction does not round to nothing.
pub proof fn ratio_is_positive(n: int, d: int)
    requires
        1 <= n,
        1 <= d <= 0xFFFF_FFFF_FFFF_FFFF,
    ensures
        ratio(n, d).bits > 0,
{
    up_keeps_order(1, n, 149);
    up_adds(1, 64, 85);
    up_to_64();
    up_grows(up(1, 64), 85);
    fit_is_positive(up(n, 149), d, 0);
}

/// A larger fraction rounds to no less.
proof fn nearest_keeps_order(a: int, c: int, b: int, d: int)
    requires
        c > 0,
        d > 0,
        0 <= a,
        0 <= b,
        a * d <= b * c,
    ensures
        nearest(a, c) <= nearest(b, d),
{
    let p = a / c;
    let q = b / d;
    let x = a % c;
    let y = b % d;
    assert(a == p * c + x && 0 <= x < c && b == q * d + y && 0 <= y < d) by (nonlinear_arith)
        requires
            p == a / c,
            q == b / d,
            x == a % c,
            y == b % d,
            c > 0,
            d > 0,
    ;
    let cd = c * d;
    assert(a * d == p * cd + x * d && b * c == q * cd + y * c) by (nonlinear_arith)
        requires
            a == p * c + x,
            b == q * d + y,
            cd == c * d,
    ;
    assert(0 <= x * d && 0 <= y * c < cd) by (nonlinear_arith)
        requires
            0 <= x,
            0 <= y < d,
            c > 0,
            d > 0,
            cd == c * d,
    ;
    assert(p <= q) by (nonlinear_arith)
        requires
            p * cd <= q * cd + cd - 1,
            cd > 0,
    ;
    if p == q {
        assert(x * d <= y * c);
        // A remainder that is at least half a unit is so of both.
        assert(2 * x > c ==> 2 * y > d) by (nonlinear_arith)
            requires
                x * d <= y * c,
                c > 0,
                d > 0,
        ;
        assert(2 * x == c ==> 2 * y >= d) by (nonlinear_arith)
            requires
                x * d <= y * c,
                c > 0,
                d > 0,
        ;
    }
}

/// What fills 24 digits keeps them.
proof fn fit_fills(n: int, d: int, e: nat)
    requires
        d > 0,
        n >= d * 0x80_0000,
    ensures
        fit(n, d, e).bits >= packed(0x80_0000, e).bits,
    decreases n - d,
{
    reveal_with_fuel(fit, 2);
    if n < d * 0x100_0000 {
        assert((d * 0x80_0000) * d <= n * d) by (nonlinear_arith)
            requires
                n >= d * 0x80_0000,
                d > 0,
        ;
        nearest_keeps_order(d * 0x80_0000, d, n, d);
        vstd::arithmetic::div_mod::lemma_fundamental_div_mod_converse(
            d * 0x80_0000,
            d,
            0x80_0000,
            0,
        );
        nearest_is_small(n, d);
    } else {
        fit_fills(n, 2 * d, e + 1);
    }
}

/// Larger fractions round to no less.
proof fn fractions_keep_order(a: int, c: int, b: int, d: int, e: nat)
    requires
        c > 0,
        d > 0,
        0 <= a,
        0 <= b,
        a * d <= b * c,
    ensures
        fit(a, c, e).bits <= fit(b, d, e).bits,
    decreases b - d,
{
    reveal_with_fuel(fit, 2);
    if b < d * 0x100_0000 {
        assert(a < c * 0x100_0000) by (nonlinear_arith)
            requires
                a * d <= b * c,
                b < d * 0x100_0000,
                c > 0,
                d > 0,
        ;
        nearest_keeps_order(a, c, b, d);
        nearest_is_small(a, c);
        nearest_is_small(b, d);
    } else if a < c * 0x100_0000 {
        nearest_is_small(a, c);
        fit_fills(b, 2 * d, e + 1);
    } else {
        assert(a * (2 * d) == 2 * (a * d) && b * (2 * c) == 2 * (b * c)) by (nonlinear_arith);
        fractions_keep_order(a, 2 * c, b, 2 * d, e + 1);
    }
}

/// Larger numbers round to no less.
proof fn fit_keeps_order(a: int, b: int, d: int, e: nat)
    requires
        d > 0,
        0 <= a <= b,
    ensures
        fit(a, d, e).bits <= fit(b, d, e).bits,
{
    assert(a * d <= b * d) by (nonlinear_arith)
        requires
            a <= b,
            d > 0,
    ;
    fractions_keep_order(a, d, b, d, e);
}

/// What is rounded is a number, or infinite.
proof fn fit_is_number(n: int, d: int, e: nat)
    requires
        d > 0,
        n >= 0,
    ensures
        fit(n, d, e).bits <= 0x7F80_0000,
    decreases n - d,
{
    reveal_with_fuel(fit, 2);
    if n < d * 0x100_0000 {
        nearest_is_small(n, d);
    } else {
        fit_is_number(n, 2 * d, e + 1);
    }
}

/// A fraction rounds to a number, or to infinity.
pub proof fn ratio_is_number(n: int, d: int)
    requires
        n >= 0,
        d > 0,
    ensures
        ratio(n, d).bits <= 0x7F80_0000,
{
    up_keeps_order(0, n, 149);
    up_is_product(0, 149);
    fit_is_number(up(n, 149), d, 0);
}

/// A number is not changed by rounding it.
pub proof fn numbers_stay(a: Single)
    requires
        a.bits <= 0x7F80_0000,
    ensures
        fit(a.val(), 1, 0) == a,
{
    let m = a.digits();
    fit_is_number(m, 1, a.scale());
    if a.scale() > 0 {
        fit_shifts(m, 1, a.scale(), 0);
    }
    reveal_with_fuel(fit, 2);
    vstd::arithmetic::div_mod::lemma_fundamental_div_mod_converse(m, 1, m, 0);
}

/// The order of the bits is the order of the numbers.
pub proof fn values_keep_order(a: Single, b: Single)
    requires
        a.bits <= b.bits,
    ensures
        0 <= a.val() <= b.val(),
{
    up_keeps_order(0, a.digits(), a.scale());
    up_is_product(0, a.scale());
    if a.scale() == b.scale() {
        up_keeps_order(a.digits(), b.digits(), a.scale());
    } else {
        let gap = (b.scale() - a.scale() - 1) as nat;
        up_keeps_order(a.digits(), 2 * b.digits(), a.scale());
        up_adds(b.digits(), a.scale() + 1, gap);
        up_adds(b.digits(), 1, a.scale());
        assert(up(b.digits(), 1) == 2 * b.digits()) by {
            reveal_with_fuel(up, 2);
        }
        up_keeps_order(0, b.digits(), a.scale() + 1);
        up_is_product(0, a.scale() + 1);
        up_grows(up(b.digits(), a.scale() + 1), gap);
    }
}

/// Larger parts add up to no less.
pub proof fn sums_keep_order(a: Single, b: Single, c: Single)
    requires
        a.bits <= b.bits,
    ensures
        plus(a, c).bits <= plus(b, c).bits,
{
    values_keep_order(a, b);
    values_keep_order(c, c);
    fit_keeps_order(a.val() + c.val(), b.val() + c.val(), 1, 0);
}

/// A sum is no less than its parts.
pub proof fn sums_grow(a: Single, c: Single)
    requires
        a.bits <= 0x7F80_0000,
    ensures
        a.bits <= plus(a, c).bits,
{
    numbers_stay(a);
    values_keep_order(a, a);
    values_keep_order(c, c);
    fit_keeps_order(a.val(), a.val() + c.val(), 1, 0);
}

/// The more is taken away, the less is left.
pub proof fn differences_keep_order(a: Single, b: Single, c: Single)
    requires
        b.bits <= c.bits,
    ensures
        minus(a, c).bits <= minus(a, b).bits,
{
    values_keep_order(b, c);
    if a.bits >= c.bits {
        values_keep_order(c, a);
        fit_keeps_order(a.val() - c.val(), a.val() - b.val(), 1, 0);
    }
}

/// Larger factors have no smaller product.
pub proof fn products_keep_order(a: Single, b: Single, c: Single)
    requires
        a.bits <= b.bits,
    ensures
        times(a, c).bits <= times(b, c).bits,
{
    values_keep_order(a, b);
    values_keep_order(c, c);
    let x = a.val();
    let y = b.val();
    let z = c.val();
    assert(0 <= x * z <= y * z) by (nonlinear_arith)
        requires
            0 <= x <= y,
            0 <= z,
    ;
    up_is_product(1, 149);
    fit_keeps_order(x * z, y * z, up(1, 149), 0);
}

/// A larger part has no smaller quotient.
pub proof fn quotients_keep_order(a: Single, b: Single, c: Single)
    requires
        a.bits <= b.bits,
        c.bits > 0,
    ensures
        over(a, c).bits <= over(b, c).bits,
{
    values_keep_order(a, b);
    up_keeps_order(a.val(), b.val(), 149);
    up_keeps_order(0, a.val(), 149);
    up_is_product(0, 149);
    up_is_product(c.digits(), c.scale());
    up_grows(c.digits(), c.scale());
    fit_keeps_order(up(a.val(), 149), up(b.val(), 149), c.val(), 0);
}

/// A larger fraction is no smaller a number, and equal fractions are the same one.
pub proof fn ratios_keep_order(a: int, c: int, b: int, d: int)
    requires
        c > 0,
        d > 0,
        0 <= a,
        0 <= b,
        a * d <= b * c,
    ensures
        ratio(a, c).bits <= ratio(b, d).bits,
        a * d == b * c ==> ratio(a, c) == ratio(b, d),
{
    up_is_product(a, 149);
    up_is_product(b, 149);
    let p = up(1, 149);
    let (x, y) = (a * p, b * p);
    assert(0 <= x && 0 <= y && x * d <= y * c && (a * d == b * c ==> y * c <= x * d))
        by (nonlinear_arith)
        requires
            x == a * p,
            y == b * p,
            p >= 1,
            0 <= a,
            0 <= b,
            a * d <= b * c,
    ;
    fractions_keep_order(x, c, y, d, 0);
    if a * d == b * c {
        fractions_keep_order(y, d, x, c, 0);
    }
}

/// A fraction by its digits: those that come out where `n / d`, doubled `j` times,
/// fills 24 of them.
pub proof fn ratio_is(n: int, d: int, j: nat)
    requires
        d > 0,
        j <= 149,
        d * 0x80_0000 <= up(n, j) < d * 0x100_0000,
    ensures
        ratio(n, d) == packed(nearest(up(n, j), d), (149 - j) as nat),
{
    up_adds(n, j, (149 - j) as nat);
    fit_shifts(up(n, j), d, (149 - j) as nat, 0);
    reveal_with_fuel(fit, 2);
}

/// Up to 24 digits, doubled, are a number as they are.
proof fn digits_are_exact(m: int, s: nat)
    requires
        0 <= m < 0x100_0000,
        s < 254,
    ensures
        fit(up(m, s), 1, 0).val() == up(m, s),
    decreases s,
{
    if m < 0x80_0000 && s > 0 {
        digits_are_exact(2 * m, (s - 1) as nat);
    } else {
        if s > 0 {
            fit_shifts(m, 1, s, 0);
        }
        reveal_with_fuel(fit, 2);
        vstd::arithmetic::div_mod::lemma_fundamental_div_mod_converse(m, 1, m, 0);
        let r = packed(m, s);
        assert(r.digits() == m && r.scale() == s);
    }
}

/// Integers of up to 24 digits are numbers as they are.
pub proof fn integers_are_exact(n: int)
    requires
        0 <= n <= 0x100_0000,
    ensures
        float(n).val() == up(n, 149),
{
    if n == 0x100_0000 {
        assert(up(0x80_0000, 150) == up(n, 149));
        digits_are_exact(0x80_0000, 150);
    } else {
        digits_are_exact(n, 149);
    }
}

/// Integers compare as numbers do.
pub proof fn integers_compare(a: int, b: int)
    requires
        0 <= a <= 0x100_0000,
        0 <= b <= 0x100_0000,
    ensures
        float(a).bits <= float(b).bits <==> a <= b,
{
    integers_are_exact(a);
    integers_are_exact(b);
    up_is_product(a, 149);
    up_is_product(b, 149);
    let p = up(1, 149);
    if a <= b {
        ratios_keep_order(a, 1, b, 1);
    } else if float(a).bits <= float(b).bits {
        values_keep_order(float(a), float(b));
        assert(a * p > b * p) by (nonlinear_arith)
            requires
                a > b,
                p >= 1,
        ;
    }
}

/// A number is not below an integer where its value is not.
pub proof fn reaching_is_not_below(a: Single, n: int)
    requires
        0 <= n <= 0x100_0000,
        a.bits <= 0x7F80_0000,
    ensures
        a.reaches(n) <==> a.val() >= up(n, 149),
{
    integers_are_exact(n);
    ratio_is_number(n, 1);
    if a.reaches(n) {
        values_keep_order(float(n), a);
    } else {
        values_keep_order(a, float(n));
        numbers_stay(a);
        numbers_stay(float(n));
    }
}

/// Integers of up to 24 digits add, subtract, multiply and divide like integers, and
/// what comes out is rounded.
pub proof fn integers_compute(a: int, b: int)
    requires
        0 <= a <= 0x100_0000,
        0 <= b <= 0x100_0000,
    ensures
        plus(float(a), float(b)) == float(a + b),
        minus(float(a), float(b)) == if a >= b {
            float(a - b)
        } else {
            zero()
        },
        times(float(a), float(b)) == float(a * b),
        b > 0 ==> over(float(a), float(b)) == ratio(a, b),
{
    integers_are_exact(a);
    integers_are_exact(b);
    integers_compare(a, b);
    integers_compare(b, a);
    up_is_product(a, 149);
    up_is_product(b, 149);
    up_is_product(a + b, 149);
    up_is_product(a - b, 149);
    let p = up(1, 149);
    assert((a + b) * p == a * p + b * p && (a - b) * p == a * p - b * p) by (nonlinear_arith);
    assert(a * b >= 0) by (nonlinear_arith)
        requires
            a >= 0,
            b >= 0,
    ;
    up_multiplies(a, 149, b, 149);
    up_adds(a * b, 149, 149);
    up_keeps_order(0, a * b, 149);
    up_keeps_order(0, a, 149);
    up_is_product(0, 149);
    fit_scales_by(up(a * b, 149), 1, 149, 0);
    if b > 0 {
        fit_scales_by(up(a, 149), b, 149, 0);
    }
}

/// One thousand million nanoseconds are one second.
pub proof fn a_second_is_one()
    ensures
        seconds(1_000_000_000) == float(1),
{
    integers_are_exact(0);
    integers_are_exact(1);
    ratio_is_positive(1_000_000_000, 1);
    ratio_is_number(1, 1);
    let d = float(1_000_000_000);
    up_grows(d.digits(), d.scale());
    up_is_product(0, 149);
    assert(over(float(0), d) == zero()) by {
        reveal_with_fuel(fit, 2);
        vstd::arithmetic::div_mod::lemma_fundamental_div_mod_converse(0, d.val(), 0, 0);
    }
    assert(zero().val() == 0);
    numbers_stay(float(1));
}

/// No number is smaller than nothing.
pub proof fn nothing_is_zero()
    ensures
        float(0) == zero(),
{
    up_is_product(0, 149);
    reveal_with_fuel(fit, 2);
    vstd::arithmetic::div_mod::lemma_fundamental_div_mod_converse(0, 1, 0, 0);
}

/// Integers of up to 24 digits are their own nearest integers, and finite.
pub proof fn integers_are_whole(n: int)
    requires
        0 <= n <= 0x100_0000,
    ensures
        integer(float(n)) == n,
        float(n).bits < 0x7F80_0000,
{
    integers_are_exact(n);
    nearest_to_whole(n);
    integers_are_finite(n);
}

proof fn integers_are_finite(n: int)
    requires
        0 <= n <= 0x100_0000,
    ensures
        float(n).bits < 0x7F80_0000,
{
    let top = 0x100_0000int;
    ratios_keep_order(n, 1, top, 1);
    let one = 0x80_0000int;
    assert(up(one, 1) == top) by {
        reveal_with_fuel(up, 2);
    }
    up_adds(one, 1, 149);
    fit_shifts(one, 1, 150, 0);
    reveal_with_fuel(fit, 2);
    vstd::arithmetic::div_mod::lemma_fundamental_div_mod_converse(one, 1, one, 0);
    assert(float(top) == packed(one, 150));
}

} // verus!
