//! Figures as the window prints them: rounded, and set to a width.

use crate::float::{
    float, integer, integers_are_whole, integers_compare, integers_compute, over, ratio,
    ratio_is_positive, times, Single,
};
use crate::text::{chars, decimal, decimal_chars, push_chars, text};
use vstd::prelude::*;
use vstd::string::*;

verus! {

/// A number as a whole one, to the nearest, on a tie to the even one.
pub open spec fn whole_of(v: Single) -> Seq<char> {
    if v.bits >= 0x7F80_0000 {
        "inf"@
    } else {
        decimal(integer(v) as nat)
    }
}

/// A number as a whole one.
pub fn whole(v: Single) -> (r: String)
    ensures
        r@ == whole_of(v),
{
    if v.bits >= 0x7F80_0000 {
        return "inf".to_owned();
    }
    let a: Vec<char> = decimal_chars(v.integer());
    let mut s: String = String::new();
    push_chars(&mut s, a.as_slice());
    assert(s@ =~= whole_of(v));
    s
}

/// A number with one digit behind the point, to the nearest, on a tie to the even
/// one.
pub open spec fn tenths_of(v: Single) -> Seq<char> {
    if v.bits >= 0x7F80_0000 {
        "inf"@
    } else {
        let t = crate::float::tenths(v);
        decimal((t / 10) as nat) + "."@ + decimal((t % 10) as nat)
    }
}

/// A number with one digit behind the point.
pub fn tenths(v: Single) -> (r: String)
    ensures
        r@ == tenths_of(v),
{
    if v.bits >= 0x7F80_0000 {
        return "inf".to_owned();
    }
    let (n, t): (u128, u128) = v.tenths();
    let a: Vec<char> = decimal_chars(n);
    let b: Vec<char> = decimal_chars(t);
    let mut s: String = String::new();
    push_chars(&mut s, a.as_slice());
    s.append(".");
    push_chars(&mut s, b.as_slice());
    assert(s@ =~= tenths_of(v));
    s
}

/// A number over an integer.
pub open spec fn per(v: Single, n: int) -> Single {
    over(v, float(n))
}

/// A number over an integer.
pub fn divided(v: Single, n: u64) -> (r: Single)
    requires
        n > 0,
    ensures
        r == per(v, n as int),
{
    proof {
        ratio_is_positive(n as int, 1);
    }
    v.over(Single::of(n))
}

/// What a part comes to of a whole, in percent.
pub open spec fn percent_of(part: Single, whole: Single) -> Single {
    times(over(part, whole), float(100))
}

/// What a part comes to of a whole, in percent.
pub fn percent(part: Single, whole: Single) -> (r: Single)
    requires
        whole.bits > 0,
    ensures
        r == percent_of(part, whole),
{
    part.over(whole).times(Single::of(100))
}

/// A text with spaces in front up to a width.
pub open spec fn at_right(s: Seq<char>, width: int) -> Seq<char> {
    if s.len() >= width {
        s
    } else {
        Seq::new((width - s.len()) as nat, |i: int| ' ') + s
    }
}

/// A text with spaces in front up to a width.
pub fn right(t: &str, width: usize) -> (r: String)
    ensures
        r@ == at_right(t@, width as int),
{
    let c: Vec<char> = chars(t);
    let mut v: Vec<char> = Vec::new();
    if c.len() < width {
        let fill: usize = width - c.len();
        while v.len() < fill
            invariant
                v@.len() <= fill,
                v@ == Seq::new(v@.len(), |i: int| ' '),
            decreases fill - v@.len(),
        {
            let ghost before = v@;
            v.push(' ');
            assert(v@ =~= Seq::new(v@.len(), |i: int| ' ')) by {
                assert(before =~= Seq::new(before.len(), |i: int| ' '));
            }
        }
    }
    let mut s: String = text(v.as_slice());
    push_chars(&mut s, c.as_slice());
    assert(s@ =~= at_right(t@, width as int));
    s
}

/// A rate, given in kilobits a second.
pub open spec fn rate_of(kbps: Single) -> Seq<char> {
    if kbps.reaches(1000) {
        tenths_of(per(kbps, 1000)) + " Mbps"@
    } else {
        whole_of(kbps) + " kbps"@
    }
}

/// A rate, given in kilobits a second.
pub fn fmt_rate(kbps: Single) -> (r: String)
    ensures
        r@ == rate_of(kbps),
{
    if kbps.at_least(1000) {
        let mut s: String = tenths(divided(kbps, 1000));
        s.append(" Mbps");
        s
    } else {
        let mut s: String = whole(kbps);
        s.append(" kbps");
        s
    }
}

/// Memory in use out of what there is, given in megabytes.
pub open spec fn vram_of(used: Single, budget: Single) -> Seq<char> {
    if budget.reaches(1024) {
        tenths_of(per(used, 1024)) + "/"@ + whole_of(per(budget, 1024)) + "G"@
    } else {
        whole_of(used) + "/"@ + whole_of(budget) + " MB"@
    }
}

/// Memory in use out of what there is, given in megabytes.
pub fn fmt_vram(used: Single, budget: Single) -> (r: String)
    ensures
        r@ == vram_of(used, budget),
{
    if budget.at_least(1024) {
        let mut s: String = tenths(divided(used, 1024));
        s.append("/");
        let b: String = whole(divided(budget, 1024));
        s.append(b.as_str());
        s.append("G");
        s
    } else {
        let mut s: String = whole(used);
        s.append("/");
        let b: String = whole(budget);
        s.append(b.as_str());
        s.append(" MB");
        s
    }
}

/// Setting a text to a width keeps it, and never makes it shorter than that.
pub proof fn width_is_kept(s: Seq<char>, width: int)
    requires
        width >= 0,
    ensures
        at_right(s, width).len() >= width,
        at_right(s, width).skip(at_right(s, width).len() - s.len()) == s,
{
    assert(at_right(s, width).skip(at_right(s, width).len() - s.len()) =~= s);
}

/// Whole numbers are printed as they are, and rates in kilobits up to a thousand of them,
/// then in megabits.
pub proof fn whole_numbers_are_printed(n: int)
    requires
        0 <= n <= 0x100_0000,
    ensures
        whole_of(float(n)) == decimal(n as nat),
        n < 1000 ==> rate_of(float(n)) == decimal(n as nat) + " kbps"@,
        n >= 1000 ==> rate_of(float(n)) == tenths_of(ratio(n, 1000)) + " Mbps"@,
{
    integers_are_whole(n);
    integers_compare(1000, n);
    integers_compute(n, 1000);
}

} // verus!
