//! A sequence parameter set as an encoder writes it, and what is read out of it: the
//! rectangle that the encoder meant.

use crate::sps::{
    bit_of, bits_of, number, read_chroma, read_crop, read_geometry, read_u, read_ue, rectangle,
    signed_of, skip_order, skip_signed, sps_rectangle, unstuffed, wrap, zeros, Geometry, SpsCrop,
};
use vstd::arithmetic::power2::{lemma_pow2_pos, lemma_pow2_unfold, pow2};
use vstd::prelude::*;

verus! {

/// A number in so many bits, most significant first.
pub open spec fn in_bits(n: int, k: nat) -> Seq<bool>
    decreases k,
{
    if k == 0 {
        Seq::empty()
    } else {
        in_bits(n / 2, (k - 1) as nat).push(n % 2 == 1)
    }
}

/// True where a positive number has `z` binary digits behind its first.
pub open spec fn digits_behind(n: int, z: nat) -> bool {
    pow2(z) <= n < 2 * pow2(z)
}

/// An Exp-Golomb code: the value plus one in binary, behind as many zeros as it has
/// digits behind its first.
pub open spec fn golomb(v: int, z: nat) -> Seq<bool> {
    Seq::new(z, |i: int| false) + in_bits(v + 1, z + 1)
}

/// True where bits stand at a place.
pub open spec fn stands(b: Seq<bool>, at: int, c: Seq<bool>) -> bool {
    0 <= at && at + c.len() <= b.len() && b.subrange(at, at + c.len()) == c
}

proof fn stands_in_two(b: Seq<bool>, at: int, c: Seq<bool>, d: Seq<bool>)
    requires
        stands(b, at, c + d),
    ensures
        stands(b, at, c),
        stands(b, at + c.len(), d),
{
    let e = c + d;
    assert(b.subrange(at, at + c.len()) =~= e.subrange(0, c.len() as int));
    assert(e.subrange(0, c.len() as int) =~= c);
    assert(b.subrange(at + c.len(), at + e.len()) =~= e.subrange(c.len() as int, e.len() as int));
    assert(e.subrange(c.len() as int, e.len() as int) =~= d);
}

proof fn bits_have_length(n: int, k: nat)
    ensures
        in_bits(n, k).len() == k,
    decreases k,
{
    if k > 0 {
        bits_have_length(n / 2, (k - 1) as nat);
    }
}

/// A number in bits is read as it is.
proof fn bits_are_read(n: int, k: nat)
    requires
        0 <= n < pow2(k),
    ensures
        number(in_bits(n, k)) == n,
    decreases k,
{
    bits_have_length(n, k);
    if k > 0 {
        lemma_pow2_unfold(k);
        let m = n / 2;
        bits_have_length(m, (k - 1) as nat);
        bits_are_read(m, (k - 1) as nat);
        assert(in_bits(n, k).drop_last() =~= in_bits(m, (k - 1) as nat));
    } else {
        assert(pow2(0) == 1) by {
            vstd::arithmetic::power2::lemma2_to64();
        }
    }
}

/// A field of so many bits is read as the number in it.
proof fn field_is_read(b: Seq<bool>, at: int, n: int, k: nat)
    requires
        0 <= n < pow2(k),
        stands(b, at, in_bits(n, k)),
    ensures
        read_u(b, at, k as int) == Some((n, at + k)),
{
    bits_have_length(n, k);
    bits_are_read(n, k);
}

/// The first of the bits of a number with so many digits is set, and the others are what
/// is left.
proof fn first_digit(n: int, z: nat)
    requires
        digits_behind(n, z),
    ensures
        in_bits(n, z + 1).len() == z + 1,
        in_bits(n, z + 1)[0],
        in_bits(n, z + 1).subrange(1, z as int + 1) == in_bits(n - pow2(z), z),
    decreases z,
{
    bits_have_length(n, z + 1);
    bits_have_length(n - pow2(z), z);
    if z > 0 {
        lemma_pow2_unfold(z);
        let y = (z - 1) as nat;
        first_digit(n / 2, y);
        let all = in_bits(n, z + 1);
        let front = in_bits(n / 2, z);
        assert(all[0] == front[0]);
        assert((n - pow2(z)) / 2 == n / 2 - pow2(y));
        assert((n - pow2(z)) % 2 == n % 2);
        assert(all.subrange(1, z as int + 1) =~= front.subrange(1, z as int).push(n % 2 == 1));
    } else {
        vstd::arithmetic::power2::lemma2_to64();
        assert(in_bits(n, 1).subrange(1, 1) =~= in_bits(0, 0));
        reveal_with_fuel(in_bits, 2);
    }
}

/// An Exp-Golomb code is read as its value.
#[verifier::spinoff_prover]
#[verifier::rlimit(50)]
proof fn golomb_is_read(b: Seq<bool>, at: int, v: int, z: nat)
    requires
        digits_behind(v + 1, z),
        z <= 31,
        stands(b, at, golomb(v, z)),
    ensures
        read_ue(b, at) == Some((v, at + 2 * z + 1)),
        golomb(v, z).len() == 2 * z + 1,
{
    let blank = Seq::new(z, |i: int| false);
    bits_have_length(v + 1, z + 1);
    first_digit(v + 1, z);
    stands_in_two(b, at, blank, in_bits(v + 1, z + 1));
    let from = at + z;
    let all = in_bits(v + 1, z + 1);
    assert(b[from] == b.subrange(from, from + z + 1)[0]);
    assert forall|i: int| at <= i < at + z implies !#[trigger] b[i] by {
        assert(b.subrange(at, at + z)[i - at] == blank[i - at]);
    }
    zeros_are_counted(b, at, z);
    let rest = in_bits(v + 1 - pow2(z), z);
    bits_have_length(v + 1 - pow2(z), z);
    let got = b.subrange(from + 1, from + 1 + z);
    let want = all.subrange(1, z as int + 1);
    assert forall|i: int| 0 <= i < z implies #[trigger] got[i] == want[i] by {
        assert(b.subrange(from, from + z + 1)[i + 1] == all[i + 1]);
    }
    assert(got =~= want);
    field_is_read(b, from + 1, v + 1 - pow2(z), z);
}

proof fn zeros_are_counted(b: Seq<bool>, at: int, z: nat)
    requires
        0 <= at,
        at + z < b.len(),
        forall|i: int| at <= i < at + z ==> !#[trigger] b[i],
        b[at + z],
    ensures
        zeros(b, at) == z,
    decreases z,
{
    if z > 0 {
        zeros_are_counted(b, at + 1, (z - 1) as nat);
    }
}

/// A number for which an encoder has a code.
pub ghost struct Coded {
    pub value: int,
    /// Its digits behind the first, when it is one more.
    pub z: nat,
}

impl Coded {
    pub open spec fn wf(self) -> bool {
        self.value >= 0 && digits_behind(self.value + 1, self.z) && self.z <= 31
    }

    pub open spec fn bits(self) -> Seq<bool> {
        golomb(self.value, self.z)
    }
}

/// How the order of pictures is told.
pub ghost enum Order {
    /// By a counter of so many bits.
    Counter(Coded),
    /// By a cycle: whether every difference is nothing, two offsets, and one for each
    /// picture of the cycle, of which there are so many. All but the number are signed.
    Cycle(bool, Coded, Coded, Coded, Seq<Coded>),
    /// Not at all: pictures are shown as they come.
    Plain,
}

/// The codes of the first `n` numbers, one behind the other.
pub open spec fn codes(cs: Seq<Coded>, n: int) -> Seq<bool>
    decreases n,
{
    if n <= 0 {
        Seq::empty()
    } else {
        codes(cs, n - 1) + cs[n - 1].bits()
    }
}

/// What an encoder puts into a sequence parameter set.
pub ghost struct Params {
    pub profile: int,
    pub constraints: int,
    pub level: int,
    pub id: Coded,
    /// The chroma format, and the depths of luma and chroma, where the profile has them.
    pub format: Coded,
    pub luma_depth: Coded,
    pub chroma_depth: Coded,
    pub bypass: bool,
    pub frame_number_bits: Coded,
    pub order: Order,
    pub references: Coded,
    pub gaps: bool,
    /// Macroblocks across and down, each less one.
    pub across: Coded,
    pub down: Coded,
    pub frames_only: bool,
    pub adaptive: bool,
    pub direct: bool,
    /// Samples to cut off at the left, right, top and bottom.
    pub crop: Option<(Coded, Coded, Coded, Coded)>,
}

/// The profiles with a chroma format.
pub open spec fn is_high(profile: int) -> bool {
    profile == 100 || profile == 110 || profile == 122 || profile == 244 || profile == 44 || profile
        == 83 || profile == 86 || profile == 118 || profile == 128 || profile == 138 || profile
        == 139 || profile == 134 || profile == 135
}

impl Params {
    pub open spec fn wf(self) -> bool {
        &&& 0 <= self.profile < 256 && 0 <= self.constraints < 256 && 0 <= self.level < 256
        &&& self.id.wf() && self.format.wf() && self.luma_depth.wf() && self.chroma_depth.wf()
        &&& self.format.value <= 2
        &&& self.frame_number_bits.wf() && self.references.wf() && self.across.wf()
            && self.down.wf()
        &&& match self.order {
            Order::Counter(c) => c.wf(),
            Order::Cycle(_, a, b, n, cs) => a.wf() && b.wf() && n.wf() && n.value == cs.len()
                && forall|i: int| 0 <= i < cs.len() ==> (#[trigger] cs[i]).wf(),
            Order::Plain => true,
        }
        &&& self.crop matches Some((l, r, t, b)) ==> l.wf() && r.wf() && t.wf() && b.wf()
    }

    /// The chroma format: 4:2:0 where none is told.
    pub open spec fn chroma(self) -> int {
        if is_high(self.profile) {
            self.format.value
        } else {
            1
        }
    }

    /// What stands between the set's number and the frame numbers.
    pub open spec fn chroma_bits(self) -> Seq<bool> {
        if is_high(self.profile) {
            self.format.bits() + (self.luma_depth.bits() + (self.chroma_depth.bits() + seq![
                self.bypass,
                false,
            ]))
        } else {
            Seq::empty()
        }
    }

    /// How the order of pictures is told.
    pub open spec fn order_bits(self) -> Seq<bool> {
        match self.order {
            Order::Counter(c) => seq![true] + c.bits(),
            Order::Cycle(zero, a, b, n, cs) => seq![false, true, false] + (seq![zero] + (a.bits() + (
            b.bits() + (n.bits() + codes(cs, cs.len() as int))))),
            Order::Plain => seq![false, true, true],
        }
    }

    /// The crop.
    pub open spec fn crop_bits(self) -> Seq<bool> {
        match self.crop {
            Some((l, r, t, b)) => seq![true] + (l.bits() + (r.bits() + (t.bits() + b.bits()))),
            None => seq![false],
        }
    }

    /// The geometry.
    pub open spec fn geometry_bits(self) -> Seq<bool> {
        self.references.bits() + (seq![self.gaps] + (self.across.bits() + (self.down.bits() + ((
        if self.frames_only {
            seq![true]
        } else {
            seq![false, self.adaptive]
        }) + (seq![self.direct] + self.crop_bits())))))
    }

    /// The parameter set.
    pub open spec fn bits(self) -> Seq<bool> {
        in_bits(self.profile, 8) + (in_bits(self.constraints, 8) + (in_bits(self.level, 8) + (
        self.id.bits() + (self.chroma_bits() + (self.frame_number_bits.bits() + (self.order_bits()
            + self.geometry_bits()))))))
    }
}

proof fn flag_is_read(b: Seq<bool>, at: int, f: bool)
    requires
        stands(b, at, seq![f]),
    ensures
        read_u(b, at, 1) == Some((
            if f {
                1int
            } else {
                0
            },
            at + 1,
        )),
{
    let one = b.subrange(at, at + 1);
    assert(one == seq![f]);
    reveal_with_fuel(number, 2);
    assert(one.drop_last() =~= Seq::empty());
}

proof fn coded_is_read(b: Seq<bool>, at: int, c: Coded)
    requires
        c.wf(),
        stands(b, at, c.bits()),
    ensures
        read_ue(b, at) == Some((c.value, at + c.bits().len())),
{
    golomb_is_read(b, at, c.value, c.z);
}

proof fn chroma_is_read(b: Seq<bool>, at: int, p: Params)
    requires
        p.wf(),
        stands(b, at, p.chroma_bits()),
    ensures
        read_chroma(b, at, p.profile) == Some((p.chroma(), at + p.chroma_bits().len())),
{
    if is_high(p.profile) {
        let (f, l, c) = (p.format.bits(), p.luma_depth.bits(), p.chroma_depth.bits());
        let flags = seq![p.bypass, false];
        stands_in_two(b, at, f, l + (c + flags));
        let a1 = at + f.len();
        stands_in_two(b, a1, l, c + flags);
        let a2 = a1 + l.len();
        stands_in_two(b, a2, c, flags);
        let a3 = a2 + c.len();
        assert(flags =~= seq![p.bypass] + seq![false]);
        stands_in_two(b, a3, seq![p.bypass], seq![false]);
        coded_is_read(b, at, p.format);
        coded_is_read(b, a1, p.luma_depth);
        coded_is_read(b, a2, p.chroma_depth);
        flag_is_read(b, a3, p.bypass);
        flag_is_read(b, a3 + 1, false);
    }
}

proof fn order_is_read(b: Seq<bool>, at: int, p: Params)
    requires
        p.wf(),
        stands(b, at, p.order_bits()),
    ensures
        skip_order(b, at) == Some(at + p.order_bits().len()),
{
    small_codes();
    match p.order {
        Order::Counter(c) => {
            let zero = Coded { value: 0, z: 0 };
            stands_in_two(b, at, zero.bits(), c.bits());
            coded_is_read(b, at, zero);
            coded_is_read(b, at + 1, c);
        },
        Order::Cycle(zero, x, y, n, cs) => {
            cycle_is_read(b, at, zero, x, y, n, cs);
        },
        Order::Plain => {
            coded_is_read(b, at, Coded { value: 2, z: 1 });
        },
    }
}

/// The codes of the first three numbers.
#[verifier::spinoff_prover]
proof fn small_codes()
    ensures
        (Coded { value: 0, z: 0 }).wf(),
        (Coded { value: 0, z: 0 }).bits() == seq![true],
        (Coded { value: 1, z: 1 }).wf(),
        (Coded { value: 1, z: 1 }).bits() == seq![false, true, false],
        (Coded { value: 2, z: 1 }).wf(),
        (Coded { value: 2, z: 1 }).bits() == seq![false, true, true],
{
    vstd::arithmetic::power2::lemma2_to64();
    reveal_with_fuel(in_bits, 3);
    assert((Coded { value: 0, z: 0 }).bits() =~= seq![true]);
    assert((Coded { value: 1, z: 1 }).bits() =~= seq![false, true, false]);
    assert((Coded { value: 2, z: 1 }).bits() =~= seq![false, true, true]);
}

#[verifier::spinoff_prover]
#[verifier::rlimit(50)]
proof fn cycle_is_read(
    b: Seq<bool>,
    at: int,
    zero: bool,
    x: Coded,
    y: Coded,
    n: Coded,
    cs: Seq<Coded>,
)
    requires
        x.wf() && y.wf() && n.wf() && n.value == cs.len(),
        forall|i: int| 0 <= i < cs.len() ==> (#[trigger] cs[i]).wf(),
        stands(
            b,
            at,
            seq![false, true, false] + (seq![zero] + (x.bits() + (y.bits() + (n.bits() + codes(
                cs,
                cs.len() as int,
            ))))),
        ),
    ensures
        skip_order(b, at) == Some(
            at + 4 + x.bits().len() + y.bits().len() + n.bits().len() + codes(
                cs,
                cs.len() as int,
            ).len(),
        ),
{
    let one = Coded { value: 1, z: 1 };
    small_codes();
    let all = codes(cs, cs.len() as int);
    stands_in_two(b, at, one.bits(), seq![zero] + (x.bits() + (y.bits() + (n.bits() + all))));
    coded_is_read(b, at, one);
    let a1 = at + 3;
    stands_in_two(b, a1, seq![zero], x.bits() + (y.bits() + (n.bits() + all)));
    flag_is_read(b, a1, zero);
    let a2 = a1 + 1;
    stands_in_two(b, a2, x.bits(), y.bits() + (n.bits() + all));
    coded_is_read(b, a2, x);
    let a3 = a2 + x.bits().len();
    stands_in_two(b, a3, y.bits(), n.bits() + all);
    coded_is_read(b, a3, y);
    let a4 = a3 + y.bits().len();
    stands_in_two(b, a4, n.bits(), all);
    coded_is_read(b, a4, n);
    codes_are_passed(b, a4 + n.bits().len(), cs, 0);
    assert(codes(cs, 0).len() == 0);
}

/// Signed numbers in a row are passed over, from number `i` on.
proof fn codes_are_passed(b: Seq<bool>, at: int, cs: Seq<Coded>, i: int)
    requires
        0 <= i <= cs.len(),
        stands(b, at, codes(cs, cs.len() as int)),
        forall|k: int| 0 <= k < cs.len() ==> (#[trigger] cs[k]).wf(),
    ensures
        skip_signed(b, at + codes(cs, i).len(), cs.len() - i) == Some(
            at + codes(cs, cs.len() as int).len(),
        ),
    decreases cs.len() - i,
{
    if i < cs.len() {
        code_stands(b, at, cs, cs.len() as int, i);
        coded_is_read(b, at + codes(cs, i).len(), cs[i]);
        codes_are_passed(b, at, cs, i + 1);
    }
}

proof fn code_stands(b: Seq<bool>, at: int, cs: Seq<Coded>, n: int, i: int)
    requires
        0 <= i < n <= cs.len(),
        stands(b, at, codes(cs, n)),
    ensures
        stands(b, at + codes(cs, i).len(), cs[i].bits()),
    decreases n,
{
    stands_in_two(b, at, codes(cs, n - 1), cs[n - 1].bits());
    if i < n - 1 {
        code_stands(b, at, cs, n - 1, i);
    }
}

/// Signed numbers are told as 0, 1, -1, 2, -2 and so on.
pub proof fn signs_alternate(k: int)
    requires
        0 <= k < 0x2000_0000,
    ensures
        signed_of(2 * k) == -k,
        signed_of(2 * k + 1) == k + 1,
{
}

/// What is cut off at the left, right, top and bottom.
pub open spec fn cut_off(p: Params) -> (int, int, int, int) {
    match p.crop {
        Some((l, r, t, b)) => (l.value, r.value, t.value, b.value),
        None => (0, 0, 0, 0),
    }
}

proof fn crop_is_read(b: Seq<bool>, at: int, p: Params)
    requires
        p.wf(),
        stands(b, at, p.crop_bits()),
    ensures
        read_crop(b, at) == Some(cut_off(p)),
{
    match p.crop {
        Some((l, r, t, d)) => {
            stands_in_two(b, at, seq![true], l.bits() + (r.bits() + (t.bits() + d.bits())));
            flag_is_read(b, at, true);
            let a1 = at + 1;
            stands_in_two(b, a1, l.bits(), r.bits() + (t.bits() + d.bits()));
            coded_is_read(b, a1, l);
            let a2 = a1 + l.bits().len();
            stands_in_two(b, a2, r.bits(), t.bits() + d.bits());
            coded_is_read(b, a2, r);
            let a3 = a2 + r.bits().len();
            stands_in_two(b, a3, t.bits(), d.bits());
            coded_is_read(b, a3, t);
            coded_is_read(b, a3 + t.bits().len(), d);
        },
        None => {
            flag_is_read(b, at, false);
        },
    }
}

/// The geometry that an encoder means.
pub open spec fn meant(p: Params) -> Geometry {
    Geometry {
        mbs_w: p.across.value + 1,
        mbs_h: p.down.value + 1,
        frames_only: if p.frames_only {
            1
        } else {
            0
        },
        crop: cut_off(p),
    }
}

#[verifier::spinoff_prover]
#[verifier::rlimit(50)]
proof fn geometry_is_read(b: Seq<bool>, at: int, p: Params)
    requires
        p.wf(),
        stands(b, at, p.geometry_bits()),
    ensures
        read_geometry(b, at) == Some(meant(p)),
{
    let (rf, w, h) = (p.references.bits(), p.across.bits(), p.down.bits());
    let mode = if p.frames_only {
        seq![true]
    } else {
        seq![false, p.adaptive]
    };
    let tail = seq![p.direct] + p.crop_bits();
    stands_in_two(b, at, rf, seq![p.gaps] + (w + (h + (mode + tail))));
    coded_is_read(b, at, p.references);
    let a1 = at + rf.len();
    stands_in_two(b, a1, seq![p.gaps], w + (h + (mode + tail)));
    flag_is_read(b, a1, p.gaps);
    let a2 = a1 + 1;
    stands_in_two(b, a2, w, h + (mode + tail));
    coded_is_read(b, a2, p.across);
    let a3 = a2 + w.len();
    stands_in_two(b, a3, h, mode + tail);
    coded_is_read(b, a3, p.down);
    let a4 = a3 + h.len();
    stands_in_two(b, a4, mode, tail);
    if p.frames_only {
        flag_is_read(b, a4, true);
    } else {
        assert(mode =~= seq![false] + seq![p.adaptive]);
        stands_in_two(b, a4, seq![false], seq![p.adaptive]);
        flag_is_read(b, a4, false);
        flag_is_read(b, a4 + 1, p.adaptive);
    }
    let a5 = a4 + mode.len();
    stands_in_two(b, a5, seq![p.direct], p.crop_bits());
    flag_is_read(b, a5, p.direct);
    crop_is_read(b, a5 + 1, p);
}

/// Samples that one step of the crop cuts off, across and down.
pub open spec fn crop_steps(p: Params) -> (int, int) {
    let x = if p.chroma() == 0 {
        1int
    } else {
        2
    };
    let y = if p.chroma() == 1 {
        2int
    } else {
        1
    };
    (
        x,
        if p.frames_only {
            y
        } else {
            2 * y
        },
    )
}

/// A parameter set is read as the encoder meant it: the coded picture in macroblocks of
/// 16, twice as many down where heights count fields, less what is cut off at each side.
#[verifier::spinoff_prover]
#[verifier::rlimit(50)]
pub proof fn rectangles_are_read(body: Seq<u8>, p: Params)
    requires
        p.wf(),
        stands(bits_of(unstuffed(body, body.len() as int)), 0, p.bits()),
        p.across.value < 4096 && p.down.value < 4096,
        ({
            let (l, r, t, b) = cut_off(p);
            let (x, y) = crop_steps(p);
            &&& l < 65536 && r < 65536 && t < 65536 && b < 65536
            &&& x * (l + r) + 2 <= 16 * (p.across.value + 1)
            &&& y * (t + b) + 2 <= 16 * (p.down.value + 1) * (if p.frames_only {
                1int
            } else {
                2
            })
        }),
    ensures
        ({
            let (l, r, t, b) = cut_off(p);
            let (x, y) = crop_steps(p);
            let w = 16 * (p.across.value + 1) - x * (l + r);
            let h = 16 * (p.down.value + 1) * (if p.frames_only {
                1int
            } else {
                2
            }) - y * (t + b);
            sps_rectangle(body) == Some(
                SpsCrop { x: (x * l) as u32, y: (y * t) as u32, w: w as u32, h: h as u32 },
            )
        }),
{
    let b = bits_of(unstuffed(body, body.len() as int));
    assert(pow2(8) == 256) by {
        vstd::arithmetic::power2::lemma2_to64();
    }
    let geo = p.geometry_bits();
    let rest4 = p.order_bits() + geo;
    let rest3 = p.frame_number_bits.bits() + rest4;
    let rest2 = p.chroma_bits() + rest3;
    let rest1 = p.id.bits() + rest2;
    bits_have_length(p.profile, 8);
    bits_have_length(p.constraints, 8);
    bits_have_length(p.level, 8);
    stands_in_two(
        b,
        0,
        in_bits(p.profile, 8),
        in_bits(p.constraints, 8) + (in_bits(p.level, 8) + rest1),
    );
    stands_in_two(b, 8, in_bits(p.constraints, 8), in_bits(p.level, 8) + rest1);
    stands_in_two(b, 16, in_bits(p.level, 8), rest1);
    field_is_read(b, 0, p.profile, 8);
    field_is_read(b, 8, p.constraints, 8);
    field_is_read(b, 16, p.level, 8);
    stands_in_two(b, 24, p.id.bits(), rest2);
    coded_is_read(b, 24, p.id);
    let a1 = 24int + p.id.bits().len();
    stands_in_two(b, a1, p.chroma_bits(), rest3);
    chroma_is_read(b, a1, p);
    let a2 = a1 + p.chroma_bits().len();
    stands_in_two(b, a2, p.frame_number_bits.bits(), rest4);
    coded_is_read(b, a2, p.frame_number_bits);
    let a3 = a2 + p.frame_number_bits.bits().len();
    stands_in_two(b, a3, p.order_bits(), geo);
    order_is_read(b, a3, p);
    geometry_is_read(b, a3 + p.order_bits().len(), p);
    rectangle_is_cut(p);
    assert(sps_rectangle(body) == rectangle(meant(p), p.chroma()));
}

proof fn rectangle_is_cut(p: Params)
    requires
        p.wf(),
        p.across.value < 4096 && p.down.value < 4096,
        ({
            let (l, r, t, b) = cut_off(p);
            let (x, y) = crop_steps(p);
            &&& l < 65536 && r < 65536 && t < 65536 && b < 65536
            &&& x * (l + r) + 2 <= 16 * (p.across.value + 1)
            &&& y * (t + b) + 2 <= 16 * (p.down.value + 1) * (if p.frames_only {
                1int
            } else {
                2
            })
        }),
    ensures
        ({
            let (l, r, t, b) = cut_off(p);
            let (x, y) = crop_steps(p);
            let w = 16 * (p.across.value + 1) - x * (l + r);
            let h = 16 * (p.down.value + 1) * (if p.frames_only {
                1int
            } else {
                2
            }) - y * (t + b);
            rectangle(meant(p), p.chroma()) == Some(
                SpsCrop { x: (x * l) as u32, y: (y * t) as u32, w: w as u32, h: h as u32 },
            )
        }),
{
    let (l, r, t, b) = cut_off(p);
    let (x, y) = crop_steps(p);
    let g = meant(p);
    let k = 2 - g.frames_only;
    let f = p.chroma();
    cut_is_taken(g.mbs_w, g.mbs_h, g.frames_only, l, r, t, b, f, x, y, k);
}

#[verifier::spinoff_prover]
#[verifier::rlimit(50)]
proof fn cut_is_taken(
    mw: int,
    mh: int,
    frames: int,
    l: int,
    r: int,
    t: int,
    b: int,
    f: int,
    x: int,
    y: int,
    k: int,
)
    requires
        1 <= mw <= 4096,
        1 <= mh <= 4096,
        frames == 0 || frames == 1,
        k == 2 - frames,
        0 <= f <= 2,
        x == if f == 0 {
            1int
        } else {
            2
        },
        y == (if f == 1 {
            2int
        } else {
            1
        }) * k,
        0 <= l < 65536,
        0 <= r < 65536,
        0 <= t < 65536,
        0 <= b < 65536,
        x * (l + r) + 2 <= 16 * mw,
        y * (t + b) + 2 <= 16 * mh * k,
    ensures
        rectangle(Geometry { mbs_w: mw, mbs_h: mh, frames_only: frames, crop: (l, r, t, b) }, f)
            == Some(
            SpsCrop {
                x: (x * l) as u32,
                y: (y * t) as u32,
                w: (16 * mw - x * (l + r)) as u32,
                h: (16 * mh * k - y * (t + b)) as u32,
            },
        ),
{
    assert(wrap(mw * 16) == 16 * mw);
    assert(wrap(mh * 16) == 16 * mh);
    assert(wrap(l + r) == l + r && wrap(t + b) == t + b);
    assert(x == 1 || x == 2);
    assert(y == 1 || y == 2 || y == 4);
    products(l + r, x);
    products(l, x);
    products(t + b, y);
    products(t, y);
    products(16 * mh, k);
}

/// Small products are within 32 bits.
proof fn products(a: int, k: int)
    requires
        0 <= a <= 0x2_0000,
        k == 1 || k == 2 || k == 4,
    ensures
        a * k == k * a,
        0 <= a * k <= 0x8_0000,
        wrap(a * k) == a * k,
{
    assert(a * k == k * a && 0 <= a * k <= 0x8_0000) by (nonlinear_arith)
        requires
            0 <= a <= 0x2_0000,
            k == 1 || k == 2 || k == 4,
    ;
}

/// Bytes hold their bits, the most significant first.
pub proof fn bytes_hold_their_bits(s: Seq<u8>, i: int)
    requires
        0 <= i < s.len(),
    ensures
        stands(bits_of(s), 8 * i, in_bits(s[i] as int, 8)),
{
    let c = s[i];
    let b = bits_of(s);
    bits_have_length(c as int, 8);
    let got = b.subrange(8 * i, 8 * i + 8);
    let want = in_bits(c as int, 8);
    bits_of_a_byte(c);
    assert forall|k: int| 0 <= k < 8 implies #[trigger] got[k] == want[k] by {
        assert((8 * i + k) / 8 == i && (8 * i + k) % 8 == k);
        assert(got[k] == bit_of(c, k));
        byte_bit(c, k);
    }
    assert(got =~= want);
}

proof fn byte_bit(c: u8, k: int)
    requires
        0 <= k < 8,
    ensures
        bit_of(c, k) == in_bits(c as int, 8)[k],
{
    let n = c as int;
    bits_of_a_byte(c);
    reveal_with_fuel(in_bits, 9);
    bits_have_length(n, 8);
    assert(in_bits(n, 8) =~= seq![
        n / 2 / 2 / 2 / 2 / 2 / 2 / 2 % 2 == 1,
        n / 2 / 2 / 2 / 2 / 2 / 2 % 2 == 1,
        n / 2 / 2 / 2 / 2 / 2 % 2 == 1,
        n / 2 / 2 / 2 / 2 % 2 == 1,
        n / 2 / 2 / 2 % 2 == 1,
        n / 2 / 2 % 2 == 1,
        n / 2 % 2 == 1,
        n % 2 == 1,
    ]);
    assert(n / 2 / 2 == n / 4 && n / 2 / 2 / 2 == n / 8 && n / 2 / 2 / 2 / 2 == n / 16);
    assert(n / 2 / 2 / 2 / 2 / 2 == n / 32 && n / 2 / 2 / 2 / 2 / 2 / 2 == n / 64);
    assert(n / 2 / 2 / 2 / 2 / 2 / 2 / 2 == n / 128);
}

proof fn bits_of_a_byte(c: u8)
    ensures
        bit_of(c, 0) == (c as int / 128 % 2 == 1),
        bit_of(c, 1) == (c as int / 64 % 2 == 1),
        bit_of(c, 2) == (c as int / 32 % 2 == 1),
        bit_of(c, 3) == (c as int / 16 % 2 == 1),
        bit_of(c, 4) == (c as int / 8 % 2 == 1),
        bit_of(c, 5) == (c as int / 4 % 2 == 1),
        bit_of(c, 6) == (c as int / 2 % 2 == 1),
        bit_of(c, 7) == (c as int % 2 == 1),
{
    assert(((c >> 7u8) & 1u8 == 1u8) == (c / 128 % 2 == 1)) by (bit_vector);
    assert(((c >> 6u8) & 1u8 == 1u8) == (c / 64 % 2 == 1)) by (bit_vector);
    assert(((c >> 5u8) & 1u8 == 1u8) == (c / 32 % 2 == 1)) by (bit_vector);
    assert(((c >> 4u8) & 1u8 == 1u8) == (c / 16 % 2 == 1)) by (bit_vector);
    assert(((c >> 3u8) & 1u8 == 1u8) == (c / 8 % 2 == 1)) by (bit_vector);
    assert(((c >> 2u8) & 1u8 == 1u8) == (c / 4 % 2 == 1)) by (bit_vector);
    assert(((c >> 1u8) & 1u8 == 1u8) == (c / 2 % 2 == 1)) by (bit_vector);
    assert(((c >> 0u8) & 1u8 == 1u8) == (c % 2 == 1)) by (bit_vector);
}

/// The first `n` bytes of a unit as an encoder writes them: behind two zeros, what is not
/// above three gets a three in front, so that no start code stands in a unit.
pub open spec fn stuffed(s: Seq<u8>, n: int) -> Seq<u8>
    decreases n,
{
    if n <= 0 {
        Seq::empty()
    } else {
        let front = stuffed(s, n - 1);
        let k = front.len();
        if k >= 2 && front[k - 1] == 0 && front[k - 2] == 0 && s[n - 1] <= 3 {
            front.push(3).push(s[n - 1])
        } else {
            front.push(s[n - 1])
        }
    }
}

/// What was put in to keep start codes out is taken out again, and nothing else.
pub proof fn stuffing_is_taken_out(s: Seq<u8>, n: int)
    requires
        0 <= n <= s.len(),
    ensures
        unstuffed(stuffed(s, n), stuffed(s, n).len() as int) == s.take(n),
    decreases n,
{
    if n > 0 {
        stuffing_is_taken_out(s, n - 1);
        let front = stuffed(s, n - 1);
        let k = front.len() as int;
        let b = s[n - 1];
        if k >= 2 && front[k - 1] == 0 && front[k - 2] == 0 && b <= 3 {
            let mid = front.push(3);
            unstuffed_front(front, mid, k);
            unstuffed_front(mid, mid.push(b), k + 1);
            assert(unstuffed(mid, k + 1) == unstuffed(mid, k));
        } else {
            unstuffed_front(front, front.push(b), k);
        }
        assert(unstuffed(stuffed(s, n), stuffed(s, n).len() as int) =~= s.take(n));
    } else {
        assert(unstuffed(stuffed(s, n), 0) =~= s.take(n));
    }
}

proof fn unstuffed_front(a: Seq<u8>, b: Seq<u8>, n: int)
    requires
        n <= a.len(),
        n <= b.len(),
        forall|i: int| 0 <= i < n ==> a[i] == b[i],
    ensures
        unstuffed(a, n) == unstuffed(b, n),
    decreases n,
{
    if n > 0 {
        unstuffed_front(a, b, n - 1);
    }
}

} // verus!
