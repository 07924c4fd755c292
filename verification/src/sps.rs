//! H.264 sequence parameter sets: the display rectangle of the coded picture.

use vstd::arithmetic::power2::pow2;
use vstd::prelude::*;

verus! {

/// The part of the coded picture that is meant to be shown.
#[derive(Clone, Copy, Debug, PartialEq, Eq, Structural)]
pub struct SpsCrop {
    pub x: u32,
    pub y: u32,
    pub w: u32,
    pub h: u32,
}

/// Length of the start code at `i`: four bytes, three, or none.
pub open spec fn start_code(s: Seq<u8>, i: int) -> int {
    if i + 4 <= s.len() && s[i] == 0 && s[i + 1] == 0 && s[i + 2] == 0 && s[i + 3] == 1 {
        4
    } else if i + 3 <= s.len() && s[i] == 0 && s[i + 1] == 0 && s[i + 2] == 1 {
        3
    } else {
        0
    }
}

/// Where the unit that is open at `j` ends: at the next start code that has at
/// least a fourth byte, or with the data.
pub open spec fn unit_end(s: Seq<u8>, j: int) -> int
    decreases s.len() - j,
{
    if j + 3 >= s.len() {
        s.len() as int
    } else if start_code(s, j) > 0 {
        j
    } else {
        unit_end(s, j + 1)
    }
}

/// A unit ends behind where it is open, and within the data.
pub proof fn unit_end_bounds(s: Seq<u8>, j: int)
    requires
        j <= s.len(),
    ensures
        j <= unit_end(s, j) <= s.len(),
    decreases s.len() - j,
{
    if j + 3 < s.len() && start_code(s, j) == 0 {
        unit_end_bounds(s, j + 1);
    }
}

/// From where to where the body of the first parameter set at or behind `i` reaches.
pub open spec fn first_sps(s: Seq<u8>, i: int) -> Option<(int, int)>
    decreases s.len() - i,
{
    if i < 0 || i + 4 >= s.len() {
        None
    } else if start_code(s, i) == 0 {
        first_sps(s, i + 1)
    } else {
        let nal = i + start_code(s, i);
        let end = unit_end(s, nal + 1);
        if s[nal] & 0x1F == 7 {
            Some((nal + 1, end))
        } else {
            proof {
                unit_end_bounds(s, nal + 1);
            }
            first_sps(s, end)
        }
    }
}

/// True of a byte that was put in only to keep start codes out of a unit.
pub open spec fn is_stuffing(s: Seq<u8>, i: int) -> bool {
    i >= 2 && s[i] == 3 && s[i - 1] == 0 && s[i - 2] == 0
}

/// The first `n` bytes of `s` without stuffing.
pub open spec fn unstuffed(s: Seq<u8>, n: int) -> Seq<u8>
    decreases n,
{
    if n <= 0 {
        Seq::empty()
    } else if is_stuffing(s, n - 1) {
        unstuffed(s, n - 1)
    } else {
        unstuffed(s, n - 1).push(s[n - 1])
    }
}

/// Bit `k` of a byte, counted from the most significant.
pub open spec fn bit_of(b: u8, k: int) -> bool {
    (b >> ((7 - k) as u8)) & 1u8 == 1u8
}

/// Bytes as bits, most significant first.
pub open spec fn bits_of(s: Seq<u8>) -> Seq<bool> {
    Seq::new(8 * s.len(), |k: int| bit_of(s[k / 8], k % 8))
}

/// Bits as a number, most significant first.
pub open spec fn number(b: Seq<bool>) -> nat
    decreases b.len(),
{
    if b.len() == 0 {
        0
    } else {
        2 * number(b.drop_last()) + if b.last() {
            1nat
        } else {
            0nat
        }
    }
}

/// What a read at `at` gives: the value, and where the next read begins.
pub open spec fn read_u(b: Seq<bool>, at: int, n: int) -> Option<(int, int)> {
    if at + n <= b.len() {
        Some((number(b.subrange(at, at + n)) as int, at + n))
    } else {
        None
    }
}

/// How many zero bits stand at `at` in a row.
pub open spec fn zeros(b: Seq<bool>, at: int) -> int
    decreases b.len() - at,
{
    if at >= b.len() || b[at] {
        0
    } else {
        1 + zeros(b, at + 1)
    }
}

/// An Exp-Golomb number: as many zeros as the value plus one has bits behind its first.
/// More than 31 zeros are refused.
pub open spec fn read_ue(b: Seq<bool>, at: int) -> Option<(int, int)> {
    let z = zeros(b, at);
    if z > 31 || at + z >= b.len() {
        None
    } else {
        match read_u(b, at + z + 1, z) {
            Some((rest, after)) => Some((pow2(z as nat) - 1 + rest, after)),
            None => None,
        }
    }
}

/// A signed number out of an unsigned code, in 32-bit two's complement: codes
/// count 0, 1, -1, 2, -2 and so on.
pub open spec fn signed_of(v: int) -> int {
    let s = if v >= 0x8000_0000 {
        v - 0x1_0000_0000
    } else {
        v
    };
    let n = if s == 0x7FFF_FFFF {
        -0x4000_0000
    } else {
        (s + 1) / 2
    };
    if v % 2 != 0 {
        n
    } else {
        -n
    }
}

/// A signed Exp-Golomb number.
pub open spec fn read_se(b: Seq<bool>, at: int) -> Option<(int, int)> {
    match read_ue(b, at) {
        Some((v, after)) => Some((signed_of(v), after)),
        None => None,
    }
}

/// The remainder that keeps the sign of `a`.
pub open spec fn signed_rem(a: int, m: int) -> int {
    if a >= 0 {
        a % m
    } else {
        -((-a) % m)
    }
}

/// Where a scaling list with `left` entries to come ends.
pub open spec fn skip_list(b: Seq<bool>, at: int, left: int, last: int, next: int) -> Option<int>
    decreases left,
{
    if left <= 0 {
        Some(at)
    } else if next == 0 {
        skip_list(b, at, left - 1, last, next)
    } else {
        match read_se(b, at) {
            Some((delta, after)) => {
                let n = signed_rem(last + delta + 256, 256);
                skip_list(
                    b,
                    after,
                    left - 1,
                    if n == 0 {
                        last
                    } else {
                        n
                    },
                    n,
                )
            },
            None => None,
        }
    }
}

/// Where the scaling lists from number `i` up to number `n` end. The first six
/// have 16 entries, the others 64, and each may be absent.
pub open spec fn skip_lists(b: Seq<bool>, at: int, i: int, n: int) -> Option<int>
    decreases n - i,
{
    if i >= n {
        Some(at)
    } else {
        match read_u(b, at, 1) {
            Some((present, after)) => if present == 1 {
                match skip_list(
                    b,
                    after,
                    if i < 6 {
                        16
                    } else {
                        64
                    },
                    8,
                    8,
                ) {
                    Some(rest) => skip_lists(b, rest, i + 1, n),
                    None => None,
                }
            } else {
                skip_lists(b, after, i + 1, n)
            },
            None => None,
        }
    }
}

/// Where `n` signed numbers in a row end.
pub open spec fn skip_signed(b: Seq<bool>, at: int, n: int) -> Option<int>
    decreases n,
{
    if n <= 0 {
        Some(at)
    } else {
        match read_se(b, at) {
            Some((_, after)) => skip_signed(b, after, n - 1),
            None => None,
        }
    }
}

/// The profiles whose parameter sets name a chroma format.
pub open spec fn has_chroma_format(profile: int) -> bool {
    profile == 100 || profile == 110 || profile == 122 || profile == 244 || profile == 44 || profile
        == 83 || profile == 86 || profile == 118 || profile == 128 || profile == 138 || profile
        == 139 || profile == 134 || profile == 135
}

/// The chroma format that follows the set's number, and where it ends.
pub open spec fn read_chroma(b: Seq<bool>, at: int, profile: int) -> Option<(int, int)> {
    if !has_chroma_format(profile) {
        Some((1, at))
    } else {
        match read_ue(b, at) {
            None => None,
            Some((format, a1)) => {
                let planes = if format == 3 {
                    read_u(b, a1, 1)
                } else {
                    Some((0, a1))
                };
                match planes {
                    None => None,
                    Some((_, a2)) => match read_ue(b, a2) {
                        None => None,
                        Some((_, a3)) => match read_ue(b, a3) {
                            None => None,
                            Some((_, a4)) => match read_u(b, a4, 1) {
                                None => None,
                                Some((_, a5)) => match read_u(b, a5, 1) {
                                    None => None,
                                    Some((lists, a6)) => if lists == 1 {
                                        match skip_lists(
                                            b,
                                            a6,
                                            0,
                                            if format != 3 {
                                                8
                                            } else {
                                                12
                                            },
                                        ) {
                                            None => None,
                                            Some(a7) => Some((format, a7)),
                                        }
                                    } else {
                                        Some((format, a6))
                                    },
                                },
                            },
                        },
                    },
                }
            },
        }
    }
}

/// Where the picture order count description ends.
pub open spec fn skip_order(b: Seq<bool>, at: int) -> Option<int> {
    match read_ue(b, at) {
        None => None,
        Some((kind, a1)) => if kind == 0 {
            match read_ue(b, a1) {
                None => None,
                Some((_, a2)) => Some(a2),
            }
        } else if kind == 1 {
            match read_u(b, a1, 1) {
                None => None,
                Some((_, a2)) => match read_se(b, a2) {
                    None => None,
                    Some((_, a3)) => match read_se(b, a3) {
                        None => None,
                        Some((_, a4)) => match read_ue(b, a4) {
                            None => None,
                            Some((n, a5)) => skip_signed(b, a5, n),
                        },
                    },
                },
            }
        } else {
            Some(a1)
        },
    }
}

/// The four crop offsets: left, right, top, bottom. All zero where none are given.
pub open spec fn read_crop(b: Seq<bool>, at: int) -> Option<(int, int, int, int)> {
    match read_u(b, at, 1) {
        None => None,
        Some((given, a1)) => if given != 1 {
            Some((0, 0, 0, 0))
        } else {
            match read_ue(b, a1) {
                None => None,
                Some((left, a2)) => match read_ue(b, a2) {
                    None => None,
                    Some((right, a3)) => match read_ue(b, a3) {
                        None => None,
                        Some((top, a4)) => match read_ue(b, a4) {
                            None => None,
                            Some((bottom, _)) => Some((left, right, top, bottom)),
                        },
                    },
                },
            }
        },
    }
}

/// The frame geometry as coded.
pub ghost struct Geometry {
    /// Width in macroblocks.
    pub mbs_w: int,
    /// Height in macroblocks, of a frame or of a field.
    pub mbs_h: int,
    /// 1 where all pictures are frames, 0 where a height counts fields.
    pub frames_only: int,
    /// Left, right, top and bottom crop offsets.
    pub crop: (int, int, int, int),
}

/// The geometry that follows the picture order count description.
pub open spec fn read_geometry(b: Seq<bool>, at: int) -> Option<Geometry> {
    match read_ue(b, at) {
        None => None,
        Some((_, a1)) => match read_u(b, a1, 1) {
            None => None,
            Some((_, a2)) => match read_ue(b, a2) {
                None => None,
                Some((w, a3)) => match read_ue(b, a3) {
                    None => None,
                    Some((h, a4)) => match read_u(b, a4, 1) {
                        None => None,
                        Some((frames_only, a5)) => {
                            let mixed = if frames_only == 0 {
                                read_u(b, a5, 1)
                            } else {
                                Some((0, a5))
                            };
                            match mixed {
                                None => None,
                                Some((_, a6)) => match read_u(b, a6, 1) {
                                    None => None,
                                    Some((_, a7)) => match read_crop(b, a7) {
                                        None => None,
                                        Some(crop) => Some(
                                            Geometry { mbs_w: w + 1, mbs_h: h + 1, frames_only, crop },
                                        ),
                                    },
                                },
                            }
                        },
                    },
                },
            },
        },
    }
}

/// A number in 32 bits.
pub open spec fn wrap(v: int) -> int {
    v % 0x1_0000_0000
}

/// `a - b`, or nothing where that would be negative.
pub open spec fn less(a: int, b: int) -> int {
    if a >= b {
        a - b
    } else {
        0
    }
}

/// The display rectangle of a geometry at a chroma format. Crop offsets count
/// chroma samples, and two lines each where heights count fields. All products
/// are in 32 bits.
pub open spec fn rectangle(g: Geometry, format: int) -> Option<SpsCrop> {
    let (left, right, top, bottom) = g.crop;
    let unit_x = if format == 0 || format == 3 {
        1int
    } else {
        2
    };
    let unit_y = if format == 0 || format == 2 || format == 3 {
        1int
    } else {
        2
    } * (2 - g.frames_only);
    let w = less(wrap(g.mbs_w * 16), wrap(wrap(left + right) * unit_x));
    let h = less(wrap(wrap(g.mbs_h * 16) * (2 - g.frames_only)), wrap(wrap(top + bottom) * unit_y));
    if w < 2 || h < 2 {
        None
    } else {
        Some(
            SpsCrop {
                x: wrap(left * unit_x) as u32,
                y: wrap(top * unit_y) as u32,
                w: w as u32,
                h: h as u32,
            },
        )
    }
}

/// The display rectangle that the body of a parameter set declares.
pub open spec fn sps_rectangle(body: Seq<u8>) -> Option<SpsCrop> {
    let b = bits_of(unstuffed(body, body.len() as int));
    match read_u(b, 0, 8) {
        None => None,
        Some((profile, a1)) => match read_u(b, a1, 8) {
            None => None,
            Some((_, a2)) => match read_u(b, a2, 8) {
                None => None,
                Some((_, a3)) => match read_ue(b, a3) {
                    None => None,
                    Some((_, a4)) => match read_chroma(b, a4, profile) {
                        None => None,
                        Some((format, a5)) => match read_ue(b, a5) {
                            None => None,
                            Some((_, a6)) => match skip_order(b, a6) {
                                None => None,
                                Some(a7) => match read_geometry(b, a7) {
                                    None => None,
                                    Some(g) => rectangle(g, format),
                                },
                            },
                        },
                    },
                },
            },
        },
    }
}

/// `n` bits make a number below two to the `n`.
proof fn number_bound(b: Seq<bool>)
    ensures
        number(b) < pow2(b.len()),
    decreases b.len(),
{
    if b.len() == 0 {
        vstd::arithmetic::power2::lemma2_to64();
    } else {
        number_bound(b.drop_last());
        vstd::arithmetic::power2::lemma_pow2_unfold(b.len());
    }
}

/// Reads bits front to back.
struct Bits<'a> {
    data: &'a [u8],
    byte: usize,
    bit: u8,
}

impl<'a> Bits<'a> {
    spec fn wf(&self) -> bool {
        &&& self.bit < 8
        &&& self.byte <= self.data@.len()
        &&& self.byte == self.data@.len() ==> self.bit == 0
    }

    spec fn bits(&self) -> Seq<bool> {
        bits_of(self.data@)
    }

    spec fn at(&self) -> int {
        8 * self.byte + self.bit
    }

    fn new(data: &'a [u8]) -> (r: Bits<'a>)
        ensures
            r.wf(),
            r.bits() == bits_of(data@),
            r.at() == 0,
    {
        Bits { data, byte: 0, bit: 0 }
    }

    fn u(&mut self, n: u32) -> (r: Option<u32>)
        requires
            old(self).wf(),
            n <= 32,
        ensures
            final(self).wf(),
            final(self).bits() == old(self).bits(),
            match r {
                Some(v) => read_u(old(self).bits(), old(self).at(), n as int) == Some(
                    (v as int, final(self).at()),
                ),
                None => read_u(old(self).bits(), old(self).at(), n as int) is None,
            },
    {
        let ghost b = self.bits();
        let ghost from = self.at();
        let mut v: u32 = 0;
        let mut i: u32 = 0;
        assert(b.subrange(from, from) =~= Seq::empty());
        while i < n
            invariant
                n <= 32,
                i <= n,
                self.wf(),
                self.bits() == b,
                b == bits_of(self.data@),
                b == old(self).bits(),
                from == old(self).at(),
                0 <= from,
                self.at() == from + i,
                from + i <= b.len(),
                v == number(b.subrange(from, from + i)),
            decreases n - i,
        {
            if self.byte >= self.data.len() {
                return None;
            }
            let x: u8 = self.data[self.byte];
            let one: bool = (x >> (7 - self.bit)) & 1u8 == 1u8;
            proof {
                let k = from + i;
                assert(k / 8 == self.byte && k % 8 == self.bit);
                assert(b[k] == one);
                assert(b.subrange(from, k + 1).drop_last() =~= b.subrange(from, k));
                number_bound(b.subrange(from, k));
                vstd::arithmetic::power2::lemma_pow2_strictly_increases(i as nat, 32);
                number_bound(b.subrange(from, k + 1));
                if i + 1 < 32 {
                    vstd::arithmetic::power2::lemma_pow2_strictly_increases((i + 1) as nat, 32);
                }
                vstd::arithmetic::power2::lemma2_to64();
            }
            v = 2 * v + if one {
                1
            } else {
                0
            };
            if self.bit == 7 {
                self.bit = 0;
                self.byte = self.byte + 1;
            } else {
                self.bit = self.bit + 1;
            }
            i += 1;
        }
        Some(v)
    }

    fn ue(&mut self) -> (r: Option<u32>)
        requires
            old(self).wf(),
        ensures
            final(self).wf(),
            final(self).bits() == old(self).bits(),
            match r {
                Some(v) => read_ue(old(self).bits(), old(self).at()) == Some(
                    (v as int, final(self).at()),
                ),
                None => read_ue(old(self).bits(), old(self).at()) is None,
            },
    {
        let ghost b = self.bits();
        let ghost from = self.at();
        let mut leading: u32 = 0;
        let mut base: u64 = 1;
        proof {
            vstd::arithmetic::power2::lemma2_to64();
        }
        loop
            invariant_except_break
                self.at() == from + leading,
                zeros(b, from) == leading + zeros(b, from + leading),
            invariant
                self.wf(),
                self.bits() == b,
                b == old(self).bits(),
                from == old(self).at(),
                0 <= from,
                leading <= 31,
                base == pow2(leading as nat),
                base <= 0x8000_0000,
            ensures
                zeros(b, from) == leading,
                self.at() == from + leading + 1,
                from + leading < b.len(),
            decreases 32 - leading,
        {
            let ghost k = self.at();
            let one: u32 = match self.u(1) {
                Some(v) => v,
                None => {
                    return None;
                },
            };
            proof {
                assert(b.subrange(k, k + 1).drop_last() =~= Seq::empty());
                assert(number(b.subrange(k, k + 1).drop_last()) == 0);
                assert(number(b.subrange(k, k + 1)) == if b[k] {
                    1nat
                } else {
                    0nat
                });
            }
            if one != 0 {
                break;
            }
            leading += 1;
            if leading > 31 {
                proof {
                    zeros_nonneg(b, from + leading);
                }
                return None;
            }
            proof {
                vstd::arithmetic::power2::lemma_pow2_unfold(leading as nat);
                vstd::arithmetic::power2::lemma2_to64();
                if leading < 31 {
                    vstd::arithmetic::power2::lemma_pow2_strictly_increases(leading as nat, 31);
                }
            }
            base = base * 2;
        }
        if leading == 0 {
            assert(b.subrange(from + 1, from + 1) =~= Seq::empty());
            return Some(0);
        }
        let rest: u32 = match self.u(leading) {
            Some(v) => v,
            None => {
                return None;
            },
        };
        proof {
            number_bound(b.subrange(from + leading + 1, from + 2 * leading + 1));
        }
        Some((base - 1 + rest as u64) as u32)
    }

    fn se(&mut self) -> (r: Option<i32>)
        requires
            old(self).wf(),
        ensures
            final(self).wf(),
            final(self).bits() == old(self).bits(),
            match r {
                Some(v) => read_se(old(self).bits(), old(self).at()) == Some(
                    (v as int, final(self).at()),
                ) && -0x4000_0000 <= v <= 0x4000_0000,
                None => read_se(old(self).bits(), old(self).at()) is None,
            },
    {
        let v: u32 = match self.ue() {
            Some(v) => v,
            None => {
                return None;
            },
        };
        let n: i32 = if v == 0x7FFF_FFFF {
            -0x4000_0000
        } else if v < 0x7FFF_FFFF {
            ((v + 1) / 2) as i32
        } else {
            -(((0xFFFF_FFFF - v + 1) / 2) as i32)
        };
        Some(
            if v % 2 != 0 {
                n
            } else {
                -n
            },
        )
    }
}

/// A run of zeros has a length.
proof fn zeros_nonneg(b: Seq<bool>, at: int)
    ensures
        zeros(b, at) >= 0,
    decreases b.len() - at,
{
    if at < b.len() && !b[at] {
        zeros_nonneg(b, at + 1);
    }
}

/// Takes the stuffing bytes out of a unit's body.
fn ebsp_to_rbsp(src: &[u8]) -> (out: Vec<u8>)
    ensures
        out@ == unstuffed(src@, src@.len() as int),
{
    let mut out: Vec<u8> = Vec::with_capacity(src.len());
    let mut run: u8 = 0;
    let mut i: usize = 0;
    while i < src.len()
        invariant
            i <= src@.len(),
            out@ == unstuffed(src@, i as int),
            (run >= 1) == (i >= 1 && src@[i - 1] == 0),
            (run >= 2) == (i >= 2 && src@[i - 1] == 0 && src@[i - 2] == 0),
        decreases src@.len() - i,
    {
        let b: u8 = src[i];
        i += 1;
        if run >= 2 && b == 3 {
            run = 0;
            continue;
        }
        run = if b == 0 {
            run.saturating_add(1)
        } else {
            0
        };
        out.push(b);
    }
    out
}

/// Reads over one scaling list.
fn skip_scaling_list(r: &mut Bits, size: u32) -> (ok: Option<()>)
    requires
        old(r).wf(),
    ensures
        final(r).wf(),
        final(r).bits() == old(r).bits(),
        match ok {
            Some(_) => skip_list(old(r).bits(), old(r).at(), size as int, 8, 8) == Some(
                final(r).at(),
            ),
            None => skip_list(old(r).bits(), old(r).at(), size as int, 8, 8) is None,
        },
{
    let ghost b = r.bits();
    let ghost from = r.at();
    let mut last: i32 = 8;
    let mut next: i32 = 8;
    let mut i: u32 = 0;
    while i < size
        invariant
            i <= size,
            r.wf(),
            r.bits() == b,
            b == old(r).bits(),
            from == old(r).at(),
            -256 < last < 256,
            -256 < next < 256,
            skip_list(b, from, size as int, 8, 8) == skip_list(
                b,
                r.at(),
                size - i,
                last as int,
                next as int,
            ),
        decreases size - i,
    {
        if next != 0 {
            let delta: i32 = r.se()?;
            let sum: i32 = last + delta + 256;
            next = if sum >= 0 {
                (sum as u32 % 256) as i32
            } else {
                -(((-sum) as u32 % 256) as i32)
            };
        }
        last = if next == 0 {
            last
        } else {
            next
        };
        i += 1;
    }
    Some(())
}

/// Reads the chroma format, where the profile has one, and what follows it.
fn chroma_format(r: &mut Bits, profile: u32) -> (format: Option<u32>)
    requires
        old(r).wf(),
    ensures
        final(r).wf(),
        final(r).bits() == old(r).bits(),
        match format {
            Some(v) => read_chroma(old(r).bits(), old(r).at(), profile as int) == Some(
                (v as int, final(r).at()),
            ),
            None => read_chroma(old(r).bits(), old(r).at(), profile as int) is None,
        },
{
    if !matches!(
        profile,
        100 | 110 | 122 | 244 | 44 | 83 | 86 | 118 | 128 | 138 | 139 | 134 | 135
    ) {
        return Some(1);
    }
    let format: u32 = r.ue()?;
    if format == 3 {
        let _ = r.u(1)?;
    }
    let _ = r.ue()?;
    let _ = r.ue()?;
    let _ = r.u(1)?;
    if r.u(1)? == 1 {
        let n: u32 = if format != 3 {
            8
        } else {
            12
        };
        let ghost b = r.bits();
        let ghost from = r.at();
        let ghost whole = read_chroma(old(r).bits(), old(r).at(), profile as int);
        let mut i: u32 = 0;
        while i < n
            invariant
                i <= n,
                r.wf(),
                r.bits() == b,
                b == old(r).bits(),
                whole == read_chroma(old(r).bits(), old(r).at(), profile as int),
                whole == match skip_lists(b, from, 0, n as int) {
                    None => None,
                    Some(after) => Some((format as int, after)),
                },
                skip_lists(b, from, 0, n as int) == skip_lists(b, r.at(), i as int, n as int),
            decreases n - i,
        {
            if r.u(1)? == 1 {
                let size: u32 = if i < 6 {
                    16
                } else {
                    64
                };
                skip_scaling_list(r, size)?;
            }
            i += 1;
        }
    }
    Some(format)
}

/// Reads over the picture order count description.
fn picture_order(r: &mut Bits) -> (ok: Option<()>)
    requires
        old(r).wf(),
    ensures
        final(r).wf(),
        final(r).bits() == old(r).bits(),
        match ok {
            Some(_) => skip_order(old(r).bits(), old(r).at()) == Some(final(r).at()),
            None => skip_order(old(r).bits(), old(r).at()) is None,
        },
{
    let kind: u32 = r.ue()?;
    if kind == 0 {
        let _ = r.ue()?;
    } else if kind == 1 {
        let _ = r.u(1)?;
        let _ = r.se()?;
        let _ = r.se()?;
        let n: u32 = r.ue()?;
        let ghost b = r.bits();
        let ghost from = r.at();
        let ghost whole = skip_order(old(r).bits(), old(r).at());
        let mut i: u32 = 0;
        while i < n
            invariant
                i <= n,
                r.wf(),
                r.bits() == b,
                b == old(r).bits(),
                whole == skip_order(old(r).bits(), old(r).at()),
                whole == skip_signed(b, from, n as int),
                skip_signed(b, from, n as int) == skip_signed(b, r.at(), n - i),
            decreases n - i,
        {
            let _ = r.se()?;
            i += 1;
        }
    }
    Some(())
}

/// Reads the four crop offsets.
fn crop_offsets(r: &mut Bits) -> (offsets: Option<(u32, u32, u32, u32)>)
    requires
        old(r).wf(),
    ensures
        match offsets {
            Some((left, right, top, bottom)) => read_crop(old(r).bits(), old(r).at()) == Some(
                (left as int, right as int, top as int, bottom as int),
            ),
            None => read_crop(old(r).bits(), old(r).at()) is None,
        },
{
    let given: u32 = r.u(1)?;
    if given != 1 {
        return Some((0, 0, 0, 0));
    }
    let left: u32 = r.ue()?;
    let right: u32 = r.ue()?;
    let top: u32 = r.ue()?;
    let bottom: u32 = r.ue()?;
    Some((left, right, top, bottom))
}

/// The display rectangle that the body of a parameter set declares.
fn parse_sps(nal_body: &[u8]) -> (r: Option<SpsCrop>)
    ensures
        r == sps_rectangle(nal_body@),
{
    let rbsp: Vec<u8> = ebsp_to_rbsp(nal_body);
    let mut r: Bits = Bits::new(rbsp.as_slice());
    let ghost b = r.bits();
    let profile: u32 = r.u(8)?;
    let _ = r.u(8)?;
    let _ = r.u(8)?;
    let _ = r.ue()?;
    let format: u32 = chroma_format(&mut r, profile)?;
    let _ = r.ue()?;
    picture_order(&mut r)?;
    let ghost at = r.at();
    assert(sps_rectangle(nal_body@) == match read_geometry(b, at) {
        None => None,
        Some(g) => rectangle(g, format as int),
    });
    let _ = r.ue()?;
    let _ = r.u(1)?;
    let pic_w_mbs: u32 = r.ue()?;
    let pic_h_map: u32 = r.ue()?;
    let ghost at_flag = r.at();
    let frame_mbs_only: u32 = r.u(1)?;
    proof {
        one_bit(b, at_flag);
    }
    if frame_mbs_only == 0 {
        let _ = r.u(1)?;
    }
    let _ = r.u(1)?;
    let (left, right, top, bottom) = crop_offsets(&mut r)?;
    let ghost g = Geometry {
        mbs_w: pic_w_mbs + 1,
        mbs_h: pic_h_map + 1,
        frames_only: frame_mbs_only as int,
        crop: (left as int, right as int, top as int, bottom as int),
    };
    assert(read_geometry(b, at) == Some(g));
    display(pic_w_mbs, pic_h_map, frame_mbs_only, (left, right, top, bottom), format)
}

/// A single bit reads as zero or one.
proof fn one_bit(b: Seq<bool>, at: int)
    requires
        0 <= at,
    ensures
        match read_u(b, at, 1) {
            Some((v, _)) => v == 0 || v == 1,
            None => true,
        },
{
    if at + 1 <= b.len() {
        assert(b.subrange(at, at + 1).drop_last() =~= Seq::empty());
        assert(number(b.subrange(at, at + 1).drop_last()) == 0);
    }
}

/// A product in 32 bits.
fn times(v: u32, k: u32) -> (r: u32)
    requires
        k == 1 || k == 2 || k == 4,
    ensures
        r == wrap(v * k),
{
    if k == 1 {
        v
    } else if k == 2 {
        ((v as u64 * 2) % 0x1_0000_0000) as u32
    } else {
        ((v as u64 * 4) % 0x1_0000_0000) as u32
    }
}

/// The display rectangle of a picture of so many macroblocks, less one each way.
fn display(
    mbs_w: u32,
    mbs_h: u32,
    frame_mbs_only: u32,
    crop: (u32, u32, u32, u32),
    format: u32,
) -> (r: Option<SpsCrop>)
    requires
        frame_mbs_only <= 1,
    ensures
        r == rectangle(
            Geometry {
                mbs_w: mbs_w + 1,
                mbs_h: mbs_h + 1,
                frames_only: frame_mbs_only as int,
                crop: (crop.0 as int, crop.1 as int, crop.2 as int, crop.3 as int),
            },
            format as int,
        ),
{
    let (left, right, top, bottom) = crop;
    let unit_x: u32 = if format == 0 || format == 3 {
        1
    } else {
        2
    };
    let sub_h: u32 = if format == 0 || format == 2 || format == 3 {
        1
    } else {
        2
    };
    let unit_y: u32 = sub_h * (2 - frame_mbs_only);
    let coded_w: u32 = ((mbs_w as u64 + 1) * 16 % 0x1_0000_0000) as u32;
    let map_h: u32 = ((mbs_h as u64 + 1) * 16 % 0x1_0000_0000) as u32;
    let coded_h: u32 = times(map_h, 2 - frame_mbs_only);
    let x: u32 = times(left, unit_x);
    let y: u32 = times(top, unit_y);
    let across: u32 = ((left as u64 + right as u64) % 0x1_0000_0000) as u32;
    let down: u32 = ((top as u64 + bottom as u64) % 0x1_0000_0000) as u32;
    let w: u32 = coded_w.saturating_sub(times(across, unit_x));
    let h: u32 = coded_h.saturating_sub(times(down, unit_y));
    if w < 2 || h < 2 {
        return None;
    }
    Some(SpsCrop { x, y, w, h })
}

/// Length of the start code at `i`.
pub fn start_code_len(s: &[u8], i: usize) -> (r: usize)
    requires
        i < s@.len(),
    ensures
        r == start_code(s@, i as int),
{
    let left: usize = s.len() - i;
    if left >= 4 && s[i] == 0 && s[i + 1] == 0 && s[i + 2] == 0 && s[i + 3] == 1 {
        4
    } else if left >= 3 && s[i] == 0 && s[i + 1] == 0 && s[i + 2] == 1 {
        3
    } else {
        0
    }
}

/// The display rectangle that the first parameter set in a byte stream declares.
pub open spec fn stream_rectangle(s: Seq<u8>) -> Option<SpsCrop> {
    match first_sps(s, 0) {
        Some((from, to)) => sps_rectangle(s.subrange(from, to)),
        None => None,
    }
}

/// The display rectangle that the first parameter set in `annex_b` declares.
/// `None` where there is no parameter set, or the first cannot be read.
pub fn sps_crop_from_annex_b(annex_b: &[u8]) -> (r: Option<SpsCrop>)
    ensures
        r == stream_rectangle(annex_b@),
{
    let len: usize = annex_b.len();
    let mut i: usize = 0;
    while i < len && len - i > 4
        invariant
            len == annex_b@.len(),
            i <= len,
            first_sps(annex_b@, 0) == first_sps(annex_b@, i as int),
        decreases len - i,
    {
        let start: usize = start_code_len(annex_b, i);
        if start == 0 {
            i += 1;
            continue;
        }
        let nal: usize = i + start;
        let mut end: usize = len;
        let mut j: usize = nal + 1;
        while j < len && len - j > 3
            invariant_except_break
                end == len,
                unit_end(annex_b@, nal + 1) == unit_end(annex_b@, j as int),
            invariant
                len == annex_b@.len(),
                nal < j <= len,
            ensures
                end == unit_end(annex_b@, nal + 1),
                nal < end <= len,
            decreases len - j,
        {
            if start_code_len(annex_b, j) > 0 {
                end = j;
                break;
            }
            j += 1;
        }
        if annex_b[nal] & 0x1F == 7 {
            return parse_sps(vstd::slice::slice_subrange(annex_b, nal + 1, end));
        }
        i = end;
    }
    None
}

/// A declared rectangle has at least two samples each way.
pub proof fn crop_is_visible(s: Seq<u8>)
    ensures
        match stream_rectangle(s) {
            Some(c) => c.w >= 2 && c.h >= 2,
            None => true,
        },
{
}

/// Without crop offsets the whole coded picture is shown.
pub proof fn uncropped_shows_all(mbs_w: int, mbs_h: int, format: int)
    requires
        1 <= mbs_w < 0x1000_0000,
        1 <= mbs_h < 0x1000_0000,
    ensures
        rectangle(Geometry { mbs_w, mbs_h, frames_only: 1, crop: (0, 0, 0, 0) }, format) == Some(
            SpsCrop { x: 0, y: 0, w: (16 * mbs_w) as u32, h: (16 * mbs_h) as u32 },
        ),
{
    assert(forall|u: int| #[trigger] (0 * u) == 0) by (nonlinear_arith);
    assert(forall|u: int| #[trigger] (u * (2 - 1)) == u) by (nonlinear_arith);
}

/// Taking stuffing out never lengthens a unit, and leaves one without stuffing as it is.
pub proof fn unstuffing_shrinks(s: Seq<u8>, n: int)
    requires
        0 <= n <= s.len(),
    ensures
        unstuffed(s, n).len() <= n,
        (forall|i: int| 0 <= i < n ==> !is_stuffing(s, i)) ==> unstuffed(s, n) == s.subrange(0, n),
    decreases n,
{
    if n > 0 {
        unstuffing_shrinks(s, n - 1);
        if forall|i: int| 0 <= i < n ==> !is_stuffing(s, i) {
            assert(unstuffed(s, n) =~= s.subrange(0, n));
        }
    }
}

} // verus!
