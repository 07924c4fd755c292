//! The phone's H.264 stream, muxed into an MP4 file without a second encode.
//!
//! Everything here is computed: which bytes go where, and when a file ends and
//! the next begins. Whoever owns the file carries the steps out in order.

use crate::bytes::{
    be32, be32_at, low16, low32, overlay, push_all, push_be32, to_u32, word_roundtrip,
};
use crate::depay::{has_unit, is_idr};
use crate::mp4::{
    avcc_box, config, descs_view, ftyp, ftyp_box, moov_box, movie, words_len, Chunk, Desc,
    DescModel, MuxError, Sample, AVC1, ISO2, ISOM, MDAT, MP41,
};
use crate::sps::{
    sps_crop_from_annex_b, start_code, start_code_len, stream_rectangle, unit_end, unit_end_bounds,
    SpsCrop,
};
use crate::text::{decimal, push_decimal, push_padded, zero_padded};
use vstd::prelude::*;
use vstd::string::*;

verus! {

/// How many access units may wait for the writer.
pub const QUEUE: usize = 16;

pub const DEFAULT_DUR: u32 = 3_000;

/// The shortest sample: 120 frames a second.
pub const MIN_DUR: u32 = 750;

/// The longest sample: a quarter of a second covers a camera switch.
pub const MAX_DUR: u32 = 22_500;

/// The units of a byte stream from `i` on: what stands between start codes. A
/// start code at the very end opens no unit, and an empty unit is none.
pub open spec fn units(s: Seq<u8>, i: int) -> Seq<Seq<u8>>
    decreases s.len() - i,
{
    if i < 0 || i > s.len() {
        Seq::empty()
    } else {
        let code = unit_end(s, i);
        if code >= s.len() {
            Seq::empty()
        } else {
            proof {
                unit_end_is_code(s, i);
                unit_end_bounds(s, code + start_code(s, code));
            }
            let from = code + start_code(s, code);
            let to = unit_end(s, from);
            if from < to {
                seq![s.subrange(from, to)] + units(s, to)
            } else {
                units(s, to)
            }
        }
    }
}

/// A unit that does not end with the data ends at a start code.
pub proof fn unit_end_is_code(s: Seq<u8>, j: int)
    requires
        0 <= j <= s.len(),
    ensures
        j <= unit_end(s, j) <= s.len(),
        unit_end(s, j) < s.len() ==> {
            let c = unit_end(s, j);
            &&& c + 3 < s.len()
            &&& start_code(s, c) == 3 || start_code(s, c) == 4
            &&& c + start_code(s, c) <= s.len()
        },
    decreases s.len() - j,
{
    if j + 3 < s.len() && start_code(s, j) == 0 {
        unit_end_is_code(s, j + 1);
    }
}

/// Where the unit that is open at `j` ends.
fn next_code(s: &[u8], j: usize) -> (r: usize)
    requires
        j <= s@.len(),
    ensures
        r == unit_end(s@, j as int),
        j <= r <= s@.len(),
{
    let len: usize = s.len();
    let mut i: usize = j;
    while i < len && len - i > 3
        invariant
            len == s@.len(),
            j <= i <= len,
            unit_end(s@, j as int) == unit_end(s@, i as int),
        decreases len - i,
    {
        if start_code_len(s, i) > 0 {
            return i;
        }
        i += 1;
    }
    len
}

/// The views of a list of units.
pub open spec fn slices_view(v: Seq<&[u8]>) -> Seq<Seq<u8>> {
    v.map_values(|u: &[u8]| u@)
}

/// The units of a byte stream.
pub fn nals(annex_b: &[u8]) -> (out: Vec<&[u8]>)
    ensures
        slices_view(out@) == units(annex_b@, 0),
{
    let len: usize = annex_b.len();
    let mut out: Vec<&[u8]> = Vec::new();
    let mut code: usize = next_code(annex_b, 0);
    proof {
        unit_end_is_code(annex_b@, 0);
        if code < len {
            assert(unit_end(annex_b@, code as int) == code);
        } else {
            assert(unit_end(annex_b@, len as int) == len);
        }
        assert(units(annex_b@, 0) =~= slices_view(out@) + units(annex_b@, code as int));
    }
    while code < len
        invariant
            len == annex_b@.len(),
            code <= len,
            unit_end(annex_b@, code as int) == code,
            units(annex_b@, 0) == slices_view(out@) + units(annex_b@, code as int),
        decreases len - code,
    {
        proof {
            unit_end_is_code(annex_b@, code as int);
        }
        let from: usize = code + start_code_len(annex_b, code);
        let to: usize = next_code(annex_b, from);
        proof {
            unit_end_is_code(annex_b@, from as int);
        }
        let ghost before = out@;
        if from < to {
            out.push(vstd::slice::slice_subrange(annex_b, from, to));
            assert(slices_view(out@) =~= slices_view(before).push(
                annex_b@.subrange(from as int, to as int),
            ));
        }
        code = to;
        proof {
            if code < len {
                assert(unit_end(annex_b@, code as int) == code);
            } else {
                assert(unit_end(annex_b@, len as int) == len);
            }
            assert(units(annex_b@, 0) =~= slices_view(out@) + units(annex_b@, code as int));
        }
    }
    proof {
        assert(units(annex_b@, 0) =~= slices_view(out@));
    }
    out
}

/// True of a unit that goes into a sample: all but parameter sets, delimiters and filler.
pub open spec fn in_sample(u: Seq<u8>) -> bool {
    let t = u[0] & 0x1Fu8;
    t != 7 && t != 8 && t != 9 && t != 12
}

/// The first `n` units as a sample: each that belongs there, behind its length.
pub open spec fn sample_of(us: Seq<Seq<u8>>, n: int) -> Seq<u8>
    decreases n,
{
    if n <= 0 {
        Seq::empty()
    } else if in_sample(us[n - 1]) {
        sample_of(us, n - 1) + be32(low32(us[n - 1].len() as int)) + us[n - 1]
    } else {
        sample_of(us, n - 1)
    }
}

/// A byte stream as a sample.
pub open spec fn avcc_of(s: Seq<u8>) -> Seq<u8> {
    sample_of(units(s, 0), units(s, 0).len() as int)
}

/// The last of the first `n` units with type `t`.
pub open spec fn last_unit(us: Seq<Seq<u8>>, n: int, t: u8) -> Option<Seq<u8>>
    decreases n,
{
    if n <= 0 {
        None
    } else if us[n - 1][0] & 0x1Fu8 == t {
        Some(us[n - 1])
    } else {
        last_unit(us, n - 1, t)
    }
}

/// The last sequence and picture parameter sets of a byte stream, if it holds both.
pub open spec fn params_of(s: Seq<u8>) -> Option<(Seq<u8>, Seq<u8>)> {
    let us = units(s, 0);
    match (last_unit(us, us.len() as int, 7), last_unit(us, us.len() as int, 8)) {
        (Some(sps), Some(pps)) => Some((sps, pps)),
        _ => None,
    }
}

/// Every unit of a byte stream holds at least its header.
pub proof fn units_not_empty(s: Seq<u8>, i: int)
    ensures
        forall|k: int| 0 <= k < units(s, i).len() ==> (#[trigger] units(s, i)[k]).len() > 0,
    decreases s.len() - i,
{
    if 0 <= i <= s.len() {
        unit_end_is_code(s, i);
        let code = unit_end(s, i);
        if code < s.len() {
            let from = code + start_code(s, code);
            unit_end_is_code(s, from);
            let to = unit_end(s, from);
            units_not_empty(s, to);
            if from < to {
                let rest = units(s, to);
                assert forall|k: int| 0 <= k < units(s, i).len() implies (#[trigger] units(
                    s,
                    i,
                )[k]).len() > 0 by {
                    assert(units(s, i) == seq![s.subrange(from, to)] + rest);
                    if k > 0 {
                        assert(units(s, i)[k] == rest[k - 1]);
                    }
                }
            } else {
                assert(units(s, i) == units(s, to));
            }
        }
    }
}

/// The last parameter sets of a byte stream, if it holds both kinds.
pub fn sps_pps(annex_b: &[u8]) -> (r: Option<(Vec<u8>, Vec<u8>)>)
    ensures
        match r {
            Some((sps, pps)) => params_of(annex_b@) == Some((sps@, pps@)),
            None => params_of(annex_b@) is None,
        },
{
    let list: Vec<&[u8]> = nals(annex_b);
    let ghost us = units(annex_b@, 0);
    proof {
        units_not_empty(annex_b@, 0);
    }
    let mut sps: Option<Vec<u8>> = None;
    let mut pps: Option<Vec<u8>> = None;
    let mut i: usize = 0;
    while i < list.len()
        invariant
            i <= list@.len(),
            us == units(annex_b@, 0),
            slices_view(list@) == us,
            forall|k: int| 0 <= k < us.len() ==> (#[trigger] us[k]).len() > 0,
            match sps {
                Some(v) => last_unit(us, i as int, 7) == Some(v@),
                None => last_unit(us, i as int, 7) is None,
            },
            match pps {
                Some(v) => last_unit(us, i as int, 8) == Some(v@),
                None => last_unit(us, i as int, 8) is None,
            },
        decreases list@.len() - i,
    {
        let nal: &[u8] = list[i];
        assert(nal@ == us[i as int]);
        let t: u8 = nal[0] & 0x1Fu8;
        if t == 7 {
            sps = Some(vstd::slice::slice_to_vec(nal));
        } else if t == 8 {
            pps = Some(vstd::slice::slice_to_vec(nal));
        }
        i += 1;
    }
    match (sps, pps) {
        (Some(a), Some(b)) => Some((a, b)),
        _ => None,
    }
}

/// A byte stream as a sample: each unit behind its length.
pub fn annexb_to_avcc(annex_b: &[u8]) -> (out: Vec<u8>)
    ensures
        out@ == avcc_of(annex_b@),
{
    let list: Vec<&[u8]> = nals(annex_b);
    let ghost us = units(annex_b@, 0);
    proof {
        units_not_empty(annex_b@, 0);
    }
    let mut out: Vec<u8> = Vec::new();
    let mut i: usize = 0;
    while i < list.len()
        invariant
            i <= list@.len(),
            us == units(annex_b@, 0),
            slices_view(list@) == us,
            forall|k: int| 0 <= k < us.len() ==> (#[trigger] us[k]).len() > 0,
            out@ == sample_of(us, i as int),
        decreases list@.len() - i,
    {
        let nal: &[u8] = list[i];
        assert(nal@ == us[i as int]);
        let t: u8 = nal[0] & 0x1Fu8;
        if t != 7 && t != 8 && t != 9 && t != 12 {
            push_be32(&mut out, to_u32(nal.len()));
            push_all(&mut out, nal);
        }
        i += 1;
    }
    out
}

/// Where the samples begin: behind the opening box and the length and type of
/// the box that holds them.
pub const DATA_AT: u64 = 40;

/// Where the length of the box that holds the samples stands.
pub const LENGTH_AT: u64 = 32;

/// How long a sample that came `now`, after one at `prev`, is to be shown. Times
/// are in nanoseconds, the result in ticks.
pub open spec fn sample_ticks(prev: Option<u64>, now: u64, last_dur: u32) -> u32 {
    match prev {
        None => last_dur,
        Some(p) => {
            let ns = if now >= p {
                now - p
            } else {
                0
            };
            let t = low32(ns * 90_000 / 1_000_000_000);
            if t == 0 {
                last_dur
            } else if t < MIN_DUR {
                MIN_DUR
            } else if t > MAX_DUR {
                MAX_DUR
            } else {
                t
            }
        },
    }
}

/// How long a sample that came `now`, after one at `prev`, is to be shown.
pub fn sample_dur(prev: Option<u64>, now: u64, last_dur: u32) -> (r: u32)
    ensures
        r == sample_ticks(prev, now, last_dur),
{
    match prev {
        None => last_dur,
        Some(p) => {
            let ns: u64 = now.saturating_sub(p);
            let t: u32 = (ns as u128 * 90_000 / 1_000_000_000 % 0x1_0000_0000) as u32;
            if t == 0 {
                last_dur
            } else if t < MIN_DUR {
                MIN_DUR
            } else if t > MAX_DUR {
                MAX_DUR
            } else {
                t
            }
        },
    }
}

/// True where one picture is the other with its sides swapped.
pub open spec fn sides_swapped(a_w: u16, a_h: u16, b_w: u16, b_h: u16) -> bool {
    a_w != a_h && a_w == b_h && a_h == b_w
}

/// True where a phone was turned between the two pictures.
pub fn orient_swap(a_w: u16, a_h: u16, b_w: u16, b_h: u16) -> (r: bool)
    ensures
        r == sides_swapped(a_w, a_h, b_w, b_h),
{
    a_w != a_h && a_w == b_h && a_h == b_w
}

/// What a file that is being written holds so far.
pub ghost struct MuxModel {
    /// Bytes of all samples.
    pub payload: int,
    pub descs: Seq<DescModel>,
    pub chunks: Seq<Chunk>,
    pub samples: Seq<Sample>,
}

/// A file with no sample yet.
pub open spec fn fresh_mux() -> MuxModel {
    MuxModel { payload: 0, descs: Seq::empty(), chunks: Seq::empty(), samples: Seq::empty() }
}

/// What became of an access unit.
pub ghost enum Pushed {
    /// These bytes go to the end of the file.
    Written(Seq<u8>),
    Dropped,
    OrientFlip,
    TooLarge,
    Bad,
}

/// Bytes of the first `n` samples.
pub open spec fn bytes_of(samples: Seq<Sample>, n: int) -> int
    decreases n,
{
    if n <= 0 {
        0
    } else {
        bytes_of(samples, n - 1) + samples[n - 1].size
    }
}

/// How many samples the first `k` chunks hold.
pub open spec fn count_of(chunks: Seq<Chunk>, k: int) -> int
    decreases k,
{
    if k <= 0 {
        0
    } else {
        count_of(chunks, k - 1) + chunks[k - 1].count
    }
}

impl MuxModel {
    /// The tables agree with each other and with what was written.
    pub open spec fn wf(self) -> bool {
        &&& 8 + self.payload <= u32::MAX
        &&& self.payload == bytes_of(self.samples, self.samples.len() as int)
        &&& self.samples.len() == count_of(self.chunks, self.chunks.len() as int)
        &&& self.samples.len() <= self.payload
        &&& forall|i: int| 0 <= i < self.samples.len() ==> (#[trigger] self.samples[i]).size >= 1
        &&& forall|k: int|
            0 <= k < self.chunks.len() ==> {
                &&& (#[trigger] self.chunks[k]).off == DATA_AT + bytes_of(
                    self.samples,
                    count_of(self.chunks, k),
                )
                &&& 1 <= self.chunks[k].count <= self.samples.len()
                &&& self.descs.len() <= u32::MAX ==> 1 <= self.chunks[k].desc <= self.descs.len()
            }
    }

    /// With the description that an access unit brings, or what becomes of it instead.
    pub open spec fn described(self, s: Seq<u8>, sync: bool) -> (MuxModel, Option<Pushed>) {
        match params_of(s) {
            None => if self.descs.len() == 0 {
                (self, Some(Pushed::Dropped))
            } else {
                (self, None)
            },
            Some((sps, pps)) => if self.descs.len() > 0 && self.descs.last().sps == sps {
                (self, None)
            } else if !sync && self.descs.len() > 0 {
                (self, Some(Pushed::Dropped))
            } else {
                match stream_rectangle(s) {
                    None => (self, Some(Pushed::Dropped)),
                    Some(c) => {
                        let width = low16(c.w as int);
                        let height = low16(c.h as int);
                        if self.descs.len() > 0 && sides_swapped(
                            self.descs[0].width,
                            self.descs[0].height,
                            width,
                            height,
                        ) {
                            (self, Some(Pushed::OrientFlip))
                        } else if sps.len() < 4 {
                            (self, Some(Pushed::Bad))
                        } else {
                            let d = DescModel { width, height, avcc: config(sps, pps), sps };
                            (MuxModel { descs: self.descs.push(d), ..self }, None)
                        }
                    },
                }
            },
        }
    }

    /// With a sample of these bytes, of the latest description.
    pub open spec fn with_sample(self, b: Seq<u8>, dur: u32, sync: bool) -> MuxModel {
        let desc = low32(self.descs.len() as int);
        let n = self.chunks.len();
        MuxModel {
            payload: self.payload + b.len(),
            descs: self.descs,
            chunks: if n > 0 && self.chunks.last().desc == desc {
                self.chunks.update(
                    n - 1,
                    Chunk { count: (self.chunks.last().count + 1) as u32, ..self.chunks.last() },
                )
            } else {
                self.chunks.push(Chunk { off: (DATA_AT + self.payload) as u64, count: 1, desc })
            },
            samples: self.samples.push(
                Sample {
                    size: b.len() as u32,
                    dur: if dur == 0 {
                        1
                    } else {
                        dur
                    },
                    sync,
                },
            ),
        }
    }

    /// After an access unit, with what became of it.
    #[verifier::opaque]
    pub open spec fn pushed(self, s: Seq<u8>, dur: u32, sync: bool) -> (MuxModel, Pushed) {
        let (m, stop) = self.described(s, sync);
        match stop {
            Some(p) => (m, p),
            None => {
                let b = avcc_of(s);
                if b.len() == 0 {
                    (m, Pushed::Dropped)
                } else if 8 + m.payload + b.len() > u32::MAX {
                    (m, Pushed::TooLarge)
                } else {
                    (m.with_sample(b, dur, sync), Pushed::Written(b))
                }
            },
        }
    }

    /// The box at the end of the file, if there is anything to describe.
    pub open spec fn tail(self) -> Option<Seq<u8>> {
        if self.samples.len() == 0 || self.descs.len() == 0 || self.chunks.len() == 0 {
            None
        } else {
            Some(movie(self.samples, self.descs, self.chunks))
        }
    }
}

/// What became of an access unit.
pub enum Push {
    /// These bytes go to the end of the file.
    Written(Vec<u8>),
    /// Nothing of it belongs in the file.
    Dropped,
    /// The phone turned between portrait and landscape. Finish this file and start another.
    OrientFlip,
    /// Lengths and offsets are 32-bit. Finish and stop.
    TooLarge,
}

/// The tables of a file that is being written.
pub struct Mux {
    pub payload: u64,
    pub descs: Vec<Desc>,
    pub chunks: Vec<Chunk>,
    pub samples: Vec<Sample>,
}

impl View for Mux {
    type V = MuxModel;

    open spec fn view(&self) -> MuxModel {
        MuxModel {
            payload: self.payload as int,
            descs: descs_view(self.descs@),
            chunks: self.chunks@,
            samples: self.samples@,
        }
    }
}

/// What a file begins with: the opening box, and a box for samples whose length
/// is not known yet.
pub open spec fn preamble_bytes() -> Seq<u8> {
    ftyp_box() + be32(0) + be32(MDAT)
}

/// What a file begins with.
pub fn preamble() -> (r: Vec<u8>)
    ensures
        r@ == preamble_bytes(),
        r@.len() == DATA_AT,
{
    let mut b: Vec<u8> = ftyp();
    push_be32(&mut b, 0);
    push_be32(&mut b, MDAT);
    b
}

/// Earlier sums do not change when a sample is added.
proof fn bytes_of_push(samples: Seq<Sample>, x: Sample, n: int)
    requires
        n <= samples.len(),
    ensures
        bytes_of(samples.push(x), n) == bytes_of(samples, n),
    decreases n,
{
    if n > 0 {
        bytes_of_push(samples, x, n - 1);
    }
}

/// Sums depend on the chunks that they count alone.
proof fn count_of_same(a: Seq<Chunk>, b: Seq<Chunk>, k: int)
    requires
        k <= a.len(),
        k <= b.len(),
        forall|i: int| 0 <= i < k ==> a[i] == b[i],
    ensures
        count_of(a, k) == count_of(b, k),
    decreases k,
{
    if k > 0 {
        count_of_same(a, b, k - 1);
    }
}

/// The first chunks hold no more samples than all chunks.
proof fn count_of_grows(c: Seq<Chunk>, j: int, k: int)
    requires
        0 <= j <= k <= c.len(),
    ensures
        0 <= count_of(c, j) <= count_of(c, k),
    decreases k,
{
    if j < k {
        count_of_grows(c, j, k - 1);
    } else if k > 0 {
        count_of_grows(c, j - 1, k - 1);
    }
}

/// Adding a sample keeps the tables in agreement.
pub proof fn with_sample_keeps_tables(m: MuxModel, b: Seq<u8>, dur: u32, sync: bool)
    requires
        m.wf(),
        m.descs.len() > 0,
        b.len() > 0,
        8 + m.payload + b.len() <= u32::MAX,
    ensures
        m.with_sample(b, dur, sync).wf(),
{
    let z = m.with_sample(b, dur, sync);
    let n = m.chunks.len() as int;
    let x = z.samples.last();
    bytes_of_push(m.samples, x, m.samples.len() as int);
    let desc = low32(m.descs.len() as int);
    let merged = n > 0 && m.chunks.last().desc == desc;
    let kept = if merged {
        n - 1
    } else {
        n
    };
    assert forall|k: int| 0 <= k <= kept implies #[trigger] count_of(z.chunks, k) == count_of(
        m.chunks,
        k,
    ) by {
        count_of_same(z.chunks, m.chunks, k);
    }
    assert forall|k: int| 0 <= k < z.chunks.len() implies ({
        &&& (#[trigger] z.chunks[k]).off == DATA_AT + bytes_of(z.samples, count_of(z.chunks, k))
        &&& 1 <= z.chunks[k].count <= z.samples.len()
        &&& z.descs.len() <= u32::MAX ==> 1 <= z.chunks[k].desc <= z.descs.len()
    }) by {
        if k < n {
            assert(m.chunks[k].off == DATA_AT + bytes_of(m.samples, count_of(m.chunks, k)));
            count_of_grows(m.chunks, k, n);
            bytes_of_push(m.samples, x, count_of(m.chunks, k));
        }
    }
}

/// Where the tables say that sample `i`, which lies in chunk `k`, begins.
pub open spec fn table_position(m: MuxModel, k: int, i: int) -> int {
    m.chunks[k].off + (bytes_of(m.samples, i) - bytes_of(m.samples, count_of(m.chunks, k)))
}

/// Every sample is where the tables say: behind the samples before it, in the
/// order in which they were written.
pub proof fn samples_are_where_tables_say(m: MuxModel, k: int, i: int)
    requires
        m.wf(),
        0 <= k < m.chunks.len(),
        count_of(m.chunks, k) <= i < count_of(m.chunks, k + 1),
    ensures
        table_position(m, k, i) == DATA_AT + bytes_of(m.samples, i),
{
}

impl Mux {
    /// A new file.
    pub fn create() -> (r: Mux)
        ensures
            r@ == fresh_mux(),
            r@.wf(),
    {
        let r: Mux = Mux {
            payload: 0,
            descs: Vec::new(),
            chunks: Vec::new(),
            samples: Vec::new(),
        };
        assert(r@.descs =~= Seq::empty());
        r
    }

    /// Takes the description that an access unit brings.
    fn describe(&mut self, annex_b: &[u8], sync: bool) -> (r: Result<Option<Push>, MuxError>)
        requires
            old(self)@.wf(),
        ensures
            final(self)@.wf(),
            ({
                let (m, stop) = old(self)@.described(annex_b@, sync);
                &&& final(self)@ == m
                &&& match r {
                    Ok(None) => stop is None,
                    Ok(Some(p)) => (p is Dropped && stop == Some(Pushed::Dropped)) || (
                    p is OrientFlip && stop == Some(Pushed::OrientFlip)),
                    Err(e) => stop == Some(Pushed::Bad) && e == MuxError::BadParams,
                }
            }),
    {
        let n: usize = self.descs.len();
        match sps_pps(annex_b) {
            None => {
                if n == 0 {
                    return Ok(Some(Push::Dropped));
                }
                Ok(None)
            },
            Some((sps, pps)) => {
                proof {
                    units_not_empty(annex_b@, 0);
                    let us = units(annex_b@, 0);
                    last_unit_not_empty(us, us.len() as int, 8);
                }
                if n > 0 && same_bytes(self.descs[n - 1].sps.as_slice(), sps.as_slice()) {
                    return Ok(None);
                }
                if !sync && n > 0 {
                    return Ok(Some(Push::Dropped));
                }
                let crop: SpsCrop = match sps_crop_from_annex_b(annex_b) {
                    Some(c) => c,
                    None => {
                        return Ok(Some(Push::Dropped));
                    },
                };
                let width: u16 = (crop.w % 0x1_0000) as u16;
                let height: u16 = (crop.h % 0x1_0000) as u16;
                if n > 0 && orient_swap(self.descs[0].width, self.descs[0].height, width, height) {
                    return Ok(Some(Push::OrientFlip));
                }
                match avcc_box(sps.as_slice(), pps.as_slice()) {
                    Err(e) => Err(e),
                    Ok(avcc) => {
                        let ghost before = self.descs@;
                        self.descs.push(Desc { width, height, avcc, sps });
                        assert(descs_view(self.descs@) =~= descs_view(before).push(
                            self.descs@.last()@,
                        ));
                        Ok(None)
                    },
                }
            },
        }
    }

    /// Takes an access unit, to be shown for `dur` ticks.
    pub fn push(&mut self, annex_b: &[u8], dur: u32, sync: bool) -> (r: Result<Push, MuxError>)
        requires
            old(self)@.wf(),
        ensures
            final(self)@.wf(),
            final(self)@ == old(self)@.pushed(annex_b@, dur, sync).0,
            match r {
                Ok(Push::Written(b)) => old(self)@.pushed(annex_b@, dur, sync).1
                    == Pushed::Written(b@),
                Ok(Push::Dropped) => old(self)@.pushed(annex_b@, dur, sync).1 == Pushed::Dropped,
                Ok(Push::OrientFlip) => old(self)@.pushed(annex_b@, dur, sync).1
                    == Pushed::OrientFlip,
                Ok(Push::TooLarge) => old(self)@.pushed(annex_b@, dur, sync).1 == Pushed::TooLarge,
                Err(e) => old(self)@.pushed(annex_b@, dur, sync).1 == Pushed::Bad && e
                    == MuxError::BadParams,
            },
    {
        proof {
            reveal(MuxModel::pushed);
        }
        match self.describe(annex_b, sync) {
            Err(e) => {
                return Err(e);
            },
            Ok(Some(p)) => {
                return Ok(p);
            },
            Ok(None) => {},
        }
        let ghost m = self@;
        assert(m.descs.len() > 0);
        let avcc: Vec<u8> = annexb_to_avcc(annex_b);
        if avcc.is_empty() {
            return Ok(Push::Dropped);
        }
        if 8u128 + self.payload as u128 + avcc.len() as u128 > u32::MAX as u128 {
            return Ok(Push::TooLarge);
        }
        proof {
            with_sample_keeps_tables(m, avcc@, dur, sync);
        }
        let desc: u32 = to_u32(self.descs.len());
        let off: u64 = DATA_AT + self.payload;
        self.payload = self.payload + avcc.len() as u64;
        let n: usize = self.chunks.len();
        if n > 0 && self.chunks[n - 1].desc == desc {
            let c: Chunk = self.chunks[n - 1];
            assert(m.chunks[n - 1].count <= m.samples.len());
            self.chunks.set(n - 1, Chunk { off: c.off, count: c.count + 1, desc: c.desc });
        } else {
            self.chunks.push(Chunk { off, count: 1, desc });
        }
        self.samples.push(
            Sample {
                size: avcc.len() as u32,
                dur: if dur == 0 {
                    1
                } else {
                    dur
                },
                sync,
            },
        );
        assert(self@.chunks =~= m.with_sample(avcc@, dur, sync).chunks);
        Ok(Push::Written(avcc))
    }

    /// The length of the box that holds the samples, and the box for the end of the file.
    pub fn finish(&self) -> (r: (u32, Result<Vec<u8>, MuxError>))
        requires
            self@.wf(),
        ensures
            r.0 == 8 + self@.payload,
            match r.1 {
                Ok(b) => self@.tail() == Some(b@),
                Err(e) => self@.tail() is None && e == MuxError::NoSamples,
            },
    {
        (
            (8 + self.payload) as u32,
            moov_box(self.samples.as_slice(), self.descs.as_slice(), self.chunks.as_slice()),
        )
    }
}

/// A unit that was found holds at least its header.
proof fn last_unit_not_empty(us: Seq<Seq<u8>>, n: int, t: u8)
    requires
        n <= us.len(),
        forall|k: int| 0 <= k < us.len() ==> (#[trigger] us[k]).len() > 0,
    ensures
        last_unit(us, n, t) matches Some(u) ==> u.len() > 0,
    decreases n,
{
    if n > 0 {
        last_unit_not_empty(us, n - 1, t);
    }
}

/// True where two byte strings are the same.
fn same_bytes(a: &[u8], b: &[u8]) -> (r: bool)
    ensures
        r == (a@ == b@),
{
    if a.len() != b.len() {
        return false;
    }
    let mut i: usize = 0;
    while i < a.len()
        invariant
            i <= a@.len() == b@.len(),
            forall|k: int| 0 <= k < i ==> a@[k] == b@[k],
        decreases a@.len() - i,
    {
        if a[i] != b[i] {
            return false;
        }
        i += 1;
    }
    assert(a@ =~= b@);
    true
}

/// Why a recording cannot start or go on.
#[derive(Clone, Copy, PartialEq, Eq, Structural, Debug)]
pub enum RecordError {
    AlreadyRecording,
    NoName,
    NoSamples,
    BadParams,
    TooLarge,
}

impl RecordError {
    /// The error in words.
    pub open spec fn words(self) -> Seq<char> {
        match self {
            RecordError::AlreadyRecording => "already recording"@,
            RecordError::NoName => "could not pick a recording name"@,
            RecordError::NoSamples => "no samples"@,
            RecordError::BadParams => "bad SPS/PPS"@,
            RecordError::TooLarge => "the file reached the 4 GB limit"@,
        }
    }

    /// The error in words.
    pub fn message(self) -> (r: &'static str)
        ensures
            r@ == self.words(),
    {
        match self {
            RecordError::AlreadyRecording => "already recording",
            RecordError::NoName => "could not pick a recording name",
            RecordError::NoSamples => "no samples",
            RecordError::BadParams => "bad SPS/PPS",
            RecordError::TooLarge => "the file reached the 4 GB limit",
        }
    }
}

/// One thing to do with files.
pub ghost enum StepModel {
    /// Make the file and write the preamble to it.
    Create,
    /// Write these bytes at the end of the file.
    Append(Seq<u8>),
    /// Write this number over the length of the box that holds the samples.
    Patch(u32),
    /// Go over to the next free name.
    NextName,
    /// Remove the file.
    Delete,
}

/// One thing to do with files.
pub enum FileStep {
    /// Make the file and write the preamble to it.
    Create,
    /// Write these bytes at the end of the file.
    Append(Vec<u8>),
    /// Write this number over the length of the box that holds the samples.
    Patch(u32),
    /// Go over to the next free name, and say that the phone turned.
    NextName,
    /// Remove the file: nothing was worth keeping.
    Delete,
}

impl View for FileStep {
    type V = StepModel;

    open spec fn view(&self) -> StepModel {
        match self {
            FileStep::Create => StepModel::Create,
            FileStep::Append(b) => StepModel::Append(b@),
            FileStep::Patch(n) => StepModel::Patch(*n),
            FileStep::NextName => StepModel::NextName,
            FileStep::Delete => StepModel::Delete,
        }
    }
}

/// The models of a list of steps.
pub open spec fn steps_view(v: Seq<FileStep>) -> Seq<StepModel> {
    v.map_values(|s: FileStep| s@)
}

/// Where the writer stands.
pub ghost struct WriterModel {
    /// The open file, if one was begun.
    pub mux: Option<MuxModel>,
    /// When the latest sample came, in nanoseconds.
    pub last_at: Option<u64>,
    /// How long the sample before it is shown, in ticks.
    pub last_dur: u32,
}

/// How a file is closed: the length is filled in, and the tables are written
/// behind the samples. There are none to write where there is no sample.
pub open spec fn closing(m: MuxModel) -> (Seq<StepModel>, Option<RecordError>) {
    let patch = StepModel::Patch((8 + m.payload) as u32);
    match m.tail() {
        Some(b) => (seq![patch, StepModel::Append(b)], None),
        None => (seq![patch], Some(RecordError::NoSamples)),
    }
}

/// How a file is opened with its first access unit.
pub open spec fn opening(w: WriterModel, s: Seq<u8>, at: u64) -> (
    WriterModel,
    Seq<StepModel>,
    Option<RecordError>,
) {
    let (m, p) = fresh_mux().pushed(s, w.last_dur, true);
    let w = WriterModel { mux: Some(m), last_at: Some(at), ..w };
    match p {
        Pushed::Written(b) => (w, seq![StepModel::Create, StepModel::Append(b)], None),
        Pushed::Bad => (w, seq![StepModel::Create], Some(RecordError::BadParams)),
        _ => (w, seq![StepModel::Create], None),
    }
}

impl WriterModel {
    pub open spec fn wf(self) -> bool {
        self.mux matches Some(m) ==> m.wf()
    }

    /// After an access unit that came at `at`. Nothing is begun before a
    /// keyframe. When the phone turns, the file is closed and another begun.
    pub open spec fn ingested(self, s: Seq<u8>, at: u64) -> (
        WriterModel,
        Seq<StepModel>,
        Option<RecordError>,
    ) {
        match self.mux {
            None => if has_unit(s, 5) {
                opening(self, s, at)
            } else {
                (self, Seq::empty(), None)
            },
            Some(m) => {
                let dur = sample_ticks(self.last_at, at, self.last_dur);
                let (z, p) = m.pushed(s, dur, has_unit(s, 5));
                match p {
                    Pushed::Written(b) => (
                        WriterModel { mux: Some(z), last_at: Some(at), last_dur: dur },
                        seq![StepModel::Append(b)],
                        None,
                    ),
                    Pushed::Dropped => (WriterModel { mux: Some(z), ..self }, Seq::empty(), None),
                    Pushed::Bad => (
                        WriterModel { mux: Some(z), ..self },
                        Seq::empty(),
                        Some(RecordError::BadParams),
                    ),
                    Pushed::TooLarge => {
                        let (steps, failed) = closing(z);
                        (
                            WriterModel { mux: None, ..self },
                            steps,
                            match failed {
                                Some(e) => Some(e),
                                None => Some(RecordError::TooLarge),
                            },
                        )
                    },
                    Pushed::OrientFlip => {
                        let (steps, failed) = closing(z);
                        match failed {
                            Some(e) => (WriterModel { mux: None, ..self }, steps, Some(e)),
                            None => {
                                let (w, more, e) = opening(self, s, at);
                                (w, steps + seq![StepModel::NextName] + more, e)
                            },
                        }
                    },
                }
            },
        }
    }

    /// How the writer ends: the open file is closed, or the empty one removed.
    pub open spec fn ended(self) -> (Seq<StepModel>, Option<RecordError>) {
        match self.mux {
            Some(m) => closing(m),
            None => (seq![StepModel::Delete], None),
        }
    }
}

/// What the writer does with access units as they come.
pub struct Writer {
    pub mux: Option<Mux>,
    pub last_at: Option<u64>,
    pub last_dur: u32,
}

impl View for Writer {
    type V = WriterModel;

    open spec fn view(&self) -> WriterModel {
        WriterModel {
            mux: match self.mux {
                Some(m) => Some(m@),
                None => None,
            },
            last_at: self.last_at,
            last_dur: self.last_dur,
        }
    }
}

/// What there is for the writer.
pub enum Msg {
    /// An access unit, and when it came in nanoseconds.
    Au { bytes: Vec<u8>, at: u64 },
    /// No more.
    Stop,
}

/// Appends the steps that close a file.
fn close_steps(m: &Mux, steps: &mut Vec<FileStep>) -> (failed: Option<RecordError>)
    requires
        m@.wf(),
    ensures
        steps_view(final(steps)@) == steps_view(old(steps)@) + closing(m@).0,
        failed == closing(m@).1,
{
    let ghost before = steps@;
    let (length, tail) = m.finish();
    steps.push(FileStep::Patch(length));
    assert(steps_view(steps@) =~= steps_view(before) + seq![StepModel::Patch(length)]);
    match tail {
        Ok(b) => {
            steps.push(FileStep::Append(b));
            assert(steps_view(steps@) =~= steps_view(before) + closing(m@).0);
            None
        },
        Err(_) => Some(RecordError::NoSamples),
    }
}

impl Writer {
    /// A writer that has seen nothing.
    pub fn new() -> (r: Writer)
        ensures
            r@ == (WriterModel { mux: None, last_at: None, last_dur: DEFAULT_DUR }),
            r@.wf(),
    {
        Writer { mux: None, last_at: None, last_dur: DEFAULT_DUR }
    }

    /// Begins a file with an access unit.
    fn begin(&mut self, bytes: &[u8], at: u64, steps: &mut Vec<FileStep>) -> (failed: Option<
        RecordError,
    >)
        ensures
            final(self)@ == opening(old(self)@, bytes@, at).0,
            final(self)@.wf(),
            steps_view(final(steps)@) == steps_view(old(steps)@) + opening(
                old(self)@,
                bytes@,
                at,
            ).1,
            failed == opening(old(self)@, bytes@, at).2,
    {
        let ghost before = steps@;
        let mut m: Mux = Mux::create();
        steps.push(FileStep::Create);
        assert(steps_view(steps@) =~= steps_view(before) + seq![StepModel::Create]);
        let out: Result<Push, MuxError> = m.push(bytes, self.last_dur, true);
        self.mux = Some(m);
        self.last_at = Some(at);
        match out {
            Ok(Push::Written(b)) => {
                steps.push(FileStep::Append(b));
                assert(steps_view(steps@) =~= steps_view(before) + seq![
                    StepModel::Create,
                    StepModel::Append(b@),
                ]);
                None
            },
            Ok(_) => None,
            Err(_) => Some(RecordError::BadParams),
        }
    }

    /// Takes an access unit. The steps are to be carried out in order; an error
    /// behind them ends the recording.
    pub fn ingest_au(&mut self, bytes: &[u8], at: u64) -> (r: (Vec<FileStep>, Option<RecordError>))
        requires
            old(self)@.wf(),
        ensures
            final(self)@.wf(),
            final(self)@ == old(self)@.ingested(bytes@, at).0,
            steps_view(r.0@) == old(self)@.ingested(bytes@, at).1,
            r.1 == old(self)@.ingested(bytes@, at).2,
    {
        let mut steps: Vec<FileStep> = Vec::new();
        assert(steps_view(steps@) =~= Seq::empty());
        let taken: Option<Mux> = self.mux.take();
        let failed: Option<RecordError> = match taken {
            None => {
                if is_idr(bytes) {
                    let failed: Option<RecordError> = self.begin(bytes, at, &mut steps);
                    assert(steps_view(steps@) =~= old(self)@.ingested(bytes@, at).1);
                    failed
                } else {
                    None
                }
            },
            Some(mut m) => {
                let dur: u32 = sample_dur(self.last_at, at, self.last_dur);
                let sync: bool = is_idr(bytes);
                match m.push(bytes, dur, sync) {
                    Ok(Push::Written(b)) => {
                        self.mux = Some(m);
                        self.last_dur = dur;
                        self.last_at = Some(at);
                        steps.push(FileStep::Append(b));
                        assert(steps_view(steps@) =~= seq![StepModel::Append(b@)]);
                        None
                    },
                    Ok(Push::Dropped) => {
                        self.mux = Some(m);
                        None
                    },
                    Err(_) => {
                        self.mux = Some(m);
                        Some(RecordError::BadParams)
                    },
                    Ok(Push::TooLarge) => {
                        let failed: Option<RecordError> = close_steps(&m, &mut steps);
                        assert(steps_view(steps@) =~= closing(m@).0);
                        match failed {
                            Some(e) => Some(e),
                            None => Some(RecordError::TooLarge),
                        }
                    },
                    Ok(Push::OrientFlip) => {
                        let failed: Option<RecordError> = close_steps(&m, &mut steps);
                        assert(steps_view(steps@) =~= closing(m@).0);
                        match failed {
                            Some(e) => Some(e),
                            None => {
                                let ghost before = steps@;
                                steps.push(FileStep::NextName);
                                assert(steps_view(steps@) =~= closing(m@).0 + seq![
                                    StepModel::NextName,
                                ]);
                                assert(opening(self@, bytes@, at) == opening(
                                    old(self)@,
                                    bytes@,
                                    at,
                                ));
                                self.begin(bytes, at, &mut steps)
                            },
                        }
                    },
                }
            },
        };
        (steps, failed)
    }

    /// Ends the recording: closes the open file, or removes an empty one.
    pub fn end(&mut self) -> (r: (Vec<FileStep>, Option<RecordError>))
        requires
            old(self)@.wf(),
        ensures
            final(self)@ == (WriterModel { mux: None, ..old(self)@ }),
            steps_view(r.0@) == old(self)@.ended().0,
            r.1 == old(self)@.ended().1,
    {
        let mut steps: Vec<FileStep> = Vec::new();
        assert(steps_view(steps@) =~= Seq::empty());
        match self.mux.take() {
            Some(m) => {
                let failed: Option<RecordError> = close_steps(&m, &mut steps);
                assert(steps_view(steps@) =~= closing(m@).0);
                (steps, failed)
            },
            None => {
                steps.push(FileStep::Delete);
                assert(steps_view(steps@) =~= seq![StepModel::Delete]);
                (steps, None)
            },
        }
    }

    /// Gives a recording up after an error: closes the open file as far as that
    /// goes, and removes nothing.
    pub fn abandon(&mut self) -> (r: Vec<FileStep>)
        requires
            old(self)@.wf(),
        ensures
            final(self)@ == (WriterModel { mux: None, ..old(self)@ }),
            steps_view(r@) == match old(self)@.mux {
                Some(m) => closing(m).0,
                None => Seq::empty(),
            },
    {
        let mut steps: Vec<FileStep> = Vec::new();
        assert(steps_view(steps@) =~= Seq::empty());
        if let Some(m) = self.mux.take() {
            let _ = close_steps(&m, &mut steps);
            assert(steps_view(steps@) =~= closing(m@).0);
        }
        steps
    }

    /// One turn of the writer. `None` means that there is more to come,
    /// otherwise the recording is over, well or not.
    pub fn writer_loop(&mut self, msg: Msg) -> (r: (Vec<FileStep>, Option<Result<(), RecordError>>))
        requires
            old(self)@.wf(),
        ensures
            final(self)@.wf(),
            match msg {
                Msg::Stop => {
                    &&& final(self)@ == (WriterModel { mux: None, ..old(self)@ })
                    &&& steps_view(r.0@) == old(self)@.ended().0
                    &&& r.1 == Some(
                        match old(self)@.ended().1 {
                            Some(e) => Err::<(), RecordError>(e),
                            None => Ok(()),
                        },
                    )
                },
                Msg::Au { bytes, at } => {
                    let (w, steps, failed) = old(self)@.ingested(bytes@, at);
                    match failed {
                        None => final(self)@ == w && steps_view(r.0@) == steps && r.1 is None,
                        Some(e) => {
                            &&& final(self)@ == (WriterModel { mux: None, ..w })
                            &&& steps_view(r.0@) == steps + match w.mux {
                                Some(m) => closing(m).0,
                                None => Seq::empty(),
                            }
                            &&& r.1 == Some(Err::<(), RecordError>(e))
                        },
                    }
                },
            },
    {
        match msg {
            Msg::Stop => {
                let (steps, failed) = self.end();
                (
                    steps,
                    Some(
                        match failed {
                            Some(e) => Err(e),
                            None => Ok(()),
                        },
                    ),
                )
            },
            Msg::Au { bytes, at } => {
                let (mut steps, failed) = self.ingest_au(bytes.as_slice(), at);
                match failed {
                    None => (steps, None),
                    Some(e) => {
                        let ghost first = steps@;
                        let mut more: Vec<FileStep> = self.abandon();
                        let ghost second = more@;
                        steps.append(&mut more);
                        assert(steps_view(steps@) =~= steps_view(first) + steps_view(second));
                        (steps, Some(Err(e)))
                    },
                }
            },
        }
    }
}

/// Those of the first `n` units that go into a sample.
pub open spec fn kept(us: Seq<Seq<u8>>, n: int) -> Seq<Seq<u8>>
    decreases n,
{
    if n <= 0 {
        Seq::empty()
    } else if in_sample(us[n - 1]) {
        kept(us, n - 1).push(us[n - 1])
    } else {
        kept(us, n - 1)
    }
}

/// What a player reads out of a sample from `at` on: a length, then that many bytes.
pub open spec fn sample_units(b: Seq<u8>, at: int) -> Seq<Seq<u8>>
    decreases b.len() - at,
{
    if at < 0 || at + 4 > b.len() {
        Seq::empty()
    } else {
        let n = be32_at(b, at) as int;
        if at + 4 + n > b.len() {
            Seq::empty()
        } else {
            seq![b.subrange(at + 4, at + 4 + n)] + sample_units(b, at + 4 + n)
        }
    }
}

/// A player gets back, in order, the units of the access unit that go into a sample.
pub proof fn sample_gives_back_units(s: Seq<u8>)
    requires
        avcc_of(s).len() <= u32::MAX,
    ensures
        sample_units(avcc_of(s), 0) == kept(units(s, 0), units(s, 0).len() as int),
{
    let us = units(s, 0);
    let n = us.len() as int;
    read_back(us, n, Seq::empty());
    assert(sample_of(us, n) + Seq::<u8>::empty() =~= sample_of(us, n));
    assert(sample_units(Seq::<u8>::empty(), 0) =~= Seq::empty());
    assert(sample_units(avcc_of(s), avcc_of(s).len() as int) =~= Seq::empty());
    assert(kept(us, n) + Seq::<Seq<u8>>::empty() =~= kept(us, n));
}

/// What stands behind the first `n` units is read behind them.
proof fn read_back(us: Seq<Seq<u8>>, n: int, rest: Seq<u8>)
    requires
        0 <= n <= us.len(),
        sample_of(us, n).len() + rest.len() <= u32::MAX,
    ensures
        sample_units(sample_of(us, n) + rest, 0) == kept(us, n) + sample_units(
            sample_of(us, n) + rest,
            sample_of(us, n).len() as int,
        ),
    decreases n,
{
    let b = sample_of(us, n) + rest;
    if n <= 0 {
        assert(kept(us, n) + sample_units(b, 0) =~= sample_units(b, 0));
    } else if !in_sample(us[n - 1]) {
        read_back(us, n - 1, rest);
    } else {
        let u = us[n - 1];
        let front = sample_of(us, n - 1);
        let prefix = be32(low32(u.len() as int));
        let more = prefix + u + rest;
        assert(b =~= front + more);
        read_back(us, n - 1, more);
        let at = front.len() as int;
        word_roundtrip(low32(u.len() as int));
        assert(be32_at(b, at) == be32_at(prefix, 0));
        assert(b.subrange(at + 4, at + 4 + u.len()) =~= u);
        assert(sample_units(b, at) == seq![u] + sample_units(b, at + 4 + u.len()));
        assert(at + 4 + u.len() == sample_of(us, n).len());
        assert(kept(us, n - 1) + (seq![u] + sample_units(b, at + 4 + u.len())) =~= kept(us, n)
            + sample_units(b, at + 4 + u.len()));
    }
}

/// What a file holds after a step. The next name is that of an empty file.
pub open spec fn performed(file: Seq<u8>, step: StepModel) -> Seq<u8> {
    match step {
        StepModel::Create => preamble_bytes(),
        StepModel::Append(b) => file + b,
        StepModel::Patch(n) => overlay(file, LENGTH_AT as int, be32(n)),
        StepModel::NextName | StepModel::Delete => Seq::empty(),
    }
}

/// What a file holds after the first `n` steps.
pub open spec fn performed_all(file: Seq<u8>, steps: Seq<StepModel>, n: int) -> Seq<u8>
    decreases n,
{
    if n <= 0 {
        file
    } else {
        performed(performed_all(file, steps, n - 1), steps[n - 1])
    }
}

/// The first `n` of some pieces, one behind the other.
pub open spec fn one_behind_the_other(bs: Seq<Seq<u8>>, n: int) -> Seq<u8>
    decreases n,
{
    if n <= 0 {
        Seq::empty()
    } else {
        one_behind_the_other(bs, n - 1) + bs[n - 1]
    }
}

/// True of an open file that holds these samples, as the tables have them.
pub open spec fn holds_samples(file: Seq<u8>, m: MuxModel, bs: Seq<Seq<u8>>) -> bool {
    &&& file == preamble_bytes() + one_behind_the_other(bs, bs.len() as int)
    &&& bs.len() == m.samples.len()
    &&& forall|i: int| 0 <= i < bs.len() ==> (#[trigger] bs[i]).len() == m.samples[i].size
}

/// A file that was just made holds no samples.
pub proof fn new_file_is_empty()
    ensures
        holds_samples(performed(Seq::empty(), StepModel::Create), fresh_mux(), Seq::empty()),
{
    assert(preamble_bytes() + one_behind_the_other(Seq::<Seq<u8>>::empty(), 0)
        =~= preamble_bytes());
}

/// An access unit that is written becomes the last sample, and the samples before
/// it stay as they are.
pub proof fn written_is_the_last_sample(
    m: MuxModel,
    file: Seq<u8>,
    bs: Seq<Seq<u8>>,
    s: Seq<u8>,
    dur: u32,
    sync: bool,
    b: Seq<u8>,
)
    requires
        holds_samples(file, m, bs),
        m.pushed(s, dur, sync).1 == Pushed::Written(b),
        0 <= m.payload,
    ensures
        b == avcc_of(s),
        holds_samples(
            performed(file, StepModel::Append(b)),
            m.pushed(s, dur, sync).0,
            bs.push(b),
        ),
{
    let z = m.pushed(s, dur, sync).0;
    written_adds_a_sample(m, s, dur, sync, b);
    one_more_piece(file, m, z, bs, b);
}

proof fn one_more_piece(file: Seq<u8>, m: MuxModel, z: MuxModel, bs: Seq<Seq<u8>>, b: Seq<u8>)
    requires
        holds_samples(file, m, bs),
        z.samples.len() == m.samples.len() + 1,
        z.samples.drop_last() == m.samples,
        z.samples.last().size == b.len(),
    ensures
        holds_samples(performed(file, StepModel::Append(b)), z, bs.push(b)),
{
    let n = bs.len() as int;
    let all = bs.push(b);
    pieces_of_push(bs, b, n);
    assert(file + b =~= preamble_bytes() + one_behind_the_other(all, n + 1));
    assert forall|i: int| 0 <= i < all.len() implies (#[trigger] all[i]).len()
        == z.samples[i].size by {
        if i < n {
            assert(all[i] == bs[i]);
            assert(z.samples[i] == z.samples.drop_last()[i]);
        }
    }
}

/// What an access unit that is written adds to the tables: a sample with its size, its
/// time and whether it is a keyframe, in the last chunk, of the latest description.
pub proof fn written_adds_a_sample(m: MuxModel, s: Seq<u8>, dur: u32, sync: bool, b: Seq<u8>)
    requires
        m.pushed(s, dur, sync).1 == Pushed::Written(b),
        0 <= m.payload,
    ensures
        ({
            let z = m.pushed(s, dur, sync).0;
            let n = z.chunks.len() as int;
            &&& b == avcc_of(s)
            &&& 0 < b.len() <= u32::MAX
            &&& z.payload == m.payload + b.len() <= u32::MAX
            &&& z.samples.len() == m.samples.len() + 1
            &&& z.samples.drop_last() == m.samples
            &&& z.samples.last().size == b.len()
            &&& z.samples.last().sync == sync
            &&& z.samples.last().dur == dur || (dur == 0 && z.samples.last().dur == 1)
            &&& z.descs.len() > 0
            &&& n > 0
            &&& z.chunks.last().desc == z.descs.len() % 0x1_0000_0000
            &&& (n == m.chunks.len() && m.chunks.last().desc == z.chunks.last().desc
                && z.chunks.drop_last() == m.chunks.drop_last() && z.chunks.last().off
                == m.chunks.last().off && (m.chunks.last().count < u32::MAX
                ==> z.chunks.last().count == m.chunks.last().count + 1)) || (n == m.chunks.len() + 1 && z.chunks.drop_last() == m.chunks
                && z.chunks.last().off == 40 + m.payload && z.chunks.last().count == 1)
        }),
{
    let d = m.described(s, sync).0;
    described_keeps_samples(m, s, sync);
    written_goes_behind(m, s, dur, sync, b);
    sample_goes_behind(d, b, dur, sync);
}

#[verifier::spinoff_prover]
#[verifier::rlimit(50)]
proof fn written_goes_behind(m: MuxModel, s: Seq<u8>, dur: u32, sync: bool, b: Seq<u8>)
    requires
        m.pushed(s, dur, sync).1 == Pushed::Written(b),
    ensures
        m.described(s, sync).1 is None,
        b == avcc_of(s),
        b.len() > 0,
        8 + m.described(s, sync).0.payload + b.len() <= u32::MAX,
        m.pushed(s, dur, sync).0 == m.described(s, sync).0.with_sample(b, dur, sync),
{
    reveal(MuxModel::pushed);
    described_keeps_samples(m, s, sync);
}

#[verifier::spinoff_prover]
#[verifier::rlimit(50)]
proof fn sample_goes_behind(d: MuxModel, b: Seq<u8>, dur: u32, sync: bool)
    requires
        0 <= d.payload,
        0 < b.len(),
        8 + d.payload + b.len() <= u32::MAX,
    ensures
        ({
            let z = d.with_sample(b, dur, sync);
            let n = z.chunks.len() as int;
            &&& z.descs == d.descs
            &&& z.payload == d.payload + b.len()
            &&& z.samples.len() == d.samples.len() + 1
            &&& z.samples.drop_last() == d.samples
            &&& z.samples.last().size == b.len()
            &&& z.samples.last().sync == sync
            &&& z.samples.last().dur == dur || (dur == 0 && z.samples.last().dur == 1)
            &&& n > 0
            &&& z.chunks.last().desc == d.descs.len() % 0x1_0000_0000
            &&& (n == d.chunks.len() && d.chunks.last().desc == z.chunks.last().desc
                && z.chunks.drop_last() == d.chunks.drop_last() && z.chunks.last().off
                == d.chunks.last().off && (d.chunks.last().count < u32::MAX
                ==> z.chunks.last().count == d.chunks.last().count + 1)) || (n == d.chunks.len() + 1 && z.chunks.drop_last() == d.chunks
                && z.chunks.last().off == 40 + d.payload && z.chunks.last().count == 1)
        }),
{
    let z = d.with_sample(b, dur, sync);
    assert(z.samples.drop_last() =~= d.samples);
    let n = d.chunks.len() as int;
    if n > 0 && d.chunks.last().desc == low32(d.descs.len() as int) {
        assert(z.chunks.drop_last() =~= d.chunks.drop_last());
    } else {
        assert(z.chunks.drop_last() =~= d.chunks);
    }
}

/// What the description that an access unit brings does to the tables.
#[verifier::spinoff_prover]
#[verifier::rlimit(50)]
pub proof fn described_keeps_samples(m: MuxModel, s: Seq<u8>, sync: bool)
    ensures
        ({
            let (d, stop) = m.described(s, sync);
            &&& d.samples == m.samples && d.chunks == m.chunks && d.payload == m.payload
            &&& stop is None ==> d.descs.len() > 0
            &&& stop matches Some(p) ==> !(p is Written)
            &&& d.descs == m.descs || (d.descs.len() == m.descs.len() + 1 && d.descs.drop_last()
                == m.descs)
        }),
{
    let (d, stop) = m.described(s, sync);
    if d.descs.len() == m.descs.len() + 1 {
        assert(d.descs.drop_last() =~= m.descs);
    }
}

/// A sample is decoded with the parameter sets that it brings: the latest description
/// is made from them, and gives the size that the stream declares.
#[verifier::spinoff_prover]
#[verifier::rlimit(50)]
pub proof fn samples_get_their_description(
    m: MuxModel,
    s: Seq<u8>,
    dur: u32,
    sync: bool,
    b: Seq<u8>,
    sps: Seq<u8>,
    pps: Seq<u8>,
)
    requires
        m.pushed(s, dur, sync).1 == Pushed::Written(b),
        params_of(s) == Some((sps, pps)),
    ensures
        ({
            let z = m.pushed(s, dur, sync).0;
            &&& z.descs.len() > 0
            &&& z.descs.last().sps == sps
            &&& m.descs.len() == 0 || m.descs.last().sps != sps ==> {
                &&& z.descs.len() == m.descs.len() + 1
                &&& z.descs.last().avcc == config(sps, pps)
                &&& sps.len() >= 4
                &&& stream_rectangle(s) matches Some(c) && z.descs.last().width == c.w
                    % 0x1_0000 && z.descs.last().height == c.h % 0x1_0000
            }
        }),
{
    reveal(MuxModel::pushed);
}

proof fn pieces_of_push(bs: Seq<Seq<u8>>, b: Seq<u8>, n: int)
    requires
        0 <= n <= bs.len(),
    ensures
        one_behind_the_other(bs.push(b), n) == one_behind_the_other(bs, n),
    decreases n,
{
    if n > 0 {
        pieces_of_push(bs, b, n - 1);
        assert(bs.push(b)[n - 1] == bs[n - 1]);
    }
}

/// Pieces lie where the sizes before them add up to.
proof fn piece_lies_behind(samples: Seq<Sample>, bs: Seq<Seq<u8>>, i: int, n: int)
    requires
        0 <= i < n <= bs.len(),
        bs.len() == samples.len(),
        forall|k: int| 0 <= k < bs.len() ==> (#[trigger] bs[k]).len() == samples[k].size,
    ensures
        one_behind_the_other(bs, n).len() == bytes_of(samples, n),
        bytes_of(samples, i) >= 0,
        bytes_of(samples, i) + bs[i].len() <= bytes_of(samples, n),
        one_behind_the_other(bs, n).subrange(
            bytes_of(samples, i),
            bytes_of(samples, i) + bs[i].len(),
        ) == bs[i],
    decreases n,
{
    let at = bytes_of(samples, i);
    let all = one_behind_the_other(bs, n);
    let front = one_behind_the_other(bs, n - 1);
    assert(bs[n - 1].len() == samples[n - 1].size);
    if i < n - 1 {
        piece_lies_behind(samples, bs, i, n - 1);
        assert(all.subrange(at, at + bs[i].len()) =~= front.subrange(at, at + bs[i].len()));
    } else {
        if n > 1 {
            piece_lies_behind(samples, bs, n - 2, n - 1);
        } else {
            assert(front.len() == 0);
        }
        assert(all.subrange(at, at + bs[i].len()) =~= bs[i]);
    }
}

/// The parts of a file whose length was filled in and whose tables were added.
proof fn parts_of_finished(
    kind: Seq<u8>,
    blank: Seq<u8>,
    word: Seq<u8>,
    mark: Seq<u8>,
    data: Seq<u8>,
    tables: Seq<u8>,
    a: int,
    b: int,
)
    requires
        kind.len() == 32,
        blank.len() == 4,
        word.len() == 4,
        mark.len() == 4,
        0 <= a <= b <= data.len(),
    ensures
        ({
            let f = overlay(kind + blank + mark + data, 32, word) + tables;
            &&& f.len() == 40 + data.len() + tables.len()
            &&& f.take(32) == kind
            &&& f.subrange(32, 36) == word
            &&& f.subrange(36, 40) == mark
            &&& f.subrange(40 + a, 40 + b) == data.subrange(a, b)
            &&& f.skip(40 + data.len() as int) == tables
        }),
{
    let f = overlay(kind + blank + mark + data, 32, word) + tables;
    assert(f.take(32) =~= kind);
    assert(f.subrange(32, 36) =~= word);
    assert(f.subrange(36, 40) =~= mark);
    assert(f.subrange(40 + a, 40 + b) =~= data.subrange(a, b));
    assert(f.skip(40 + data.len() as int) =~= tables);
}

/// Closing a file with samples fills in its length and adds the tables.
proof fn closed_file(m: MuxModel, file: Seq<u8>)
    requires
        m.samples.len() > 0,
        m.descs.len() > 0,
        m.chunks.len() > 0,
    ensures
        closing(m).1 is None,
        performed_all(file, closing(m).0, closing(m).0.len() as int) == overlay(
            file,
            LENGTH_AT as int,
            be32((8 + m.payload) as u32),
        ) + movie(m.samples, m.descs, m.chunks),
{
    reveal_with_fuel(performed_all, 3);
}

/// A recording that was finished can be played: it begins with its type, the box
/// for samples has its length, every sample is whole where the tables say, and
/// the tables follow.
#[verifier::spinoff_prover]
#[verifier::rlimit(50)]
pub proof fn finished_file_plays(m: MuxModel, file: Seq<u8>, bs: Seq<Seq<u8>>, k: int, i: int)
    requires
        m.wf(),
        holds_samples(file, m, bs),
        0 <= k < m.chunks.len(),
        count_of(m.chunks, k) <= i < count_of(m.chunks, k + 1),
        0 <= i < bs.len(),
        m.descs.len() > 0,
    ensures
        ({
            let (steps, failed) = closing(m);
            let f = performed_all(file, steps, steps.len() as int);
            let at = table_position(m, k, i);
            &&& failed is None
            &&& f.len() == DATA_AT + m.payload + movie(m.samples, m.descs, m.chunks).len()
            &&& f.take(LENGTH_AT as int) == ftyp_box()
            &&& f.subrange(LENGTH_AT as int, LENGTH_AT + 4) == be32((8 + m.payload) as u32)
            &&& f.subrange(LENGTH_AT + 4, DATA_AT as int) == be32(MDAT)
            &&& DATA_AT <= at && at + bs[i].len() <= DATA_AT + m.payload
            &&& f.subrange(at, at + bs[i].len()) == bs[i]
            &&& f.skip(DATA_AT + m.payload) == movie(m.samples, m.descs, m.chunks)
        }),
{
    let n = bs.len() as int;
    let word = be32((8 + m.payload) as u32);
    let t = movie(m.samples, m.descs, m.chunks);
    let from = bytes_of(m.samples, i);
    piece_lies_behind(m.samples, bs, i, n);
    samples_are_where_tables_say(m, k, i);
    words_len(seq![ISOM, 0x200, ISOM, ISO2, AVC1, MP41]);
    closed_file(m, file);
    parts_of_finished(
        ftyp_box(),
        be32(0),
        word,
        be32(MDAT),
        one_behind_the_other(bs, n),
        t,
        from,
        from + bs[i].len(),
    );
}

/// A recording begins with a keyframe: until one comes, no file is touched.
pub proof fn nothing_before_a_keyframe(w: WriterModel, s: Seq<u8>, at: u64)
    requires
        w.mux is None,
        !has_unit(s, 5),
    ensures
        w.ingested(s, at) == (w, Seq::<StepModel>::empty(), None::<RecordError>),
{
}

/// A sample is shown neither shorter than the shortest nor longer than the
/// longest, whatever the clock says.
pub proof fn durations_stay_in_range(prev: Option<u64>, now: u64, last_dur: u32)
    requires
        MIN_DUR <= last_dur <= MAX_DUR,
    ensures
        MIN_DUR <= sample_ticks(prev, now, last_dur) <= MAX_DUR,
{
}

/// A sample is shown for as long as it took the next to come, to the tick, within the
/// shortest and the longest. Where that is less than a tick the time before it stands.
pub proof fn samples_keep_time(prev: u64, now: u64, last_dur: u32)
    requires
        prev <= now,
        (now - prev) * 90_000 < 0x1_0000_0000 * 1_000_000_000,
    ensures
        ({
            let n = (now - prev) * 90_000;
            let t = sample_ticks(Some(prev), now, last_dur);
            &&& n < 1_000_000_000 ==> t == last_dur
            &&& 1_000_000_000 <= n < 750 * 1_000_000_000 ==> t == 750
            &&& 750 * 1_000_000_000 <= n <= 22_500 * 1_000_000_000 ==> t * 1_000_000_000 <= n < (t
                + 1) * 1_000_000_000
            &&& n > 22_500 * 1_000_000_000 ==> t == 22_500
        }),
{
}

/// A recording goes on with what is written: at the end of the file, with the time since
/// the one before, and the next counts from it.
pub proof fn recordings_go_on(w: WriterModel, s: Seq<u8>, at: u64, m: MuxModel, b: Seq<u8>)
    requires
        w.mux == Some(m),
        m.pushed(s, sample_ticks(w.last_at, at, w.last_dur), has_unit(s, 5)).1
            == Pushed::Written(b),
    ensures
        ({
            let dur = sample_ticks(w.last_at, at, w.last_dur);
            let (z, steps, failed) = w.ingested(s, at);
            &&& z.mux == Some(m.pushed(s, dur, has_unit(s, 5)).0)
            &&& z.last_at == Some(at) && z.last_dur == dur
            &&& steps == seq![StepModel::Append(b)]
            &&& failed is None
        }),
{
}

/// A recording begins with a keyframe: a file is made, and the keyframe is its first
/// sample.
#[verifier::spinoff_prover]
#[verifier::rlimit(50)]
pub proof fn recordings_begin(w: WriterModel, s: Seq<u8>, at: u64, b: Seq<u8>)
    requires
        w.mux is None,
        has_unit(s, 5),
        fresh_mux().pushed(s, w.last_dur, true).1 == Pushed::Written(b),
    ensures
        ({
            let (z, steps, failed) = w.ingested(s, at);
            let f = performed_all(Seq::empty(), steps, steps.len() as int);
            &&& z.mux matches Some(m) && holds_samples(f, m, seq![b]) && m.samples.len() == 1
                && m.samples[0].sync
            &&& z.last_at == Some(at) && z.last_dur == w.last_dur
            &&& b == avcc_of(s)
            &&& failed is None
        }),
{
    let (z, steps, failed) = w.ingested(s, at);
    new_file_is_empty();
    written_is_the_last_sample(
        fresh_mux(),
        performed(Seq::empty(), StepModel::Create),
        Seq::empty(),
        s,
        w.last_dur,
        true,
        b,
    );
    written_adds_a_sample(fresh_mux(), s, w.last_dur, true, b);
    reveal_with_fuel(performed_all, 3);
    assert(Seq::<Seq<u8>>::empty().push(b) =~= seq![b]);
    assert(steps =~= seq![StepModel::Create, StepModel::Append(b)]);
}

/// When the phone is turned the file is closed, and another begins with the picture
/// that has its sides swapped.
pub proof fn turning_begins_another_file(
    w: WriterModel,
    s: Seq<u8>,
    at: u64,
    m: MuxModel,
    sps: Seq<u8>,
    pps: Seq<u8>,
    c: SpsCrop,
)
    requires
        w.mux == Some(m),
        has_unit(s, 5),
        params_of(s) == Some((sps, pps)),
        stream_rectangle(s) == Some(c),
        c.w <= 65535 && c.h <= 65535,
        m.samples.len() > 0 && m.chunks.len() > 0 && m.descs.len() > 0,
        m.descs.last().sps != sps,
        c.w == m.descs[0].height,
        c.h == m.descs[0].width,
        c.w != c.h,
    ensures
        ({
            let (z, steps, failed) = w.ingested(s, at);
            let (fresh, more, e) = (WriterModel { mux: None, ..w }).ingested(s, at);
            &&& steps.len() > 3
            &&& steps.take(2) == seq![
                StepModel::Patch((8 + m.payload) as u32),
                StepModel::Append(movie(m.samples, m.descs, m.chunks)),
            ]
            &&& steps[2] == StepModel::NextName
            &&& steps.skip(3) == more
            &&& z == fresh
            &&& failed == e
        }),
{
    let dur = sample_ticks(w.last_at, at, w.last_dur);
    turning_is_noticed(m, s, dur, sps, pps, c);
    flip_steps(w, s, at, m);
}

#[verifier::spinoff_prover]
#[verifier::rlimit(60)]
proof fn turning_is_noticed(
    m: MuxModel,
    s: Seq<u8>,
    dur: u32,
    sps: Seq<u8>,
    pps: Seq<u8>,
    c: SpsCrop,
)
    requires
        params_of(s) == Some((sps, pps)),
        stream_rectangle(s) == Some(c),
        c.w <= 65535 && c.h <= 65535,
        m.descs.len() > 0,
        m.descs.last().sps != sps,
        c.w == m.descs[0].height,
        c.h == m.descs[0].width,
        c.w != c.h,
    ensures
        m.pushed(s, dur, true) == (m, Pushed::OrientFlip),
{
    let (w, h) = (low16(c.w as int), low16(c.h as int));
    assert(w == c.w && h == c.h);
    assert(sides_swapped(m.descs[0].width, m.descs[0].height, w, h));
    assert(m.described(s, true) == (m, Some(Pushed::OrientFlip)));
    stopped_is_not_written(m, s, dur, true);
}

#[verifier::spinoff_prover]
#[verifier::rlimit(50)]
proof fn stopped_is_not_written(m: MuxModel, s: Seq<u8>, dur: u32, sync: bool)
    requires
        m.described(s, sync).1 is Some,
    ensures
        m.pushed(s, dur, sync) == (m.described(s, sync).0, m.described(s, sync).1->0),
{
    reveal(MuxModel::pushed);
}

#[verifier::spinoff_prover]
#[verifier::rlimit(50)]
proof fn flip_steps(w: WriterModel, s: Seq<u8>, at: u64, m: MuxModel)
    requires
        w.mux == Some(m),
        has_unit(s, 5),
        m.samples.len() > 0 && m.chunks.len() > 0 && m.descs.len() > 0,
        m.pushed(s, sample_ticks(w.last_at, at, w.last_dur), true) == (m, Pushed::OrientFlip),
    ensures
        ({
            let (z, steps, failed) = w.ingested(s, at);
            let (fresh, more, e) = (WriterModel { mux: None, ..w }).ingested(s, at);
            &&& steps.len() > 3
            &&& steps.take(2) == seq![
                StepModel::Patch((8 + m.payload) as u32),
                StepModel::Append(movie(m.samples, m.descs, m.chunks)),
            ]
            &&& steps[2] == StepModel::NextName
            &&& steps.skip(3) == more
            &&& z == fresh
            &&& failed == e
        }),
{
    let (z, steps, failed) = w.ingested(s, at);
    let (fresh, more, e) = (WriterModel { mux: None, ..w }).ingested(s, at);
    let o = opening(w, s, at);
    assert(more == o.1);
    assert(steps == closing(m).0 + seq![StepModel::NextName] + more);
    assert(steps.take(2) =~= closing(m).0);
    assert(steps.skip(3) =~= more);
}

/// A recording that is stopped is closed: its length is filled in and its tables go to
/// its end. Where nothing was begun, nothing is left.
pub proof fn stopping_closes_the_file(w: WriterModel)
    ensures
        match w.mux {
            Some(m) => m.samples.len() > 0 && m.descs.len() > 0 && m.chunks.len() > 0 ==> w.ended()
                == (
                seq![
                    StepModel::Patch((8 + m.payload) as u32),
                    StepModel::Append(movie(m.samples, m.descs, m.chunks)),
                ],
                None::<RecordError>,
            ),
            None => w.ended() == (seq![StepModel::Delete], None::<RecordError>),
        },
{
}

/// The name of the recording with a time stamp. A number keeps apart those of one second.
pub open spec fn name_of(stamp: Seq<char>, n: int) -> Seq<char> {
    if n == 0 {
        "pocketcam-"@ + stamp + ".mp4"@
    } else {
        "pocketcam-"@ + stamp + "-"@ + decimal(n as nat) + ".mp4"@
    }
}

/// How many names are tried.
pub const NAMES: u32 = 1000;

/// The name of try number `n` for a recording with a time stamp.
pub fn recording_name(stamp: &str, n: u32) -> (r: String)
    ensures
        r@ == name_of(stamp@, n as int),
{
    let mut s: String = String::new();
    s.append("pocketcam-");
    s.append(stamp);
    if n != 0 {
        s.append("-");
        push_decimal(&mut s, n as u64);
    }
    s.append(".mp4");
    assert(s@ =~= name_of(stamp@, n as int));
    s
}

/// The first name that is not taken, if one of the [`NAMES`] is free.
pub open spec fn free_name(taken: Seq<bool>, n: int) -> Option<int>
    decreases taken.len() - n,
{
    if n < 0 || n >= taken.len() || n >= NAMES {
        None
    } else if !taken[n] {
        Some(n)
    } else {
        free_name(taken, n + 1)
    }
}

/// Which name to use, when the first names are taken or not as told. `None`
/// where all that may be tried are taken.
pub fn new_path(taken: &[bool]) -> (r: Result<u32, RecordError>)
    ensures
        match r {
            Ok(n) => free_name(taken@, 0) == Some(n as int),
            Err(e) => free_name(taken@, 0) is None && e == RecordError::NoName,
        },
{
    let mut n: u32 = 0;
    while n < NAMES && (n as usize) < taken.len()
        invariant
            n <= NAMES,
            n <= taken@.len(),
            free_name(taken@, 0) == free_name(taken@, n as int),
        decreases NAMES - n,
    {
        if !taken[n as usize] {
            return Ok(n);
        }
        n += 1;
    }
    Err(RecordError::NoName)
}

/// Local time as a time stamp: date and time of day, fixed width.
pub open spec fn stamp_of(y: u16, mo: u16, d: u16, h: u16, mi: u16, s: u16) -> Seq<char> {
    zero_padded(decimal(y as nat), 4) + zero_padded(decimal(mo as nat), 2) + zero_padded(
        decimal(d as nat),
        2,
    ) + "-"@ + zero_padded(decimal(h as nat), 2) + zero_padded(decimal(mi as nat), 2)
        + zero_padded(decimal(s as nat), 2)
}

/// Local time as a time stamp.
pub fn local_stamp(y: u16, mo: u16, d: u16, h: u16, mi: u16, s: u16) -> (r: String)
    ensures
        r@ == stamp_of(y, mo, d, h, mi, s),
{
    let mut t: String = String::new();
    push_padded(&mut t, y as u64, 4);
    push_padded(&mut t, mo as u64, 2);
    push_padded(&mut t, d as u64, 2);
    t.append("-");
    push_padded(&mut t, h as u64, 2);
    push_padded(&mut t, mi as u64, 2);
    push_padded(&mut t, s as u64, 2);
    assert(t@ =~= stamp_of(y, mo, d, h, mi, s));
    t
}

/// What the rest of the program sees of the recorder.
pub struct Recorder {
    pub on: bool,
    /// A keyframe is wanted.
    pub pli: bool,
    pub last_path: Option<String>,
    pub notices: Vec<String>,
}

impl Recorder {
    /// A recorder that is off.
    pub fn new() -> (r: Recorder)
        ensures
            !r.on && !r.pli && r.last_path is None && r.notices@.len() == 0,
    {
        Recorder { on: false, pli: false, last_path: None, notices: Vec::new() }
    }

    /// Leaves a message for the user.
    pub fn push_notice(&mut self, msg: String)
        ensures
            final(self).notices@ == old(self).notices@.push(msg),
            final(self).on == old(self).on,
            final(self).pli == old(self).pli,
            final(self).last_path == old(self).last_path,
    {
        self.notices.push(msg);
    }

    /// Takes all messages.
    pub fn take_notices(&mut self) -> (r: Vec<String>)
        ensures
            r@ == old(self).notices@,
            final(self).notices@.len() == 0,
            final(self).on == old(self).on,
            final(self).pli == old(self).pli,
            final(self).last_path == old(self).last_path,
    {
        let mut r: Vec<String> = Vec::new();
        std::mem::swap(&mut r, &mut self.notices);
        r
    }

    /// True while a recording runs.
    pub fn is_on(&self) -> (r: bool)
        ensures
            r == self.on,
    {
        self.on
    }

    /// The latest recording.
    pub fn last_path(&self) -> (r: Option<String>)
        ensures
            match (r, self.last_path) {
                (Some(a), Some(b)) => a@ == b@,
                (None, None) => true,
                _ => false,
            },
    {
        match &self.last_path {
            Some(p) => Some(p.clone()),
            None => None,
        }
    }

    /// True once after each time that a keyframe was wanted.
    pub fn take_pli(&mut self) -> (r: bool)
        ensures
            r == old(self).pli,
            !final(self).pli,
            final(self).on == old(self).on,
            final(self).last_path == old(self).last_path,
            final(self).notices == old(self).notices,
    {
        let r: bool = self.pli;
        self.pli = false;
        r
    }

    /// Goes on to write to `path`, unless a recording runs. A keyframe is wanted.
    pub fn start(&mut self, path: String) -> (r: Result<(), RecordError>)
        ensures
            match r {
                Ok(_) => {
                    &&& !old(self).on
                    &&& final(self).on
                    &&& final(self).pli
                    &&& final(self).last_path == Some(path)
                    &&& final(self).notices == old(self).notices
                },
                Err(e) => {
                    &&& old(self).on
                    &&& e == RecordError::AlreadyRecording
                    &&& *final(self) == *old(self)
                },
            },
    {
        if self.on {
            return Err(RecordError::AlreadyRecording);
        }
        self.last_path = Some(path);
        self.pli = true;
        self.on = true;
        Ok(())
    }

    /// Stops. True where a recording ran, and its writer is to be waited for.
    pub fn stop(&mut self) -> (r: bool)
        ensures
            r == old(self).on,
            !final(self).on,
            final(self).pli == old(self).pli,
            final(self).last_path == old(self).last_path,
            final(self).notices == old(self).notices,
    {
        let r: bool = self.on;
        self.on = false;
        r
    }

    /// The writer gave up for the reason told.
    pub fn failed(&mut self, why: &str)
        ensures
            !final(self).on,
            final(self).pli == old(self).pli,
            final(self).last_path == old(self).last_path,
            final(self).notices@.len() == old(self).notices@.len() + 1,
            final(self).notices@.last()@ == "Recording stopped: "@ + why@,
            final(self).notices@.drop_last() == old(self).notices@,
    {
        let mut s: String = String::new();
        s.append("Recording stopped: ");
        s.append(why);
        self.notices.push(s);
        self.on = false;
        assert(self.notices@.last()@ =~= "Recording stopped: "@ + why@);
        assert(self.notices@.drop_last() =~= old(self).notices@);
    }

    /// The phone turned, and the recording goes on in `path`.
    pub fn moved_to(&mut self, path: String)
        ensures
            final(self).on == old(self).on,
            final(self).pli == old(self).pli,
            final(self).last_path == Some(path),
            final(self).notices@.len() == old(self).notices@.len() + 1,
            final(self).notices@.last()@ == "Phone rotated \u{2014} recording "@ + path@,
            final(self).notices@.drop_last() == old(self).notices@,
    {
        let mut s: String = String::new();
        s.append("Phone rotated \u{2014} recording ");
        s.append(path.as_str());
        self.notices.push(s);
        self.last_path = Some(path);
        assert(self.notices@.last()@ =~= "Phone rotated \u{2014} recording "@ + path@);
        assert(self.notices@.drop_last() =~= old(self).notices@);
    }
}

/// A recording gets the first name that is free, of those that are tried.
pub proof fn first_free_name_is_taken(taken: Seq<bool>, n: int)
    requires
        0 <= n < taken.len(),
        n < 1000,
    ensures
        free_name(taken, 0) == Some(n) <==> !taken[n] && forall|i: int| 0 <= i < n ==> taken[i],
{
    free_from(taken, 0, n);
}

proof fn free_from(taken: Seq<bool>, i: int, n: int)
    requires
        0 <= i <= n < taken.len(),
        n < 1000,
        forall|k: int| 0 <= k < i ==> taken[k],
    ensures
        free_name(taken, i) == Some(n) <==> !taken[n] && forall|k: int| 0 <= k < n ==> taken[k],
    decreases n - i,
{
    if taken[i] && i < n {
        free_from(taken, i + 1, n);
    } else if taken[i] {
        free_is_behind(taken, i + 1);
    }
}

proof fn free_is_behind(taken: Seq<bool>, i: int)
    ensures
        free_name(taken, i) matches Some(n) ==> n >= i,
    decreases taken.len() - i,
{
    if 0 <= i < taken.len() && i < NAMES && taken[i] {
        free_is_behind(taken, i + 1);
    }
}

} // verus!
