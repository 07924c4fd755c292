//! H.264 out of RTP packets (RFC 6184): single units, aggregates and fragments
//! are put back together into access units.
//!
//! A fragment that starts a unit throws away whatever was collected before, so
//! that a lost packet cannot glue two units together.

use crate::bytes::{be16, push_all};
use vstd::prelude::*;

verus! {

/// What a depacketizer holds.
pub ghost struct Depay {
    /// The unit that fragments are being collected for.
    pub fu: Seq<u8>,
    /// The latest sequence parameter set.
    pub sps: Seq<u8>,
    /// The latest picture parameter set.
    pub pps: Seq<u8>,
    /// The access unit so far, each unit behind a start code.
    pub au: Seq<u8>,
    pub last_ts: Option<u32>,
    pub last_seq: Option<u16>,
    /// A packet of the access unit was lost.
    pub broken: bool,
    pub seq_gaps: u64,
    pub dropped_incomplete: u64,
}

/// The start code that goes before each unit.
pub open spec fn start() -> Seq<u8> {
    seq![0u8, 0u8, 0u8, 1u8]
}

/// The type of a unit with header byte `b`.
pub open spec fn unit_type(b: u8) -> u8 {
    b & 0x1Fu8
}

/// True where a unit of type `t` begins at `k`.
pub open spec fn unit_at(s: Seq<u8>, k: int, t: u8) -> bool {
    &&& 0 <= k
    &&& k + 4 < s.len()
    &&& s[k] == 0
    &&& s[k + 1] == 0
    &&& s[k + 2] == 0
    &&& s[k + 3] == 1
    &&& unit_type(s[k + 4]) == t
}

/// True of an access unit with a unit of type `t`.
pub open spec fn has_unit(s: Seq<u8>, t: u8) -> bool {
    exists|k: int| unit_at(s, k, t)
}

/// One more, as far as a counter goes.
pub open spec fn bump(n: u64) -> u64 {
    if n == u64::MAX {
        n
    } else {
        (n + 1) as u64
    }
}

impl Depay {
    /// One that has seen nothing yet.
    pub open spec fn fresh() -> Depay {
        Depay {
            fu: Seq::empty(),
            sps: Seq::empty(),
            pps: Seq::empty(),
            au: Seq::empty(),
            last_ts: None,
            last_seq: None,
            broken: false,
            seq_gaps: 0,
            dropped_incomplete: 0,
        }
    }

    /// Parameter sets are kept as they came.
    pub open spec fn wf(self) -> bool {
        &&& self.sps.len() > 0 ==> unit_type(self.sps[0]) == 7
        &&& self.pps.len() > 0 ==> unit_type(self.pps[0]) == 8
    }

    /// With a unit that may be a parameter set taken note of.
    pub open spec fn noting(self, nalu: Seq<u8>) -> Depay {
        if nalu.len() > 0 && unit_type(nalu[0]) == 7 {
            Depay { sps: nalu, ..self }
        } else if nalu.len() > 0 && unit_type(nalu[0]) == 8 {
            Depay { pps: nalu, ..self }
        } else {
            self
        }
    }

    /// With a whole unit at the end of the access unit.
    pub open spec fn with_unit(self, nalu: Seq<u8>) -> Depay {
        let d = self.noting(nalu);
        Depay { au: d.au + start() + nalu, ..d }
    }

    /// With a unit, unless it is a delimiter, filler or empty.
    pub open spec fn with_useful(self, nalu: Seq<u8>) -> Depay {
        if nalu.len() == 0 || unit_type(nalu[0]) == 9 || unit_type(nalu[0]) == 12 {
            self
        } else {
            self.with_unit(nalu)
        }
    }

    /// With the units of an aggregate packet from `off` on. One that overruns
    /// the packet ends it.
    pub open spec fn with_aggregate(self, p: Seq<u8>, off: int) -> Depay
        decreases p.len() - off,
    {
        if off < 0 || off + 2 > p.len() {
            self
        } else {
            let n = 256 * p[off] + p[off + 1];
            if off + 2 + n > p.len() {
                self
            } else {
                self.with_useful(p.subrange(off + 2, off + 2 + n)).with_aggregate(p, off + 2 + n)
            }
        }
    }

    /// With a fragment. A first fragment starts afresh, one without a first is ignored.
    pub open spec fn with_fragment(self, p: Seq<u8>) -> Depay {
        if p.len() < 3 {
            self
        } else {
            let first = p[1] & 0x80 != 0;
            let last = p[1] & 0x40 != 0;
            if !first && self.fu.len() == 0 {
                self
            } else {
                let head = if first {
                    seq![(p[0] & 0xE0) | (p[1] & 0x1F)]
                } else {
                    self.fu
                };
                let nal = head + p.subrange(2, p.len() as int);
                if last {
                    Depay { fu: Seq::empty(), ..self }.with_unit(nal)
                } else {
                    Depay { fu: nal, ..self }
                }
            }
        }
    }

    /// With the units of a packet.
    pub open spec fn with_payload(self, p: Seq<u8>) -> Depay {
        if p.len() == 0 {
            self
        } else {
            let t = unit_type(p[0]);
            if 1 <= t <= 23 {
                self.with_useful(p)
            } else if t == 24 {
                self.with_aggregate(p, 1)
            } else if t == 28 {
                self.with_fragment(p)
            } else {
                self
            }
        }
    }

    /// With the access unit closed.
    pub open spec fn closed(self) -> Depay {
        let lost = self.broken || self.fu.len() > 0;
        Depay {
            fu: Seq::empty(),
            broken: false,
            au: Seq::empty(),
            dropped_incomplete: if self.au.len() > 0 && lost {
                bump(self.dropped_incomplete)
            } else {
                self.dropped_incomplete
            },
            ..self
        }
    }

    /// The parameter sets, each behind a start code, as a keyframe needs them.
    pub open spec fn params(self) -> Seq<u8> {
        if self.pps.len() > 0 {
            start() + self.sps + start() + self.pps
        } else {
            start() + self.sps
        }
    }

    /// What closing the access unit gives: nothing where it is empty or parts
    /// are missing. A keyframe without its parameter sets goes out with the
    /// latest ones in front.
    pub open spec fn finished(self) -> Option<Seq<u8>> {
        if self.au.len() == 0 || self.broken || self.fu.len() > 0 {
            None
        } else if has_unit(self.au, 5) && !has_unit(self.au, 7) && self.sps.len() > 0 {
            Some(self.params() + self.au)
        } else {
            Some(self.au)
        }
    }

    /// True where packet `seq` does not follow the one before it.
    pub open spec fn gap(self, seq: u16) -> bool {
        match self.last_seq {
            Some(prev) => seq != (prev + 1) % 65536,
            None => false,
        }
    }

    /// True where `ts` begins another access unit.
    pub open spec fn new_time(self, ts: u32) -> bool {
        match self.last_ts {
            Some(t) => t != ts,
            None => false,
        }
    }

    /// Before the payload of a packet is looked at.
    pub open spec fn turned(self, seq: u16, ts: u32) -> Depay {
        let gap = self.gap(seq);
        let d = Depay {
            seq_gaps: if gap {
                bump(self.seq_gaps)
            } else {
                self.seq_gaps
            },
            ..self
        };
        let d = if !self.new_time(ts) {
            d
        } else if gap {
            Depay {
                fu: Seq::empty(),
                au: Seq::empty(),
                dropped_incomplete: if d.au.len() > 0 {
                    bump(d.dropped_incomplete)
                } else {
                    d.dropped_incomplete
                },
                broken: false,
                ..d
            }
        } else {
            d.closed()
        };
        let d = if gap {
            Depay { fu: Seq::empty(), broken: true, ..d }
        } else {
            d
        };
        Depay { last_seq: Some(seq), last_ts: Some(ts), ..d }
    }

    /// After a packet.
    pub open spec fn pushed(self, seq: u16, ts: u32, marker: bool, p: Seq<u8>) -> Depay {
        let d = self.turned(seq, ts).with_payload(p);
        if marker {
            d.closed()
        } else {
            d
        }
    }

    /// The access units that a packet completes, oldest first, each with its time.
    pub open spec fn completed(self, seq: u16, ts: u32, marker: bool, p: Seq<u8>) -> Seq<
        (Seq<u8>, u32),
    > {
        let before = if self.new_time(ts) && !self.gap(seq) {
            match self.finished() {
                Some(au) => seq![(au, self.last_ts->0)],
                None => Seq::empty(),
            }
        } else {
            Seq::empty()
        };
        let d = self.turned(seq, ts).with_payload(p);
        if marker {
            match d.finished() {
                Some(au) => before.push((au, ts)),
                None => before,
            }
        } else {
            before
        }
    }
}

/// Puts access units together, packet by packet.
pub struct H264Depay {
    pub fu: Vec<u8>,
    pub sps: Vec<u8>,
    pub pps: Vec<u8>,
    pub au: Vec<u8>,
    pub last_ts: Option<u32>,
    pub last_seq: Option<u16>,
    pub broken: bool,
    pub seq_gaps: u64,
    pub dropped_incomplete: u64,
}

impl View for H264Depay {
    type V = Depay;

    open spec fn view(&self) -> Depay {
        Depay {
            fu: self.fu@,
            sps: self.sps@,
            pps: self.pps@,
            au: self.au@,
            last_ts: self.last_ts,
            last_seq: self.last_seq,
            broken: self.broken,
            seq_gaps: self.seq_gaps,
            dropped_incomplete: self.dropped_incomplete,
        }
    }
}

impl Default for H264Depay {
    fn default() -> (r: H264Depay)
        ensures
            r@ == Depay::fresh(),
            r@.wf(),
    {
        H264Depay {
            fu: Vec::with_capacity(64 * 1024),
            sps: Vec::new(),
            pps: Vec::new(),
            au: Vec::with_capacity(128 * 1024),
            last_ts: None,
            last_seq: None,
            broken: false,
            seq_gaps: 0,
            dropped_incomplete: 0,
        }
    }
}

/// The views of a list of access units.
pub open spec fn units_view(v: Seq<(Vec<u8>, u32)>) -> Seq<(Seq<u8>, u32)> {
    v.map_values(|u: (Vec<u8>, u32)| (u.0@, u.1))
}

impl H264Depay {
    /// Takes one RTP packet. Returns none, one or two complete access units:
    /// the one before, where the time changed, and the one that the marker closes.
    pub fn push(&mut self, seq: u16, ts: u32, marker: bool, payload: &[u8]) -> (out: Vec<
        (Vec<u8>, u32),
    >)
        ensures
            final(self)@ == old(self)@.pushed(seq, ts, marker, payload@),
            units_view(out@) == old(self)@.completed(seq, ts, marker, payload@),
    {
        let ghost start_state = self@;
        let mut out: Vec<(Vec<u8>, u32)> = Vec::new();
        let gap: bool = match self.last_seq {
            Some(prev) => seq != if prev == 65535 {
                0
            } else {
                prev + 1
            },
            None => false,
        };
        if gap {
            self.seq_gaps = self.seq_gaps.saturating_add(1);
        }
        let before: Option<u32> = self.last_ts;
        if let Some(t) = before {
            if t != ts {
                if gap {
                    self.fu.clear();
                    if !self.au.is_empty() {
                        self.au.clear();
                        self.dropped_incomplete = self.dropped_incomplete.saturating_add(1);
                    }
                    self.broken = false;
                } else if let Some(au) = self.take_au() {
                    out.push((au, t));
                }
            }
        }
        if gap {
            self.fu.clear();
            self.broken = true;
        }
        self.last_seq = Some(seq);
        self.last_ts = Some(ts);
        assert(self@.au =~= start_state.turned(seq, ts).au);
        assert(self@ == start_state.turned(seq, ts));
        self.ingest(payload);
        let ghost mid = out@;
        if marker {
            if let Some(au) = self.take_au() {
                out.push((au, ts));
                assert(units_view(out@) =~= units_view(mid).push((au@, ts)));
            }
        }
        assert(units_view(out@) =~= start_state.completed(seq, ts, marker, payload@));
        out
    }

    fn ingest(&mut self, payload: &[u8])
        ensures
            final(self)@ == old(self)@.with_payload(payload@),
    {
        if payload.is_empty() {
            return;
        }
        let t: u8 = payload[0] & 0x1Fu8;
        if 1 <= t && t <= 23 {
            self.add_useful(payload);
        } else if t == 24 {
            self.ingest_stap_a(payload);
        } else if t == 28 {
            self.ingest_fu_a(payload);
        }
    }

    fn add_useful(&mut self, nalu: &[u8])
        ensures
            final(self)@ == old(self)@.with_useful(nalu@),
    {
        if nalu.is_empty() {
            return;
        }
        let t: u8 = nalu[0] & 0x1Fu8;
        if t == 9 || t == 12 {
            return;
        }
        self.add_unit(nalu);
    }

    fn add_unit(&mut self, nalu: &[u8])
        ensures
            final(self)@ == old(self)@.with_unit(nalu@),
    {
        self.note_param(nalu);
        let ghost before = self.au@;
        push_start(&mut self.au);
        push_all(&mut self.au, nalu);
    }

    fn ingest_stap_a(&mut self, payload: &[u8])
        requires
            payload@.len() >= 1,
        ensures
            final(self)@ == old(self)@.with_aggregate(payload@, 1),
    {
        let len: usize = payload.len();
        let mut off: usize = 1;
        while len - off >= 2
            invariant
                len == payload@.len(),
                off <= len,
                old(self)@.with_aggregate(payload@, 1) == self@.with_aggregate(
                    payload@,
                    off as int,
                ),
            decreases len - off,
        {
            let n: usize = 256 * (payload[off] as usize) + payload[off + 1] as usize;
            off += 2;
            if n > len - off {
                return;
            }
            self.add_useful(vstd::slice::slice_subrange(payload, off, off + n));
            off += n;
        }
    }

    fn ingest_fu_a(&mut self, payload: &[u8])
        ensures
            final(self)@ == old(self)@.with_fragment(payload@),
    {
        let len: usize = payload.len();
        if len < 3 {
            return;
        }
        let first: bool = payload[1] & 0x80 != 0;
        let last: bool = payload[1] & 0x40 != 0;
        if first {
            self.fu.clear();
            self.fu.push((payload[0] & 0xE0) | (payload[1] & 0x1F));
            assert(self.fu@ =~= seq![(payload@[0] & 0xE0) | (payload@[1] & 0x1F)]);
        } else if self.fu.is_empty() {
            return;
        }
        push_all(&mut self.fu, vstd::slice::slice_subrange(payload, 2, len));
        if last {
            let mut nal: Vec<u8> = Vec::new();
            std::mem::swap(&mut nal, &mut self.fu);
            self.add_unit(nal.as_slice());
        }
    }

    fn note_param(&mut self, nalu: &[u8])
        ensures
            final(self)@ == old(self)@.noting(nalu@),
    {
        if nalu.is_empty() {
            return;
        }
        let t: u8 = nalu[0] & 0x1Fu8;
        if t == 7 {
            self.sps = vstd::slice::slice_to_vec(nalu);
        } else if t == 8 {
            self.pps = vstd::slice::slice_to_vec(nalu);
        }
    }

    fn take_au(&mut self) -> (r: Option<Vec<u8>>)
        ensures
            final(self)@ == old(self)@.closed(),
            match r {
                Some(au) => old(self)@.finished() == Some(au@),
                None => old(self)@.finished() is None,
            },
    {
        let lost: bool = self.broken || !self.fu.is_empty();
        self.fu.clear();
        self.broken = false;
        if self.au.is_empty() {
            assert(self@.au =~= Seq::empty());
            return None;
        }
        let mut au: Vec<u8> = Vec::new();
        std::mem::swap(&mut au, &mut self.au);
        if lost {
            self.dropped_incomplete = self.dropped_incomplete.saturating_add(1);
            return None;
        }
        if has_slice_type(au.as_slice(), 5) && !has_slice_type(au.as_slice(), 7)
            && !self.sps.is_empty() {
            let mut out: Vec<u8> = Vec::with_capacity(128);
            push_start(&mut out);
            push_all(&mut out, self.sps.as_slice());
            if !self.pps.is_empty() {
                push_start(&mut out);
                push_all(&mut out, self.pps.as_slice());
            }
            assert(out@ =~= old(self)@.params());
            push_all(&mut out, au.as_slice());
            return Some(out);
        }
        Some(au)
    }
}

/// Appends a start code.
fn push_start(out: &mut Vec<u8>)
    ensures
        final(out)@ == old(out)@ + start(),
{
    out.push(0);
    out.push(0);
    out.push(0);
    out.push(1);
}

/// True of an access unit with a unit of type `nal_type`.
fn has_slice_type(annex_b: &[u8], nal_type: u8) -> (r: bool)
    ensures
        r == has_unit(annex_b@, nal_type),
{
    let len: usize = annex_b.len();
    let mut i: usize = 0;
    while i < len && len - i > 4
        invariant
            len == annex_b@.len(),
            i <= len,
            forall|k: int| 0 <= k < i ==> !unit_at(annex_b@, k, nal_type),
        decreases len - i,
    {
        if annex_b[i] == 0 && annex_b[i + 1] == 0 && annex_b[i + 2] == 0 && annex_b[i + 3] == 1 {
            if annex_b[i + 4] & 0x1Fu8 == nal_type {
                assert(unit_at(annex_b@, i as int, nal_type));
                return true;
            }
            i += 4;
        } else {
            i += 1;
        }
    }
    false
}

/// True of an access unit that a decoder can begin with.
pub fn is_idr(annex_b: &[u8]) -> (r: bool)
    ensures
        r == has_unit(annex_b@, 5),
{
    has_slice_type(annex_b, 5)
}

/// At most two access units come out of a packet, and none out of one behind a gap.
pub proof fn at_most_two(d: Depay, seq: u16, ts: u32, marker: bool, p: Seq<u8>)
    ensures
        d.completed(seq, ts, marker, p).len() <= 2,
        d.gap(seq) ==> d.completed(seq, ts, marker, p).len() == 0,
{
    if d.gap(seq) {
        broken_stays(d.turned(seq, ts), p);
    }
}

/// Looking at a payload neither mends nor breaks an access unit, nor touches the counters.
pub proof fn broken_stays(d: Depay, p: Seq<u8>)
    ensures
        d.with_payload(p).broken == d.broken,
        d.with_payload(p).seq_gaps == d.seq_gaps,
        d.with_payload(p).dropped_incomplete == d.dropped_incomplete,
        d.with_payload(p).last_seq == d.last_seq,
        d.with_payload(p).last_ts == d.last_ts,
{
    aggregate_keeps(d, p, 1);
}

proof fn aggregate_keeps(d: Depay, p: Seq<u8>, off: int)
    ensures
        d.with_aggregate(p, off).broken == d.broken,
        d.with_aggregate(p, off).seq_gaps == d.seq_gaps,
        d.with_aggregate(p, off).dropped_incomplete == d.dropped_incomplete,
        d.with_aggregate(p, off).last_seq == d.last_seq,
        d.with_aggregate(p, off).last_ts == d.last_ts,
        d.wf() ==> d.with_aggregate(p, off).wf(),
    decreases p.len() - off,
{
    if 0 <= off && off + 2 <= p.len() {
        let n = 256 * p[off] + p[off + 1];
        if off + 2 + n <= p.len() {
            aggregate_keeps(
                d.with_useful(p.subrange(off + 2, off + 2 + n)),
                p,
                off + 2 + n,
            );
        }
    }
}

/// Every packet keeps the parameter sets well-formed.
pub proof fn push_keeps_params(d: Depay, seq: u16, ts: u32, marker: bool, p: Seq<u8>)
    requires
        d.wf(),
    ensures
        d.pushed(seq, ts, marker, p).wf(),
{
    aggregate_keeps(d.turned(seq, ts), p, 1);
}

/// A keyframe goes out with its parameter set in it once one has been seen.
pub proof fn keyframe_has_params(d: Depay)
    requires
        d.wf(),
        d.sps.len() > 0,
    ensures
        match d.finished() {
            Some(au) => has_unit(d.au, 5) ==> has_unit(au, 7),
            None => true,
        },
{
    if let Some(au) = d.finished() {
        if has_unit(d.au, 5) && !has_unit(d.au, 7) {
            assert(au[4] == d.sps[0]);
            assert(unit_at(au, 0, 7));
        }
    }
}

/// Every access unit that comes out was whole: no gap since it began, and no
/// fragment left open.
pub proof fn only_whole_units(d: Depay)
    ensures
        d.finished() is Some ==> !d.broken && d.fu.len() == 0 && d.au.len() > 0,
        d.finished() is None && d.au.len() > 0 ==> d.closed().dropped_incomplete == bump(
            d.dropped_incomplete,
        ),
        d.finished() is Some ==> d.closed().dropped_incomplete == d.dropped_incomplete,
{
}

/// A first fragment starts afresh: nothing collected before it gets into the unit.
pub proof fn first_fragment_starts_afresh(a: Depay, b: Depay, p: Seq<u8>)
    requires
        p.len() >= 3,
        p[1] & 0x80 != 0,
        a == (Depay { fu: a.fu, ..b }),
    ensures
        a.with_fragment(p) == b.with_fragment(p),
{
}

/// The packet for bytes `from` to `to` of a unit.
pub open spec fn fragment(nal: Seq<u8>, from: int, to: int) -> Seq<u8> {
    let first = if from == 1 {
        0x80u8
    } else {
        0u8
    };
    let last = if to == nal.len() {
        0x40u8
    } else {
        0u8
    };
    seq![(nal[0] & 0xE0) | 28u8, first | last | (nal[0] & 0x1F)] + nal.subrange(from, to)
}

/// The flags and the type of a fragment read back as they were written.
proof fn fragment_header(b: u8, first: bool, last: bool)
    ensures
        ({
            let f = if first {
                0x80u8
            } else {
                0u8
            };
            let l = if last {
                0x40u8
            } else {
                0u8
            };
            let x = f | l | (b & 0x1F);
            &&& unit_type((b & 0xE0) | 28u8) == 28
            &&& (x & 0x80 != 0) == first
            &&& (x & 0x40 != 0) == last
            &&& (((b & 0xE0) | 28u8) & 0xE0) | (x & 0x1F) == b
        }),
{
    let f = if first {
        0x80u8
    } else {
        0u8
    };
    let l = if last {
        0x40u8
    } else {
        0u8
    };
    assert(((b & 0xE0) | 28u8) & 0x1F == 28) by (bit_vector);
    assert((f == 0x80u8 || f == 0u8) && (l == 0x40u8 || l == 0u8) ==> ((f | l | (b & 0x1F)) & 0x80
        != 0) == (f == 0x80u8) && ((f | l | (b & 0x1F)) & 0x40 != 0) == (l == 0x40u8) && (((b
        & 0xE0) | 28u8) & 0xE0) | ((f | l | (b & 0x1F)) & 0x1F) == b) by (bit_vector);
}

/// With the fragments of a unit from cut number `i` on.
pub open spec fn with_fragments(d: Depay, nal: Seq<u8>, cuts: Seq<int>, i: int) -> Depay
    decreases cuts.len() - i,
{
    if i < 0 || i + 1 >= cuts.len() {
        d
    } else {
        with_fragments(d.with_payload(fragment(nal, cuts[i], cuts[i + 1])), nal, cuts, i + 1)
    }
}

/// A way to cut a unit into fragments: from behind its header to its end.
pub open spec fn cuts_of(nal: Seq<u8>, cuts: Seq<int>) -> bool {
    &&& nal.len() >= 2
    &&& cuts.len() >= 2
    &&& cuts[0] == 1
    &&& cuts.last() == nal.len()
    &&& forall|i: int, j: int| 0 <= i < j < cuts.len() ==> cuts[i] < cuts[j]
}

/// A unit that was cut into fragments comes back whole, whatever was being
/// collected before it.
pub proof fn fragments_rejoin(d: Depay, nal: Seq<u8>, cuts: Seq<int>)
    requires
        cuts_of(nal, cuts),
    ensures
        with_fragments(d, nal, cuts, 0) == (Depay { fu: Seq::empty(), ..d }).with_unit(nal),
{
    rejoin_from(d, d, nal, cuts, 0);
}

proof fn rejoin_from(d: Depay, now: Depay, nal: Seq<u8>, cuts: Seq<int>, i: int)
    requires
        cuts_of(nal, cuts),
        0 <= i,
        i + 1 < cuts.len(),
        i == 0 ==> now == d,
        i > 0 ==> now == (Depay { fu: nal.subrange(0, cuts[i]), ..d }),
    ensures
        with_fragments(now, nal, cuts, i) == (Depay { fu: Seq::empty(), ..d }).with_unit(nal),
    decreases cuts.len() - i,
{
    let p = fragment(nal, cuts[i], cuts[i + 1]);
    fragment_header(nal[0], cuts[i] == 1, cuts[i + 1] == nal.len());
    let next = now.with_payload(p);
    assert(p.len() >= 3);
    assert(p.subrange(2, p.len() as int) =~= nal.subrange(cuts[i], cuts[i + 1]));
    assert(cuts[i] < cuts[i + 1]);
    if i > 0 {
        assert(cuts[0] < cuts[i]);
    }
    let head = if i == 0 {
        seq![nal[0]]
    } else {
        nal.subrange(0, cuts[i])
    };
    let sofar = head + nal.subrange(cuts[i], cuts[i + 1]);
    if i + 2 == cuts.len() {
        assert(sofar =~= nal);
        assert(next == (Depay { fu: Seq::empty(), ..d }).with_unit(nal));
        assert(with_fragments(next, nal, cuts, i + 1) == next);
    } else {
        assert(cuts[i + 1] < cuts[cuts.len() - 1]);
        assert(sofar =~= nal.subrange(0, cuts[i + 1]));
        assert(next == (Depay { fu: nal.subrange(0, cuts[i + 1]), ..d }));
        rejoin_from(d, next, nal, cuts, i + 1);
    }
}

/// Units from number `i` on, each behind its length.
pub open spec fn packed(units: Seq<Seq<u8>>, i: int) -> Seq<u8>
    decreases units.len() - i,
{
    if i < 0 || i >= units.len() {
        Seq::empty()
    } else {
        be16(units[i].len() as u16) + units[i] + packed(units, i + 1)
    }
}

/// With the useful ones of the units from number `i` on.
pub open spec fn with_each(d: Depay, units: Seq<Seq<u8>>, i: int) -> Depay
    decreases units.len() - i,
{
    if i < 0 || i >= units.len() {
        d
    } else {
        with_each(d.with_useful(units[i]), units, i + 1)
    }
}

/// An aggregate packet gives back the units that were packed into it, in order.
pub proof fn aggregate_unpacks(d: Depay, header: u8, units: Seq<Seq<u8>>)
    requires
        unit_type(header) == 24,
        forall|i: int| 0 <= i < units.len() ==> (#[trigger] units[i]).len() <= 65535,
    ensures
        d.with_payload(seq![header] + packed(units, 0)) == with_each(d, units, 0),
{
    unpack_from(d, seq![header], units, 0);
}

proof fn unpack_from(d: Depay, front: Seq<u8>, units: Seq<Seq<u8>>, i: int)
    requires
        0 <= i <= units.len(),
        forall|i: int| 0 <= i < units.len() ==> (#[trigger] units[i]).len() <= 65535,
    ensures
        d.with_aggregate(front + packed(units, i), front.len() as int) == with_each(d, units, i),
    decreases units.len() - i,
{
    let p = front + packed(units, i);
    let off = front.len() as int;
    if i < units.len() {
        let u = units[i];
        assert(p[off] == be16(u.len() as u16)[0]);
        assert(p[off + 1] == be16(u.len() as u16)[1]);
        assert(256 * p[off] + p[off + 1] == u.len());
        assert(p.subrange(off + 2, off + 2 + u.len()) =~= u);
        let front2 = front + be16(u.len() as u16) + u;
        assert(front2 + packed(units, i + 1) =~= p);
        unpack_from(d.with_useful(u), front2, units, i + 1);
    }
}

} // verus!
