//! The live session: packets in, access units to the decoder and the recorder.
//!
//! Receiving never waits for decoding. A short queue lies between them, and
//! gives way in a manner that leaves the decoder nothing it cannot decode.

use crate::decode::{preview_rgb_mode, rgb_mode, PreviewRgb};
use crate::depay::{has_unit, is_idr, units_view, Depay, H264Depay};
use crate::figures::{divided, per, percent, percent_of};
use crate::float::{
    a_second_is_one, float, integers_compute, nothing_is_zero, over, plus, ratio,
    ratio_is_positive, ratios_keep_order, seconds, times, zero, Single,
};
use crate::preview::{
    a_second_tells_the_rate, per_second, rate, since, span, span_of, FrameSlot, PreviewControl,
    PreviewEncoding, PreviewPlan, StreamStats,
};
use crate::settings::{is_virtual_lan, virtual_range, Ipv4};
use crate::sps::{sps_crop_from_annex_b, stream_rectangle};
use crate::text::{chars, lower, lower_chars, same_chars};
use std::collections::VecDeque;
use vstd::prelude::*;
use vstd::string::*;

verus! {

/// How many access units wait for the decoder at most.
pub const AU_Q_MAX: usize = 2;

/// What waits for the decoder.
pub ghost struct Queue {
    pub units: Seq<Seq<u8>>,
    pub closed: bool,
    /// Nothing but a keyframe is of use.
    pub wait_idr: bool,
    /// What is in the decoder is of no use when the next keyframe comes.
    pub flush: bool,
}

impl Queue {
    pub open spec fn wf(self) -> bool {
        self.units.len() <= AU_Q_MAX
    }

    /// True where an access unit is dropped: it is no keyframe, and one is
    /// waited for, or there is no room.
    pub open spec fn drops(self, au: Seq<u8>) -> bool {
        !has_unit(au, 5) && (self.wait_idr || self.units.len() >= AU_Q_MAX)
    }

    /// After an access unit was offered. A keyframe takes the place of all
    /// that waits where there is no room.
    pub open spec fn offered(self, au: Seq<u8>) -> Queue {
        if self.drops(au) {
            self
        } else if has_unit(au, 5) {
            let full = self.units.len() >= AU_Q_MAX;
            Queue {
                units: if full {
                    seq![au]
                } else {
                    self.units.push(au)
                },
                wait_idr: false,
                flush: self.flush || full || self.wait_idr,
                ..self
            }
        } else {
            Queue { units: self.units.push(au), ..self }
        }
    }

    /// With nothing but the next keyframe of use.
    pub open spec fn awaiting(self) -> Queue {
        Queue { units: Seq::empty(), wait_idr: true, ..self }
    }

    /// After access units were offered one by one.
    pub open spec fn offered_all(self, aus: Seq<(Seq<u8>, u32)>, n: int) -> Queue
        decreases n,
    {
        if n <= 0 {
            self
        } else {
            self.offered_all(aus, n - 1).offered(aus[n - 1].0)
        }
    }

    /// True where one of the first `n` is dropped.
    pub open spec fn drops_any(self, aus: Seq<(Seq<u8>, u32)>, n: int) -> bool
        decreases n,
    {
        n > 0 && (self.drops_any(aus, n - 1) || self.offered_all(aus, n - 1).drops(aus[n - 1].0))
    }
}

/// What waits for the decoder.
pub struct AuQueue {
    pub buf: VecDeque<Vec<u8>>,
    pub closed: bool,
    pub wait_idr: bool,
    pub flush: bool,
}

impl View for AuQueue {
    type V = Queue;

    open spec fn view(&self) -> Queue {
        Queue {
            units: self.buf@.map_values(|u: Vec<u8>| u@),
            closed: self.closed,
            wait_idr: self.wait_idr,
            flush: self.flush,
        }
    }
}

impl AuQueue {
    /// An empty queue.
    pub fn new() -> (r: AuQueue)
        ensures
            r@ == (Queue { units: Seq::empty(), closed: false, wait_idr: false, flush: false }),
            r@.wf(),
    {
        let r: AuQueue = AuQueue {
            buf: VecDeque::with_capacity(AU_Q_MAX),
            closed: false,
            wait_idr: false,
            flush: false,
        };
        assert(r@.units =~= Seq::empty());
        r
    }

    /// Offers an access unit. True where it was dropped.
    pub fn push(&mut self, au: Vec<u8>) -> (dropped: bool)
        requires
            old(self)@.wf(),
        ensures
            final(self)@ == old(self)@.offered(au@),
            final(self)@.wf(),
            dropped == old(self)@.drops(au@),
    {
        let idr: bool = is_idr(au.as_slice());
        if self.wait_idr && !idr {
            return true;
        }
        let ghost before = self.buf@;
        if self.buf.len() >= AU_Q_MAX {
            if idr {
                self.buf.clear();
                self.wait_idr = false;
                self.flush = true;
            } else {
                return true;
            }
        }
        if idr {
            if self.wait_idr {
                self.flush = true;
            }
            self.wait_idr = false;
        }
        let ghost mid = self.buf@;
        let ghost view = au@;
        self.buf.push_back(au);
        assert(self@.units =~= mid.map_values(|u: Vec<u8>| u@).push(view));
        assert(self@.units =~= old(self)@.offered(view).units);
        false
    }

    /// Throws away what waits, and takes nothing but a keyframe from now on.
    pub fn request_idr(&mut self)
        ensures
            final(self)@ == old(self)@.awaiting(),
            final(self)@.wf(),
    {
        self.wait_idr = true;
        self.buf.clear();
        assert(self@.units =~= Seq::empty());
    }

    /// How many wait.
    pub fn len(&self) -> (r: usize)
        ensures
            r == self@.units.len(),
    {
        self.buf.len()
    }

    /// Takes the oldest that waits.
    pub fn pop(&mut self) -> (r: Option<Vec<u8>>)
        ensures
            match r {
                Some(au) => {
                    &&& old(self)@.units.len() > 0
                    &&& au@ == old(self)@.units[0]
                    &&& final(self)@ == (Queue { units: old(self)@.units.skip(1), ..old(self)@ })
                },
                None => old(self)@.units.len() == 0 && final(self)@ == old(self)@,
            },
            old(self)@.wf() ==> final(self)@.wf(),
    {
        let r: Option<Vec<u8>> = self.buf.pop_front();
        proof {
            if old(self)@.units.len() > 0 {
                assert(self@.units =~= old(self)@.units.skip(1));
            }
        }
        r
    }

    /// True once after what is in the decoder became useless.
    pub fn take_flush(&mut self) -> (r: bool)
        ensures
            r == old(self)@.flush,
            final(self)@ == (Queue { flush: false, ..old(self)@ }),
    {
        let r: bool = self.flush;
        self.flush = false;
        r
    }

    /// There will be no more.
    pub fn close(&mut self)
        ensures
            final(self)@ == (Queue { closed: true, ..old(self)@ }),
    {
        self.closed = true;
    }
}

/// A full queue drops what is no keyframe, and goes on as before: it does not
/// begin to wait for a keyframe.
pub proof fn overflow_does_not_latch(q: Queue, au: Seq<u8>)
    requires
        q.units.len() >= AU_Q_MAX,
        !q.wait_idr,
        !has_unit(au, 5),
    ensures
        q.drops(au),
        q.offered(au) == q,
{
}

/// A keyframe is never dropped, and ends the wait for one.
pub proof fn keyframes_get_through(q: Queue, au: Seq<u8>)
    requires
        has_unit(au, 5),
    ensures
        !q.drops(au),
        !q.offered(au).wait_idr,
        q.offered(au).units.last() == au,
        q.wf() ==> q.offered(au).wf(),
        q.wait_idr || q.units.len() >= AU_Q_MAX ==> q.offered(au).flush,
{
}

/// True of an address that the session may use: the printed one, or where none
/// was, any on a real network.
pub open spec fn usable(ip: Ipv4, host_ip: Option<Ipv4>) -> bool {
    match host_ip {
        Some(want) => ip == want,
        None => ip.on_lan() && !(ip.a == 0 && ip.b == 0 && ip.c == 0 && ip.d == 0)
            && !virtual_range(ip),
    }
}

/// True of an address that the session may use.
pub fn ip_filter(ip: Ipv4, host_ip: Option<Ipv4>) -> (r: bool)
    ensures
        r == usable(ip, host_ip),
{
    match host_ip {
        Some(want) => ip == want,
        None => ip.is_on_lan() && !(ip.a == 0 && ip.b == 0 && ip.c == 0 && ip.d == 0)
            && !is_virtual_lan(ip),
    }
}

/// The profiles that are offered to the phone, each with its payload type.
pub open spec fn profile_at(i: int) -> (u8, Seq<char>) {
    (
        (102 + i) as u8,
        "level-asymmetry-allowed=1;packetization-mode="@ + (if i < 6 {
            "1"@
        } else {
            "0"@
        }) + ";profile-level-id="@ + (if i == 0 || i == 6 {
            "42e01f"@
        } else if i == 1 || i == 7 {
            "42001f"@
        } else if i == 2 {
            "640c1f"@
        } else if i == 3 {
            "640032"@
        } else if i == 4 {
            "64001f"@
        } else {
            "4d001f"@
        }),
    )
}

/// A codec profile: payload type and format line.
pub struct Profile {
    pub payload_type: u8,
    pub fmtp: String,
}

/// The profiles that are offered to the phone.
pub fn register_h264_lan() -> (r: Vec<Profile>)
    ensures
        r@.len() == 8,
        forall|i: int|
            0 <= i < 8 ==> ((#[trigger] r@[i]).payload_type, r@[i].fmtp@) == profile_at(i),
{
    let mut r: Vec<Profile> = Vec::new();
    let mut i: u8 = 0;
    while i < 8
        invariant
            i <= 8,
            r@.len() == i,
            forall|k: int|
                0 <= k < i ==> ((#[trigger] r@[k]).payload_type, r@[k].fmtp@) == profile_at(k),
        decreases 8 - i,
    {
        let mut s: String = String::new();
        s.append("level-asymmetry-allowed=1;packetization-mode=");
        s.append(
            if i < 6 {
                "1"
            } else {
                "0"
            },
        );
        s.append(";profile-level-id=");
        s.append(
            if i == 0 || i == 6 {
                "42e01f"
            } else if i == 1 || i == 7 {
                "42001f"
            } else if i == 2 {
                "640c1f"
            } else if i == 3 {
                "640032"
            } else if i == 4 {
                "64001f"
            } else {
                "4d001f"
            },
        );
        assert(s@ =~= profile_at(i as int).1);
        r.push(Profile { payload_type: 102 + i, fmtp: s });
        i += 1;
    }
    r
}

/// The feedback that is offered to the phone: lost packets and lost pictures, and
/// requests for a whole picture. No bandwidth estimation is: browsers hunt for a
/// bitrate with it, and the picture pumps between sharp and shredded.
pub open spec fn feedback_at(i: int) -> (Seq<char>, Seq<char>) {
    if i == 0 {
        ("nack"@, ""@)
    } else if i == 1 {
        ("nack"@, "pli"@)
    } else {
        ("ccm"@, "fir"@)
    }
}

/// The feedback that is offered to the phone: type and parameter.
pub fn feedback() -> (r: Vec<(&'static str, &'static str)>)
    ensures
        r@.len() == 3,
        forall|i: int| 0 <= i < 3 ==> ((#[trigger] r@[i]).0@, r@[i].1@) == feedback_at(i),
{
    let mut r: Vec<(&'static str, &'static str)> = Vec::new();
    r.push(("nack", ""));
    r.push(("nack", "pli"));
    r.push(("ccm", "fir"));
    r
}

/// True of the name of the one codec that is taken, in any case.
pub fn is_h264(mime: &str) -> (r: bool)
    ensures
        r == (lower(mime@) == lower("video/H264"@)),
{
    let a: Vec<char> = chars(mime);
    let b: Vec<char> = chars("video/H264");
    same_chars(lower_chars(a.as_slice()).as_slice(), lower_chars(b.as_slice()).as_slice())
}

/// A codec and its format, for the user to see.
pub fn codec_line(mime: &str, fmtp: &str) -> (r: String)
    ensures
        r@ == mime@ + " "@ + fmtp@,
{
    let mut s: String = String::new();
    s.append(mime);
    s.append(" ");
    s.append(fmtp);
    assert(s@ =~= mime@ + " "@ + fmtp@);
    s
}

/// What the decoder does with an access unit.
#[derive(Clone, Copy, Debug, PartialEq, Eq, Structural)]
pub enum DecodeStep {
    /// Nothing: no one wants a picture.
    Paused,
    /// It throws away what it holds and waits for a keyframe, which is asked for.
    WaitIdr,
    /// It decodes, after it has thrown away what it holds, or not.
    Decode { flush: bool, rgb: PreviewRgb },
}

/// What is kept between access units.
#[derive(Clone, Copy, Debug, PartialEq, Eq, Structural)]
pub struct DecodeLoop {
    pub was_skipping: bool,
    pub last_rgb: Option<u64>,
}

impl DecodeLoop {
    /// What the decoder does with an access unit.
    pub open spec fn step_for(
        self,
        au: Seq<u8>,
        p: PreviewControl,
        q: Queue,
        src_long: u32,
        now: u64,
    ) -> DecodeStep {
        let plan = p.planned();
        if plan.skip_always && !p.vcam_on {
            DecodeStep::Paused
        } else if self.was_skipping && !has_unit(au, 5) {
            DecodeStep::WaitIdr
        } else {
            DecodeStep::Decode {
                flush: self.was_skipping || (has_unit(au, 5) && q.flush),
                rgb: rgb_mode(q.units.len() == 0, plan.clamped(src_long), self.last_rgb, now),
            }
        }
    }

    /// Before the first access unit.
    pub fn new() -> (r: DecodeLoop)
        ensures
            r == (DecodeLoop { was_skipping: false, last_rgb: None }),
    {
        DecodeLoop { was_skipping: false, last_rgb: None }
    }

    /// Decides about the access unit that was taken from the queue. While no one
    /// wants a picture decoding pauses; afterwards it begins with a keyframe.
    pub fn next(
        &mut self,
        au: &[u8],
        preview: &PreviewControl,
        queue: &mut AuQueue,
        src_long: u32,
        now: u64,
    ) -> (r: DecodeStep)
        ensures
            r == old(self).step_for(au@, *preview, old(queue)@, src_long, now),
            final(self).was_skipping == (r == DecodeStep::Paused),
            final(self).last_rgb == match r {
                DecodeStep::Decode { flush: _, rgb } => if rgb == PreviewRgb::Skip {
                    old(self).last_rgb
                } else {
                    Some(now)
                },
                _ => old(self).last_rgb,
            },
            final(queue)@ == match r {
                DecodeStep::Paused => old(queue)@,
                DecodeStep::WaitIdr => old(queue)@.awaiting(),
                DecodeStep::Decode { .. } => if has_unit(au@, 5) {
                    Queue { flush: false, ..old(queue)@ }
                } else {
                    old(queue)@
                },
            },
            old(queue)@.wf() ==> final(queue)@.wf(),
    {
        let plan: PreviewPlan = preview.plan();
        if plan.skip_always && !preview.needs_nv12() {
            self.was_skipping = true;
            return DecodeStep::Paused;
        }
        let idr: bool = is_idr(au);
        let resumed: bool = self.was_skipping;
        self.was_skipping = false;
        if resumed && !idr {
            queue.request_idr();
            return DecodeStep::WaitIdr;
        }
        let stale: bool = if idr {
            queue.take_flush()
        } else {
            false
        };
        let rgb: PreviewRgb = preview_rgb_mode(
            queue.len() == 0,
            plan.clamp_for_source(src_long),
            &mut self.last_rgb,
            now,
        );
        DecodeStep::Decode { flush: resumed || stale, rgb }
    }
}

/// What is known of the stream after an access unit that was not decoded. A
/// keyframe still tells the size.
pub open spec fn paused_stats(s: StreamStats, au: Seq<u8>, now: u64) -> StreamStats {
    let t = match stream_rectangle(au) {
        Some(c) => if has_unit(au, 5) {
            StreamStats { width: c.w, height: c.h, ..s }
        } else {
            s
        },
        None => s,
    };
    t.counted(now)
}

/// Takes note of an access unit that is not decoded.
pub fn note_paused(stats: &mut StreamStats, au: &[u8], now: u64)
    ensures
        *final(stats) == paused_stats(*old(stats), au@, now),
{
    if is_idr(au) {
        if let Some(c) = sps_crop_from_annex_b(au) {
            stats.width = c.w;
            stats.height = c.h;
        }
    }
    stats.pulse(now);
}

/// What decoding an access unit came to.
#[derive(Clone, Copy, Debug, PartialEq, Eq, Structural)]
pub enum Decoded {
    Done,
    NoMemory,
    Failed,
}

/// A time to decode in milliseconds, smoothed: each new one, given in nanoseconds,
/// counts for 15 in 100.
pub open spec fn smoothed(before: Single, ns: u64) -> Single {
    let ms = times(seconds(ns as int), float(1000));
    if before == zero() {
        ms
    } else {
        plus(times(before, ratio(85, 100)), times(ms, ratio(15, 100)))
    }
}

/// Takes note of how decoding an access unit went. Where memory ran out the
/// preview goes off. True where a keyframe is needed to go on.
pub fn after_decode(
    stats: &mut StreamStats,
    preview: &mut PreviewControl,
    slot: &mut FrameSlot,
    took: u64,
    hit_oom: bool,
    result: Decoded,
    now: u64,
) -> (r: bool)
    ensures
        r == (result == Decoded::Failed),
        ({
            let oom = hit_oom || result == Decoded::NoMemory;
            let s = StreamStats { decode_ms: smoothed(old(stats).decode_ms, took), ..*old(stats) };
            &&& *final(stats) == if oom {
                s.oom_noted(now)
            } else {
                s
            }
            &&& *final(preview) == if oom {
                PreviewControl { encoding: PreviewEncoding::Off.number(), ..*old(preview) }
            } else {
                *old(preview)
            }
            &&& oom ==> final(slot).frame is None
            &&& !oom ==> *final(slot) == *old(slot)
        }),
{
    let ms: Single = Single::seconds(took).times(Single::of(1000));
    stats.decode_ms = if stats.decode_ms.bits == 0 {
        ms
    } else {
        stats.decode_ms.times(Single::ratio(85, 100)).plus(ms.times(Single::ratio(15, 100)))
    };
    if hit_oom || result == Decoded::NoMemory {
        stats.note_oom(now);
        preview.set_encoding(PreviewEncoding::Off);
        slot.frame = None;
    }
    result == Decoded::Failed
}

/// A number as far as 64 bits go.
pub open spec fn capped(n: int) -> u64 {
    if n > u64::MAX {
        u64::MAX
    } else {
        n as u64
    }
}

fn cap(n: u128) -> (r: u64)
    ensures
        r == capped(n as int),
{
    if n > u64::MAX as u128 {
        u64::MAX
    } else {
        n as u64
    }
}

/// How many keyframes are asked for at most: one in so many nanoseconds.
pub const PLI_GAP: u64 = 800_000_000;

/// A remote track.
pub struct Track {
    pub depay: H264Depay,
    pub last_gap_log: u64,
    pub last_drop_log: u64,
    pub rtp_count: u64,
    pub au_count: u64,
    /// When a keyframe was last asked for.
    pub last_pli: Option<u64>,
    pub net_bytes: u64,
    pub net_pkts: u64,
    pub net_gaps0: u64,
    pub net_at: u64,
}

/// What came of a packet.
pub struct PacketOut {
    /// The access units for the recorder.
    pub record: Vec<Vec<u8>>,
    /// A keyframe is wanted.
    pub wanted: bool,
    /// This is the first packet.
    pub first: bool,
    /// The number of gaps is worth a line in the log.
    pub log_gaps: bool,
    /// The number of drops is worth a line in the log.
    pub log_drops: bool,
}

/// What is known of the network after a second or more.
pub open spec fn net_measured(
    s: StreamStats,
    bytes: u64,
    pkts: u64,
    lost: u64,
    ns: u64,
) -> StreamStats {
    StreamStats {
        bitrate_kbps: per(over(times(float(bytes as int), float(8)), span_of(ns as int)), 1000),
        pkt_pps: per_second(pkts as int, ns as int),
        loss_pct: if pkts + lost > 0 {
            percent_of(float(lost as int), float(capped(pkts + lost) as int))
        } else {
            zero()
        },
        ..s
    }
}

/// The queue before the access units of a packet: it waits for a keyframe where
/// one was dropped.
pub open spec fn queue_before(q: Queue, dropped: bool) -> Queue {
    if dropped {
        q.awaiting()
    } else {
        q
    }
}

impl Track {
    /// A track whose first packet is awaited at `now`.
    pub fn new(now: u64) -> (r: Track)
        ensures
            r.rtp_count == 0 && r.au_count == 0 && r.last_pli is None,
            r.last_gap_log == 0 && r.last_drop_log == 0,
            r.net_bytes == 0 && r.net_pkts == 0 && r.net_gaps0 == 0 && r.net_at == now,
            r.depay@ == Depay::fresh(),
    {
        Track {
            depay: H264Depay::default(),
            last_gap_log: 0,
            last_drop_log: 0,
            rtp_count: 0,
            au_count: 0,
            last_pli: None,
            net_bytes: 0,
            net_pkts: 0,
            net_gaps0: 0,
            net_at: now,
        }
    }

    /// What is known of the stream after a packet that leaves the depacketizer
    /// at `d`.
    pub open spec fn stats_after(self, s: StreamStats, d: Depay, len: int, now: u64) -> StreamStats {
        let a = if d.seq_gaps != self.last_gap_log {
            s.gaps_noted(d.seq_gaps, now)
        } else {
            s
        };
        let b = if d.dropped_incomplete != self.last_drop_log {
            a.drops_noted(d.dropped_incomplete, now)
        } else {
            a
        };
        let ns = since(self.net_at, now);
        if ns >= 1_000_000_000 {
            net_measured(
                b,
                capped(self.net_bytes + 12 + len),
                capped(self.net_pkts + 1),
                since(self.net_gaps0, d.seq_gaps),
                ns,
            )
        } else {
            b
        }
    }

    /// Takes a packet.
    pub fn on_remote_track(
        &mut self,
        pkt: (u16, u32, bool),
        payload: &[u8],
        stats: &mut StreamStats,
        queue: &mut AuQueue,
        recording: bool,
        now: u64,
    ) -> (r: PacketOut)
        requires
            old(queue)@.wf(),
        ensures
            ({
                let d = old(self).depay@.pushed(pkt.0, pkt.1, pkt.2, payload@);
                let aus = old(self).depay@.completed(pkt.0, pkt.1, pkt.2, payload@);
                let lost = d.dropped_incomplete != old(self).last_drop_log;
                let q = queue_before(old(queue)@, lost);
                &&& final(self).depay@ == d
                &&& *final(stats) == old(self).stats_after(
                    *old(stats),
                    d,
                    payload@.len() as int,
                    now,
                )
                &&& final(queue)@ == q.offered_all(aus, aus.len() as int)
                &&& final(queue)@.wf()
                &&& r.wanted == (lost || q.drops_any(aus, aus.len() as int))
                &&& r.record@.map_values(|u: Vec<u8>| u@) == if recording {
                    aus.map_values(|u: (Seq<u8>, u32)| u.0)
                } else {
                    Seq::empty()
                }
                &&& r.first == (old(self).rtp_count == 0)
                &&& r.log_gaps == (d.seq_gaps != old(self).last_gap_log && (d.seq_gaps == 1
                    || d.seq_gaps % 60 == 0))
                &&& r.log_drops == (lost && (d.dropped_incomplete == 1 || d.dropped_incomplete % 30
                    == 0))
                &&& final(self).last_gap_log == d.seq_gaps
                &&& final(self).last_drop_log == d.dropped_incomplete
                &&& final(self).rtp_count == capped(old(self).rtp_count + 1)
                &&& final(self).au_count == capped(old(self).au_count + aus.len())
                &&& final(self).last_pli == old(self).last_pli
                &&& if since(old(self).net_at, now) >= 1_000_000_000 {
                    &&& final(self).net_bytes == 0
                    &&& final(self).net_pkts == 0
                    &&& final(self).net_gaps0 == d.seq_gaps
                    &&& final(self).net_at == now
                } else {
                    &&& final(self).net_bytes == capped(old(self).net_bytes + 12 + payload@.len())
                    &&& final(self).net_pkts == capped(old(self).net_pkts + 1)
                    &&& final(self).net_gaps0 == old(self).net_gaps0
                    &&& final(self).net_at == old(self).net_at
                }
            }),
    {
        let first: bool = self.rtp_count == 0;
        self.rtp_count = self.rtp_count.saturating_add(1);
        self.net_bytes = cap(self.net_bytes as u128 + 12 + payload.len() as u128);
        self.net_pkts = self.net_pkts.saturating_add(1);
        let aus: Vec<(Vec<u8>, u32)> = self.depay.push(pkt.0, pkt.1, pkt.2, payload);
        let ghost d = self.depay@;
        let ghost all = units_view(aus@);
        let gaps: u64 = self.depay.seq_gaps;
        let drops: u64 = self.depay.dropped_incomplete;
        let mut log_gaps: bool = false;
        if gaps != self.last_gap_log {
            self.last_gap_log = gaps;
            log_gaps = gaps == 1 || gaps % 60 == 0;
            stats.note_gaps(gaps, now);
        }
        let mut wanted: bool = false;
        let mut log_drops: bool = false;
        if drops != self.last_drop_log {
            self.last_drop_log = drops;
            queue.request_idr();
            wanted = true;
            log_drops = drops == 1 || drops % 30 == 0;
            stats.note_drops(drops, now);
        }
        let lost: bool = wanted;
        let ghost q = queue@;
        let mut record: Vec<Vec<u8>> = Vec::new();
        assert(record@.map_values(|u: Vec<u8>| u@) =~= Seq::empty());
        let mut i: usize = 0;
        while i < aus.len()
            invariant
                i <= aus@.len(),
                all == units_view(aus@),
                queue@.wf(),
                queue@ == q.offered_all(all, i as int),
                wanted == (lost || q.drops_any(all, i as int)),
                record@.len() == if recording {
                    i as int
                } else {
                    0
                },
                forall|k: int| 0 <= k < record@.len() ==> (#[trigger] record@[k])@ == all[k].0,
            decreases aus@.len() - i,
        {
            let au: &Vec<u8> = &aus[i].0;
            assert(au@ == all[i as int].0);
            if recording {
                record.push(vstd::slice::slice_to_vec(au.as_slice()));
            }
            if queue.push(vstd::slice::slice_to_vec(au.as_slice())) {
                wanted = true;
            }
            i += 1;
        }
        proof {
            assert(all.len() == aus@.len());
            assert(record@.map_values(|u: Vec<u8>| u@) =~= if recording {
                all.map_values(|u: (Seq<u8>, u32)| u.0)
            } else {
                Seq::empty()
            });
        }
        self.au_count = cap(self.au_count as u128 + aus.len() as u128);
        let ns: u64 = now.saturating_sub(self.net_at);
        if ns >= 1_000_000_000 {
            self.measure(stats, gaps, ns);
            self.net_at = now;
        }
        PacketOut { record, wanted, first, log_gaps, log_drops }
    }

    /// Measures the network, and begins anew.
    fn measure(&mut self, stats: &mut StreamStats, gaps: u64, ns: u64)
        ensures
            *final(stats) == net_measured(
                *old(stats),
                old(self).net_bytes,
                old(self).net_pkts,
                since(old(self).net_gaps0, gaps),
                ns,
            ),
            *final(self) == (Track { net_bytes: 0, net_pkts: 0, net_gaps0: gaps, ..*old(self) }),
    {
        let lost: u64 = gaps.saturating_sub(self.net_gaps0);
        let total: u64 = self.net_pkts.saturating_add(lost);
        let bits: Single = Single::of(self.net_bytes).times(Single::of(8));
        stats.bitrate_kbps = divided(bits.over(span(ns)), 1000);
        stats.pkt_pps = rate(self.net_pkts, ns);
        stats.loss_pct = if total > 0 {
            proof {
                ratio_is_positive(total as int, 1);
            }
            percent(Single::of(lost), Single::of(total))
        } else {
            Single { bits: 0 }
        };
        self.net_bytes = 0;
        self.net_pkts = 0;
        self.net_gaps0 = gaps;
    }

    /// True where a keyframe is asked for now: it is wanted, and none was asked
    /// for a moment ago.
    pub fn pli_due(&mut self, wanted: bool, now: u64) -> (r: bool)
        ensures
            r == (wanted && match old(self).last_pli {
                Some(t) => since(t, now) >= PLI_GAP,
                None => true,
            }),
            *final(self) == (Track {
                last_pli: if r {
                    Some(now)
                } else {
                    old(self).last_pli
                },
                ..*old(self)
            }),
    {
        let quiet: bool = match self.last_pli {
            Some(t) => now.saturating_sub(t) < PLI_GAP,
            None => false,
        };
        if wanted && !quiet {
            self.last_pli = Some(now);
            return true;
        }
        false
    }
}

/// Two requests for a keyframe are never closer than the gap.
pub proof fn keyframe_requests_are_spaced(t: u64, now: u64, wanted: bool)
    requires
        now < t + PLI_GAP,
    ensures
        !(wanted && since(t, now) >= PLI_GAP),
{
}

/// After an access unit was lost, the decoder gets nothing before a keyframe.
pub proof fn loss_waits_for_keyframe(q: Queue, au: Seq<u8>)
    requires
        !has_unit(au, 5),
    ensures
        q.awaiting().drops(au),
        q.awaiting().offered(au) == q.awaiting(),
        q.awaiting().units.len() == 0,
{
}

/// Decoding never resumes but with a keyframe.
pub proof fn decoding_resumes_with_keyframe(
    l: DecodeLoop,
    au: Seq<u8>,
    p: PreviewControl,
    q: Queue,
    src_long: u32,
    now: u64,
)
    requires
        l.was_skipping,
    ensures
        match l.step_for(au, p, q, src_long, now) {
            DecodeStep::Decode { flush, rgb: _ } => flush && has_unit(au, 5),
            _ => true,
        },
{
}

/// True where `a` is left of `b` when some of it is taken out: what stays, stays in
/// its order.
pub open spec fn left_of(a: Seq<Seq<u8>>, b: Seq<Seq<u8>>) -> bool
    decreases b.len(),
{
    if a.len() == 0 {
        true
    } else if b.len() == 0 {
        false
    } else {
        (a.last() == b.last() && left_of(a.drop_last(), b.drop_last())) || left_of(a, b.drop_last())
    }
}

/// Something that happens to a queue.
pub ghost enum Event {
    /// An access unit is offered.
    Offer(Seq<u8>),
    /// The oldest is taken out.
    Take,
    /// What waits is thrown away for want of a keyframe.
    Lose,
}

/// A queue, all that was ever offered to it, and all that was taken out, in order.
pub ghost struct History {
    pub queue: Queue,
    pub offered: Seq<Seq<u8>>,
    pub taken: Seq<Seq<u8>>,
}

/// A queue's history after one more event.
pub open spec fn goes_on(h: History, e: Event) -> History {
    match e {
        Event::Offer(au) => History {
            queue: h.queue.offered(au),
            offered: h.offered.push(au),
            taken: h.taken,
        },
        Event::Take => if h.queue.units.len() == 0 {
            h
        } else {
            History {
                queue: Queue { units: h.queue.units.skip(1), ..h.queue },
                offered: h.offered,
                taken: h.taken.push(h.queue.units[0]),
            }
        },
        Event::Lose => History { queue: h.queue.awaiting(), ..h },
    }
}

/// The history of an empty queue after the first `n` events.
pub open spec fn history(es: Seq<Event>, n: int) -> History
    decreases n,
{
    if n <= 0 {
        History {
            queue: Queue { units: Seq::empty(), closed: false, wait_idr: false, flush: false },
            offered: Seq::empty(),
            taken: Seq::empty(),
        }
    } else {
        goes_on(history(es, n - 1), es[n - 1])
    }
}

/// First in, first out: whatever happens, what was taken out and what still waits
/// behind it is, in order, what was offered, some of it left out.
pub proof fn first_in_first_out(es: Seq<Event>, n: int)
    ensures
        left_of(history(es, n).taken + history(es, n).queue.units, history(es, n).offered),
    decreases n,
{
    if n > 0 {
        first_in_first_out(es, n - 1);
        let h = history(es, n - 1);
        let z = history(es, n);
        let q = h.queue;
        let all = h.taken + q.units;
        match es[n - 1] {
            Event::Offer(au) => {
                assert(z.offered.drop_last() =~= h.offered);
                left_of_front(h.taken, q.units, h.offered);
                let now = z.taken + z.queue.units;
                if z.queue.units.len() > 0 && z.queue.units.last() == au {
                    assert(now.drop_last() =~= h.taken + z.queue.units.drop_last());
                    if z.queue.units.len() == q.units.len() + 1 {
                        assert(z.queue.units.drop_last() =~= q.units);
                    } else if z.queue.units.len() == 1 {
                        assert(now.drop_last() =~= h.taken);
                    }
                }
                if z.queue.units == q.units {
                    assert(now == all);
                }
            },
            Event::Take => {
                if q.units.len() > 0 {
                    assert(z.taken + z.queue.units =~= all);
                }
            },
            Event::Lose => {
                left_of_front(h.taken, q.units, h.offered);
                assert(z.taken + z.queue.units =~= h.taken);
            },
        }
    }
}

/// A front is left where the whole is.
proof fn left_of_front(a: Seq<Seq<u8>>, more: Seq<Seq<u8>>, b: Seq<Seq<u8>>)
    requires
        left_of(a + more, b),
    ensures
        left_of(a, b),
    decreases b.len(), more.len(),
{
    if more.len() == 0 {
        assert(a + more =~= a);
    } else if a.len() > 0 {
        let all = a + more;
        assert(all.drop_last() =~= a + more.drop_last());
        if left_of(all, b.drop_last()) {
            left_of_front(a, more, b.drop_last());
        } else {
            left_of_front(a, more.drop_last(), b.drop_last());
        }
    }
}

/// What becomes of an access unit that is offered: it goes behind all that waits, in
/// the order in which that waited, where it is a keyframe, or where there is room and
/// no keyframe is waited for. Only a keyframe that finds no room takes the place of
/// all that waits. What is not taken changes nothing.
pub proof fn offers_go_behind(q: Queue, au: Seq<u8>)
    ensures
        ({
            let key = has_unit(au, 5);
            let room = q.units.len() < 2;
            let z = q.offered(au);
            &&& q.drops(au) <==> !key && (q.wait_idr || !room)
            &&& q.drops(au) ==> z == q
            &&& !q.drops(au) ==> z.units.len() > 0 && z.units.last() == au
            &&& !q.drops(au) && room ==> z.units.drop_last() == q.units
            &&& !q.drops(au) && !room ==> key && z.units.len() == 1
            &&& z.wait_idr == (q.wait_idr && !key)
            &&& z.flush == (q.flush || (key && (q.wait_idr || !room)))
            &&& z.closed == q.closed
        }),
{
    assert(q.units.push(au).drop_last() =~= q.units);
}

/// True where nothing waits that a decoder could not use.
pub open spec fn usable_queue(q: Queue) -> bool {
    q.wait_idr ==> q.units.len() == 0
}

/// While a keyframe is waited for nothing waits, whatever happened before.
pub proof fn nothing_useless_waits(es: Seq<Event>, n: int)
    ensures
        usable_queue(history(es, n).queue),
    decreases n,
{
    if n > 0 {
        nothing_useless_waits(es, n - 1);
    }
}

/// After a loss the decoder gets a keyframe first: of what is taken out from then on,
/// and of what waits, the oldest is one.
pub proof fn keyframe_comes_first(es: Seq<Event>, from: int, n: int)
    requires
        0 < from <= n <= es.len(),
        es[from - 1] == Event::Lose,
    ensures
        ({
            let before = history(es, from).taken;
            let h = history(es, n);
            let since = (h.taken + h.queue.units).skip(before.len() as int);
            &&& before.len() <= h.taken.len()
            &&& h.taken.take(before.len() as int) == before
            &&& since.len() > 0 ==> has_unit(since[0], 5)
            &&& since.len() == 0 ==> h.queue.wait_idr
        }),
    decreases n,
{
    let before = history(es, from).taken;
    let k = before.len() as int;
    if n == from {
        let h = history(es, n);
        assert(h.taken.take(k) =~= before);
        assert((h.taken + h.queue.units).skip(k).len() == 0);
    } else {
        keyframe_comes_first(es, from, n - 1);
        nothing_useless_waits(es, n - 1);
        let h = history(es, n - 1);
        let z = history(es, n);
        let was = (h.taken + h.queue.units).skip(k);
        let now = (z.taken + z.queue.units).skip(k);
        assert(z.taken.take(k) =~= before);
        match es[n - 1] {
            Event::Take => {
                if h.queue.units.len() > 0 {
                    assert(z.taken + z.queue.units =~= h.taken + h.queue.units);
                }
            },
            _ => {
                if h.taken.len() > k {
                    assert(was[0] == h.taken[k]);
                    assert(now[0] == h.taken[k]);
                } else if now.len() > 0 && was.len() > 0 {
                    assert(was[0] == h.queue.units[0]);
                    assert(now[0] == z.queue.units[0]);
                } else if now.len() > 0 {
                    assert(now[0] == z.queue.units[0]);
                }
            },
        }
    }
}

/// In one second so many bytes are eight times as many bits, in thousands, and so many
/// packets are their rate. Where none is lost the loss is nothing, and where all are it
/// is all.
pub proof fn a_second_tells_the_network(s: StreamStats, bytes: u64, pkts: u64, lost: u64)
    requires
        8 * bytes <= 0x100_0000,
        pkts <= 0x100_0000,
        lost <= 0x100_0000,
    ensures
        ({
            let z = net_measured(s, bytes, pkts, lost, 1_000_000_000);
            &&& z.bitrate_kbps == ratio(8 * bytes, 1000)
            &&& z.pkt_pps == float(pkts as int)
            &&& lost == 0 ==> z.loss_pct == zero()
            &&& lost > 0 && pkts == 0 ==> z.loss_pct == float(100)
        }),
{
    let n = 8 * bytes;
    a_second_tells_the_rate(pkts as int);
    a_second_is_one();
    ratios_keep_order(1, 1000, 1, 1);
    assert(span_of(1_000_000_000) == float(1));
    integers_compute(bytes as int, 8);
    assert(bytes * 8 == n) by (nonlinear_arith)
        requires
            n == 8 * bytes,
    ;
    integers_compute(n as int, 1);
    integers_compute(n as int, 1000);
    if lost == 0 && pkts > 0 {
        integers_compute(0, pkts as int);
        ratios_keep_order(0, pkts as int, 0, 1);
        integers_compute(0, 100);
        nothing_is_zero();
    }
    if lost > 0 && pkts == 0 {
        integers_compute(lost as int, lost as int);
        ratios_keep_order(lost as int, lost as int, 1, 1);
        integers_compute(1, 100);
    }
}

/// Access units reach the queue one by one, oldest first, and it is told where one of
/// them is dropped.
pub proof fn offers_come_in_order(q: Queue, aus: Seq<(Seq<u8>, u32)>)
    ensures
        q.offered_all(aus, 0) == q,
        !q.drops_any(aus, 0),
        aus.len() >= 1 ==> q.offered_all(aus, 1) == q.offered(aus[0].0) && q.drops_any(aus, 1)
            == q.drops(aus[0].0),
        aus.len() >= 2 ==> {
            let first = q.offered(aus[0].0);
            &&& q.offered_all(aus, 2) == first.offered(aus[1].0)
            &&& q.drops_any(aus, 2) == (q.drops(aus[0].0) || first.drops(aus[1].0))
        },
{
    reveal_with_fuel(Queue::offered_all, 3);
    reveal_with_fuel(Queue::drops_any, 3);
}

/// Decoding pauses where neither the preview nor the virtual camera wants a picture. It
/// goes on with a keyframe, before which the decoder is emptied; so it is before one that
/// follows a loss. The preview gets a picture only while nothing waits.
pub proof fn decoding_follows_the_plan(
    l: DecodeLoop,
    au: Seq<u8>,
    p: PreviewControl,
    q: Queue,
    src_long: u32,
    now: u64,
)
    ensures
        ({
            let idle = p.planned().skip_always && !p.vcam_on;
            let key = has_unit(au, 5);
            let r = l.step_for(au, p, q, src_long, now);
            &&& r == DecodeStep::Paused <==> idle
            &&& r == DecodeStep::WaitIdr <==> !idle && l.was_skipping && !key
            &&& r matches DecodeStep::Decode { flush, rgb } ==> {
                &&& flush <==> l.was_skipping || (key && q.flush)
                &&& q.units.len() > 0 || p.planned().skip_always ==> rgb == PreviewRgb::Skip
            }
        }),
{
}

} // verus!
