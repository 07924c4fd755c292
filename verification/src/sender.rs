//! What a sender of H.264 puts on the wire, and what comes of it at the other end:
//! whole pictures as they were sent, and nothing of those that lost a packet.

use crate::depay::{
    aggregate_unpacks, broken_stays, bump, cuts_of, fragment, fragments_rejoin, has_unit, packed,
    unit_at, unit_type, with_each, with_fragments, Depay,
};
use vstd::prelude::*;

verus! {

/// A packet.
pub ghost struct Packet {
    pub seq: u16,
    pub ts: u32,
    pub marker: bool,
    pub payload: Seq<u8>,
}

/// A depacketizer after the first `n` packets.
pub open spec fn after(d: Depay, ps: Seq<Packet>, n: int) -> Depay
    decreases n,
{
    if n <= 0 {
        d
    } else {
        let p = ps[n - 1];
        after(d, ps, n - 1).pushed(p.seq, p.ts, p.marker, p.payload)
    }
}

/// What the first `n` packets give, in order.
pub open spec fn given(d: Depay, ps: Seq<Packet>, n: int) -> Seq<(Seq<u8>, u32)>
    decreases n,
{
    if n <= 0 {
        Seq::empty()
    } else {
        let p = ps[n - 1];
        given(d, ps, n - 1) + after(d, ps, n - 1).completed(p.seq, p.ts, p.marker, p.payload)
    }
}

/// True where packet `b` was sent right behind packet `a`.
pub open spec fn follows(a: u16, b: u16) -> bool {
    if a == 65535 {
        b == 0
    } else {
        b == a + 1
    }
}

/// True where nothing was lost before packet `i`.
pub open spec fn in_line(d: Depay, ps: Seq<Packet>, i: int) -> bool {
    if i == 0 {
        match d.last_seq {
            Some(a) => follows(a, ps[0].seq),
            None => true,
        }
    } else {
        follows(ps[i - 1].seq, ps[i].seq)
    }
}

/// True of the packets of one picture: all of one time, the last one marked.
pub open spec fn one_picture(ps: Seq<Packet>, ts: u32) -> bool {
    &&& ps.len() > 0
    &&& forall|i: int| 0 <= i < ps.len() ==> (#[trigger] ps[i]).ts == ts
    &&& forall|i: int| 0 <= i < ps.len() ==> ((#[trigger] ps[i]).marker <==> i == ps.len() - 1)
}

/// True of a depacketizer between pictures.
pub open spec fn at_rest(d: Depay) -> bool {
    d.au.len() == 0 && d.fu.len() == 0 && !d.broken
}

/// A loss is remembered for as long as the picture goes on.
pub proof fn loss_is_remembered(d: Depay, p: Packet)
    requires
        d.last_ts == Some(p.ts),
        !p.marker,
        d.broken || (d.last_seq matches Some(a) && !follows(a, p.seq)),
    ensures
        d.pushed(p.seq, p.ts, p.marker, p.payload).broken,
        d.completed(p.seq, p.ts, p.marker, p.payload).len() == 0,
{
    broken_stays(d.turned(p.seq, p.ts), p.payload);
}

/// Collected units are not lost before the picture is closed.
proof fn units_stay(d: Depay, p: Packet)
    requires
        d.last_ts == Some(p.ts),
        !p.marker,
    ensures
        d.au.len() <= d.pushed(p.seq, p.ts, p.marker, p.payload).au.len(),
{
    payload_adds(d.turned(p.seq, p.ts), p.payload);
}

proof fn payload_adds(d: Depay, p: Seq<u8>)
    ensures
        d.au.len() <= d.with_payload(p).au.len(),
        useful(p) ==> d.with_payload(p).au.len() > 0,
{
    aggregate_adds(d, p, 1);
    if p.len() > 0 {
        low_bits(p[0]);
    }
}

proof fn aggregate_adds(d: Depay, p: Seq<u8>, off: int)
    ensures
        d.au.len() <= d.with_aggregate(p, off).au.len(),
    decreases p.len() - off,
{
    if 0 <= off && off + 2 <= p.len() {
        let n = 256 * p[off] + p[off + 1];
        if off + 2 + n <= p.len() {
            aggregate_adds(d.with_useful(p.subrange(off + 2, off + 2 + n)), p, off + 2 + n);
        }
    }
}

proof fn low_bits(b: u8)
    ensures
        unit_type(b) == b % 32,
{
    assert(b & 0x1F == b % 32) by (bit_vector);
}

/// True of a unit worth keeping: one that a packet of its own can carry, and neither
/// a delimiter nor filler.
pub open spec fn useful(u: Seq<u8>) -> bool {
    u.len() > 0 && 1 <= u[0] % 32 <= 23 && u[0] % 32 != 9 && u[0] % 32 != 12
}

/// Of a picture that lost a packet nothing comes out, wherever the packet is missing.
/// Where anything came of it at all, it is counted as dropped, once. Then the next
/// picture begins with nothing left over.
#[verifier::spinoff_prover]
#[verifier::rlimit(50)]
pub proof fn damaged_pictures_are_dropped(d: Depay, ps: Seq<Packet>, ts: u32, g: int)
    requires
        one_picture(ps, ts),
        0 <= g < ps.len(),
        !in_line(d, ps, g),
    ensures
        ({
            let n = ps.len() as int;
            let z = after(d, ps, n);
            &&& forall|k: int|
                0 <= k < given(d, ps, n).len() ==> (#[trigger] given(d, ps, n)[k]).1 != ts
            &&& at_rest(z)
            &&& at_rest(d) ==> given(d, ps, n).len() == 0
            &&& at_rest(d) ==> z.dropped_incomplete == d.dropped_incomplete || z.dropped_incomplete
                == bump(d.dropped_incomplete)
            &&& at_rest(d) && (exists|k: int|
                0 <= k < n && useful((#[trigger] ps[k]).payload)) ==> z.dropped_incomplete == bump(
                d.dropped_incomplete,
            )
        }),
{
    let n = ps.len() as int;
    damaged_so_far(d, ps, ts, g, n - 1);
    let m = after(d, ps, n - 1);
    let p = ps[n - 1];
    let t = m.turned(p.seq, p.ts);
    broken_stays(t, p.payload);
    payload_adds(t, p.payload);
    if n > 1 {
        assert(m.last_ts == Some(ts));
    }
    let c = m.completed(p.seq, p.ts, p.marker, p.payload);
    assert(t.with_payload(p.payload).broken);
    assert(given(d, ps, n) == given(d, ps, n - 1) + c);
    assert forall|k: int| 0 <= k < given(d, ps, n).len() implies (#[trigger] given(
        d,
        ps,
        n,
    )[k]).1 != ts by {
        if k < given(d, ps, n - 1).len() {
            assert(given(d, ps, n)[k] == given(d, ps, n - 1)[k]);
        }
    }
}

/// Before the marker.
#[verifier::spinoff_prover]
#[verifier::rlimit(50)]
proof fn damaged_so_far(d: Depay, ps: Seq<Packet>, ts: u32, g: int, n: int)
    requires
        one_picture(ps, ts),
        0 <= g < ps.len(),
        !in_line(d, ps, g),
        0 <= n < ps.len(),
    ensures
        ({
            let z = after(d, ps, n);
            &&& n > 0 ==> z.last_ts == Some(ts) && z.last_seq == Some(ps[n - 1].seq)
            &&& n > g ==> z.broken
            &&& forall|k: int|
                0 <= k < given(d, ps, n).len() ==> (#[trigger] given(d, ps, n)[k]).1 != ts
            &&& at_rest(d) ==> given(d, ps, n).len() == 0
            &&& at_rest(d) ==> z.dropped_incomplete == d.dropped_incomplete
            &&& at_rest(d) && (exists|k: int| 0 <= k < n && useful((#[trigger] ps[k]).payload))
                ==> z.au.len() > 0
        }),
    decreases n,
{
    if n > 0 {
        damaged_so_far(d, ps, ts, g, n - 1);
        let m = after(d, ps, n - 1);
        let p = ps[n - 1];
        let t = m.turned(p.seq, p.ts);
        broken_stays(t, p.payload);
        payload_adds(t, p.payload);
        let c = m.completed(p.seq, p.ts, p.marker, p.payload);
        assert(given(d, ps, n) == given(d, ps, n - 1) + c);
        assert forall|k: int| 0 <= k < given(d, ps, n).len() implies (#[trigger] given(
            d,
            ps,
            n,
        )[k]).1 != ts by {
            if k < given(d, ps, n - 1).len() {
                assert(given(d, ps, n)[k] == given(d, ps, n - 1)[k]);
            }
        }
    }
}

/// How a sender packs units.
pub ghost enum Load {
    /// One, in a packet of its own.
    Single(Seq<u8>),
    /// Several in one packet, with this header.
    Together(u8, Seq<Seq<u8>>),
    /// One, in several packets, cut at these places.
    Cut(Seq<u8>, Seq<int>),
}

/// True of a load that the format allows.
pub open spec fn allowed(l: Load) -> bool {
    match l {
        Load::Single(u) => useful(u),
        Load::Together(h, us) => h % 32 == 24 && us.len() > 0 && forall|i: int|
            0 <= i < us.len() ==> useful(#[trigger] us[i]) && us[i].len() <= 65535,
        Load::Cut(u, cuts) => useful(u) && cuts_of(u, cuts),
    }
}

/// The units of a load.
pub open spec fn units_in(l: Load) -> Seq<Seq<u8>> {
    match l {
        Load::Single(u) => seq![u],
        Load::Together(_, us) => us,
        Load::Cut(u, _) => seq![u],
    }
}

/// The payloads of a load.
pub open spec fn payloads_in(l: Load) -> Seq<Seq<u8>> {
    match l {
        Load::Single(u) => seq![u],
        Load::Together(h, us) => seq![seq![h] + packed(us, 0)],
        Load::Cut(u, cuts) => Seq::new(
            (cuts.len() - 1) as nat,
            |i: int| fragment(u, cuts[i], cuts[i + 1]),
        ),
    }
}

/// The units of the first `n` loads.
pub open spec fn all_units(ls: Seq<Load>, n: int) -> Seq<Seq<u8>>
    decreases n,
{
    if n <= 0 {
        Seq::empty()
    } else {
        all_units(ls, n - 1) + units_in(ls[n - 1])
    }
}

/// The payloads of the first `n` loads.
pub open spec fn all_payloads(ls: Seq<Load>, n: int) -> Seq<Seq<u8>>
    decreases n,
{
    if n <= 0 {
        Seq::empty()
    } else {
        all_payloads(ls, n - 1) + payloads_in(ls[n - 1])
    }
}

/// The packets that carry these payloads as one picture, numbered from `seq` on.
pub open spec fn packets(payloads: Seq<Seq<u8>>, seq: u16, ts: u32) -> Seq<Packet> {
    Seq::new(
        payloads.len(),
        |i: int|
            Packet {
                seq: ((seq + i) % 65536) as u16,
                ts,
                marker: i == payloads.len() - 1,
                payload: payloads[i],
            },
    )
}

/// The first `n` units as a byte stream, each behind a start code.
pub open spec fn stream(us: Seq<Seq<u8>>, n: int) -> Seq<u8>
    decreases n,
{
    if n <= 0 {
        Seq::empty()
    } else {
        stream(us, n - 1) + seq![0u8, 0u8, 0u8, 1u8] + us[n - 1]
    }
}

/// The latest of the first `n` units with a type, or what there was before.
pub open spec fn latest(us: Seq<Seq<u8>>, n: int, t: u8, before: Seq<u8>) -> Seq<u8>
    decreases n,
{
    if n <= 0 {
        before
    } else if us[n - 1][0] % 32 == t {
        us[n - 1]
    } else {
        latest(us, n - 1, t, before)
    }
}

/// True where one of the units has a type.
pub open spec fn any_of(us: Seq<Seq<u8>>, t: u8) -> bool {
    exists|i: int| 0 <= i < us.len() && (#[trigger] us[i])[0] % 32 == t
}

/// True of a unit without a start code inside, as the format has them.
pub open spec fn clean(u: Seq<u8>) -> bool {
    forall|k: int|
        0 <= k && k + 3 < u.len() ==> !(#[trigger] u[k] == 0 && u[k + 1] == 0 && u[k + 2] == 0 && u[
            k + 3] == 1)
}

/// The access unit that a picture of these units is to a decoder that knows these
/// parameter sets: a keyframe that brings none of its own gets the latest in front.
pub open spec fn access_unit(us: Seq<Seq<u8>>, sps: Seq<u8>, pps: Seq<u8>) -> Seq<u8> {
    let body = stream(us, us.len() as int);
    if any_of(us, 5) && !any_of(us, 7) && sps.len() > 0 {
        let pps = latest(us, us.len() as int, 8, pps);
        stream(
            if pps.len() > 0 {
                seq![sps, pps]
            } else {
                seq![sps]
            },
            if pps.len() > 0 {
                2
            } else {
                1
            },
        ) + body
    } else {
        body
    }
}

/// A depacketizer after payloads alone.
pub open spec fn fed(d: Depay, ps: Seq<Seq<u8>>, n: int) -> Depay
    decreases n,
{
    if n <= 0 {
        d
    } else {
        fed(d, ps, n - 1).with_payload(ps[n - 1])
    }
}

proof fn fed_in_two(d: Depay, a: Seq<Seq<u8>>, b: Seq<Seq<u8>>, n: int)
    requires
        0 <= n <= b.len(),
    ensures
        fed(d, a + b, a.len() + n) == fed(fed(d, a, a.len() as int), b, n),
    decreases n,
{
    if n > 0 {
        fed_in_two(d, a, b, n - 1);
        assert((a + b)[a.len() + n - 1] == b[n - 1]);
    } else {
        fed_front(d, a, b, a.len() as int);
    }
}

proof fn fed_front(d: Depay, a: Seq<Seq<u8>>, b: Seq<Seq<u8>>, n: int)
    requires
        0 <= n <= a.len(),
    ensures
        fed(d, a + b, n) == fed(d, a, n),
    decreases n,
{
    if n > 0 {
        fed_front(d, a, b, n - 1);
        assert((a + b)[n - 1] == a[n - 1]);
    }
}

/// What collecting units comes to.
pub open spec fn collected(d: Depay, us: Seq<Seq<u8>>, n: int) -> Depay {
    Depay {
        au: d.au + stream(us, n),
        sps: latest(us, n, 7, d.sps),
        pps: latest(us, n, 8, d.pps),
        ..d
    }
}

proof fn useful_is_collected(d: Depay, us: Seq<Seq<u8>>, n: int)
    requires
        0 < n <= us.len(),
        useful(us[n - 1]),
    ensures
        collected(d, us, n - 1).with_useful(us[n - 1]) == collected(d, us, n),
{
    low_bits(us[n - 1][0]);
    assert(collected(d, us, n - 1).with_useful(us[n - 1]).au =~= collected(d, us, n).au);
}

proof fn each_is_collected(d: Depay, us: Seq<Seq<u8>>, i: int)
    requires
        0 <= i <= us.len(),
        forall|k: int| 0 <= k < us.len() ==> useful(#[trigger] us[k]),
    ensures
        with_each(collected(d, us, i), us, i) == collected(d, us, us.len() as int),
    decreases us.len() - i,
{
    if i < us.len() {
        useful_is_collected(d, us, i + 1);
        each_is_collected(d, us, i + 1);
    }
}

proof fn nothing_is_collected(d: Depay, us: Seq<Seq<u8>>)
    ensures
        collected(d, us, 0) == d,
{
    assert(d.au + stream(us, 0) =~= d.au);
}

proof fn cut_is_fed(d: Depay, u: Seq<u8>, cuts: Seq<int>, i: int)
    requires
        cuts_of(u, cuts),
        0 <= i < cuts.len(),
    ensures
        ({
            let ps = payloads_in(Load::Cut(u, cuts));
            with_fragments(fed(d, ps, i), u, cuts, i) == fed(d, ps, ps.len() as int)
        }),
    decreases cuts.len() - i,
{
    let ps = payloads_in(Load::Cut(u, cuts));
    if i + 1 < cuts.len() {
        cut_is_fed(d, u, cuts, i + 1);
        assert(ps[i] == fragment(u, cuts[i], cuts[i + 1]));
    }
}

/// A load brings its units.
proof fn load_is_collected(d: Depay, l: Load)
    requires
        allowed(l),
        d.fu.len() == 0,
    ensures
        fed(d, payloads_in(l), payloads_in(l).len() as int) == collected(
            d,
            units_in(l),
            units_in(l).len() as int,
        ),
{
    let ps = payloads_in(l);
    let us = units_in(l);
    nothing_is_collected(d, us);
    match l {
        Load::Single(u) => {
            low_bits(u[0]);
            useful_is_collected(d, us, 1);
            reveal_with_fuel(fed, 2);
        },
        Load::Together(h, _) => {
            low_bits(h);
            aggregate_unpacks(d, h, us);
            each_is_collected(d, us, 0);
            reveal_with_fuel(fed, 2);
        },
        Load::Cut(u, cuts) => {
            fragments_rejoin(d, u, cuts);
            cut_is_fed(d, u, cuts, 0);
            useful_is_collected(d, us, 1);
            low_bits(u[0]);
            assert(d.fu =~= Seq::empty());
        },
    }
}

proof fn collected_in_two(d: Depay, a: Seq<Seq<u8>>, b: Seq<Seq<u8>>, n: int)
    requires
        0 <= n <= b.len(),
    ensures
        collected(collected(d, a, a.len() as int), b, n) == collected(d, a + b, a.len() + n),
    decreases n,
{
    if n > 0 {
        collected_in_two(d, a, b, n - 1);
        assert((a + b)[a.len() + n - 1] == b[n - 1]);
        let x = collected(collected(d, a, a.len() as int), b, n);
        let y = collected(d, a + b, a.len() + n);
        let unit = seq![0u8, 0u8, 0u8, 1u8] + b[n - 1];
        assert(x.au =~= collected(collected(d, a, a.len() as int), b, n - 1).au + unit);
        assert(y.au =~= collected(d, a + b, a.len() + n - 1).au + unit);
        assert(x.sps == y.sps && x.pps == y.pps);
    } else {
        stream_front(a, b, a.len() as int, d);
        nothing_is_collected(collected(d, a, a.len() as int), b);
    }
}

proof fn stream_front(a: Seq<Seq<u8>>, b: Seq<Seq<u8>>, n: int, d: Depay)
    requires
        0 <= n <= a.len(),
    ensures
        stream(a + b, n) == stream(a, n),
        latest(a + b, n, 7, d.sps) == latest(a, n, 7, d.sps),
        latest(a + b, n, 8, d.pps) == latest(a, n, 8, d.pps),
    decreases n,
{
    if n > 0 {
        stream_front(a, b, n - 1, d);
        assert((a + b)[n - 1] == a[n - 1]);
    }
}

/// Loads bring their units, in order.
proof fn loads_are_collected(d: Depay, ls: Seq<Load>, n: int)
    requires
        d.fu.len() == 0,
        0 <= n <= ls.len(),
        forall|i: int| 0 <= i < ls.len() ==> allowed(#[trigger] ls[i]),
    ensures
        fed(d, all_payloads(ls, n), all_payloads(ls, n).len() as int) == collected(
            d,
            all_units(ls, n),
            all_units(ls, n).len() as int,
        ),
    decreases n,
{
    if n > 0 {
        loads_are_collected(d, ls, n - 1);
        let a = all_payloads(ls, n - 1);
        let b = payloads_in(ls[n - 1]);
        fed_in_two(d, a, b, b.len() as int);
        let m = fed(d, a, a.len() as int);
        load_is_collected(m, ls[n - 1]);
        collected_in_two(
            d,
            all_units(ls, n - 1),
            units_in(ls[n - 1]),
            units_in(ls[n - 1]).len() as int,
        );
    } else {
        nothing_is_collected(d, all_units(ls, n));
    }
}

/// A payload is taken in alike whatever came when.
proof fn payload_ignores_the_clock(d: Depay, p: Seq<u8>, s: Option<u16>, t: Option<u32>)
    ensures
        (Depay { last_seq: s, last_ts: t, ..d }).with_payload(p) == (Depay {
            last_seq: s,
            last_ts: t,
            ..d.with_payload(p)
        }),
{
    aggregate_ignores_the_clock(d, p, 1, s, t);
}

proof fn aggregate_ignores_the_clock(
    d: Depay,
    p: Seq<u8>,
    off: int,
    s: Option<u16>,
    t: Option<u32>,
)
    ensures
        (Depay { last_seq: s, last_ts: t, ..d }).with_aggregate(p, off) == (Depay {
            last_seq: s,
            last_ts: t,
            ..d.with_aggregate(p, off)
        }),
    decreases p.len() - off,
{
    if 0 <= off && off + 2 <= p.len() {
        let n = 256 * p[off] + p[off + 1];
        if off + 2 + n <= p.len() {
            aggregate_ignores_the_clock(
                d.with_useful(p.subrange(off + 2, off + 2 + n)),
                p,
                off + 2 + n,
                s,
                t,
            );
        }
    }
}

/// Packets in line, without the marker, bring their payloads.
#[verifier::spinoff_prover]
#[verifier::rlimit(60)]
proof fn packets_are_fed(d: Depay, pls: Seq<Seq<u8>>, seq: u16, ts: u32, n: int)
    requires
        at_rest(d),
        pls.len() > 0,
        d.last_seq matches Some(a) ==> follows(a, seq),
        0 <= n < pls.len(),
    ensures
        ({
            let ps = packets(pls, seq, ts);
            &&& given(d, ps, n) =~= Seq::empty()
            &&& n > 0 ==> after(d, ps, n) == (Depay {
                last_seq: Some(((seq + n - 1) % 65536) as u16),
                last_ts: Some(ts),
                ..fed(d, pls, n)
            })
            &&& turned_only(after(d, ps, n), ps[n], fed(d, pls, n))
        }),
    decreases n,
{
    let ps = packets(pls, seq, ts);
    assert(ps[n].seq == (seq + n) % 65536);
    if n > 0 {
        packets_are_fed(d, pls, seq, ts, n - 1);
        let m = after(d, ps, n - 1);
        let p = ps[n - 1];
        let f = fed(d, pls, n - 1);
        payload_ignores_the_clock(f, p.payload, Some(p.seq), Some(ts));
        assert(after(d, ps, n) == m.turned(p.seq, ts).with_payload(p.payload));
        assert(m.completed(p.seq, ts, false, p.payload) =~= Seq::empty());
    } else {
        assert(d.au =~= Seq::empty());
        assert(d.fu =~= Seq::empty());
        assert(turned_only(d, ps[0], d));
    }
}

/// True where a packet is in line, and begins nothing that was not begun.
spec fn turned_only(m: Depay, p: Packet, f: Depay) -> bool {
    &&& m.turned(p.seq, p.ts) == (Depay { last_seq: Some(p.seq), last_ts: Some(p.ts), ..f })
    &&& m.new_time(p.ts) ==> m.finished() is None
}

/// True where a start code stands at `k`.
spec fn code_at(s: Seq<u8>, k: int) -> bool {
    s[k] == 0 && s[k + 1] == 0 && s[k + 2] == 0 && s[k + 3] == 1
}

/// A start code in a stream of clean units is one that was put there, and a unit of
/// the type behind it follows.
#[verifier::spinoff_prover]
#[verifier::rlimit(50)]
proof fn codes_are_between_units(us: Seq<Seq<u8>>, n: int, k: int)
    requires
        0 <= n <= us.len(),
        forall|i: int| 0 <= i < us.len() ==> clean(#[trigger] us[i]) && us[i].len() > 0,
        0 <= k,
        k + 4 < stream(us, n).len(),
        code_at(stream(us, n), k),
    ensures
        exists|i: int| 0 <= i < n && (#[trigger] us[i])[0] == stream(us, n)[k + 4],
    decreases n,
{
    if n > 0 {
        let s = stream(us, n);
        let before = stream(us, n - 1);
        let u = us[n - 1];
        let at = before.len() as int;
        if k + 4 < at {
            codes_are_between_units(us, n - 1, k);
            let i = choose|i: int| 0 <= i < n - 1 && (#[trigger] us[i])[0] == before[k + 4];
            assert(us[i][0] == s[k + 4]);
        } else if k == at {
            assert(us[n - 1][0] == s[k + 4]);
        } else if k > at {
            // The one of a start code stands before the unit.
            assert(s[at + 3] == 1);
            assert(k >= at + 4);
            let j = k - at - 4;
            assert(clean(u));
            assert(u[j] == 0 && u[j + 1] == 0 && u[j + 2] == 0 && u[j + 3] == 1);
        } else {
            // The first three bytes of a start code are none.
            ends_are_no_code(us, n - 1, k);
        }
    }
}

/// No start code reaches from the end of a stream into what is put behind it, nor ends
/// it.
proof fn ends_are_no_code(us: Seq<Seq<u8>>, n: int, k: int)
    requires
        0 <= n < us.len(),
        forall|i: int| 0 <= i < us.len() ==> clean(#[trigger] us[i]) && us[i].len() > 0,
        0 <= k < stream(us, n).len() <= k + 4,
        k + 4 < stream(us, n + 1).len(),
    ensures
        !code_at(stream(us, n + 1), k),
{
    let s = stream(us, n + 1);
    if code_at(s, k) {
        let before = stream(us, n);
        let at = before.len() as int;
        assert(s[at] == 0 && s[at + 1] == 0 && s[at + 2] == 0);
        // So the code stands whole at the end of the stream.
        assert(k + 4 == at);
        assert(n > 0);
        let u = us[n - 1];
        let from = at - u.len();
        let rest = stream(us, n - 1) + seq![0u8, 0u8, 0u8, 1u8];
        assert(before == rest + u);
        if u.len() >= 4 {
            let j = u.len() - 4;
            assert(clean(u));
            assert(u[j] == before[k] && u[j + 1] == before[k + 1] && u[j + 2] == before[k + 2] && u[j
                + 3] == before[k + 3]);
        } else {
            // The one of the start code before the unit is among the three.
            assert(before[from - 1] == 1);
            assert(k <= from - 1 < k + 3);
        }
    }
}

/// A stream of clean units has a unit of a type where one of them has it.
proof fn types_are_found(us: Seq<Seq<u8>>, t: u8)
    requires
        forall|i: int| 0 <= i < us.len() ==> clean(#[trigger] us[i]) && us[i].len() > 0,
    ensures
        has_unit(stream(us, us.len() as int), t) <==> any_of(us, t),
{
    let n = us.len() as int;
    let s = stream(us, n);
    if has_unit(s, t) {
        let k = choose|k: int| unit_at(s, k, t);
        codes_are_between_units(us, n, k);
        low_bits(s[k + 4]);
        let i = choose|i: int| 0 <= i < n && (#[trigger] us[i])[0] == s[k + 4];
        assert(us[i][0] % 32 == t);
    }
    if any_of(us, t) {
        let i = choose|i: int| 0 <= i < us.len() && (#[trigger] us[i])[0] % 32 == t;
        unit_stands(us, n, i);
        low_bits(us[i][0]);
        assert(unit_at(s, stream(us, i).len() as int, t));
    }
}

/// Each unit stands behind the units before it.
proof fn unit_stands(us: Seq<Seq<u8>>, n: int, i: int)
    requires
        0 <= i < n <= us.len(),
        us[i].len() > 0,
    ensures
        ({
            let s = stream(us, n);
            let at = stream(us, i).len() as int;
            &&& at + 4 < s.len()
            &&& s[at] == 0 && s[at + 1] == 0 && s[at + 2] == 0 && s[at + 3] == 1
            &&& s[at + 4] == us[i][0]
        }),
    decreases n,
{
    if i < n - 1 {
        unit_stands(us, n - 1, i);
    }
}

/// The latest of a type is one of those, where there is any.
proof fn latest_is_not_empty(us: Seq<Seq<u8>>, n: int, t: u8, before: Seq<u8>)
    requires
        0 <= n <= us.len(),
        !any_of(us, t),
    ensures
        latest(us, n, t, before) == before,
    decreases n,
{
    if n > 0 {
        latest_is_not_empty(us, n - 1, t, before);
    }
}

proof fn loads_are_not_empty(ls: Seq<Load>, n: int)
    requires
        0 <= n <= ls.len(),
        forall|i: int| 0 <= i < ls.len() ==> allowed(#[trigger] ls[i]),
    ensures
        n > 0 ==> all_payloads(ls, n).len() > 0 && all_units(ls, n).len() > 0,
        forall|i: int| 0 <= i < all_units(ls, n).len() ==> useful(#[trigger] all_units(ls, n)[i]),
    decreases n,
{
    if n > 0 {
        loads_are_not_empty(ls, n - 1);
        let a = all_units(ls, n - 1);
        let b = units_in(ls[n - 1]);
        assert forall|i: int| 0 <= i < all_units(ls, n).len() implies useful(
            #[trigger] all_units(ls, n)[i],
        ) by {
            if i < a.len() {
                assert(all_units(ls, n)[i] == a[i]);
            } else {
                assert(all_units(ls, n)[i] == b[i - a.len()]);
            }
        }
    }
}

proof fn stream_is_not_empty(us: Seq<Seq<u8>>, n: int)
    requires
        0 < n <= us.len(),
    ensures
        stream(us, n).len() > 0,
{
}

/// What closing a picture of clean units gives.
#[verifier::spinoff_prover]
#[verifier::rlimit(50)]
proof fn closing_gives_the_picture(d: Depay, us: Seq<Seq<u8>>)
    requires
        at_rest(d),
        us.len() > 0,
        forall|i: int| 0 <= i < us.len() ==> clean(#[trigger] us[i]) && us[i].len() > 0,
    ensures
        collected(d, us, us.len() as int).finished() == Some(access_unit(us, d.sps, d.pps)),
{
    let n = us.len() as int;
    let z = collected(d, us, n);
    types_are_found(us, 5);
    types_are_found(us, 7);
    stream_is_not_empty(us, n);
    assert(d.au + stream(us, n) =~= stream(us, n));
    if !any_of(us, 7) {
        latest_is_not_empty(us, n, 7, d.sps);
    }
    let pps = latest(us, n, 8, d.pps);
    reveal_with_fuel(stream, 3);
    if any_of(us, 5) && !any_of(us, 7) && d.sps.len() > 0 {
        if pps.len() > 0 {
            assert(z.params() =~= stream(seq![d.sps, pps], 2));
        } else {
            assert(z.params() =~= stream(seq![d.sps], 1));
        }
    }
}

/// A picture that arrives whole comes out, once, as it was sent: its units in order,
/// each behind a start code, and at its own time. A keyframe without parameter sets
/// gets the latest in front. Nothing is counted as lost, and the parameter sets that
/// it brought are kept for later.
#[verifier::spinoff_prover]
#[verifier::rlimit(50)]
pub proof fn whole_pictures_come_out(d: Depay, ls: Seq<Load>, seq: u16, ts: u32)
    requires
        at_rest(d),
        d.last_seq matches Some(a) ==> follows(a, seq),
        ls.len() > 0,
        forall|i: int| 0 <= i < ls.len() ==> allowed(#[trigger] ls[i]),
        forall|i: int|
            0 <= i < all_units(ls, ls.len() as int).len() ==> clean(
                #[trigger] all_units(ls, ls.len() as int)[i],
            ),
    ensures
        ({
            let us = all_units(ls, ls.len() as int);
            let ps = packets(all_payloads(ls, ls.len() as int), seq, ts);
            let n = ps.len() as int;
            let z = after(d, ps, n);
            &&& given(d, ps, n) == seq![(access_unit(us, d.sps, d.pps), ts)]
            &&& at_rest(z)
            &&& z.dropped_incomplete == d.dropped_incomplete
            &&& z.seq_gaps == d.seq_gaps
            &&& z.sps == latest(us, us.len() as int, 7, d.sps)
            &&& z.pps == latest(us, us.len() as int, 8, d.pps)
            &&& z.last_seq == Some(((seq + n - 1) % 65536) as u16)
        }),
{
    let k = ls.len() as int;
    let us = all_units(ls, k);
    let pls = all_payloads(ls, k);
    let ps = packets(pls, seq, ts);
    let n = pls.len() as int;
    loads_are_not_empty(ls, k);
    packets_are_fed(d, pls, seq, ts, n - 1);
    loads_are_collected(d, ls, k);
    closing_gives_the_picture(d, us);
    let m = after(d, ps, n - 1);
    let p = ps[n - 1];
    payload_ignores_the_clock(fed(d, pls, n - 1), p.payload, Some(p.seq), Some(ts));
    let z = fed(d, pls, n);
    let t = m.turned(p.seq, ts).with_payload(p.payload);
    assert(t == (Depay { last_seq: Some(p.seq), last_ts: Some(ts), ..z }));
    assert(t.finished() == z.finished());
    assert(given(d, ps, n) =~= seq![(access_unit(us, d.sps, d.pps), ts)]);
}

/// A picture whose marker was not set comes out as well, when the next one begins.
pub proof fn the_next_picture_closes_the_last(d: Depay, us: Seq<Seq<u8>>, t: u32, next: Packet)
    requires
        at_rest(d),
        us.len() > 0,
        forall|i: int| 0 <= i < us.len() ==> clean(#[trigger] us[i]) && us[i].len() > 0,
        d.last_ts == Some(t),
        d.last_seq matches Some(a) ==> follows(a, next.seq),
        next.ts != t,
        !next.marker,
    ensures
        collected(d, us, us.len() as int).completed(
            next.seq,
            next.ts,
            next.marker,
            next.payload,
        ) == seq![(access_unit(us, d.sps, d.pps), t)],
        collected(d, us, us.len() as int).pushed(
            next.seq,
            next.ts,
            next.marker,
            next.payload,
        ).dropped_incomplete == d.dropped_incomplete,
{
    closing_gives_the_picture(d, us);
    let z = collected(d, us, us.len() as int);
    broken_stays(z.turned(next.seq, next.ts), next.payload);
}

/// Every packet that is out of line is counted, and no other.
pub proof fn gaps_are_counted(d: Depay, p: Packet)
    ensures
        ({
            let z = d.pushed(p.seq, p.ts, p.marker, p.payload);
            &&& z.seq_gaps == if d.last_seq matches Some(a) && !follows(a, p.seq) {
                bump(d.seq_gaps)
            } else {
                d.seq_gaps
            }
            &&& z.last_seq == Some(p.seq)
            &&& z.last_ts == Some(p.ts)
        }),
{
    broken_stays(d.turned(p.seq, p.ts), p.payload);
}

/// Delimiters and filler leave nothing behind, nor do payloads that carry no unit.
pub proof fn the_rest_is_left_out(d: Depay, p: Seq<u8>)
    ensures
        p.len() == 0 ==> d.with_payload(p) == d,
        p.len() > 0 && (p[0] % 32 == 9 || p[0] % 32 == 12) ==> d.with_payload(p) == d,
        p.len() > 0 && (p[0] % 32 == 0 || 25 <= p[0] % 32 <= 27 || p[0] % 32 >= 29)
            ==> d.with_payload(p) == d,
{
    if p.len() > 0 {
        low_bits(p[0]);
    }
}

/// A fragment whose first one was lost is left out, and so is one that is too short.
pub proof fn stray_fragments_are_left_out(d: Depay, p: Seq<u8>)
    requires
        p.len() > 0,
        p[0] % 32 == 28,
        p.len() < 3 || (p[1] < 128 && d.fu.len() == 0),
    ensures
        d.with_payload(p) == d,
{
    low_bits(p[0]);
    if p.len() >= 3 {
        let b = p[1];
        assert(b < 128u8 ==> b & 0x80 == 0) by (bit_vector);
    }
}

} // verus!
