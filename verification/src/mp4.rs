//! The boxes of an MP4 file with one H.264 track.

use crate::bytes::{
    be16, be32, be32_at, low16, low32, push_all, push_be16, push_be32, to_u16, to_u32, word_roundtrip,
};
use vstd::prelude::*;

verus! {

/// Ticks of the media clock in a second.
pub const TIMESCALE: u32 = 90_000;

pub const FTYP: u32 = 0x6674_7970;

pub const MOOV: u32 = 0x6D6F_6F76;

pub const MVHD: u32 = 0x6D76_6864;

pub const TRAK: u32 = 0x7472_616B;

pub const TKHD: u32 = 0x746B_6864;

pub const MDIA: u32 = 0x6D64_6961;

pub const MDHD: u32 = 0x6D64_6864;

pub const HDLR: u32 = 0x6864_6C72;

pub const MINF: u32 = 0x6D69_6E66;

pub const VMHD: u32 = 0x766D_6864;

pub const DINF: u32 = 0x6469_6E66;

pub const DREF: u32 = 0x6472_6566;

pub const URL: u32 = 0x7572_6C20;

pub const STBL: u32 = 0x7374_626C;

pub const STSD: u32 = 0x7374_7364;

pub const STTS: u32 = 0x7374_7473;

pub const STSS: u32 = 0x7374_7373;

pub const STSC: u32 = 0x7374_7363;

pub const STSZ: u32 = 0x7374_737A;

pub const STCO: u32 = 0x7374_636F;

pub const AVC1: u32 = 0x6176_6331;

pub const AVCC: u32 = 0x6176_6343;

pub const ISOM: u32 = 0x6973_6F6D;

pub const ISO2: u32 = 0x6973_6F32;

pub const MP41: u32 = 0x6D70_3431;

pub const VIDE: u32 = 0x7669_6465;

pub const MDAT: u32 = 0x6D64_6174;

/// One frame in the file.
#[derive(Clone, Copy, PartialEq, Eq, Structural, Debug)]
pub struct Sample {
    pub size: u32,
    pub dur: u32,
    pub sync: bool,
}

/// A run of samples that lie one behind the other and share a description.
#[derive(Clone, Copy, PartialEq, Eq, Structural, Debug)]
pub struct Chunk {
    pub off: u64,
    pub count: u32,
    /// The number of the description, from one.
    pub desc: u32,
}

/// How samples are to be decoded.
pub struct Desc {
    pub width: u16,
    pub height: u16,
    /// The decoder configuration box.
    pub avcc: Vec<u8>,
    /// The sequence parameter set that it was made from.
    pub sps: Vec<u8>,
}

/// What a description holds.
pub ghost struct DescModel {
    pub width: u16,
    pub height: u16,
    pub avcc: Seq<u8>,
    pub sps: Seq<u8>,
}

impl View for Desc {
    type V = DescModel;

    open spec fn view(&self) -> DescModel {
        DescModel { width: self.width, height: self.height, avcc: self.avcc@, sps: self.sps@ }
    }
}

/// The models of a list of descriptions.
pub open spec fn descs_view(v: Seq<Desc>) -> Seq<DescModel> {
    v.map_values(|d: Desc| d@)
}

/// Why a file cannot be written.
#[derive(Clone, Copy, PartialEq, Eq, Structural, Debug)]
pub enum MuxError {
    /// There is nothing to describe.
    NoSamples,
    /// The parameter sets are too short to be any.
    BadParams,
}

/// Numbers one behind the other, four bytes each.
pub open spec fn words(ws: Seq<u32>) -> Seq<u8>
    decreases ws.len(),
{
    if ws.len() == 0 {
        Seq::empty()
    } else {
        words(ws.drop_last()) + be32(ws.last())
    }
}

/// A box: its length, its type, and what it holds.
pub open spec fn boxed(kind: u32, body: Seq<u8>) -> Seq<u8> {
    be32(low32(8 + body.len() as int)) + be32(kind) + body
}

/// The transformation that changes nothing.
pub open spec fn matrix() -> Seq<u32> {
    seq![0x1_0000u32, 0, 0, 0, 0x1_0000, 0, 0, 0, 0x4000_0000]
}

/// Numbers one behind the other, four bytes each.
fn push_words(out: &mut Vec<u8>, ws: &[u32])
    ensures
        final(out)@ == old(out)@ + words(ws@),
{
    let mut i: usize = 0;
    assert(out@ =~= old(out)@ + words(ws@.subrange(0, 0)));
    while i < ws.len()
        invariant
            i <= ws@.len(),
            out@ == old(out)@ + words(ws@.subrange(0, i as int)),
        decreases ws@.len() - i,
    {
        push_be32(out, ws[i]);
        i += 1;
        assert(ws@.subrange(0, i as int).drop_last() =~= ws@.subrange(0, i - 1));
        assert(out@ =~= old(out)@ + words(ws@.subrange(0, i as int)));
    }
    assert(ws@.subrange(0, ws@.len() as int) =~= ws@);
}

/// Appends a box.
fn push_box(out: &mut Vec<u8>, kind: u32, body: &[u8])
    ensures
        final(out)@ == old(out)@ + boxed(kind, body@),
{
    let n: u32 = ((body.len() as u128 + 8) % 0x1_0000_0000) as u32;
    push_be32(out, n);
    push_be32(out, kind);
    push_all(out, body);
    assert(out@ =~= old(out)@ + boxed(kind, body@));
}

/// The box that opens a file.
pub open spec fn ftyp_box() -> Seq<u8> {
    boxed(FTYP, words(seq![ISOM, 0x200, ISOM, ISO2, AVC1, MP41]))
}

/// The box that opens a file.
pub fn ftyp() -> (r: Vec<u8>)
    ensures
        r@ == ftyp_box(),
        r@.len() == 32,
{
    let mut b: Vec<u8> = Vec::new();
    let ws: [u32; 6] = [ISOM, 0x200, ISOM, ISO2, AVC1, MP41];
    push_words(&mut b, ws.as_slice());
    proof {
        assert(ws@ =~= seq![ISOM, 0x200, ISOM, ISO2, AVC1, MP41]);
        assert(b@ =~= words(ws@));
        words_len(ws@);
    }
    let mut r: Vec<u8> = Vec::new();
    push_box(&mut r, FTYP, b.as_slice());
    assert(r@ =~= ftyp_box());
    r
}

/// Each number takes four bytes.
pub proof fn words_len(ws: Seq<u32>)
    ensures
        words(ws).len() == 4 * ws.len(),
    decreases ws.len(),
{
    if ws.len() > 0 {
        words_len(ws.drop_last());
    }
}

/// The ticks of the first `n` samples.
pub open spec fn ticks(samples: Seq<Sample>, n: int) -> int
    decreases n,
{
    if n <= 0 {
        0
    } else {
        ticks(samples, n - 1) + samples[n - 1].dur
    }
}

pub open spec fn mvhd_box(duration: u32) -> Seq<u8> {
    boxed(
        MVHD,
        words(
            seq![0u32, 0, 0, TIMESCALE, duration, 0x1_0000, 0x100_0000, 0, 0] + matrix() + seq![
                0u32,
                0,
                0,
                0,
                0,
                0,
                2,
            ],
        ),
    )
}

pub open spec fn tkhd_box(duration: u32, width: u16, height: u16) -> Seq<u8> {
    boxed(
        TKHD,
        words(
            seq![7u32, 0, 0, 1, 0, duration, 0, 0, 0, 0] + matrix() + seq![
                (width * 0x1_0000) as u32,
                (height * 0x1_0000) as u32,
            ],
        ),
    )
}

pub open spec fn mdhd_box(duration: u32) -> Seq<u8> {
    boxed(MDHD, words(seq![0u32, 0, 0, TIMESCALE, duration, 0x55C4_0000]))
}

/// A video handler named after the program.
pub open spec fn hdlr_box() -> Seq<u8> {
    boxed(HDLR, words(seq![0u32, 0, VIDE, 0, 0, 0, 0x506F_636B, 0x6574_4361]) + be16(0x6D00))
}

pub open spec fn vmhd_box() -> Seq<u8> {
    boxed(VMHD, words(seq![1u32, 0, 0]))
}

/// All media data is in the same file.
pub open spec fn dinf_box() -> Seq<u8> {
    boxed(DINF, boxed(DREF, words(seq![0u32, 1]) + boxed(URL, words(seq![1u32]))))
}

pub open spec fn avc1_box(d: DescModel) -> Seq<u8> {
    boxed(
        AVC1,
        words(
            seq![
                0u32,
                1,
                0,
                0,
                0,
                0,
                (d.width * 0x1_0000 + d.height) as u32,
                0x48_0000,
                0x48_0000,
                0,
            ],
        ) + be16(1) + words(seq![0u32, 0, 0, 0, 0, 0, 0, 0, 0x18_FFFF]) + d.avcc,
    )
}

/// The first `n` descriptions, each in its box.
pub open spec fn avc1_boxes(descs: Seq<DescModel>, n: int) -> Seq<u8>
    decreases n,
{
    if n <= 0 {
        Seq::empty()
    } else {
        avc1_boxes(descs, n - 1) + avc1_box(descs[n - 1])
    }
}

pub open spec fn stsd_box(descs: Seq<DescModel>) -> Seq<u8> {
    boxed(
        STSD,
        words(seq![0u32, low32(descs.len() as int)]) + avc1_boxes(descs, descs.len() as int),
    )
}

/// The durations of the first `n` samples, equal neighbours counted together.
pub open spec fn runs(samples: Seq<Sample>, n: int) -> Seq<(u32, u32)>
    decreases n,
{
    if n <= 0 {
        Seq::empty()
    } else {
        let before = runs(samples, n - 1);
        let dur = samples[n - 1].dur;
        if before.len() > 0 && before.last().1 == dur {
            before.update(before.len() - 1, ((before.last().0 + 1) as u32, dur))
        } else {
            before.push((1, dur))
        }
    }
}

/// Pairs one behind the other.
pub open spec fn pair_words(ps: Seq<(u32, u32)>) -> Seq<u32> {
    Seq::new(
        2 * ps.len(),
        |i: int|
            if i % 2 == 0 {
                ps[i / 2].0
            } else {
                ps[i / 2].1
            },
    )
}

pub open spec fn stts_box(samples: Seq<Sample>) -> Seq<u8> {
    let rs = runs(samples, samples.len() as int);
    boxed(STTS, words(seq![0u32, low32(rs.len() as int)] + pair_words(rs)))
}

/// The numbers, from one, of the keyframes among the first `n` samples.
pub open spec fn keyframes(samples: Seq<Sample>, n: int) -> Seq<u32>
    decreases n,
{
    if n <= 0 {
        Seq::empty()
    } else if samples[n - 1].sync {
        keyframes(samples, n - 1).push(low32(n))
    } else {
        keyframes(samples, n - 1)
    }
}

pub open spec fn stss_box(samples: Seq<Sample>) -> Seq<u8> {
    let ks = keyframes(samples, samples.len() as int);
    boxed(STSS, words(seq![0u32, low32(ks.len() as int)] + ks))
}

pub open spec fn stsc_box(chunks: Seq<Chunk>) -> Seq<u8> {
    boxed(
        STSC,
        words(
            seq![0u32, low32(chunks.len() as int)] + Seq::new(
                3 * chunks.len(),
                |i: int|
                    if i % 3 == 0 {
                        low32(i / 3 + 1)
                    } else if i % 3 == 1 {
                        chunks[i / 3].count
                    } else {
                        chunks[i / 3].desc
                    },
            ),
        ),
    )
}

pub open spec fn stsz_box(samples: Seq<Sample>) -> Seq<u8> {
    boxed(
        STSZ,
        words(
            seq![0u32, 0, low32(samples.len() as int)] + Seq::new(
                samples.len(),
                |i: int| samples[i].size,
            ),
        ),
    )
}

pub open spec fn stco_box(chunks: Seq<Chunk>) -> Seq<u8> {
    boxed(
        STCO,
        words(
            seq![0u32, low32(chunks.len() as int)] + Seq::new(
                chunks.len(),
                |i: int| low32(chunks[i].off as int),
            ),
        ),
    )
}

pub open spec fn stbl_box(
    samples: Seq<Sample>,
    descs: Seq<DescModel>,
    chunks: Seq<Chunk>,
) -> Seq<u8> {
    boxed(
        STBL,
        stsd_box(descs) + stts_box(samples) + stss_box(samples) + stsc_box(chunks) + stsz_box(
            samples,
        ) + stco_box(chunks),
    )
}

/// The box that says where the samples lie and how to decode them.
#[verifier::opaque]
pub open spec fn movie(samples: Seq<Sample>, descs: Seq<DescModel>, chunks: Seq<Chunk>) -> Seq<u8> {
    let duration = low32(ticks(samples, samples.len() as int));
    boxed(
        MOOV,
        mvhd_box(duration) + boxed(
            TRAK,
            tkhd_box(duration, descs[0].width, descs[0].height) + boxed(
                MDIA,
                mdhd_box(duration) + hdlr_box() + boxed(
                    MINF,
                    vmhd_box() + dinf_box() + stbl_box(samples, descs, chunks),
                ),
            ),
        ),
    )
}

/// A box that holds nothing but numbers.
fn word_box(kind: u32, ws: &[u32]) -> (r: Vec<u8>)
    ensures
        r@ == boxed(kind, words(ws@)),
{
    let mut body: Vec<u8> = Vec::new();
    push_words(&mut body, ws);
    assert(body@ =~= words(ws@));
    let mut r: Vec<u8> = Vec::new();
    push_box(&mut r, kind, body.as_slice());
    assert(r@ =~= boxed(kind, words(ws@)));
    r
}

/// A box around what others made.
fn outer_box(kind: u32, body: &[u8]) -> (r: Vec<u8>)
    ensures
        r@ == boxed(kind, body@),
{
    let mut r: Vec<u8> = Vec::new();
    push_box(&mut r, kind, body);
    assert(r@ =~= boxed(kind, body@));
    r
}

/// Appends the transformation that changes nothing.
fn identity_matrix(ws: &mut Vec<u32>)
    ensures
        final(ws)@ == old(ws)@ + matrix(),
{
    ws.push(0x1_0000);
    ws.push(0);
    ws.push(0);
    ws.push(0);
    ws.push(0x1_0000);
    ws.push(0);
    ws.push(0);
    ws.push(0);
    ws.push(0x4000_0000);
    assert(ws@ =~= old(ws)@ + matrix());
}

fn mvhd(duration: u32) -> (r: Vec<u8>)
    ensures
        r@ == mvhd_box(duration),
{
    let mut ws: Vec<u32> = vec![0, 0, 0, TIMESCALE, duration, 0x1_0000, 0x100_0000, 0, 0];
    assert(ws@ =~= seq![0u32, 0, 0, TIMESCALE, duration, 0x1_0000, 0x100_0000, 0, 0]);
    identity_matrix(&mut ws);
    let ghost front = ws@;
    ws.push(0);
    ws.push(0);
    ws.push(0);
    ws.push(0);
    ws.push(0);
    ws.push(0);
    ws.push(2);
    assert(ws@ =~= front + seq![0u32, 0, 0, 0, 0, 0, 2]);
    word_box(MVHD, ws.as_slice())
}

fn tkhd(duration: u32, width: u16, height: u16) -> (r: Vec<u8>)
    ensures
        r@ == tkhd_box(duration, width, height),
{
    let mut ws: Vec<u32> = vec![7, 0, 0, 1, 0, duration, 0, 0, 0, 0];
    assert(ws@ =~= seq![7u32, 0, 0, 1, 0, duration, 0, 0, 0, 0]);
    identity_matrix(&mut ws);
    let ghost front = ws@;
    ws.push(width as u32 * 0x1_0000);
    ws.push(height as u32 * 0x1_0000);
    assert(ws@ =~= front + seq![(width * 0x1_0000) as u32, (height * 0x1_0000) as u32]);
    word_box(TKHD, ws.as_slice())
}

fn mdhd(duration: u32) -> (r: Vec<u8>)
    ensures
        r@ == mdhd_box(duration),
{
    let ws: Vec<u32> = vec![0, 0, 0, TIMESCALE, duration, 0x55C4_0000];
    assert(ws@ =~= seq![0u32, 0, 0, TIMESCALE, duration, 0x55C4_0000]);
    word_box(MDHD, ws.as_slice())
}

fn hdlr() -> (r: Vec<u8>)
    ensures
        r@ == hdlr_box(),
{
    let ws: Vec<u32> = vec![0, 0, VIDE, 0, 0, 0, 0x506F_636B, 0x6574_4361];
    assert(ws@ =~= seq![0u32, 0, VIDE, 0, 0, 0, 0x506F_636B, 0x6574_4361]);
    let mut body: Vec<u8> = Vec::new();
    push_words(&mut body, ws.as_slice());
    push_be16(&mut body, 0x6D00);
    assert(body@ =~= words(ws@) + be16(0x6D00));
    outer_box(HDLR, body.as_slice())
}

fn vmhd() -> (r: Vec<u8>)
    ensures
        r@ == vmhd_box(),
{
    let ws: Vec<u32> = vec![1, 0, 0];
    assert(ws@ =~= seq![1u32, 0, 0]);
    word_box(VMHD, ws.as_slice())
}

fn dinf() -> (r: Vec<u8>)
    ensures
        r@ == dinf_box(),
{
    let one: Vec<u32> = vec![1];
    assert(one@ =~= seq![1u32]);
    let url: Vec<u8> = word_box(URL, one.as_slice());
    let front: Vec<u32> = vec![0, 1];
    assert(front@ =~= seq![0u32, 1]);
    let mut body: Vec<u8> = Vec::new();
    push_words(&mut body, front.as_slice());
    push_all(&mut body, url.as_slice());
    assert(body@ =~= words(seq![0u32, 1]) + boxed(URL, words(seq![1u32])));
    let dref: Vec<u8> = outer_box(DREF, body.as_slice());
    outer_box(DINF, dref.as_slice())
}

fn avc1(d: &Desc) -> (r: Vec<u8>)
    ensures
        r@ == avc1_box(d@),
{
    let front: Vec<u32> = vec![
        0,
        1,
        0,
        0,
        0,
        0,
        d.width as u32 * 0x1_0000 + d.height as u32,
        0x48_0000,
        0x48_0000,
        0,
    ];
    assert(front@ =~= seq![
        0u32,
        1,
        0,
        0,
        0,
        0,
        (d.width * 0x1_0000 + d.height) as u32,
        0x48_0000,
        0x48_0000,
        0,
    ]);
    let back: Vec<u32> = vec![0, 0, 0, 0, 0, 0, 0, 0, 0x18_FFFF];
    assert(back@ =~= seq![0u32, 0, 0, 0, 0, 0, 0, 0, 0x18_FFFF]);
    let mut body: Vec<u8> = Vec::new();
    push_words(&mut body, front.as_slice());
    push_be16(&mut body, 1);
    push_words(&mut body, back.as_slice());
    push_all(&mut body, d.avcc.as_slice());
    assert(body@ =~= words(front@) + be16(1) + words(back@) + d@.avcc);
    outer_box(AVC1, body.as_slice())
}

fn stsd(descs: &[Desc]) -> (r: Vec<u8>)
    ensures
        r@ == stsd_box(descs_view(descs@)),
{
    let ghost ds = descs_view(descs@);
    let front: Vec<u32> = vec![0, to_u32(descs.len())];
    assert(front@ =~= seq![0u32, low32(ds.len() as int)]);
    let mut body: Vec<u8> = Vec::new();
    push_words(&mut body, front.as_slice());
    assert(body@ =~= words(front@));
    assert(words(front@) + avc1_boxes(ds, 0) =~= words(front@));
    let mut i: usize = 0;
    while i < descs.len()
        invariant
            i <= descs@.len(),
            ds == descs_view(descs@),
            body@ == words(front@) + avc1_boxes(ds, i as int),
        decreases descs@.len() - i,
    {
        let b: Vec<u8> = avc1(&descs[i]);
        push_all(&mut body, b.as_slice());
        i += 1;
        assert(body@ =~= words(front@) + avc1_boxes(ds, i as int));
    }
    outer_box(STSD, body.as_slice())
}

/// A run counts at most the samples so far, and there are no more runs than samples.
pub proof fn runs_bound(samples: Seq<Sample>, n: int)
    requires
        0 <= n <= samples.len(),
        n <= u32::MAX,
    ensures
        runs(samples, n).len() <= n,
        forall|i: int| 0 <= i < runs(samples, n).len() ==> 1 <= (#[trigger] runs(samples, n)[i]).0
            <= n,
    decreases n,
{
    if n > 0 {
        runs_bound(samples, n - 1);
        let before = runs(samples, n - 1);
        assert forall|i: int| 0 <= i < runs(samples, n).len() implies 1 <= (#[trigger] runs(
            samples,
            n,
        )[i]).0 <= n by {
            if i < before.len() {
                assert(1 <= before[i].0 <= n - 1);
            }
        }
    }
}

fn stts(samples: &[Sample]) -> (r: Vec<u8>)
    requires
        samples@.len() <= u32::MAX,
    ensures
        r@ == stts_box(samples@),
{
    let mut rs: Vec<(u32, u32)> = Vec::new();
    let mut i: usize = 0;
    while i < samples.len()
        invariant
            i <= samples@.len() <= u32::MAX,
            rs@ == runs(samples@, i as int),
        decreases samples@.len() - i,
    {
        let dur: u32 = samples[i].dur;
        proof {
            runs_bound(samples@, i as int);
        }
        let n: usize = rs.len();
        if n > 0 && rs[n - 1].1 == dur {
            let count: u32 = rs[n - 1].0;
            assert(count == runs(samples@, i as int)[n - 1].0);
            rs.set(n - 1, (count + 1, dur));
        } else {
            rs.push((1, dur));
        }
        i += 1;
        assert(rs@ =~= runs(samples@, i as int));
    }
    let mut ws: Vec<u32> = vec![0, to_u32(rs.len())];
    let ghost front = ws@;
    assert(front =~= seq![0u32, low32(rs@.len() as int)]);
    let mut k: usize = 0;
    while k < rs.len()
        invariant
            k <= rs@.len(),
            ws@ == front + pair_words(rs@.subrange(0, k as int)),
        decreases rs@.len() - k,
    {
        let ghost before = ws@;
        ws.push(rs[k].0);
        ws.push(rs[k].1);
        k += 1;
        assert(ws@ =~= front + pair_words(rs@.subrange(0, k as int)));
    }
    assert(rs@.subrange(0, rs@.len() as int) =~= rs@);
    word_box(STTS, ws.as_slice())
}

fn stss(samples: &[Sample]) -> (r: Vec<u8>)
    ensures
        r@ == stss_box(samples@),
{
    let mut ks: Vec<u32> = Vec::new();
    let mut i: usize = 0;
    while i < samples.len()
        invariant
            i <= samples@.len(),
            ks@ == keyframes(samples@, i as int),
        decreases samples@.len() - i,
    {
        if samples[i].sync {
            ks.push(to_u32(i + 1));
        }
        i += 1;
    }
    let mut ws: Vec<u32> = vec![0, to_u32(ks.len())];
    assert(ws@ =~= seq![0u32, low32(ks@.len() as int)]);
    ws.append(&mut ks);
    word_box(STSS, ws.as_slice())
}

fn stsc(chunks: &[Chunk]) -> (r: Vec<u8>)
    ensures
        r@ == stsc_box(chunks@),
{
    let ghost table = Seq::new(
        3 * chunks@.len(),
        |i: int|
            if i % 3 == 0 {
                low32(i / 3 + 1)
            } else if i % 3 == 1 {
                chunks@[i / 3].count
            } else {
                chunks@[i / 3].desc
            },
    );
    let mut ws: Vec<u32> = vec![0, to_u32(chunks.len())];
    let ghost front = ws@;
    assert(front =~= seq![0u32, low32(chunks@.len() as int)]);
    let mut i: usize = 0;
    while i < chunks.len()
        invariant
            i <= chunks@.len(),
            table.len() == 3 * chunks@.len(),
            forall|k: int| 0 <= k < table.len() ==> table[k] == if k % 3 == 0 {
                low32(k / 3 + 1)
            } else if k % 3 == 1 {
                chunks@[k / 3].count
            } else {
                chunks@[k / 3].desc
            },
            ws@ == front + table.subrange(0, 3 * i),
        decreases chunks@.len() - i,
    {
        ws.push(to_u32(i + 1));
        ws.push(chunks[i].count);
        ws.push(chunks[i].desc);
        i += 1;
        assert(ws@ =~= front + table.subrange(0, 3 * i));
    }
    assert(table.subrange(0, 3 * chunks@.len() as int) =~= table);
    word_box(STSC, ws.as_slice())
}

fn stsz(samples: &[Sample]) -> (r: Vec<u8>)
    ensures
        r@ == stsz_box(samples@),
{
    let ghost table = Seq::new(samples@.len(), |i: int| samples@[i].size);
    let mut ws: Vec<u32> = vec![0, 0, to_u32(samples.len())];
    let ghost front = ws@;
    assert(front =~= seq![0u32, 0, low32(samples@.len() as int)]);
    let mut i: usize = 0;
    while i < samples.len()
        invariant
            i <= samples@.len(),
            table == Seq::new(samples@.len(), |i: int| samples@[i].size),
            ws@ == front + table.subrange(0, i as int),
        decreases samples@.len() - i,
    {
        ws.push(samples[i].size);
        i += 1;
        assert(ws@ =~= front + table.subrange(0, i as int));
    }
    assert(table.subrange(0, samples@.len() as int) =~= table);
    word_box(STSZ, ws.as_slice())
}

fn stco(chunks: &[Chunk]) -> (r: Vec<u8>)
    ensures
        r@ == stco_box(chunks@),
{
    let ghost table = Seq::new(chunks@.len(), |i: int| low32(chunks@[i].off as int));
    let mut ws: Vec<u32> = vec![0, to_u32(chunks.len())];
    let ghost front = ws@;
    assert(front =~= seq![0u32, low32(chunks@.len() as int)]);
    let mut i: usize = 0;
    while i < chunks.len()
        invariant
            i <= chunks@.len(),
            table == Seq::new(chunks@.len(), |i: int| low32(chunks@[i].off as int)),
            ws@ == front + table.subrange(0, i as int),
        decreases chunks@.len() - i,
    {
        ws.push((chunks[i].off % 0x1_0000_0000) as u32);
        i += 1;
        assert(ws@ =~= front + table.subrange(0, i as int));
    }
    assert(table.subrange(0, chunks@.len() as int) =~= table);
    word_box(STCO, ws.as_slice())
}

fn stbl(samples: &[Sample], descs: &[Desc], chunks: &[Chunk]) -> (r: Vec<u8>)
    requires
        samples@.len() <= u32::MAX,
    ensures
        r@ == stbl_box(samples@, descs_view(descs@), chunks@),
{
    let mut body: Vec<u8> = stsd(descs);
    push_all(&mut body, stts(samples).as_slice());
    push_all(&mut body, stss(samples).as_slice());
    push_all(&mut body, stsc(chunks).as_slice());
    push_all(&mut body, stsz(samples).as_slice());
    push_all(&mut body, stco(chunks).as_slice());
    outer_box(STBL, body.as_slice())
}

/// The low 32 bits of the ticks of all samples.
fn duration(samples: &[Sample]) -> (r: u32)
    requires
        samples@.len() <= u32::MAX,
    ensures
        r == low32(ticks(samples@, samples@.len() as int)),
{
    let mut sum: u64 = 0;
    let mut i: usize = 0;
    while i < samples.len()
        invariant
            i <= samples@.len() <= u32::MAX,
            sum == ticks(samples@, i as int),
            sum <= i * u32::MAX,
        decreases samples@.len() - i,
    {
        assert(i * u32::MAX <= 0xFFFF_FFFF * 0xFFFF_FFFF) by (nonlinear_arith)
            requires
                i <= 0xFFFF_FFFF,
        ;
        sum = sum + samples[i].dur as u64;
        i += 1;
    }
    (sum % 0x1_0000_0000) as u32
}

/// The box that says where the samples lie and how to decode them.
pub fn moov_box(samples: &[Sample], descs: &[Desc], chunks: &[Chunk]) -> (r: Result<
    Vec<u8>,
    MuxError,
>)
    requires
        samples@.len() <= u32::MAX,
    ensures
        match r {
            Ok(b) => {
                &&& samples@.len() > 0 && descs@.len() > 0 && chunks@.len() > 0
                &&& b@ == movie(samples@, descs_view(descs@), chunks@)
            },
            Err(e) => {
                &&& samples@.len() == 0 || descs@.len() == 0 || chunks@.len() == 0
                &&& e == MuxError::NoSamples
            },
        },
{
    if samples.is_empty() || descs.is_empty() || chunks.is_empty() {
        return Err(MuxError::NoSamples);
    }
    proof {
        reveal(movie);
    }
    let total: u32 = duration(samples);
    let mut minf: Vec<u8> = vmhd();
    push_all(&mut minf, dinf().as_slice());
    push_all(&mut minf, stbl(samples, descs, chunks).as_slice());
    let mut mdia: Vec<u8> = mdhd(total);
    push_all(&mut mdia, hdlr().as_slice());
    push_box(&mut mdia, MINF, minf.as_slice());
    let mut trak: Vec<u8> = tkhd(total, descs[0].width, descs[0].height);
    push_box(&mut trak, MDIA, mdia.as_slice());
    let mut moov: Vec<u8> = mvhd(total);
    push_box(&mut moov, TRAK, trak.as_slice());
    Ok(outer_box(MOOV, moov.as_slice()))
}

/// The decoder configuration made from a pair of parameter sets.
pub open spec fn config(sps: Seq<u8>, pps: Seq<u8>) -> Seq<u8> {
    boxed(
        AVCC,
        seq![1u8, sps[1], sps[2], sps[3], 0xFF, 0xE1] + be16(low16(sps.len() as int)) + sps + seq![
            1u8,
        ] + be16(low16(pps.len() as int)) + pps,
    )
}

/// The decoder configuration box.
pub fn avcc_box(sps: &[u8], pps: &[u8]) -> (r: Result<Vec<u8>, MuxError>)
    ensures
        match r {
            Ok(b) => sps@.len() >= 4 && pps@.len() > 0 && b@ == config(sps@, pps@),
            Err(e) => (sps@.len() < 4 || pps@.len() == 0) && e == MuxError::BadParams,
        },
{
    if sps.len() < 4 || pps.is_empty() {
        return Err(MuxError::BadParams);
    }
    let mut b: Vec<u8> = vec![1, sps[1], sps[2], sps[3], 0xFF, 0xE1];
    assert(b@ =~= seq![1u8, sps@[1], sps@[2], sps@[3], 0xFF, 0xE1]);
    push_be16(&mut b, to_u16(sps.len()));
    push_all(&mut b, sps);
    let ghost front = b@;
    b.push(1);
    assert(b@ =~= front + seq![1u8]);
    push_be16(&mut b, to_u16(pps.len()));
    push_all(&mut b, pps);
    Ok(outer_box(AVCC, b.as_slice()))
}

/// A box says how long it is, and of what type.
pub proof fn box_says_its_length(kind: u32, body: Seq<u8>)
    requires
        8 + body.len() <= u32::MAX,
    ensures
        be32_at(boxed(kind, body), 0) == boxed(kind, body).len(),
        be32_at(boxed(kind, body), 4) == kind,
        boxed(kind, body).subrange(8, boxed(kind, body).len() as int) == body,
{
    let n = low32(8 + body.len() as int);
    word_roundtrip(n);
    word_roundtrip(kind);
    let b = boxed(kind, body);
    assert(be32_at(b, 0) == be32_at(be32(n), 0));
    assert(be32_at(b, 4) == be32_at(be32(kind), 0));
    assert(b.subrange(8, b.len() as int) =~= body);
}

/// The durations that runs stand for.
pub open spec fn expanded(rs: Seq<(u32, u32)>) -> Seq<u32>
    decreases rs.len(),
{
    if rs.len() == 0 {
        Seq::empty()
    } else {
        expanded(rs.drop_last()) + Seq::new(rs.last().0 as nat, |i: int| rs.last().1)
    }
}

/// The table of durations gives back the duration of every sample, in order.
pub proof fn durations_survive(samples: Seq<Sample>, n: int)
    requires
        0 <= n <= samples.len(),
        n <= u32::MAX,
    ensures
        expanded(runs(samples, n)) == Seq::new(n as nat, |i: int| samples[i].dur),
    decreases n,
{
    if n <= 0 {
        assert(expanded(runs(samples, n)) =~= Seq::new(n as nat, |i: int| samples[i].dur));
    } else {
        durations_survive(samples, n - 1);
        runs_bound(samples, n - 1);
        let before = runs(samples, n - 1);
        let now = runs(samples, n);
        assert(now.drop_last() =~= if before.len() > 0 && before.last().1 == samples[n - 1].dur {
            before.drop_last()
        } else {
            before
        });
        assert(before.len() > 0 ==> before[before.len() - 1].0 <= n - 1);
        let dur = samples[n - 1].dur;
        if before.len() > 0 && before.last().1 == dur {
            let c = before.last().0;
            assert(now.last() == ((c + 1) as u32, dur));
            assert(expanded(before) == expanded(before.drop_last()) + Seq::new(
                c as nat,
                |i: int| dur,
            ));
            assert(expanded(now) == expanded(before.drop_last()) + Seq::new(
                (c + 1) as nat,
                |i: int| dur,
            ));
            assert(expanded(now) =~= expanded(before).push(dur));
        } else {
            assert(now.last() == (1u32, dur));
            assert(expanded(now) =~= expanded(before).push(dur));
        }
        assert(expanded(now) =~= Seq::new(n as nat, |i: int| samples[i].dur));
    }
}

/// The table of keyframes lists exactly the keyframes, counted from one.
pub proof fn keyframes_are_listed(samples: Seq<Sample>, n: int)
    requires
        0 <= n <= samples.len(),
        n <= u32::MAX,
    ensures
        forall|k: u32|
            #[trigger] keyframes(samples, n).contains(k) <==> (1 <= k <= n && samples[k - 1].sync),
    decreases n,
{
    if n > 0 {
        keyframes_are_listed(samples, n - 1);
        let before = keyframes(samples, n - 1);
        let now = keyframes(samples, n);
        assert forall|k: u32| #[trigger] now.contains(k) <==> (1 <= k <= n && samples[k
            - 1].sync) by {
            if samples[n - 1].sync {
                assert(now == before.push(n as u32));
                assert(now[before.len() as int] == n as u32);
                if before.contains(k) {
                    let j = choose|j: int| 0 <= j < before.len() && before[j] == k;
                    assert(now[j] == k);
                }
                if now.contains(k) && k != n {
                    let j = choose|j: int| 0 <= j < now.len() && now[j] == k;
                    assert(before[j] == k);
                }
            }
        }
    }
}

} // verus!
