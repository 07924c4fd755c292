//! What a player reads out of a recording: the boxes of an MP4 file by their lengths
//! and types, the tables in them, and the samples that the tables lead to.

use crate::bytes::{be16, be32, low16, low32, word_roundtrip};
use crate::mp4::{
    avc1_box, avc1_boxes, boxed, config, durations_survive, expanded, ftyp_box, keyframes,
    keyframes_are_listed, matrix, movie, pair_words, runs, runs_bound, stbl_box, stco_box,
    stsc_box, stsd_box, stss_box, stsz_box, stts_box, ticks, words, words_len, Chunk, DescModel,
    Sample,
};
use crate::record::{
    avcc_of, bytes_of, closing, count_of, finished_file_plays, holds_samples, kept, last_unit,
    params_of, performed_all, sample_gives_back_units, sample_units, units, MuxModel,
};
use crate::sender::stream;
use crate::sps::{first_sps, sps_rectangle, start_code, stream_rectangle, unit_end};
use vstd::prelude::*;

verus! {

/// The number in four bytes, most significant first.
pub open spec fn word(f: Seq<u8>, at: int) -> int {
    f[at] * 0x100_0000 + f[at + 1] * 0x1_0000 + f[at + 2] * 0x100 + f[at + 3]
}

/// The number in two bytes, most significant first.
pub open spec fn half_word(f: Seq<u8>, at: int) -> int {
    f[at] * 0x100 + f[at + 1]
}

/// What the first box of a type between `from` and `to` holds: from where to where.
pub open spec fn find(f: Seq<u8>, from: int, to: int, kind: int) -> Option<(int, int)>
    decreases to - from,
{
    if from < 0 || from + 8 > to || to > f.len() {
        None
    } else {
        let n = word(f, from);
        if n < 8 || from + n > to {
            None
        } else if word(f, from + 4) == kind {
            Some((from + 8, from + n))
        } else {
            find(f, from + n, to, kind)
        }
    }
}

/// What the first box of a type within another holds.
pub open spec fn within(f: Seq<u8>, r: Option<(int, int)>, kind: int) -> Option<(int, int)> {
    match r {
        Some((a, b)) => find(f, a, b, kind),
        None => None,
    }
}

/// What the movie box holds: "moov".
pub open spec fn movie_part(f: Seq<u8>) -> Option<(int, int)> {
    find(f, 0, f.len() as int, 0x6D6F_6F76)
}

/// What the first track holds: "trak".
pub open spec fn track_part(f: Seq<u8>) -> Option<(int, int)> {
    within(f, movie_part(f), 0x7472_616B)
}

/// What the media box of the track holds: "mdia".
pub open spec fn media_part(f: Seq<u8>) -> Option<(int, int)> {
    within(f, track_part(f), 0x6D64_6961)
}

/// What the box with the sample tables holds: "stbl" in "minf".
pub open spec fn table_part(f: Seq<u8>) -> Option<(int, int)> {
    within(f, within(f, media_part(f), 0x6D69_6E66), 0x7374_626C)
}

/// True where bytes stand at a place.
spec fn lies(f: Seq<u8>, at: int, b: Seq<u8>) -> bool {
    0 <= at && at + b.len() <= f.len() && f.subrange(at, at + b.len()) == b
}

proof fn lies_front(f: Seq<u8>, at: int, a: Seq<u8>, b: Seq<u8>)
    requires
        lies(f, at, a + b),
    ensures
        lies(f, at, a),
        lies(f, at + a.len(), b),
{
    let c = a + b;
    assert(f.subrange(at, at + a.len()) =~= c.subrange(0, a.len() as int));
    assert(c.subrange(0, a.len() as int) =~= a);
    assert(f.subrange(at + a.len(), at + c.len()) =~= c.subrange(a.len() as int, c.len() as int));
    assert(c.subrange(a.len() as int, c.len() as int) =~= b);
}

proof fn lies_word(f: Seq<u8>, at: int, n: u32)
    requires
        lies(f, at, be32(n)),
    ensures
        word(f, at) == n,
{
    word_roundtrip(n);
    let b = be32(n);
    assert(f[at] == f.subrange(at, at + 4)[0]);
    assert(f[at + 1] == f.subrange(at, at + 4)[1]);
    assert(f[at + 2] == f.subrange(at, at + 4)[2]);
    assert(f[at + 3] == f.subrange(at, at + 4)[3]);
}

/// A box that stands at a place is found there by its type, and passed over for
/// another.
proof fn box_is_read(f: Seq<u8>, at: int, to: int, kind: u32, body: Seq<u8>)
    requires
        lies(f, at, boxed(kind, body)),
        at + 8 + body.len() <= to <= f.len(),
        8 + body.len() <= u32::MAX,
    ensures
        find(f, at, to, kind as int) == Some((at + 8, at + 8 + body.len())),
        forall|k: int|
            k != kind ==> #[trigger] find(f, at, to, k) == find(f, at + 8 + body.len(), to, k),
        lies(f, at + 8, body),
{
    let n = low32(8 + body.len() as int);
    assert(boxed(kind, body) =~= be32(n) + (be32(kind) + body));
    lies_front(f, at, be32(n), be32(kind) + body);
    lies_front(f, at + 4, be32(kind), body);
    lies_word(f, at, n);
    lies_word(f, at + 4, kind);
}

/// Numbers that stand at a place are read one by one.
proof fn words_are_read(f: Seq<u8>, at: int, ws: Seq<u32>, i: int)
    requires
        lies(f, at, words(ws)),
        0 <= i < ws.len(),
    ensures
        word(f, at + 4 * i) == ws[i],
    decreases ws.len(),
{
    words_len(ws.drop_last());
    lies_front(f, at, words(ws.drop_last()), be32(ws.last()));
    if i == ws.len() - 1 {
        lies_word(f, at + 4 * i, ws[i]);
    } else {
        words_are_read(f, at, ws.drop_last(), i);
        assert(ws.drop_last()[i] == ws[i]);
    }
}

/// True where a box of a type within another holds these bytes.
spec fn holds(f: Seq<u8>, r: Option<(int, int)>, kind: int, body: Seq<u8>) -> bool {
    match within(f, r, kind) {
        Some((a, b)) => b == a + body.len() && lies(f, a, body),
        None => false,
    }
}

/// A box is found behind those of other types.
proof fn box_is_found(
    f: Seq<u8>,
    r: (int, int),
    at: int,
    kind: u32,
    body: Seq<u8>,
    rest: Seq<u8>,
)
    requires
        lies(f, at, boxed(kind, body) + rest),
        at + 8 + body.len() + rest.len() <= r.1 <= f.len(),
        8 + body.len() <= u32::MAX,
        find(f, r.0, r.1, kind as int) == find(f, at, r.1, kind as int),
    ensures
        holds(f, Some(r), kind as int, body),
        within(f, Some(r), kind as int) == Some((at + 8, at + 8 + body.len())),
        lies(f, at + 8 + body.len(), rest),
        forall|k: int|
            k != kind ==> #[trigger] find(f, at, r.1, k) == find(f, at + 8 + body.len(), r.1, k),
{
    lies_front(f, at, boxed(kind, body), rest);
    box_is_read(f, at, r.1, kind, body);
}

/// Two boxes in another are both found.
proof fn two_are_found(
    f: Seq<u8>,
    r: Option<(int, int)>,
    kind: int,
    x: (u32, Seq<u8>),
    y: (u32, Seq<u8>),
)
    requires
        holds(f, r, kind, boxed(x.0, x.1) + boxed(y.0, y.1)),
        x.1.len() + y.1.len() + 16 <= u32::MAX,
        x.0 != y.0,
    ensures
        holds(f, within(f, r, kind), x.0 as int, x.1),
        holds(f, within(f, r, kind), y.0 as int, y.1),
{
    let q = within(f, r, kind)->0;
    box_is_found(f, q, q.0, x.0, x.1, boxed(y.0, y.1));
    let at = q.0 + 8 + x.1.len();
    assert(boxed(y.0, y.1) + Seq::<u8>::empty() =~= boxed(y.0, y.1));
    box_is_found(f, q, at, y.0, y.1, Seq::empty());
}

/// Three boxes in another are all found.
#[verifier::spinoff_prover]
#[verifier::rlimit(50)]
proof fn three_are_found(
    f: Seq<u8>,
    r: Option<(int, int)>,
    kind: int,
    x: (u32, Seq<u8>),
    y: (u32, Seq<u8>),
    z: (u32, Seq<u8>),
)
    requires
        holds(f, r, kind, boxed(x.0, x.1) + boxed(y.0, y.1) + boxed(z.0, z.1)),
        x.1.len() + y.1.len() + z.1.len() + 24 <= u32::MAX,
        x.0 != y.0 && x.0 != z.0 && y.0 != z.0,
    ensures
        holds(f, within(f, r, kind), x.0 as int, x.1),
        holds(f, within(f, r, kind), y.0 as int, y.1),
        holds(f, within(f, r, kind), z.0 as int, z.1),
{
    let q = within(f, r, kind)->0;
    let rest = boxed(y.0, y.1) + boxed(z.0, z.1);
    assert(boxed(x.0, x.1) + boxed(y.0, y.1) + boxed(z.0, z.1) =~= boxed(x.0, x.1) + rest);
    box_is_found(f, q, q.0, x.0, x.1, rest);
    let at = q.0 + 8 + x.1.len();
    box_is_found(f, q, at, y.0, y.1, boxed(z.0, z.1));
    let at = at + 8 + y.1.len();
    assert(boxed(z.0, z.1) + Seq::<u8>::empty() =~= boxed(z.0, z.1));
    box_is_found(f, q, at, z.0, z.1, Seq::empty());
}

/// Boxes in another, the first `n` of them one behind the other.
spec fn in_a_row(bs: Seq<(u32, Seq<u8>)>, n: int) -> Seq<u8>
    decreases n,
{
    if n <= 0 {
        Seq::empty()
    } else {
        in_a_row(bs, n - 1) + boxed(bs[n - 1].0, bs[n - 1].1)
    }
}

/// Any number of boxes in another are found by their types.
proof fn all_are_found(
    f: Seq<u8>,
    r: Option<(int, int)>,
    kind: int,
    bs: Seq<(u32, Seq<u8>)>,
    i: int,
)
    requires
        holds(f, r, kind, in_a_row(bs, bs.len() as int)),
        in_a_row(bs, bs.len() as int).len() <= u32::MAX,
        forall|j: int, k: int| 0 <= j < k < bs.len() ==> (#[trigger] bs[j]).0 != (#[trigger] bs[k]).0,
        0 <= i < bs.len(),
    ensures
        holds(f, within(f, r, kind), bs[i].0 as int, bs[i].1),
{
    let q = within(f, r, kind)->0;
    row_is_passed(f, q, bs, bs.len() as int, i);
}

proof fn row_is_passed(f: Seq<u8>, q: (int, int), bs: Seq<(u32, Seq<u8>)>, n: int, i: int)
    requires
        0 <= i < n <= bs.len(),
        lies(f, q.0, in_a_row(bs, n)),
        q.0 + in_a_row(bs, n).len() <= q.1 <= f.len(),
        in_a_row(bs, n).len() <= u32::MAX,
        forall|j: int, k: int| 0 <= j < k < bs.len() ==> (#[trigger] bs[j]).0 != (#[trigger] bs[k]).0,
    ensures
        holds(f, Some(q), bs[i].0 as int, bs[i].1),
    decreases n,
{
    let front = in_a_row(bs, n - 1);
    let b = bs[n - 1];
    lies_front(f, q.0, front, boxed(b.0, b.1));
    if i < n - 1 {
        row_is_passed(f, q, bs, n - 1, i);
    } else {
        row_has_others(f, q, bs, n - 1, b.0 as int);
        box_is_read(f, q.0 + front.len(), q.1, b.0, b.1);
    }
}

/// A type that is not in a row is looked for behind it.
proof fn row_has_others(f: Seq<u8>, q: (int, int), bs: Seq<(u32, Seq<u8>)>, n: int, k: int)
    requires
        0 <= n <= bs.len(),
        lies(f, q.0, in_a_row(bs, n)),
        q.0 + in_a_row(bs, n).len() <= q.1 <= f.len(),
        in_a_row(bs, n).len() <= u32::MAX,
        forall|j: int| 0 <= j < n ==> (#[trigger] bs[j]).0 != k,
    ensures
        find(f, q.0, q.1, k) == find(f, q.0 + in_a_row(bs, n).len(), q.1, k),
    decreases n,
{
    if n > 0 {
        let front = in_a_row(bs, n - 1);
        let b = bs[n - 1];
        lies_front(f, q.0, front, boxed(b.0, b.1));
        row_has_others(f, q, bs, n - 1, k);
        box_is_read(f, q.0 + front.len(), q.1, b.0, b.1);
    }
}

#[verifier::opaque]
spec fn stbl_row(samples: Seq<Sample>, descs: Seq<DescModel>, chunks: Seq<Chunk>) -> Seq<
    (u32, Seq<u8>),
> {
    seq![
        (0x7374_7364u32, stsd_body(descs)),
        (0x7374_7473u32, words(stts_words(samples))),
        (0x7374_7373u32, words(stss_words(samples))),
        (0x7374_7363u32, words(stsc_words(chunks))),
        (0x7374_737Au32, words(stsz_words(samples))),
        (0x7374_636Fu32, words(stco_words(chunks))),
    ]
}

#[verifier::opaque]
spec fn stsd_body(descs: Seq<DescModel>) -> Seq<u8> {
    words(seq![0u32, low32(descs.len() as int)]) + avc1_boxes(descs, descs.len() as int)
}

spec fn stts_words(samples: Seq<Sample>) -> Seq<u32> {
    let rs = runs(samples, samples.len() as int);
    seq![0u32, low32(rs.len() as int)] + pair_words(rs)
}

spec fn stss_words(samples: Seq<Sample>) -> Seq<u32> {
    let ks = keyframes(samples, samples.len() as int);
    seq![0u32, low32(ks.len() as int)] + ks
}

spec fn stsc_words(chunks: Seq<Chunk>) -> Seq<u32> {
    seq![0u32, low32(chunks.len() as int)] + Seq::new(
        3 * chunks.len(),
        |i: int|
            if i % 3 == 0 {
                low32(i / 3 + 1)
            } else if i % 3 == 1 {
                chunks[i / 3].count
            } else {
                chunks[i / 3].desc
            },
    )
}

spec fn stsz_words(samples: Seq<Sample>) -> Seq<u32> {
    seq![0u32, 0, low32(samples.len() as int)] + Seq::new(samples.len(), |i: int| samples[i].size)
}

spec fn stco_words(chunks: Seq<Chunk>) -> Seq<u32> {
    seq![0u32, low32(chunks.len() as int)] + Seq::new(
        chunks.len(),
        |i: int| low32(chunks[i].off as int),
    )
}

/// The tables as a row of boxes.
#[verifier::spinoff_prover]
#[verifier::rlimit(50)]
proof fn tables_are_a_row(samples: Seq<Sample>, descs: Seq<DescModel>, chunks: Seq<Chunk>)
    ensures
        stbl_box(samples, descs, chunks) == boxed(
            0x7374_626C,
            in_a_row(stbl_row(samples, descs, chunks), 6),
        ),
{
    reveal(stbl_row);
    reveal(stsd_body);
    let bs = stbl_row(samples, descs, chunks);
    reveal_with_fuel(in_a_row, 7);
    assert(stsc_box(chunks) == boxed(bs[3].0, bs[3].1)) by {
        assert(stsc_words(chunks) =~= seq![0u32, low32(chunks.len() as int)] + Seq::new(
            3 * chunks.len(),
            |i: int|
                if i % 3 == 0 {
                    low32(i / 3 + 1)
                } else if i % 3 == 1 {
                    chunks[i / 3].count
                } else {
                    chunks[i / 3].desc
                },
        ));
    }
    assert(in_a_row(bs, 6) =~= stsd_box(descs) + stts_box(samples) + stss_box(samples) + stsc_box(
        chunks,
    ) + stsz_box(samples) + stco_box(chunks));
}

/// True where a file has this movie in it.
pub open spec fn has_movie(
    f: Seq<u8>,
    samples: Seq<Sample>,
    descs: Seq<DescModel>,
    chunks: Seq<Chunk>,
) -> bool {
    let m = movie(samples, descs, chunks);
    &&& m.len() <= u32::MAX
    &&& match movie_part(f) {
        Some((a, b)) => 8 <= a && b <= f.len() && b - a + 8 == m.len() && f.subrange(a - 8, b) == m,
        None => false,
    }
}

/// What a movie holds, by its parts.
#[verifier::opaque]
spec fn nest(
    mv: Seq<u8>,
    tk: Seq<u8>,
    md: Seq<u8>,
    hd: Seq<u8>,
    vm: Seq<u8>,
    dr: Seq<u8>,
    row: Seq<u8>,
) -> Seq<u8> {
    let minf = boxed(0x766D_6864, vm) + boxed(0x6469_6E66, dr) + boxed(0x7374_626C, row);
    let mdia = boxed(0x6D64_6864, md) + boxed(0x6864_6C72, hd) + boxed(0x6D69_6E66, minf);
    let trak = boxed(0x746B_6864, tk) + boxed(0x6D64_6961, mdia);
    boxed(0x6D76_6864, mv) + boxed(0x7472_616B, trak)
}

#[verifier::spinoff_prover]
#[verifier::rlimit(50)]
proof fn movie_is_nested(samples: Seq<Sample>, descs: Seq<DescModel>, chunks: Seq<Chunk>, d: u32)
    requires
        d == low32(ticks(samples, samples.len() as int)),
    ensures
        movie(samples, descs, chunks) == boxed(
            0x6D6F_6F76,
            nest(
                mvhd_words(d),
                tkhd_words(d, descs[0].width, descs[0].height),
                mdhd_words(d),
                hdlr_words(),
                vmhd_words(),
                dref_body(),
                in_a_row(stbl_row(samples, descs, chunks), 6),
            ),
        ),
{
    reveal(movie);
    reveal(nest);
    reveal(mvhd_words);
    reveal(tkhd_words);
    reveal(mdhd_words);
    reveal(hdlr_words);
    reveal(vmhd_words);
    reveal(dref_body);
    tables_are_a_row(samples, descs, chunks);
}

proof fn tables_are_six(samples: Seq<Sample>, descs: Seq<DescModel>, chunks: Seq<Chunk>)
    ensures
        stbl_row(samples, descs, chunks).len() == 6,
        forall|j: int, k: int|
            0 <= j < k < 6 ==> (#[trigger] stbl_row(samples, descs, chunks)[j]).0 != (
            #[trigger] stbl_row(samples, descs, chunks)[k]).0,
{
    reveal(stbl_row);
}

#[verifier::opaque]
spec fn dref_body() -> Seq<u8> {
    boxed(0x6472_6566, words(seq![0u32, 1]) + boxed(0x7572_6C20, words(seq![1u32])))
}

/// What the boxes of a movie hold.
#[verifier::spinoff_prover]
#[verifier::rlimit(50)]
proof fn movie_is_read(
    f: Seq<u8>,
    samples: Seq<Sample>,
    descs: Seq<DescModel>,
    chunks: Seq<Chunk>,
    i: int,
)
    requires
        has_movie(f, samples, descs, chunks),
        0 <= i < 6,
    ensures
        ({
            let d = low32(ticks(samples, samples.len() as int));
            let b = stbl_row(samples, descs, chunks)[i];
            &&& holds(f, movie_part(f), 0x6D76_6864, mvhd_words(d))
            &&& holds(
                f,
                track_part(f),
                0x746B_6864,
                tkhd_words(d, descs[0].width, descs[0].height),
            )
            &&& holds(f, media_part(f), 0x6D64_6864, mdhd_words(d))
            &&& holds(f, media_part(f), 0x6864_6C72, hdlr_words())
            &&& holds(f, table_part(f), b.0 as int, b.1)
            &&& holds(f, within(f, media_part(f), 0x6D69_6E66), 0x766D_6864, vmhd_words())
            &&& holds(f, within(f, media_part(f), 0x6D69_6E66), 0x6469_6E66, dref_body())
        }),
{
    let d = low32(ticks(samples, samples.len() as int));
    let bs = stbl_row(samples, descs, chunks);
    let row = in_a_row(bs, 6);
    let tk = tkhd_words(d, descs[0].width, descs[0].height);
    movie_is_nested(samples, descs, chunks, d);
    let body = nest(
        mvhd_words(d),
        tk,
        mdhd_words(d),
        hdlr_words(),
        vmhd_words(),
        dref_body(),
        row,
    );
    body_is_held(f, body);
    nest_is_read(f, mvhd_words(d), tk, mdhd_words(d), hdlr_words(), vmhd_words(), dref_body(), row);
    tables_are_six(samples, descs, chunks);
    all_are_found(f, within(f, media_part(f), 0x6D69_6E66), 0x7374_626C, bs, i);
}

#[verifier::spinoff_prover]
#[verifier::rlimit(50)]
proof fn body_is_held(f: Seq<u8>, body: Seq<u8>)
    requires
        boxed(0x6D6F_6F76, body).len() <= u32::MAX,
        match movie_part(f) {
            Some((a, b)) => 8 <= a && b <= f.len() && b - a + 8 == boxed(0x6D6F_6F76, body).len()
                && f.subrange(a - 8, b) == boxed(0x6D6F_6F76, body),
            None => false,
        },
    ensures
        holds(f, Some((0int, f.len() as int)), 0x6D6F_6F76, body),
        8 + body.len() <= u32::MAX,
{
    let (a, b) = movie_part(f)->0;
    boxed_len(0x6D6F_6F76, body);
    let n = low32(8 + body.len() as int);
    assert(boxed(0x6D6F_6F76, body) =~= (be32(n) + be32(0x6D6F_6F76)) + body);
    lies_front(f, a - 8, be32(n) + be32(0x6D6F_6F76), body);
}

proof fn boxed_len(kind: u32, body: Seq<u8>)
    ensures
        boxed(kind, body).len() == 8 + body.len(),
{
}

#[verifier::spinoff_prover]
#[verifier::rlimit(50)]
proof fn nest_is_read(
    f: Seq<u8>,
    mv: Seq<u8>,
    tk: Seq<u8>,
    md: Seq<u8>,
    hd: Seq<u8>,
    vm: Seq<u8>,
    dr: Seq<u8>,
    row: Seq<u8>,
)
    requires
        holds(
            f,
            Some((0int, f.len() as int)),
            0x6D6F_6F76,
            nest(mv, tk, md, hd, vm, dr, row),
        ),
        8 + nest(mv, tk, md, hd, vm, dr, row).len() <= u32::MAX,
    ensures
        holds(f, movie_part(f), 0x6D76_6864, mv),
        holds(f, track_part(f), 0x746B_6864, tk),
        holds(f, media_part(f), 0x6D64_6864, md),
        holds(f, media_part(f), 0x6864_6C72, hd),
        holds(f, within(f, media_part(f), 0x6D69_6E66), 0x7374_626C, row),
        holds(f, within(f, media_part(f), 0x6D69_6E66), 0x766D_6864, vm),
        holds(f, within(f, media_part(f), 0x6D69_6E66), 0x6469_6E66, dr),
        row.len() <= u32::MAX,
{
    let minf = boxed(0x766D_6864, vm) + boxed(0x6469_6E66, dr) + boxed(0x7374_626C, row);
    let mdia = boxed(0x6D64_6864, md) + boxed(0x6864_6C72, hd) + boxed(0x6D69_6E66, minf);
    let trak = boxed(0x746B_6864, tk) + boxed(0x6D64_6961, mdia);
    reveal(nest);
    let all = Some((0int, f.len() as int));
    boxed_len(0x766D_6864, vm);
    boxed_len(0x6469_6E66, dr);
    boxed_len(0x7374_626C, row);
    boxed_len(0x6D64_6864, md);
    boxed_len(0x6864_6C72, hd);
    boxed_len(0x6D69_6E66, minf);
    boxed_len(0x746B_6864, tk);
    boxed_len(0x6D64_6961, mdia);
    boxed_len(0x6D76_6864, mv);
    boxed_len(0x7472_616B, trak);
    two_are_found(f, all, 0x6D6F_6F76, (0x6D76_6864u32, mv), (0x7472_616Bu32, trak));
    two_are_found(f, movie_part(f), 0x7472_616B, (0x746B_6864u32, tk), (0x6D64_6961u32, mdia));
    three_are_found(
        f,
        track_part(f),
        0x6D64_6961,
        (0x6D64_6864u32, md),
        (0x6864_6C72u32, hd),
        (0x6D69_6E66u32, minf),
    );
    three_are_found(
        f,
        media_part(f),
        0x6D69_6E66,
        (0x766D_6864u32, vm),
        (0x6469_6E66u32, dr),
        (0x7374_626Cu32, row),
    );
}

#[verifier::opaque]
spec fn vmhd_words() -> Seq<u8> {
    words(seq![1u32, 0, 0])
}

#[verifier::opaque]
spec fn mvhd_words(d: u32) -> Seq<u8> {
    words(
        seq![0u32, 0, 0, 90_000, d, 0x1_0000, 0x100_0000, 0, 0] + matrix() + seq![
            0u32,
            0,
            0,
            0,
            0,
            0,
            2,
        ],
    )
}

#[verifier::opaque]
spec fn tkhd_words(d: u32, w: u16, h: u16) -> Seq<u8> {
    words(
        seq![7u32, 0, 0, 1, 0, d, 0, 0, 0, 0] + matrix() + seq![
            (w * 0x1_0000) as u32,
            (h * 0x1_0000) as u32,
        ],
    )
}

#[verifier::opaque]
spec fn mdhd_words(d: u32) -> Seq<u8> {
    words(seq![0u32, 0, 0, 90_000, d, 0x55C4_0000])
}

#[verifier::opaque]
spec fn hdlr_words() -> Seq<u8> {
    words(seq![0u32, 0, 0x7669_6465, 0, 0, 0, 0x506F_636B, 0x6574_4361]) + be16(0x6D00)
}

/// Where what a box holds begins.
pub open spec fn begin_of(r: Option<(int, int)>) -> int {
    match r {
        Some((a, _)) => a,
        None => 0,
    }
}

/// What a sample table of a type holds.
pub open spec fn table(f: Seq<u8>, kind: int) -> Option<(int, int)> {
    within(f, table_part(f), kind)
}

/// How many samples there are: "stsz".
pub open spec fn sample_count(f: Seq<u8>) -> int {
    word(f, begin_of(table(f, 0x7374_737A)) + 8)
}

/// The size of sample `i`: that of all, or its own.
pub open spec fn sample_size(f: Seq<u8>, i: int) -> int {
    let a = begin_of(table(f, 0x7374_737A));
    if word(f, a + 4) != 0 {
        word(f, a + 4)
    } else {
        word(f, a + 12 + 4 * i)
    }
}

/// How many chunks there are: "stco".
pub open spec fn chunk_count(f: Seq<u8>) -> int {
    word(f, begin_of(table(f, 0x7374_636F)) + 4)
}

/// Where chunk `c` begins. Chunks count from one.
pub open spec fn chunk_offset(f: Seq<u8>, c: int) -> int {
    word(f, begin_of(table(f, 0x7374_636F)) + 8 + 4 * (c - 1))
}

/// A number of an entry that says which chunks hold what: "stsc".
pub open spec fn run_word(f: Seq<u8>, k: int, j: int) -> int {
    word(f, begin_of(table(f, 0x7374_7363)) + 8 + 12 * k + 4 * j)
}

/// The last of the entries up to `k` that begins at or before chunk `c`.
pub open spec fn run_for(f: Seq<u8>, c: int, k: int) -> int
    decreases k,
{
    if k <= 0 || run_word(f, k, 0) <= c {
        k
    } else {
        run_for(f, c, k - 1)
    }
}

/// The entry that says what chunk `c` holds.
pub open spec fn run_of(f: Seq<u8>, c: int) -> int {
    run_for(f, c, word(f, begin_of(table(f, 0x7374_7363)) + 4) - 1)
}

/// How many samples chunk `c` holds.
pub open spec fn chunk_samples(f: Seq<u8>, c: int) -> int {
    run_word(f, run_of(f, c), 1)
}

/// The description of the samples in chunk `c`, counted from one.
pub open spec fn chunk_description(f: Seq<u8>, c: int) -> int {
    run_word(f, run_of(f, c), 2)
}

/// The chunk that holds the sample with `i` before it from chunk `c` on, and how many
/// are before it in the chunk.
pub open spec fn chunk_holding(f: Seq<u8>, c: int, i: int) -> (int, int)
    decreases chunk_count(f) + 1 - c,
{
    if c > chunk_count(f) || i < chunk_samples(f, c) {
        (c, i)
    } else {
        chunk_holding(f, c + 1, i - chunk_samples(f, c))
    }
}

/// The bytes of the samples from `i` on before `j`.
pub open spec fn sizes_between(f: Seq<u8>, i: int, j: int) -> int
    decreases j - i,
{
    if i >= j {
        0
    } else {
        sizes_between(f, i, j - 1) + sample_size(f, j - 1)
    }
}

/// Where sample `i` begins.
pub open spec fn sample_offset(f: Seq<u8>, i: int) -> int {
    let (c, j) = chunk_holding(f, 1, i);
    chunk_offset(f, c) + sizes_between(f, i - j, i)
}

/// The description of sample `i`, counted from one.
pub open spec fn sample_description(f: Seq<u8>, i: int) -> int {
    chunk_description(f, chunk_holding(f, 1, i).0)
}

/// Sample `i` as the player gets it.
pub open spec fn sample_bytes(f: Seq<u8>, i: int) -> Seq<u8> {
    f.subrange(sample_offset(f, i), sample_offset(f, i) + sample_size(f, i))
}

/// How long each of the samples in the first `k` entries is shown: "stts".
pub open spec fn shown_for(f: Seq<u8>, k: int) -> Seq<int>
    decreases k,
{
    if k <= 0 {
        Seq::empty()
    } else {
        let a = begin_of(table(f, 0x7374_7473));
        let n = word(f, a + 8 * k);
        let d = word(f, a + 8 * k + 4);
        shown_for(f, k - 1) + Seq::new(n as nat, |i: int| d)
    }
}

/// How long each sample is shown, in ticks.
pub open spec fn sample_ticks_of(f: Seq<u8>) -> Seq<int> {
    shown_for(f, word(f, begin_of(table(f, 0x7374_7473)) + 4))
}

/// True of a sample that a player may begin with: "stss".
pub open spec fn is_sync(f: Seq<u8>, i: int) -> bool {
    let a = begin_of(table(f, 0x7374_7373));
    exists|j: int| 0 <= j < word(f, a + 4) && #[trigger] word(f, a + 8 + 4 * j) == i + 1
}

/// Ticks in a second, of the media: "mdhd".
pub open spec fn ticks_in_a_second(f: Seq<u8>) -> int {
    word(f, begin_of(within(f, media_part(f), 0x6D64_6864)) + 12)
}

/// A table of numbers is read.
#[verifier::spinoff_prover]
#[verifier::rlimit(50)]
proof fn table_is_read(
    f: Seq<u8>,
    samples: Seq<Sample>,
    descs: Seq<DescModel>,
    chunks: Seq<Chunk>,
    t: int,
    ws: Seq<u32>,
    i: int,
)
    requires
        has_movie(f, samples, descs, chunks),
        1 <= t < 6,
        stbl_row(samples, descs, chunks)[t].1 == words(ws),
        0 <= i < ws.len(),
    ensures
        ({
            let kind = stbl_row(samples, descs, chunks)[t].0 as int;
            &&& table(f, kind) is Some
            &&& word(f, begin_of(table(f, kind)) + 4 * i) == ws[i]
        }),
{
    movie_is_read(f, samples, descs, chunks, t);
    let kind = stbl_row(samples, descs, chunks)[t].0 as int;
    let (a, b) = table(f, kind)->0;
    words_are_read(f, a, ws, i);
}

proof fn stts_is_read(
    f: Seq<u8>,
    samples: Seq<Sample>,
    descs: Seq<DescModel>,
    chunks: Seq<Chunk>,
    i: int,
)
    requires
        has_movie(f, samples, descs, chunks),
        0 <= i < stts_words(samples).len(),
    ensures
        word(f, begin_of(table(f, 0x7374_7473)) + 4 * i) == stts_words(samples)[i],
{
    reveal(stbl_row);
    table_is_read(f, samples, descs, chunks, 1, stts_words(samples), i);
}

proof fn stss_is_read(
    f: Seq<u8>,
    samples: Seq<Sample>,
    descs: Seq<DescModel>,
    chunks: Seq<Chunk>,
    i: int,
)
    requires
        has_movie(f, samples, descs, chunks),
        0 <= i < stss_words(samples).len(),
    ensures
        word(f, begin_of(table(f, 0x7374_7373)) + 4 * i) == stss_words(samples)[i],
{
    reveal(stbl_row);
    table_is_read(f, samples, descs, chunks, 2, stss_words(samples), i);
}

proof fn stsc_is_read(
    f: Seq<u8>,
    samples: Seq<Sample>,
    descs: Seq<DescModel>,
    chunks: Seq<Chunk>,
    i: int,
)
    requires
        has_movie(f, samples, descs, chunks),
        0 <= i < stsc_words(chunks).len(),
    ensures
        word(f, begin_of(table(f, 0x7374_7363)) + 4 * i) == stsc_words(chunks)[i],
{
    reveal(stbl_row);
    table_is_read(f, samples, descs, chunks, 3, stsc_words(chunks), i);
}

proof fn stsz_is_read(
    f: Seq<u8>,
    samples: Seq<Sample>,
    descs: Seq<DescModel>,
    chunks: Seq<Chunk>,
    i: int,
)
    requires
        has_movie(f, samples, descs, chunks),
        0 <= i < stsz_words(samples).len(),
    ensures
        word(f, begin_of(table(f, 0x7374_737A)) + 4 * i) == stsz_words(samples)[i],
{
    reveal(stbl_row);
    table_is_read(f, samples, descs, chunks, 4, stsz_words(samples), i);
}

proof fn stco_is_read(
    f: Seq<u8>,
    samples: Seq<Sample>,
    descs: Seq<DescModel>,
    chunks: Seq<Chunk>,
    i: int,
)
    requires
        has_movie(f, samples, descs, chunks),
        0 <= i < stco_words(chunks).len(),
    ensures
        word(f, begin_of(table(f, 0x7374_636F)) + 4 * i) == stco_words(chunks)[i],
{
    reveal(stbl_row);
    table_is_read(f, samples, descs, chunks, 5, stco_words(chunks), i);
}

/// The sizes of the samples are read as they are.
#[verifier::spinoff_prover]
#[verifier::rlimit(50)]
pub proof fn sizes_are_read(
    f: Seq<u8>,
    samples: Seq<Sample>,
    descs: Seq<DescModel>,
    chunks: Seq<Chunk>,
    i: int,
)
    requires
        has_movie(f, samples, descs, chunks),
        samples.len() <= u32::MAX,
    ensures
        sample_count(f) == samples.len(),
        0 <= i < samples.len() ==> sample_size(f, i) == samples[i].size,
{
    let ws = stsz_words(samples);
    stsz_is_read(f, samples, descs, chunks, 1);
    stsz_is_read(f, samples, descs, chunks, 2);
    if 0 <= i < samples.len() {
        stsz_is_read(f, samples, descs, chunks, 3 + i);
        assert(ws[3 + i] == samples[i].size);
    }
}

/// The chunks are read as they are: how many samples each holds, of which description,
/// and where it begins.
#[verifier::spinoff_prover]
#[verifier::rlimit(50)]
pub proof fn chunks_are_read(
    f: Seq<u8>,
    samples: Seq<Sample>,
    descs: Seq<DescModel>,
    chunks: Seq<Chunk>,
    c: int,
)
    requires
        has_movie(f, samples, descs, chunks),
        chunks.len() <= u32::MAX,
    ensures
        chunk_count(f) == chunks.len(),
        1 <= c <= chunks.len() ==> {
            &&& chunk_samples(f, c) == chunks[c - 1].count
            &&& chunk_description(f, c) == chunks[c - 1].desc
            &&& chunks[c - 1].off <= u32::MAX ==> chunk_offset(f, c) == chunks[c - 1].off
        },
{
    let ws = stsc_words(chunks);
    let os = stco_words(chunks);
    stco_is_read(f, samples, descs, chunks, 1);
    stsc_is_read(f, samples, descs, chunks, 1);
    if 1 <= c <= chunks.len() {
        let k = c - 1;
        stco_is_read(f, samples, descs, chunks, 2 + k);
        stsc_is_read(f, samples, descs, chunks, 2 + 3 * k + 1);
        stsc_is_read(f, samples, descs, chunks, 2 + 3 * k + 2);
        assert(ws[2 + 3 * k + 1] == chunks[k].count);
        assert(ws[2 + 3 * k + 2] == chunks[k].desc);
        assert(os[2 + k] == low32(chunks[k].off as int));
        run_is_its_own(f, samples, descs, chunks, c, chunks.len() - 1);
    }
}

/// Each chunk has an entry of its own.
proof fn run_is_its_own(
    f: Seq<u8>,
    samples: Seq<Sample>,
    descs: Seq<DescModel>,
    chunks: Seq<Chunk>,
    c: int,
    k: int,
)
    requires
        has_movie(f, samples, descs, chunks),
        chunks.len() <= u32::MAX,
        1 <= c <= chunks.len(),
        c - 1 <= k < chunks.len(),
    ensures
        run_for(f, c, k) == c - 1,
    decreases k,
{
    let ws = stsc_words(chunks);
    stsc_is_read(f, samples, descs, chunks, 2 + 3 * k);
    assert(ws[2 + 3 * k] == low32(k + 1));
    if k > c - 1 {
        run_is_its_own(f, samples, descs, chunks, c, k - 1);
    }
}

/// A player finds the chunk that a sample lies in.
proof fn chunk_is_found(
    f: Seq<u8>,
    samples: Seq<Sample>,
    descs: Seq<DescModel>,
    chunks: Seq<Chunk>,
    c: int,
    k: int,
    i: int,
)
    requires
        has_movie(f, samples, descs, chunks),
        chunks.len() <= u32::MAX,
        0 <= c <= k < chunks.len(),
        count_of(chunks, c) <= count_of(chunks, k) <= i < count_of(chunks, k + 1),
        forall|j: int| 0 <= j < chunks.len() ==> (#[trigger] chunks[j]).count >= 1,
    ensures
        chunk_holding(f, c + 1, i - count_of(chunks, c)) == (k + 1, i - count_of(chunks, k)),
    decreases k - c,
{
    chunks_are_read(f, samples, descs, chunks, c + 1);
    assert(chunks[c].count >= 1);
    if c < k {
        counts_grow(chunks, c + 1, k);
        chunk_is_found(f, samples, descs, chunks, c + 1, k, i);
    }
}

proof fn counts_grow(chunks: Seq<Chunk>, j: int, k: int)
    requires
        0 <= j <= k <= chunks.len(),
    ensures
        count_of(chunks, j) <= count_of(chunks, k),
    decreases k,
{
    if j < k {
        counts_grow(chunks, j, k - 1);
    }
}

proof fn sizes_add_up(
    f: Seq<u8>,
    samples: Seq<Sample>,
    descs: Seq<DescModel>,
    chunks: Seq<Chunk>,
    i: int,
    j: int,
)
    requires
        has_movie(f, samples, descs, chunks),
        samples.len() <= u32::MAX,
        0 <= i <= j <= samples.len(),
    ensures
        sizes_between(f, i, j) == bytes_of(samples, j) - bytes_of(samples, i),
    decreases j,
{
    if i < j {
        sizes_add_up(f, samples, descs, chunks, i, j - 1);
        sizes_are_read(f, samples, descs, chunks, j - 1);
    }
}

/// A player that walks the tables finds every sample: at the place where its chunk
/// begins and the samples before it in the chunk end, in its size, and with the
/// description of its chunk.
#[verifier::spinoff_prover]
#[verifier::rlimit(50)]
pub proof fn samples_are_found(
    f: Seq<u8>,
    samples: Seq<Sample>,
    descs: Seq<DescModel>,
    chunks: Seq<Chunk>,
    k: int,
    i: int,
)
    requires
        has_movie(f, samples, descs, chunks),
        samples.len() <= u32::MAX,
        chunks.len() <= u32::MAX,
        0 <= k < chunks.len(),
        0 <= count_of(chunks, k) <= i < count_of(chunks, k + 1),
        i < samples.len(),
        forall|j: int| 0 <= j < chunks.len() ==> (#[trigger] chunks[j]).count >= 1,
        chunks[k].off <= u32::MAX,
    ensures
        sample_offset(f, i) == chunks[k].off + bytes_of(samples, i) - bytes_of(
            samples,
            count_of(chunks, k),
        ),
        sample_size(f, i) == samples[i].size,
        sample_description(f, i) == chunks[k].desc,
{
    counts_grow(chunks, 0, k);
    chunk_is_found(f, samples, descs, chunks, 0, k, i);
    chunks_are_read(f, samples, descs, chunks, k + 1);
    sizes_are_read(f, samples, descs, chunks, i);
    sizes_add_up(f, samples, descs, chunks, count_of(chunks, k), i);
}

/// Every sample is shown for its own time.
#[verifier::spinoff_prover]
#[verifier::rlimit(50)]
pub proof fn durations_are_read(
    f: Seq<u8>,
    samples: Seq<Sample>,
    descs: Seq<DescModel>,
    chunks: Seq<Chunk>,
)
    requires
        has_movie(f, samples, descs, chunks),
        samples.len() <= u32::MAX,
    ensures
        sample_ticks_of(f) == Seq::new(samples.len(), |i: int| samples[i].dur as int),
{
    let n = samples.len() as int;
    let rs = runs(samples, n);
    runs_bound(samples, n);
    durations_survive(samples, n);
    stts_is_read(f, samples, descs, chunks, 1);
    entries_are_read(f, samples, descs, chunks, rs.len() as int);
    assert(rs.take(rs.len() as int) =~= rs);
    assert(sample_ticks_of(f) =~= Seq::new(samples.len(), |i: int| samples[i].dur as int));
}

#[verifier::spinoff_prover]
#[verifier::rlimit(50)]
proof fn entries_are_read(
    f: Seq<u8>,
    samples: Seq<Sample>,
    descs: Seq<DescModel>,
    chunks: Seq<Chunk>,
    k: int,
)
    requires
        has_movie(f, samples, descs, chunks),
        samples.len() <= u32::MAX,
        0 <= k <= runs(samples, samples.len() as int).len(),
    ensures
        ({
            let e = expanded(runs(samples, samples.len() as int).take(k));
            shown_for(f, k) == Seq::new(e.len(), |i: int| e[i] as int)
        }),
    decreases k,
{
    let rs = runs(samples, samples.len() as int);
    let e = expanded(rs.take(k));
    if k > 0 {
        entries_are_read(f, samples, descs, chunks, k - 1);
        assert(rs.take(k).drop_last() =~= rs.take(k - 1));
        stts_is_read(f, samples, descs, chunks, 2 * k);
        stts_is_read(f, samples, descs, chunks, 2 * k + 1);
        let ws = stts_words(samples);
        assert(ws[2 * k] == pair_words(rs)[2 * (k - 1)]);
        assert(ws[2 * k + 1] == pair_words(rs)[2 * (k - 1) + 1]);
        assert(ws[2 * k] == rs[k - 1].0 && ws[2 * k + 1] == rs[k - 1].1);
    }
    assert(shown_for(f, k) =~= Seq::new(e.len(), |i: int| e[i] as int));
}

/// A player may begin with the keyframes, and with nothing else. They are listed in
/// order.
#[verifier::spinoff_prover]
#[verifier::rlimit(50)]
pub proof fn keyframes_are_read(
    f: Seq<u8>,
    samples: Seq<Sample>,
    descs: Seq<DescModel>,
    chunks: Seq<Chunk>,
    i: int,
)
    requires
        has_movie(f, samples, descs, chunks),
        samples.len() <= u32::MAX,
        0 <= i < samples.len(),
    ensures
        is_sync(f, i) <==> samples[i].sync,
        ({
            let a = begin_of(table(f, 0x7374_7373));
            forall|j: int, k: int|
                0 <= j < k < word(f, a + 4) ==> #[trigger] word(f, a + 8 + 4 * j)
                    < #[trigger] word(f, a + 8 + 4 * k)
        }),
{
    let n = samples.len() as int;
    let ks = keyframes(samples, n);
    let a = begin_of(table(f, 0x7374_7373));
    keyframes_in_order(samples, n);
    keyframes_are_listed(samples, n);
    stss_is_read(f, samples, descs, chunks, 1);
    assert forall|j: int| 0 <= j < ks.len() implies #[trigger] word(f, a + 8 + 4 * j) == ks[j] by {
        stss_is_read(f, samples, descs, chunks, 2 + j);
        assert(a + 4 * (2 + j) == a + 8 + 4 * j);
    }
    let num = (i + 1) as u32;
    assert(ks.contains(num) <==> samples[i].sync);
    if ks.contains(num) {
        let j = choose|j: int| 0 <= j < ks.len() && ks[j] == num;
        assert(word(f, a + 8 + 4 * j) == i + 1);
    }
    if is_sync(f, i) {
        let j = choose|j: int|
            0 <= j < word(f, a + 4) && #[trigger] word(f, a + 8 + 4 * j) == i + 1;
        assert(ks[j] == num);
    }
}

proof fn keyframes_in_order(samples: Seq<Sample>, n: int)
    requires
        0 <= n <= samples.len(),
        n <= u32::MAX,
    ensures
        keyframes(samples, n).len() <= n,
        forall|j: int| 0 <= j < keyframes(samples, n).len() ==> 1 <= #[trigger] keyframes(
            samples,
            n,
        )[j] <= n,
        forall|j: int, k: int|
            0 <= j < k < keyframes(samples, n).len() ==> #[trigger] keyframes(samples, n)[j]
                < #[trigger] keyframes(samples, n)[k],
    decreases n,
{
    if n > 0 {
        keyframes_in_order(samples, n - 1);
    }
}

/// The track is one of video that counts 90 000 ticks in a second and lasts as long as
/// its samples together, as far as 32 bits go. It is shown in the size of the first
/// description.
#[verifier::spinoff_prover]
#[verifier::rlimit(50)]
pub proof fn headers_are_read(
    f: Seq<u8>,
    samples: Seq<Sample>,
    descs: Seq<DescModel>,
    chunks: Seq<Chunk>,
)
    requires
        has_movie(f, samples, descs, chunks),
    ensures
        ({
            let mv = begin_of(within(f, movie_part(f), 0x6D76_6864));
            let tk = begin_of(within(f, track_part(f), 0x746B_6864));
            let md = begin_of(within(f, media_part(f), 0x6D64_6864));
            let hd = begin_of(within(f, media_part(f), 0x6864_6C72));
            let d = ticks(samples, samples.len() as int) % 0x1_0000_0000;
            &&& word(f, mv + 12) == 90_000 && word(f, mv + 16) == d
            &&& ticks_in_a_second(f) == 90_000 && word(f, md + 16) == d
            &&& word(f, tk + 12) == 1 && word(f, tk + 20) == d
            &&& word(f, tk + 76) == 0x1_0000 * descs[0].width
            &&& word(f, tk + 80) == 0x1_0000 * descs[0].height
            &&& word(f, hd + 8) == 0x7669_6465
        }),
{
    movie_is_read(f, samples, descs, chunks, 0);
    let d = low32(ticks(samples, samples.len() as int));
    let (w, h) = (descs[0].width, descs[0].height);
    mvhd_is_read(f, begin_of(within(f, movie_part(f), 0x6D76_6864)), d);
    tkhd_is_read(f, begin_of(within(f, track_part(f), 0x746B_6864)), d, w, h);
    mdhd_is_read(f, begin_of(within(f, media_part(f), 0x6D64_6864)), d);
    hdlr_is_read(f, begin_of(within(f, media_part(f), 0x6864_6C72)));
    ticks_are_positive(samples, samples.len() as int);
}

proof fn ticks_are_positive(samples: Seq<Sample>, n: int)
    ensures
        ticks(samples, n) >= 0,
    decreases n,
{
    if n > 0 {
        ticks_are_positive(samples, n - 1);
    }
}

proof fn mvhd_is_read(f: Seq<u8>, a: int, d: u32)
    requires
        lies(f, a, mvhd_words(d)),
    ensures
        word(f, a + 12) == 90_000,
        word(f, a + 16) == d,
{
    reveal(mvhd_words);
    let ws = seq![0u32, 0, 0, 90_000, d, 0x1_0000, 0x100_0000, 0, 0] + matrix() + seq![
        0u32,
        0,
        0,
        0,
        0,
        0,
        2,
    ];
    words_are_read(f, a, ws, 3);
    words_are_read(f, a, ws, 4);
}

proof fn tkhd_is_read(f: Seq<u8>, a: int, d: u32, w: u16, h: u16)
    requires
        lies(f, a, tkhd_words(d, w, h)),
    ensures
        word(f, a + 12) == 1,
        word(f, a + 20) == d,
        word(f, a + 76) == 0x1_0000 * w,
        word(f, a + 80) == 0x1_0000 * h,
{
    reveal(tkhd_words);
    let ws = seq![7u32, 0, 0, 1, 0, d, 0, 0, 0, 0] + matrix() + seq![
        (w * 0x1_0000) as u32,
        (h * 0x1_0000) as u32,
    ];
    words_are_read(f, a, ws, 3);
    words_are_read(f, a, ws, 5);
    words_are_read(f, a, ws, 19);
    words_are_read(f, a, ws, 20);
}

proof fn mdhd_is_read(f: Seq<u8>, a: int, d: u32)
    requires
        lies(f, a, mdhd_words(d)),
    ensures
        word(f, a + 12) == 90_000,
        word(f, a + 16) == d,
{
    reveal(mdhd_words);
    let ws = seq![0u32, 0, 0, 90_000, d, 0x55C4_0000];
    words_are_read(f, a, ws, 3);
    words_are_read(f, a, ws, 4);
}

proof fn hdlr_is_read(f: Seq<u8>, a: int)
    requires
        lies(f, a, hdlr_words()),
    ensures
        word(f, a + 8) == 0x7669_6465,
{
    reveal(hdlr_words);
    let ws = seq![0u32, 0, 0x7669_6465, 0, 0, 0, 0x506F_636B, 0x6574_4361];
    lies_front(f, a, words(ws), be16(0x6D00));
    words_are_read(f, a, ws, 2);
}

/// Where description `j` begins, each behind the one before: "stsd".
pub open spec fn description_at(f: Seq<u8>, j: int) -> int
    decreases j,
{
    if j <= 0 {
        begin_of(table(f, 0x7374_7364)) + 8
    } else {
        description_at(f, j - 1) + word(f, description_at(f, j - 1))
    }
}

/// How many descriptions there are.
pub open spec fn description_count(f: Seq<u8>) -> int {
    word(f, begin_of(table(f, 0x7374_7364)) + 4)
}

/// The decoder configuration of the description at `e`: "avcC", behind what every
/// picture's description holds.
pub open spec fn configuration(f: Seq<u8>, e: int) -> int {
    begin_of(find(f, e + 86, e + word(f, e), 0x6176_6343))
}

/// The sequence parameter set in a decoder configuration.
pub open spec fn configured_sps(f: Seq<u8>, c: int) -> Seq<u8> {
    f.subrange(c + 8, c + 8 + half_word(f, c + 6))
}

/// The picture parameter set in a decoder configuration.
pub open spec fn configured_pps(f: Seq<u8>, c: int) -> Seq<u8> {
    let p = c + 8 + half_word(f, c + 6);
    f.subrange(p + 3, p + 3 + half_word(f, p + 1))
}

/// Every description is read as it is: H.264 of its size, with a decoder configuration
/// that says lengths take four bytes, and gives the profile and both parameter sets
/// back.
#[verifier::spinoff_prover]
#[verifier::rlimit(50)]
pub proof fn descriptions_are_read(
    f: Seq<u8>,
    samples: Seq<Sample>,
    descs: Seq<DescModel>,
    chunks: Seq<Chunk>,
    j: int,
    sps: Seq<u8>,
    pps: Seq<u8>,
)
    requires
        has_movie(f, samples, descs, chunks),
        descs.len() <= u32::MAX,
        0 <= j < descs.len(),
        descs[j].avcc == config(sps, pps),
        4 <= sps.len() <= 65535,
        1 <= pps.len() <= 65535,
    ensures
        ({
            let e = description_at(f, j);
            let c = configuration(f, e);
            &&& description_count(f) == descs.len()
            &&& word(f, e + 4) == 0x6176_6331
            &&& half_word(f, e + 32) == descs[j].width
            &&& half_word(f, e + 34) == descs[j].height
            &&& f[c] == 1 && f[c + 1] == sps[1] && f[c + 2] == sps[2] && f[c + 3] == sps[3]
            &&& f[c + 4] % 4 == 3 && f[c + 5] % 32 == 1
            &&& f[c + 8 + sps.len() as int] == 1
            &&& configured_sps(f, c) == sps
            &&& configured_pps(f, c) == pps
        }),
{
    let n = descs.len() as int;
    stsd_is_read(f, samples, descs, chunks);
    row_is_short(f, samples, descs, chunks);
    entry_is_reached(f, descs, n, j, begin_of(table(f, 0x7374_7364)) + 8);
    let e = description_at(f, j);
    entry_is_read(f, e, descs[j], sps, pps);
}

#[verifier::spinoff_prover]
#[verifier::rlimit(50)]
proof fn stsd_is_read(
    f: Seq<u8>,
    samples: Seq<Sample>,
    descs: Seq<DescModel>,
    chunks: Seq<Chunk>,
)
    requires
        has_movie(f, samples, descs, chunks),
        descs.len() <= u32::MAX,
    ensures
        description_count(f) == descs.len(),
        lies(
            f,
            begin_of(table(f, 0x7374_7364)) + 8,
            avc1_boxes(descs, descs.len() as int),
        ),
{
    movie_is_read(f, samples, descs, chunks, 0);
    first_table(samples, descs, chunks);
    stsd_body_is_read(f, begin_of(table(f, 0x7374_7364)), descs);
}

#[verifier::spinoff_prover]
#[verifier::rlimit(50)]
proof fn stsd_body_is_read(f: Seq<u8>, a: int, descs: Seq<DescModel>)
    requires
        lies(f, a, stsd_body(descs)),
        descs.len() <= u32::MAX,
    ensures
        word(f, a + 4) == descs.len(),
        lies(f, a + 8, avc1_boxes(descs, descs.len() as int)),
{
    reveal(stsd_body);
    let n = descs.len() as int;
    let front = seq![0u32, low32(n)];
    words_len(front);
    lies_front(f, a, words(front), avc1_boxes(descs, n));
    words_are_read(f, a, front, 1);
}

proof fn first_table(samples: Seq<Sample>, descs: Seq<DescModel>, chunks: Seq<Chunk>)
    ensures
        stbl_row(samples, descs, chunks)[0] == (0x7374_7364u32, stsd_body(descs)),
{
    reveal(stbl_row);
}

/// The descriptions take less room than a box can have.
#[verifier::spinoff_prover]
#[verifier::rlimit(50)]
proof fn row_is_short(
    f: Seq<u8>,
    samples: Seq<Sample>,
    descs: Seq<DescModel>,
    chunks: Seq<Chunk>,
)
    requires
        has_movie(f, samples, descs, chunks),
    ensures
        avc1_boxes(descs, descs.len() as int).len() <= u32::MAX,
{
    let d = low32(ticks(samples, samples.len() as int));
    let bs = stbl_row(samples, descs, chunks);
    let row = in_a_row(bs, 6);
    let tk = tkhd_words(d, descs[0].width, descs[0].height);
    movie_is_nested(samples, descs, chunks, d);
    body_is_held(
        f,
        nest(mvhd_words(d), tk, mdhd_words(d), hdlr_words(), vmhd_words(), dref_body(), row),
    );
    nest_is_read(f, mvhd_words(d), tk, mdhd_words(d), hdlr_words(), vmhd_words(), dref_body(), row);
    tables_are_six(samples, descs, chunks);
    first_is_shorter(bs, 6);
    first_table(samples, descs, chunks);
    reveal(stsd_body);
}

proof fn first_is_shorter(bs: Seq<(u32, Seq<u8>)>, n: int)
    requires
        0 < n <= bs.len(),
    ensures
        bs[0].1.len() <= in_a_row(bs, n).len(),
    decreases n,
{
    if n > 1 {
        first_is_shorter(bs, n - 1);
    }
}

spec fn avc1_body(d: DescModel) -> Seq<u8> {
    words(
        seq![
            0u32,
            1,
            0,
            0,
            0,
            0,
            (d.width * 0x1_0000 + d.height) as u32,
            0x48_0000,
            0x48_0000,
            0,
        ],
    ) + be16(1) + words(seq![0u32, 0, 0, 0, 0, 0, 0, 0, 0x18_FFFF]) + d.avcc
}

#[verifier::spinoff_prover]
#[verifier::rlimit(50)]
proof fn entry_is_reached(f: Seq<u8>, descs: Seq<DescModel>, n: int, j: int, at: int)
    requires
        0 <= j < n <= descs.len(),
        lies(f, at, avc1_boxes(descs, n)),
        avc1_boxes(descs, n).len() <= u32::MAX,
        at == begin_of(table(f, 0x7374_7364)) + 8,
    ensures
        description_at(f, j) == at + avc1_boxes(descs, j).len(),
        lies(f, description_at(f, j), avc1_box(descs[j])),
        avc1_box(descs[j]).len() <= u32::MAX,
        word(f, description_at(f, j)) == avc1_box(descs[j]).len(),
    decreases n, j,
{
    lies_front(f, at, avc1_boxes(descs, n - 1), avc1_box(descs[n - 1]));
    assert(avc1_box(descs[j]) == boxed(0x6176_6331, avc1_body(descs[j])));
    if j < n - 1 {
        entry_is_reached(f, descs, n - 1, j, at);
    } else {
        if j > 0 {
            entry_is_reached(f, descs, n - 1, j - 1, at);
        }
        length_is_read(f, description_at(f, j), 0x6176_6331, avc1_body(descs[j]));
    }
}

proof fn length_is_read(f: Seq<u8>, at: int, kind: u32, body: Seq<u8>)
    requires
        lies(f, at, boxed(kind, body)),
        8 + body.len() <= u32::MAX,
    ensures
        word(f, at) == boxed(kind, body).len(),
{
    let n = low32(8 + body.len() as int);
    assert(boxed(kind, body) =~= be32(n) + (be32(kind) + body));
    lies_front(f, at, be32(n), be32(kind) + body);
    lies_word(f, at, n);
}

#[verifier::spinoff_prover]
#[verifier::rlimit(50)]
proof fn entry_is_read(f: Seq<u8>, e: int, d: DescModel, sps: Seq<u8>, pps: Seq<u8>)
    requires
        lies(f, e, avc1_box(d)),
        avc1_box(d).len() <= u32::MAX,
        word(f, e) == avc1_box(d).len(),
        d.avcc == config(sps, pps),
        4 <= sps.len() <= 65535,
        1 <= pps.len() <= 65535,
    ensures
        ({
            let c = configuration(f, e);
            &&& word(f, e + 4) == 0x6176_6331
            &&& half_word(f, e + 32) == d.width
            &&& half_word(f, e + 34) == d.height
            &&& f[c] == 1 && f[c + 1] == sps[1] && f[c + 2] == sps[2] && f[c + 3] == sps[3]
            &&& f[c + 4] % 4 == 3 && f[c + 5] % 32 == 1
            &&& f[c + 8 + sps.len() as int] == 1
            &&& configured_sps(f, c) == sps
            &&& configured_pps(f, c) == pps
        }),
{
    let body = avc1_body(d);
    assert(avc1_box(d) == boxed(0x6176_6331, body));
    box_is_read(f, e, e + 8 + body.len(), 0x6176_6331, body);
    assert(boxed(0x6176_6331, body) =~= be32(low32(8 + body.len() as int)) + (be32(0x6176_6331)
        + body));
    lies_front(f, e, be32(low32(8 + body.len() as int)), be32(0x6176_6331) + body);
    lies_front(f, e + 4, be32(0x6176_6331), body);
    lies_word(f, e + 4, 0x6176_6331);
    let size = (d.width * 0x1_0000 + d.height) as u32;
    let one = seq![0u32, 1, 0, 0, 0, 0, size, 0x48_0000, 0x48_0000, 0];
    let two = seq![0u32, 0, 0, 0, 0, 0, 0, 0, 0x18_FFFF];
    words_len(one);
    words_len(two);
    lies_front(f, e + 8, words(one) + be16(1) + words(two), d.avcc);
    lies_front(f, e + 8, words(one) + be16(1), words(two));
    lies_front(f, e + 8, words(one), be16(1));
    words_are_read(f, e + 8, one, 6);
    assert(half_word(f, e + 32) == d.width && half_word(f, e + 34) == d.height);
    config_is_read(f, e + 86, sps, pps);
}

#[verifier::spinoff_prover]
#[verifier::rlimit(50)]
proof fn config_is_read(f: Seq<u8>, at: int, sps: Seq<u8>, pps: Seq<u8>)
    requires
        lies(f, at, config(sps, pps)),
        4 <= sps.len() <= 65535,
        1 <= pps.len() <= 65535,
    ensures
        ({
            let c = begin_of(find(f, at, at + config(sps, pps).len(), 0x6176_6343));
            &&& c == at + 8
            &&& f[c] == 1 && f[c + 1] == sps[1] && f[c + 2] == sps[2] && f[c + 3] == sps[3]
            &&& f[c + 4] % 4 == 3 && f[c + 5] % 32 == 1
            &&& f[c + 8 + sps.len() as int] == 1
            &&& configured_sps(f, c) == sps
            &&& configured_pps(f, c) == pps
        }),
{
    let (n, m) = (sps.len() as int, pps.len() as int);
    let head = seq![1u8, sps[1], sps[2], sps[3], 0xFFu8, 0xE1u8];
    let body = head + be16(low16(n)) + sps + seq![1u8] + be16(low16(m)) + pps;
    assert(config(sps, pps) == boxed(0x6176_6343, body));
    box_is_read(f, at, at + 8 + body.len(), 0x6176_6343, body);
    let c = at + 8;
    let s1 = head + be16(low16(n)) + sps + seq![1u8] + be16(low16(m));
    let s2 = head + be16(low16(n)) + sps + seq![1u8];
    let s3 = head + be16(low16(n)) + sps;
    let s4 = head + be16(low16(n));
    lies_front(f, c, s1, pps);
    lies_front(f, c, s2, be16(low16(m)));
    lies_front(f, c, s3, seq![1u8]);
    lies_front(f, c, s4, sps);
    lies_front(f, c, head, be16(low16(n)));
    lies_bytes(f, c, head);
    assert(head[0] == f[c + 0] && head[1] == f[c + 1] && head[2] == f[c + 2]);
    assert(head[3] == f[c + 3] && head[4] == f[c + 4] && head[5] == f[c + 5]);
    lies_half(f, c + 6, low16(n));
    let count = seq![1u8];
    lies_bytes(f, c + 8 + n, count);
    assert(count[0] == f[c + 8 + n + 0]);
    lies_half(f, c + 9 + n, low16(m));
    assert(low16(n) == n && low16(m) == m);
}

proof fn lies_bytes(f: Seq<u8>, at: int, b: Seq<u8>)
    requires
        lies(f, at, b),
    ensures
        forall|i: int| 0 <= i < b.len() ==> #[trigger] b[i] == f[at + i],
{
    assert forall|i: int| 0 <= i < b.len() implies #[trigger] b[i] == f[at + i] by {
        assert(f.subrange(at, at + b.len())[i] == f[at + i]);
    }
}

proof fn lies_half(f: Seq<u8>, at: int, n: u16)
    requires
        lies(f, at, be16(n)),
    ensures
        half_word(f, at) == n,
{
    let b = be16(n);
    lies_bytes(f, at, b);
    assert(b[0] == f[at] && b[1] == f[at + 1]);
}

/// Some chunk holds each sample.
proof fn some_chunk_holds(chunks: Seq<Chunk>, n: int, i: int) -> (k: int)
    requires
        0 <= n <= chunks.len(),
        0 <= i < count_of(chunks, n),
    ensures
        0 <= k < n,
        count_of(chunks, k) <= i < count_of(chunks, k + 1),
    decreases n,
{
    if i >= count_of(chunks, n - 1) {
        n - 1
    } else {
        some_chunk_holds(chunks, n - 1, i)
    }
}

/// A file that was closed has its movie in it.
#[verifier::spinoff_prover]
#[verifier::rlimit(50)]
proof fn closed_file_has_movie(m: MuxModel, file: Seq<u8>, bs: Seq<Seq<u8>>)
    requires
        m.wf(),
        holds_samples(file, m, bs),
        bs.len() > 0,
        0 < m.descs.len(),
        movie(m.samples, m.descs, m.chunks).len() <= u32::MAX,
    ensures
        has_movie(
            performed_all(file, closing(m).0, closing(m).0.len() as int),
            m.samples,
            m.descs,
            m.chunks,
        ),
{
    let f = performed_all(file, closing(m).0, closing(m).0.len() as int);
    closed_file_ends(m, file, bs);
    file_has_movie(f, m.payload, m.samples, m.descs, m.chunks);
}

#[verifier::spinoff_prover]
#[verifier::rlimit(50)]
proof fn closed_file_ends(m: MuxModel, file: Seq<u8>, bs: Seq<Seq<u8>>)
    requires
        m.wf(),
        holds_samples(file, m, bs),
        bs.len() > 0,
        0 < m.descs.len(),
    ensures
        ({
            let f = performed_all(file, closing(m).0, closing(m).0.len() as int);
            &&& 0 <= m.payload && 8 + m.payload <= u32::MAX
            &&& 40 + m.payload <= f.len()
            &&& f.take(32) == ftyp_box()
            &&& f.subrange(32, 36) == be32((8 + m.payload) as u32)
            &&& f.subrange(36, 40) == be32(0x6D64_6174)
            &&& f.skip(40 + m.payload) == movie(m.samples, m.descs, m.chunks)
        }),
{
    bytes_are_positive(m.samples, m.samples.len() as int);
    let k = some_chunk_holds(m.chunks, m.chunks.len() as int, 0);
    finished_file_plays(m, file, bs, k, 0);
}

/// A file has the movie that stands behind its samples.
#[verifier::spinoff_prover]
#[verifier::rlimit(50)]
proof fn file_has_movie(
    f: Seq<u8>,
    p: int,
    samples: Seq<Sample>,
    descs: Seq<DescModel>,
    chunks: Seq<Chunk>,
)
    requires
        0 <= p,
        8 + p <= u32::MAX,
        40 + p <= f.len(),
        f.take(32) == ftyp_box(),
        f.subrange(32, 36) == be32((8 + p) as u32),
        f.subrange(36, 40) == be32(0x6D64_6174),
        f.skip(40 + p) == movie(samples, descs, chunks),
        movie(samples, descs, chunks).len() <= u32::MAX,
    ensures
        has_movie(f, samples, descs, chunks),
{
    boxes_before_the_movie(f, p);
    assert(f.subrange(40 + p, f.len() as int) =~= f.skip(40 + p));
    tables_at_the_end(f, 40 + p, samples, descs, chunks);
}

/// The movie is looked for behind the opening box and the samples.
#[verifier::spinoff_prover]
#[verifier::rlimit(50)]
proof fn boxes_before_the_movie(f: Seq<u8>, p: int)
    requires
        0 <= p,
        8 + p <= u32::MAX,
        40 + p <= f.len(),
        f.take(32) == ftyp_box(),
        f.subrange(32, 36) == be32((8 + p) as u32),
        f.subrange(36, 40) == be32(0x6D64_6174),
    ensures
        movie_part(f) == find(f, 40 + p, f.len() as int, 0x6D6F_6F76),
{
    let end = f.len() as int;
    let ws = seq![0x6973_6F6Du32, 0x200, 0x6973_6F6D, 0x6973_6F32, 0x6176_6331, 0x6D70_3431];
    let data = f.subrange(40, 40 + p);
    words_len(ws);
    assert(ftyp_box() == boxed(0x6674_7970, words(ws)));
    assert(f.subrange(0, 32) =~= f.take(32));
    box_is_read(f, 0, end, 0x6674_7970, words(ws));
    let mdat = boxed(0x6D64_6174, data);
    assert(f.subrange(32, 40 + p) =~= f.subrange(32, 36) + f.subrange(36, 40) + data);
    assert(f.subrange(32, 40 + p) == mdat);
    box_is_read(f, 32, end, 0x6D64_6174, data);
}

proof fn bytes_are_positive(samples: Seq<Sample>, n: int)
    ensures
        bytes_of(samples, n) >= 0,
    decreases n,
{
    if n > 0 {
        bytes_are_positive(samples, n - 1);
    }
}

#[verifier::spinoff_prover]
#[verifier::rlimit(50)]
proof fn tables_at_the_end(
    f: Seq<u8>,
    at: int,
    samples: Seq<Sample>,
    descs: Seq<DescModel>,
    chunks: Seq<Chunk>,
)
    requires
        movie_part(f) == find(f, at, f.len() as int, 0x6D6F_6F76),
        lies(f, at, movie(samples, descs, chunks)),
        at + movie(samples, descs, chunks).len() == f.len(),
        movie(samples, descs, chunks).len() <= u32::MAX,
    ensures
        has_movie(f, samples, descs, chunks),
{
    let d = low32(ticks(samples, samples.len() as int));
    movie_is_nested(samples, descs, chunks, d);
    let body = nest(
        mvhd_words(d),
        tkhd_words(d, descs[0].width, descs[0].height),
        mdhd_words(d),
        hdlr_words(),
        vmhd_words(),
        dref_body(),
        in_a_row(stbl_row(samples, descs, chunks), 6),
    );
    boxed_len(0x6D6F_6F76, body);
    box_is_read(f, at, f.len() as int, 0x6D6F_6F76, body);
}

/// A recording that was finished plays: a player that reads nothing but the file finds
/// as many samples as were written, each of them byte for byte, shown for its time, with
/// a description that there is, and may begin with the keyframes among them.
#[verifier::spinoff_prover]
#[verifier::rlimit(50)]
pub proof fn recordings_play(m: MuxModel, file: Seq<u8>, bs: Seq<Seq<u8>>, i: int)
    requires
        m.wf(),
        holds_samples(file, m, bs),
        0 <= i < bs.len(),
        0 < m.descs.len() <= u32::MAX,
        m.chunks.len() <= u32::MAX,
        movie(m.samples, m.descs, m.chunks).len() <= u32::MAX,
        forall|k: int| 0 <= k < m.chunks.len() ==> (#[trigger] m.chunks[k]).off <= u32::MAX,
    ensures
        ({
            let f = performed_all(file, closing(m).0, closing(m).0.len() as int);
            &&& sample_count(f) == bs.len()
            &&& sample_bytes(f, i) == bs[i]
            &&& sample_ticks_of(f).len() == bs.len()
            &&& sample_ticks_of(f)[i] == m.samples[i].dur
            &&& is_sync(f, i) <==> m.samples[i].sync
            &&& 1 <= sample_description(f, i) <= m.descs.len()
            &&& ticks_in_a_second(f) == 90_000
        }),
{
    let f = performed_all(file, closing(m).0, closing(m).0.len() as int);
    closed_file_has_movie(m, file, bs);
    let k = some_chunk_holds(m.chunks, m.chunks.len() as int, i);
    assert(m.chunks[k].off <= u32::MAX);
    counts_grow(m.chunks, 0, k);
    assert forall|j: int| 0 <= j < m.chunks.len() implies (#[trigger] m.chunks[j]).count >= 1 by {}
    samples_are_found(f, m.samples, m.descs, m.chunks, k, i);
    sizes_are_read(f, m.samples, m.descs, m.chunks, i);
    durations_are_read(f, m.samples, m.descs, m.chunks);
    keyframes_are_read(f, m.samples, m.descs, m.chunks, i);
    headers_are_read(f, m.samples, m.descs, m.chunks);
    finished_file_plays(m, file, bs, k, i);
    assert(bs[i].len() == m.samples[i].size);
}

/// True of a unit without a start code inside, long or short.
pub open spec fn free_of_codes(u: Seq<u8>) -> bool {
    forall|k: int|
        0 <= k && k + 2 < u.len() ==> !(#[trigger] u[k] == 0 && u[k + 1] == 0 && u[k + 2] == 1)
}

/// Each unit of a stream stands behind the units before it and a start code.
proof fn unit_in_stream(us: Seq<Seq<u8>>, n: int, i: int)
    requires
        0 <= i < n <= us.len(),
    ensures
        ({
            let s = stream(us, n);
            let at = stream(us, i).len() as int;
            &&& stream(us, i + 1).len() == at + 4 + us[i].len()
            &&& at + 4 + us[i].len() <= s.len()
            &&& s[at] == 0 && s[at + 1] == 0 && s[at + 2] == 0 && s[at + 3] == 1
            &&& s.subrange(at + 4, at + 4 + us[i].len()) == us[i]
        }),
    decreases n,
{
    let s = stream(us, n);
    let at = stream(us, i).len() as int;
    if i < n - 1 {
        unit_in_stream(us, n - 1, i);
        let before = stream(us, n - 1);
        assert(s.subrange(at + 4, at + 4 + us[i].len()) =~= before.subrange(
            at + 4,
            at + 4 + us[i].len(),
        ));
    } else {
        assert(s.subrange(at + 4, at + 4 + us[i].len()) =~= us[i]);
    }
}

/// A unit ends where the next one begins.
#[verifier::spinoff_prover]
#[verifier::rlimit(50)]
proof fn unit_ends(us: Seq<Seq<u8>>, i: int, j: int)
    requires
        0 <= i < us.len(),
        forall|k: int| 0 <= k < us.len() ==> free_of_codes(#[trigger] us[k]) && us[k].len() > 0,
        stream(us, i).len() + 4 <= j <= stream(us, i + 1).len(),
    ensures
        unit_end(stream(us, us.len() as int), j) == stream(us, i + 1).len(),
    decreases stream(us, i + 1).len() - j,
{
    let n = us.len() as int;
    let s = stream(us, n);
    let at = stream(us, i).len() as int;
    let to = stream(us, i + 1).len() as int;
    let u = us[i];
    unit_in_stream(us, n, i);
    assert(free_of_codes(u));
    if i + 1 < n {
        unit_in_stream(us, n, i + 1);
    }
    if j < to {
        if j + 3 < s.len() {
            assert(start_code(s, j) == 0) by {
                let x = j - at - 4;
                assert forall|y: int| x <= y < u.len() implies s[at + 4 + y] == u[y] by {
                    assert(s.subrange(at + 4, to)[y] == u[y]);
                }
                if j + 2 < to {
                    assert(!(u[x] == 0 && u[x + 1] == 0 && u[x + 2] == 1));
                }
                if j + 3 < to {
                    assert(!(u[x + 1] == 0 && u[x + 2] == 0 && u[x + 3] == 1));
                }
            }
            unit_ends(us, i, j + 1);
        } else if i + 1 == n {
            assert(to == s.len());
        }
    } else if i + 1 < n {
        assert(start_code(s, j) == 4);
        assert(us[i + 1].len() > 0);
    }
}

/// A stream gives the units back that it was made from.
pub proof fn streams_come_apart(us: Seq<Seq<u8>>)
    requires
        forall|k: int| 0 <= k < us.len() ==> free_of_codes(#[trigger] us[k]) && us[k].len() > 0,
    ensures
        units(stream(us, us.len() as int), 0) == us,
{
    stream_from(us, 0);
    assert(us.skip(0) =~= us);
}

proof fn stream_from(us: Seq<Seq<u8>>, i: int)
    requires
        0 <= i <= us.len(),
        forall|k: int| 0 <= k < us.len() ==> free_of_codes(#[trigger] us[k]) && us[k].len() > 0,
    ensures
        units(stream(us, us.len() as int), stream(us, i).len() as int) == us.skip(i),
    decreases us.len() - i,
{
    let n = us.len() as int;
    let s = stream(us, n);
    let at = stream(us, i).len() as int;
    if i < n {
        unit_in_stream(us, n, i);
        assert(us[i].len() > 0);
        assert(unit_end(s, at) == at);
        unit_ends(us, i, at + 4);
        stream_from(us, i + 1);
        assert(us.skip(i) =~= seq![us[i]] + us.skip(i + 1));
    } else {
        assert(units(s, at) =~= us.skip(i));
    }
}

/// True of a unit that a sample is made of: neither a parameter set, nor a delimiter,
/// nor filler.
pub open spec fn of_a_sample(u: Seq<u8>) -> bool {
    u[0] % 32 != 7 && u[0] % 32 != 8 && u[0] % 32 != 9 && u[0] % 32 != 12
}

/// A sample holds the units of its access unit that a sample is made of, in order: a
/// player that reads lengths and bytes gets them back.
pub proof fn samples_hold_their_units(us: Seq<Seq<u8>>)
    requires
        forall|k: int| 0 <= k < us.len() ==> free_of_codes(#[trigger] us[k]) && us[k].len() > 0,
        avcc_of(stream(us, us.len() as int)).len() <= u32::MAX,
    ensures
        sample_units(avcc_of(stream(us, us.len() as int)), 0) == us.filter(
            |u: Seq<u8>| of_a_sample(u),
        ),
{
    let s = stream(us, us.len() as int);
    streams_come_apart(us);
    sample_gives_back_units(s);
    kept_is_filtered(us, us.len() as int);
    assert(us.take(us.len() as int) =~= us);
}

proof fn kept_is_filtered(us: Seq<Seq<u8>>, n: int)
    requires
        0 <= n <= us.len(),
    ensures
        kept(us, n) == us.take(n).filter(|u: Seq<u8>| of_a_sample(u)),
    decreases n,
{
    reveal(Seq::filter);
    if n > 0 {
        kept_is_filtered(us, n - 1);
        assert(us.take(n).drop_last() =~= us.take(n - 1));
        let b = us[n - 1][0];
        assert(b & 0x1F == b % 32) by (bit_vector);
    }
}

/// The parameter sets of an access unit are the last of their types in it.
pub proof fn last_params_count(us: Seq<Seq<u8>>)
    requires
        forall|k: int| 0 <= k < us.len() ==> free_of_codes(#[trigger] us[k]) && us[k].len() > 0,
    ensures
        match params_of(stream(us, us.len() as int)) {
            Some((sps, pps)) => is_last(us, 7, sps) && is_last(us, 8, pps),
            None => (forall|k: int| 0 <= k < us.len() ==> (#[trigger] us[k])[0] % 32 != 7) || (
            forall|k: int| 0 <= k < us.len() ==> (#[trigger] us[k])[0] % 32 != 8),
        },
{
    streams_come_apart(us);
    last_is_found(us, us.len() as int, 7);
    last_is_found(us, us.len() as int, 8);
}

/// True where `u` is the last unit of a type.
pub open spec fn is_last(us: Seq<Seq<u8>>, t: u8, u: Seq<u8>) -> bool {
    exists|i: int|
        0 <= i < us.len() && #[trigger] us[i] == u && u[0] % 32 == t && forall|k: int|
            i < k < us.len() ==> (#[trigger] us[k])[0] % 32 != t
}

proof fn last_is_found(us: Seq<Seq<u8>>, n: int, t: u8)
    requires
        0 <= n <= us.len(),
        forall|k: int| n <= k < us.len() ==> (#[trigger] us[k])[0] % 32 != t,
    ensures
        match last_unit(us, n, t) {
            Some(u) => is_last(us, t, u),
            None => forall|k: int| 0 <= k < us.len() ==> (#[trigger] us[k])[0] % 32 != t,
        },
    decreases n,
{
    if n > 0 {
        let b = us[n - 1][0];
        assert(b & 0x1F == b % 32) by (bit_vector);
        if b % 32 == t {
            assert(us[n - 1] == us[n - 1]);
        } else {
            last_is_found(us, n - 1, t);
        }
    }
}

/// The size that a stream declares is that of its first sequence parameter set.
pub proof fn first_sps_is_read(us: Seq<Seq<u8>>, j: int)
    requires
        forall|k: int| 0 <= k < us.len() ==> free_of_codes(#[trigger] us[k]) && us[k].len() > 0,
        0 <= j <= us.len(),
        forall|k: int| 0 <= k < j ==> (#[trigger] us[k])[0] % 32 != 7,
        j < us.len() ==> us[j][0] % 32 == 7,
    ensures
        stream_rectangle(stream(us, us.len() as int)) == if j < us.len() {
            sps_rectangle(us[j].skip(1))
        } else {
            None
        },
{
    sps_is_looked_for(us, 0, j);
    let n = us.len() as int;
    if j < n {
        unit_in_stream(us, n, j);
        let s = stream(us, n);
        let at = stream(us, j).len() as int;
        assert(us[j].len() > 0);
        assert(s.subrange(at + 5, at + 4 + us[j].len()) =~= us[j].skip(1)) by {
            assert forall|x: int| 1 <= x < us[j].len() implies #[trigger] s[at + 4 + x]
                == us[j][x] by {
                assert(s.subrange(at + 4, at + 4 + us[j].len())[x] == us[j][x]);
            }
        }
    }
}

proof fn sps_is_looked_for(us: Seq<Seq<u8>>, i: int, j: int)
    requires
        forall|k: int| 0 <= k < us.len() ==> free_of_codes(#[trigger] us[k]) && us[k].len() > 0,
        0 <= i <= j <= us.len(),
        forall|k: int| 0 <= k < j ==> (#[trigger] us[k])[0] % 32 != 7,
        j < us.len() ==> us[j][0] % 32 == 7,
    ensures
        first_sps(stream(us, us.len() as int), stream(us, i).len() as int) == if j < us.len() {
            Some((stream(us, j).len() as int + 5, stream(us, j + 1).len() as int))
        } else {
            None
        },
    decreases j - i,
{
    let n = us.len() as int;
    let s = stream(us, n);
    let at = stream(us, i).len() as int;
    if i < n {
        unit_in_stream(us, n, i);
        assert(us[i].len() > 0);
        assert(s[at + 4] == us[i][0]) by {
            assert(s.subrange(at + 4, at + 4 + us[i].len())[0] == us[i][0]);
        }
        unit_ends(us, i, at + 5);
        let b = us[i][0];
        assert(b & 0x1F == b % 32) by (bit_vector);
        if i < j {
            sps_is_looked_for(us, i + 1, j);
        }
    }
}

/// The number `i` of the transformation that changes nothing: ones on the diagonal, the
/// last of them with more places behind the point.
pub open spec fn identity_at(i: int) -> int {
    if i == 0 || i == 4 {
        0x1_0000
    } else if i == 8 {
        0x4000_0000
    } else {
        0
    }
}

/// The track is switched on, is neither turned nor scaled, and plays at its own speed; all
/// of its data is in the file itself.
#[verifier::spinoff_prover]
#[verifier::rlimit(50)]
pub proof fn tracks_are_shown_as_they_are(
    f: Seq<u8>,
    samples: Seq<Sample>,
    descs: Seq<DescModel>,
    chunks: Seq<Chunk>,
    i: int,
)
    requires
        has_movie(f, samples, descs, chunks),
        0 <= i < 9,
    ensures
        ({
            let mv = begin_of(within(f, movie_part(f), 0x6D76_6864));
            let tk = begin_of(within(f, track_part(f), 0x746B_6864));
            let minf = within(f, media_part(f), 0x6D69_6E66);
            let dref = within(f, within(f, minf, 0x6469_6E66), 0x6472_6566);
            &&& word(f, mv + 20) == 0x1_0000
            &&& word(f, mv + 36 + 4 * i) == identity_at(i)
            &&& word(f, mv + 96) == 2
            &&& word(f, tk) == 7
            &&& word(f, tk + 40 + 4 * i) == identity_at(i)
            &&& word(f, begin_of(dref) + 4) == 1
            &&& word(f, begin_of(dref) + 12) == 0x7572_6C20
            &&& word(f, begin_of(dref) + 16) == 1
        }),
{
    movie_is_read(f, samples, descs, chunks, 0);
    let d = low32(ticks(samples, samples.len() as int));
    mvhd_rest(f, begin_of(within(f, movie_part(f), 0x6D76_6864)), d, i);
    tkhd_rest(
        f,
        begin_of(within(f, track_part(f), 0x746B_6864)),
        d,
        descs[0].width,
        descs[0].height,
        i,
    );
    let minf = within(f, media_part(f), 0x6D69_6E66);
    dref_is_read(f, minf);
}

proof fn mvhd_rest(f: Seq<u8>, a: int, d: u32, i: int)
    requires
        lies(f, a, mvhd_words(d)),
        0 <= i < 9,
    ensures
        word(f, a + 20) == 0x1_0000,
        word(f, a + 36 + 4 * i) == identity_at(i),
        word(f, a + 96) == 2,
{
    reveal(mvhd_words);
    let ws = seq![0u32, 0, 0, 90_000, d, 0x1_0000, 0x100_0000, 0, 0] + matrix() + seq![
        0u32,
        0,
        0,
        0,
        0,
        0,
        2,
    ];
    words_are_read(f, a, ws, 5);
    words_are_read(f, a, ws, 9 + i);
    words_are_read(f, a, ws, 24);
    assert(ws[9 + i] == matrix()[i]);
}

proof fn tkhd_rest(f: Seq<u8>, a: int, d: u32, w: u16, h: u16, i: int)
    requires
        lies(f, a, tkhd_words(d, w, h)),
        0 <= i < 9,
    ensures
        word(f, a) == 7,
        word(f, a + 40 + 4 * i) == identity_at(i),
{
    reveal(tkhd_words);
    let ws = seq![7u32, 0, 0, 1, 0, d, 0, 0, 0, 0] + matrix() + seq![
        (w * 0x1_0000) as u32,
        (h * 0x1_0000) as u32,
    ];
    words_are_read(f, a, ws, 0);
    words_are_read(f, a, ws, 10 + i);
    assert(ws[10 + i] == matrix()[i]);
}

proof fn dref_is_read(f: Seq<u8>, r: Option<(int, int)>)
    requires
        holds(f, r, 0x6469_6E66, dref_body()),
    ensures
        ({
            let a = begin_of(within(f, within(f, r, 0x6469_6E66), 0x6472_6566));
            &&& word(f, a + 4) == 1
            &&& word(f, a + 12) == 0x7572_6C20
            &&& word(f, a + 16) == 1
        }),
{
    reveal(dref_body);
    let front = seq![0u32, 1];
    let one = seq![1u32];
    let inner = words(front) + boxed(0x7572_6C20, words(one));
    words_len(front);
    words_len(one);
    let (x, y) = within(f, r, 0x6469_6E66)->0;
    box_is_read(f, x, y, 0x6472_6566, inner);
    let a = x + 8;
    lies_front(f, a, words(front), boxed(0x7572_6C20, words(one)));
    words_are_read(f, a, front, 1);
    box_is_read(f, a + 8, f.len() as int, 0x7572_6C20, words(one));
    let n = low32(8 + words(one).len() as int);
    assert(boxed(0x7572_6C20, words(one)) =~= be32(n) + (be32(0x7572_6C20) + words(one)));
    lies_front(f, a + 8, be32(n), be32(0x7572_6C20) + words(one));
    lies_front(f, a + 12, be32(0x7572_6C20), words(one));
    lies_word(f, a + 12, 0x7572_6C20);
    words_are_read(f, a + 16, one, 0);
}

} // verus!
