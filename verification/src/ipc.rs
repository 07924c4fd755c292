//! File-backed three-slot NV12 ring, latest frame wins.
//!
//! One writer fills the slots in turn, readers map the same file. The layout is
//! a header, then for each slot a small record and the pixels. The word at
//! [`PUBLISHED_AT`] counts up by two with each frame, and the slot that a frame
//! goes to follows from it. While a slot is being filled its own sequence word is odd.

use crate::bytes::{
    get_le32, get_le64, le32, le32_at, le64, le64_at, long_roundtrip, overlay, put, put_le32, put_le64,
    word_roundtrip,
};
use vstd::prelude::*;

verus! {

pub const MAGIC: u32 = 0x4D41_4350;

pub const VERSION: u32 = 1;

pub const SLOTS: u32 = 3;

pub const HEADER_BYTES: u32 = 256;

pub const SLOT_META_BYTES: u32 = 64;

pub const DEFAULT_PATH: &'static str = "C:\\ProgramData\\PocketCam\\nv12.ring";

pub const DEFAULT_WIDTH: u32 = 1920;

pub const DEFAULT_HEIGHT: u32 = 1080;

pub const DEFAULT_FPS: u32 = 30;

/// Where the header keeps the number of the latest complete frame.
pub const PUBLISHED_AT: usize = 32;

/// The bytes at the front of the file that hold the layout.
pub const PEEK_BYTES: usize = 48;

/// The operating system's code for a file that another process still maps.
pub const USER_MAPPED: i32 = 1224;

/// Bytes of a `w` by `h` NV12 picture: full luma, and chroma at half of that.
pub open spec fn nv12_len(w: int, h: int) -> int {
    w * h + (w * h) / 2
}

/// Bytes set aside for the pixels of a slot: whole lines of 64.
pub open spec fn stride_len(w: int, h: int) -> int {
    (nv12_len(w, h) + 63) / 64 * 64
}

/// Bytes of a slot: its record and its pixels.
pub open spec fn slot_len(w: int, h: int) -> int {
    SLOT_META_BYTES + stride_len(w, h)
}

/// Bytes of the whole file.
pub open spec fn ring_len(w: int, h: int) -> int {
    HEADER_BYTES + SLOTS * slot_len(w, h)
}

/// Where slot `k` begins.
pub open spec fn slot_at(w: int, h: int, k: int) -> int {
    HEADER_BYTES + k * slot_len(w, h)
}

/// A size that a ring can have: even, and at least one chroma sample each way.
pub open spec fn even_size(w: int, h: int) -> bool {
    w >= 2 && h >= 2 && w % 2 == 0 && h % 2 == 0
}

/// Bytes of a `width` by `height` NV12 picture.
pub fn nv12_size(width: u32, height: u32) -> (r: u32)
    requires
        nv12_len(width as int, height as int) <= u32::MAX,
    ensures
        r == nv12_len(width as int, height as int),
{
    proof {
        area_bounds(width as int, height as int);
    }
    width * height + (width * height) / 2
}

/// Bytes that a slot sets aside for its pixels.
pub fn slot_stride(width: u32, height: u32) -> (r: u32)
    requires
        stride_len(width as int, height as int) <= u32::MAX,
    ensures
        r == stride_len(width as int, height as int),
        r % 64 == 0,
{
    proof {
        area_bounds(width as int, height as int);
    }
    let size: u32 = nv12_size(width, height);
    let lines: u32 = size / 64 + if size % 64 == 0 {
        0
    } else {
        1
    };
    lines * 64
}

/// Bytes of the whole ring file.
pub fn ring_bytes(width: u32, height: u32) -> (r: u32)
    requires
        ring_len(width as int, height as int) <= u32::MAX,
    ensures
        r == ring_len(width as int, height as int),
{
    HEADER_BYTES + SLOTS * (SLOT_META_BYTES + slot_stride(width, height))
}

/// An area is not negative, so neither are the lengths that follow from it.
proof fn area_bounds(w: int, h: int)
    requires
        w >= 0,
        h >= 0,
    ensures
        0 <= w * h <= nv12_len(w, h) <= stride_len(w, h) < nv12_len(w, h) + 64,
{
    assert(w * h >= 0) by (nonlinear_arith)
        requires
            w >= 0,
            h >= 0,
    ;
}

/// The code of a Windows call behind a result code: the low half where the high
/// half names the Win32 facility, and the whole code elsewhere.
pub open spec fn win32_code_of(hr: int) -> int {
    if hr / 65536 == 0x8007int - 65536 {
        hr % 65536
    } else {
        hr
    }
}

/// The Win32 code behind a result code.
pub fn win32_code(hr: i32) -> (r: i32)
    ensures
        r == win32_code_of(hr as int),
{
    if hr >= -2147024896 && hr < -2147024896 + 65536 {
        hr + 2147024896
    } else {
        hr
    }
}

/// True of the one error that a little patience can cure.
pub fn is_user_mapped(code: Option<i32>) -> (r: bool)
    ensures
        r == (code == Some(USER_MAPPED)),
{
    match code {
        Some(c) => c == USER_MAPPED,
        None => false,
    }
}

/// What the first 44 bytes of a ring file say of the layout: width, height and frames per second.
pub open spec fn layout_of(s: Seq<u8>) -> Option<(u32, u32, u32)> {
    let w = le32_at(s, 8);
    let h = le32_at(s, 12);
    let fps = le32_at(s, 40);
    if le32_at(s, 0) == MAGIC && le32_at(s, 4) == VERSION && even_size(w as int, h as int) {
        Some((
            w,
            h,
            if fps == 0 {
                1
            } else {
                fps
            },
        ))
    } else {
        None
    }
}

/// The layout that the front of a ring file declares. A file shorter than
/// [`PEEK_BYTES`] declares none. Nothing is mapped, so a reader may hold the file.
pub fn peek_layout(front: &[u8]) -> (r: Option<(u32, u32, u32)>)
    ensures
        r == if front@.len() < PEEK_BYTES {
            None
        } else {
            layout_of(front@)
        },
{
    if front.len() < PEEK_BYTES {
        return None;
    }
    let magic: u32 = get_le32(front, 0);
    let ver: u32 = get_le32(front, 4);
    let w: u32 = get_le32(front, 8);
    let h: u32 = get_le32(front, 12);
    let mut fps: u32 = get_le32(front, 40);
    if fps == 0 {
        fps = 1;
    }
    if magic != MAGIC || ver != VERSION || w < 2 || h < 2 || w % 2 != 0 || h % 2 != 0 {
        return None;
    }
    Some((w, h, fps))
}

/// The layout that a mapped ring declares, if all of it lies within the mapping.
pub open spec fn mapped_layout(s: Seq<u8>) -> Option<(u32, u32, u32)> {
    if s.len() < HEADER_BYTES {
        None
    } else {
        match layout_of(s) {
            Some((w, h, fps)) => if ring_len(w as int, h as int) <= s.len() {
                Some((w, h, fps))
            } else {
                None
            },
            None => None,
        }
    }
}

/// The layout that a mapped ring declares, if all of it lies within the mapping.
pub fn header_layout(mem: &[u8]) -> (r: Option<(u32, u32, u32)>)
    ensures
        r == mapped_layout(mem@),
{
    let len: usize = mem.len();
    if len < HEADER_BYTES as usize {
        return None;
    }
    match peek_layout(mem) {
        Some((w, h, fps)) => {
            proof {
                area_bounds(w as int, h as int);
                assert(w * h <= 0xFFFF_FFFF * 0xFFFF_FFFF) by (nonlinear_arith)
                    requires
                        0 <= w <= 0xFFFF_FFFF,
                        0 <= h <= 0xFFFF_FFFF,
                ;
            }
            let area: u128 = (w as u64 * h as u64) as u128;
            let size: u128 = area + area / 2;
            let stride: u128 = (size + 63) / 64 * 64;
            let total: u128 = HEADER_BYTES as u128 + SLOTS as u128 * (SLOT_META_BYTES as u128
                + stride);
            if total > len as u128 {
                None
            } else {
                Some((w, h, fps))
            }
        },
        None => None,
    }
}

/// Why a ring cannot be opened at a size.
#[derive(Clone, Copy, PartialEq, Eq, Structural, Debug)]
pub enum SizeError {
    /// A side is odd, or shorter than two.
    NotEven { width: u32, height: u32 },
}

/// Latest-wins writer over a mapped ring.
pub struct RingWriter {
    pub width: u32,
    pub height: u32,
    pub fps: u32,
}

/// Where the next frame goes, and the numbers that mark it.
#[derive(Clone, Copy, PartialEq, Eq, Structural, Debug)]
pub struct FrameTicket {
    /// The number that the frame is published under.
    pub next: u64,
    /// The slot that the frame goes to.
    pub index: u32,
    /// Where that slot begins.
    pub at: usize,
}

/// The ring header's words, in the order in which they are written, over `s`.
pub open spec fn with_header(s: Seq<u8>, w: u32, h: u32, fps: u32) -> Seq<u8> {
    let s = overlay(s, 0, le32(MAGIC));
    let s = overlay(s, 4, le32(VERSION));
    let s = overlay(s, 8, le32(w));
    let s = overlay(s, 12, le32(h));
    let s = overlay(s, 16, le32(SLOTS));
    let s = overlay(s, 20, le32(nv12_len(w as int, h as int) as u32));
    let s = overlay(s, 24, le32(stride_len(w as int, h as int) as u32));
    let s = overlay(s, 28, le32(HEADER_BYTES));
    let s = overlay(s, 40, le32(fps));
    overlay(s, 44, le32(1))
}

/// The number that follows `published`, at most the largest that a word holds.
pub open spec fn next_number(published: u64) -> u64 {
    if published + 2 > u64::MAX {
        u64::MAX
    } else {
        (published + 2) as u64
    }
}

/// The slot that frame number `n` goes to.
pub open spec fn slot_of(n: u64) -> int {
    (n / 2) as int % SLOTS as int
}

/// The record of a slot that holds a whole frame, over the bytes `s`.
pub open spec fn with_frame(s: Seq<u8>, at: int, w: u32, h: u32, qpc: u64, pixels: Seq<u8>) -> Seq<
    u8,
> {
    let s = overlay(s, at + 8, le64(qpc));
    let s = overlay(s, at + 16, le32(w));
    let s = overlay(s, at + 20, le32(h));
    let s = overlay(s, at + 24, le32(pixels.len() as u32));
    overlay(s, at + SLOT_META_BYTES, pixels)
}

/// What a reader gets: clock, width, height and pixels of the latest complete frame.
pub open spec fn latest_frame(s: Seq<u8>, w: int, h: int) -> Option<(u64, u32, u32, Seq<u8>)> {
    let n = le64_at(s, PUBLISHED_AT as int);
    let at = slot_at(w, h, slot_of(n));
    if n == 0 || le64_at(s, at) != n {
        None
    } else {
        Some((
            le64_at(s, at + 8),
            le32_at(s, at + 16),
            le32_at(s, at + 20),
            s.subrange(
                at + SLOT_META_BYTES as int,
                at + SLOT_META_BYTES + le32_at(s, at + 24) as int,
            ),
        ))
    }
}

/// Over a header that differs in its rate alone, only the rate is written anew.
proof fn only_the_rate_differs(s: Seq<u8>, w: u32, h: u32, rate: u32, fps: u32)
    requires
        s == with_header(s, w, h, rate),
    ensures
        with_header(s, w, h, fps) == overlay(s, 40, le32(fps)),
{
    let old_header = with_header(s, w, h, rate);
    let new_header = with_header(s, w, h, fps);
    assert forall|i: int| 0 <= i < s.len() implies new_header[i] == overlay(
        s,
        40,
        le32(fps),
    )[i] by {
        assert(old_header[i] == s[i]);
    }
    assert(new_header =~= overlay(s, 40, le32(fps)));
}

impl RingWriter {
    /// A size that a ring can have, whose file a 32-bit length can hold.
    pub open spec fn wf(&self) -> bool {
        &&& even_size(self.width as int, self.height as int)
        &&& ring_len(self.width as int, self.height as int) <= u32::MAX
        &&& self.fps >= 1
    }

    /// Bytes of the mapping.
    pub open spec fn span(&self) -> int {
        ring_len(self.width as int, self.height as int)
    }

    /// A writer for a ring of the given size, if the size is even.
    pub fn open(width: u32, height: u32, fps: u32) -> (r: Result<RingWriter, SizeError>)
        requires
            even_size(width as int, height as int) ==> ring_len(width as int, height as int)
                <= u32::MAX,
        ensures
            match r {
                Ok(s) => {
                    &&& even_size(width as int, height as int)
                    &&& s.wf()
                    &&& s.width == width
                    &&& s.height == height
                    &&& s.fps == if fps == 0 {
                        1
                    } else {
                        fps
                    }
                },
                Err(e) => {
                    &&& !even_size(width as int, height as int)
                    &&& e == (SizeError::NotEven { width, height })
                },
            },
    {
        if width < 2 || height < 2 || width % 2 != 0 || height % 2 != 0 {
            return Err(SizeError::NotEven { width, height });
        }
        Ok(
            RingWriter {
                width,
                height,
                fps: if fps == 0 {
                    1
                } else {
                    fps
                },
            },
        )
    }

    /// Bytes that the file must have.
    pub fn mapped_bytes(&self) -> (r: u32)
        requires
            self.wf(),
        ensures
            r == self.span(),
    {
        ring_bytes(self.width, self.height)
    }

    /// True where a file of `existing` bytes has to change its length.
    pub fn must_resize(&self, existing: i64) -> (r: bool)
        requires
            self.wf(),
        ensures
            r == (existing != self.span()),
    {
        existing != ring_bytes(self.width, self.height) as i64
    }

    /// True where the mapped bytes cannot be taken over: the file was resized, or
    /// what it held declares no layout or another size.
    pub fn must_reset(&self, existing: i64, mem: &[u8]) -> (r: bool)
        requires
            self.wf(),
        ensures
            r == (existing != self.span() || match mapped_layout(mem@) {
                Some((w, h, _)) => w != self.width || h != self.height,
                None => true,
            }),
    {
        if existing != ring_bytes(self.width, self.height) as i64 {
            return true;
        }
        match header_layout(mem) {
            Some((w, h, _)) => w != self.width || h != self.height,
            None => true,
        }
    }

    /// Changes the frame rate, and writes the header with it. Of memory with this
    /// header already, only the word that holds the rate changes.
    pub fn set_fps(&mut self, fps: u32, mem: &mut [u8])
        requires
            old(self).wf(),
            old(mem)@.len() == old(self).span(),
        ensures
            final(self).wf(),
            final(self).width == old(self).width,
            final(self).height == old(self).height,
            final(self).fps == if fps == 0 {
                1
            } else {
                fps
            },
            final(mem)@ == with_header(
                old(mem)@,
                old(self).width,
                old(self).height,
                final(self).fps,
            ),
            old(mem)@ == with_header(
                old(mem)@,
                old(self).width,
                old(self).height,
                old(self).fps,
            ) ==> final(mem)@ == overlay(old(mem)@, 40, le32(final(self).fps)),
    {
        let ghost before = mem@;
        let ghost rate = self.fps;
        self.fps = if fps == 0 {
            1
        } else {
            fps
        };
        self.write_header(mem, false);
        proof {
            if before == with_header(before, self.width, self.height, rate) {
                only_the_rate_differs(before, self.width, self.height, rate, self.fps);
            }
        }
    }

    /// Writes the header. A reset clears everything first, the published number with it.
    pub fn write_header(&self, mem: &mut [u8], reset: bool)
        requires
            self.wf(),
            old(mem)@.len() == self.span(),
        ensures
            final(mem)@ == with_header(
                if reset {
                    Seq::new(old(mem)@.len(), |i: int| 0u8)
                } else {
                    old(mem)@
                },
                self.width,
                self.height,
                self.fps,
            ),
    {
        proof {
            area_bounds(self.width as int, self.height as int);
        }
        if reset {
            let n: usize = mem.len();
            let mut i: usize = 0;
            while i < n
                invariant
                    n == mem@.len(),
                    i <= n,
                    mem@.len() == old(mem)@.len(),
                    forall|k: int| 0 <= k < i ==> mem@[k] == 0,
                decreases n - i,
            {
                mem[i] = 0;
                i += 1;
            }
            assert(mem@ =~= Seq::new(old(mem)@.len(), |i: int| 0u8));
        }
        put_le32(mem, 0, MAGIC);
        put_le32(mem, 4, VERSION);
        put_le32(mem, 8, self.width);
        put_le32(mem, 12, self.height);
        put_le32(mem, 16, SLOTS);
        put_le32(mem, 20, nv12_size(self.width, self.height));
        put_le32(mem, 24, slot_stride(self.width, self.height));
        put_le32(mem, 28, HEADER_BYTES);
        put_le32(mem, 40, self.fps);
        put_le32(mem, 44, 1);
    }

    /// Where the frame after number `published` goes.
    pub fn ticket(&self, published: u64) -> (t: FrameTicket)
        requires
            self.wf(),
        ensures
            t.next == next_number(published),
            t.index == slot_of(t.next),
            t.at == slot_at(self.width as int, self.height as int, t.index as int),
    {
        proof {
            area_bounds(self.width as int, self.height as int);
            slot_within(self.width as int, self.height as int, slot_of(next_number(published)));
        }
        let next: u64 = published.saturating_add(2);
        let index: u32 = ((next / 2) % SLOTS as u64) as u32;
        let step: u32 = SLOT_META_BYTES + slot_stride(self.width, self.height);
        FrameTicket { next, index, at: (HEADER_BYTES + index * step) as usize }
    }

    /// Fills the slot of `t` with a frame. The sequence words are the caller's.
    pub fn fill_slot(&self, mem: &mut [u8], t: FrameTicket, nv12: &[u8], qpc: u64)
        requires
            self.wf(),
            old(mem)@.len() == self.span(),
            t.index < SLOTS,
            t.at == slot_at(self.width as int, self.height as int, t.index as int),
            nv12@.len() >= nv12_len(self.width as int, self.height as int),
        ensures
            final(mem)@ == with_frame(
                old(mem)@,
                t.at as int,
                self.width,
                self.height,
                qpc,
                nv12@.subrange(0, nv12_len(self.width as int, self.height as int)),
            ),
    {
        proof {
            area_bounds(self.width as int, self.height as int);
            slot_within(self.width as int, self.height as int, t.index as int);
        }
        let expected: usize = nv12_size(self.width, self.height) as usize;
        assert(t.at + 64 + expected <= mem.len());
        put_le64(mem, t.at + 8, qpc);
        put_le32(mem, t.at + 16, self.width);
        put_le32(mem, t.at + 20, self.height);
        put_le32(mem, t.at + 24, expected as u32);
        put(mem, t.at + SLOT_META_BYTES as usize, vstd::slice::slice_subrange(nv12, 0, expected));
    }

    /// Publishes a frame: marks the slot as being filled, fills it, marks it as
    /// whole, and moves the published number to it. A buffer shorter than a
    /// picture is dropped.
    pub fn write_nv12(&self, mem: &mut [u8], nv12: &[u8], qpc: u64)
        requires
            self.wf(),
            old(mem)@.len() == self.span(),
        ensures
            final(mem)@ == published(
                old(mem)@,
                self.width,
                self.height,
                nv12@,
                qpc,
            ),
    {
        proof {
            area_bounds(self.width as int, self.height as int);
        }
        let expected: usize = nv12_size(self.width, self.height) as usize;
        if nv12.len() < expected {
            return;
        }
        let t: FrameTicket = self.ticket(get_le64(mem, PUBLISHED_AT));
        proof {
            slot_within(self.width as int, self.height as int, t.index as int);
        }
        put_le64(mem, t.at, t.next - 1);
        self.fill_slot(mem, t, nv12, qpc);
        put_le64(mem, t.at, t.next);
        put_le64(mem, PUBLISHED_AT, t.next);
    }
}

/// The bytes `s` after frame `n` went to the slot at `at` and was published.
pub open spec fn stored(
    s: Seq<u8>,
    at: int,
    n: u64,
    w: u32,
    h: u32,
    qpc: u64,
    pixels: Seq<u8>,
) -> Seq<u8> {
    let s = overlay(s, at, le64((n - 1) as u64));
    let s = with_frame(s, at, w, h, qpc, pixels);
    let s = overlay(s, at, le64(n));
    overlay(s, PUBLISHED_AT as int, le64(n))
}

/// The ring after a frame was handed to the writer.
pub open spec fn published(s: Seq<u8>, w: u32, h: u32, nv12: Seq<u8>, qpc: u64) -> Seq<u8> {
    let size = nv12_len(w as int, h as int);
    if nv12.len() < size {
        s
    } else {
        let n = next_number(le64_at(s, PUBLISHED_AT as int));
        stored(
            s,
            slot_at(w as int, h as int, slot_of(n)),
            n,
            w,
            h,
            qpc,
            nv12.subrange(0, size),
        )
    }
}

/// Every slot lies behind the header and within the file, and slots do not overlap.
pub proof fn slot_within(w: int, h: int, k: int)
    requires
        w >= 0,
        h >= 0,
        0 <= k < SLOTS,
    ensures
        slot_at(w, h, 0) == HEADER_BYTES,
        HEADER_BYTES <= slot_at(w, h, k),
        slot_at(w, h, k) + slot_len(w, h) <= ring_len(w, h),
        slot_at(w, h, k + 1) == slot_at(w, h, k) + slot_len(w, h),
        slot_len(w, h) >= SLOT_META_BYTES + nv12_len(w, h),
{
    area_bounds(w, h);
    let n = slot_len(w, h);
    assert(k * n + n <= 3 * n && k * n >= 0 && (k + 1) * n == k * n + n) by (nonlinear_arith)
        requires
            0 <= k < 3,
            n >= 0,
    ;
}

/// A header just written, over whatever was there, declares the writer's size and rate.
pub proof fn header_roundtrip(s: Seq<u8>, w: u32, h: u32, fps: u32)
    requires
        even_size(w as int, h as int),
        fps >= 1,
        s.len() >= HEADER_BYTES,
    ensures
        layout_of(with_header(s, w, h, fps)) == Some((w, h, fps)),
        s.len() >= ring_len(w as int, h as int) ==> mapped_layout(with_header(s, w, h, fps))
            == Some((w, h, fps)),
{
    let z = with_header(s, w, h, fps);
    word_roundtrip(MAGIC);
    word_roundtrip(VERSION);
    word_roundtrip(w);
    word_roundtrip(h);
    word_roundtrip(fps);
    assert(forall|i: int| 0 <= i < 4 ==> z[i] == #[trigger] le32(MAGIC)[i]);
    assert(forall|i: int| 0 <= i < 4 ==> z[4 + i] == #[trigger] le32(VERSION)[i]);
    assert(forall|i: int| 0 <= i < 4 ==> z[8 + i] == #[trigger] le32(w)[i]);
    assert(forall|i: int| 0 <= i < 4 ==> z[12 + i] == #[trigger] le32(h)[i]);
    assert(forall|i: int| 0 <= i < 4 ==> z[40 + i] == #[trigger] le32(fps)[i]);
    assert(le32_at(z, 0) == le32_at(le32(MAGIC), 0));
    assert(le32_at(z, 4) == le32_at(le32(VERSION), 0));
    assert(le32_at(z, 8) == le32_at(le32(w), 0));
    assert(le32_at(z, 12) == le32_at(le32(h), 0));
    assert(le32_at(z, 40) == le32_at(le32(fps), 0));
}

/// Writing the header over a live ring leaves the published number and all slots alone.
pub proof fn header_keeps_frames(s: Seq<u8>, w: u32, h: u32, fps: u32)
    requires
        s.len() >= HEADER_BYTES,
    ensures
        le64_at(with_header(s, w, h, fps), PUBLISHED_AT as int) == le64_at(s, PUBLISHED_AT as int),
        forall|i: int| 48 <= i < s.len() ==> with_header(s, w, h, fps)[i] == s[i],
{
    let z = with_header(s, w, h, fps);
    assert(forall|i: int| 32 <= i < 40 ==> z[i] == s[i]);
}

/// Frames go to the slots in turn: while numbers do not saturate, two frames in
/// a row never share a slot.
pub proof fn slots_alternate(p: u64)
    requires
        p + 2 <= u64::MAX,
    ensures
        slot_of(next_number(p)) == (slot_of(p) + 1) % 3,
        slot_of(next_number(p)) != slot_of(p),
{
}

/// Latest wins: once a whole picture was published, a reader gets that picture.
pub proof fn latest_wins(s: Seq<u8>, w: u32, h: u32, nv12: Seq<u8>, qpc: u64)
    requires
        even_size(w as int, h as int),
        ring_len(w as int, h as int) <= u32::MAX,
        s.len() == ring_len(w as int, h as int),
        nv12.len() >= nv12_len(w as int, h as int),
    ensures
        latest_frame(published(s, w, h, nv12, qpc), w as int, h as int) == Some(
            (qpc, w, h, nv12.subrange(0, nv12_len(w as int, h as int))),
        ),
        le64_at(published(s, w, h, nv12, qpc), PUBLISHED_AT as int) == next_number(
            le64_at(s, PUBLISHED_AT as int),
        ),
{
    let size = nv12_len(w as int, h as int);
    let n = next_number(le64_at(s, PUBLISHED_AT as int));
    let at = slot_at(w as int, h as int, slot_of(n));
    area_bounds(w as int, h as int);
    slot_within(w as int, h as int, slot_of(n));
    stored_reads_back(s, at, n, w, h, qpc, nv12.subrange(0, size));
}

/// Every field of a stored frame reads back as stored.
proof fn stored_reads_back(
    s: Seq<u8>,
    at: int,
    n: u64,
    w: u32,
    h: u32,
    qpc: u64,
    pixels: Seq<u8>,
)
    requires
        HEADER_BYTES <= at,
        at + SLOT_META_BYTES + pixels.len() <= s.len(),
        pixels.len() <= u32::MAX,
    ensures
        ({
            let z = stored(s, at, n, w, h, qpc, pixels);
            &&& le64_at(z, PUBLISHED_AT as int) == n
            &&& le64_at(z, at) == n
            &&& le64_at(z, at + 8) == qpc
            &&& le32_at(z, at + 16) == w
            &&& le32_at(z, at + 20) == h
            &&& le32_at(z, at + 24) == pixels.len()
            &&& z.subrange(at + SLOT_META_BYTES, at + SLOT_META_BYTES + pixels.len()) == pixels
        }),
{
    let z = stored(s, at, n, w, h, qpc, pixels);
    assert(forall|i: int| 0 <= i < 8 ==> #[trigger] z[PUBLISHED_AT + i] == le64(n)[i]);
    assert(forall|i: int| 0 <= i < 8 ==> #[trigger] z[at + i] == le64(n)[i]);
    assert(forall|i: int| 0 <= i < 8 ==> #[trigger] z[at + 8 + i] == le64(qpc)[i]);
    assert(forall|i: int| 0 <= i < 4 ==> #[trigger] z[at + 16 + i] == le32(w)[i]);
    assert(forall|i: int| 0 <= i < 4 ==> #[trigger] z[at + 20 + i] == le32(h)[i]);
    assert(forall|i: int|
        0 <= i < 4 ==> #[trigger] z[at + 24 + i] == le32(pixels.len() as u32)[i]);
    read_long(z, PUBLISHED_AT as int, n);
    read_long(z, at, n);
    read_long(z, at + 8, qpc);
    read_word(z, at + 16, w);
    read_word(z, at + 20, h);
    read_word(z, at + 24, pixels.len() as u32);
    assert(z.subrange(at + SLOT_META_BYTES, at + SLOT_META_BYTES + pixels.len()) =~= pixels);
}

/// A stored frame changes nothing outside its slot but the published number.
proof fn stored_stays_in_slot(
    s: Seq<u8>,
    at: int,
    n: u64,
    w: u32,
    h: u32,
    qpc: u64,
    pixels: Seq<u8>,
    i: int,
)
    requires
        HEADER_BYTES <= at,
        at + SLOT_META_BYTES + pixels.len() <= s.len(),
        0 <= i < s.len(),
        i < at || at + SLOT_META_BYTES + pixels.len() <= i,
    ensures
        overlay(s, at, le64((n - 1) as u64))[i] == s[i],
        with_frame(overlay(s, at, le64((n - 1) as u64)), at, w, h, qpc, pixels)[i] == s[i],
        i < PUBLISHED_AT || i >= PUBLISHED_AT + 8 ==> stored(s, at, n, w, h, qpc, pixels)[i]
            == s[i],
{
}

/// Four bytes that agree with the encoding of `v` read as `v`.
proof fn read_word(s: Seq<u8>, at: int, v: u32)
    requires
        forall|i: int| 0 <= i < 4 ==> #[trigger] s[at + i] == le32(v)[i],
    ensures
        le32_at(s, at) == v,
{
    word_roundtrip(v);
    assert(s[at + 0] == le32(v)[0]);
    assert(le32_at(s, at) == le32_at(le32(v), 0));
}

/// Eight bytes that agree with the encoding of `v` read as `v`.
proof fn read_long(s: Seq<u8>, at: int, v: u64)
    requires
        forall|i: int| 0 <= i < 8 ==> #[trigger] s[at + i] == le64(v)[i],
    ensures
        le64_at(s, at) == v,
{
    long_roundtrip(v);
    assert(s[at + 0] == le64(v)[0]);
    assert(s[at + 4 + 1] == s[at + 5]);
    assert(s[at + 4 + 2] == s[at + 6]);
    assert(s[at + 4 + 3] == s[at + 7]);
    assert(le32_at(s, at) == le32_at(le64(v), 0));
    assert(le32_at(s, at + 4) == le32_at(le64(v), 4));
}

/// While the next slot is being filled, and until its number is published, a
/// reader still gets the frame before it, byte for byte.
pub proof fn readers_keep_the_last_frame(
    s: Seq<u8>,
    w: u32,
    h: u32,
    nv12: Seq<u8>,
    qpc: u64,
)
    requires
        even_size(w as int, h as int),
        ring_len(w as int, h as int) <= u32::MAX,
        s.len() == ring_len(w as int, h as int),
        nv12.len() >= nv12_len(w as int, h as int),
        le64_at(s, PUBLISHED_AT as int) + 2 <= u64::MAX,
    ensures
        ({
            let p = le64_at(s, PUBLISHED_AT as int);
            let n = next_number(p);
            let at = slot_at(w as int, h as int, slot_of(n));
            let before = slot_at(w as int, h as int, slot_of(p));
            let marked = overlay(s, at, le64((n - 1) as u64));
            let filled = with_frame(
                marked,
                at,
                w,
                h,
                qpc,
                nv12.subrange(0, nv12_len(w as int, h as int)),
            );
            let done = published(s, w, h, nv12, qpc);
            let end = before + slot_len(w as int, h as int);
            &&& le64_at(marked, PUBLISHED_AT as int) == p
            &&& le64_at(filled, PUBLISHED_AT as int) == p
            &&& marked.subrange(before, end) == s.subrange(before, end)
            &&& filled.subrange(before, end) == s.subrange(before, end)
            &&& done.subrange(before, end) == s.subrange(before, end)
        }),
{
    let p = le64_at(s, PUBLISHED_AT as int);
    let n = next_number(p);
    let size = nv12_len(w as int, h as int);
    area_bounds(w as int, h as int);
    slots_alternate(p);
    slot_within(w as int, h as int, slot_of(n));
    slot_within(w as int, h as int, slot_of(p));
    slots_apart(w as int, h as int, slot_of(n), slot_of(p));
    let at = slot_at(w as int, h as int, slot_of(n));
    let before = slot_at(w as int, h as int, slot_of(p));
    let end = before + slot_len(w as int, h as int);
    let pixels = nv12.subrange(0, size);
    let marked = overlay(s, at, le64((n - 1) as u64));
    let filled = with_frame(marked, at, w, h, qpc, pixels);
    let done = stored(s, at, n, w, h, qpc, pixels);
    assert forall|i: int| 32 <= i < 40 || before <= i < end implies marked[i] == s[i] && filled[i]
        == s[i] && (i >= 40 ==> done[i] == s[i]) by {
        stored_stays_in_slot(s, at, n, w, h, qpc, pixels, i);
    }
    assert(marked.subrange(before, end) =~= s.subrange(before, end));
    assert(filled.subrange(before, end) =~= s.subrange(before, end));
    assert(done.subrange(before, end) =~= s.subrange(before, end));
}

/// Two different slots have no byte in common.
pub proof fn slots_apart(w: int, h: int, j: int, k: int)
    requires
        w >= 0,
        h >= 0,
        0 <= j < SLOTS,
        0 <= k < SLOTS,
        j != k,
    ensures
        slot_at(w, h, j) + slot_len(w, h) <= slot_at(w, h, k) || slot_at(w, h, k) + slot_len(w, h)
            <= slot_at(w, h, j),
{
    let n = slot_len(w, h);
    area_bounds(w, h);
    assert(j < k ==> j * n + n <= k * n) by (nonlinear_arith)
        requires
            n >= 0,
    ;
    assert(k < j ==> k * n + n <= j * n) by (nonlinear_arith)
        requires
            n >= 0,
    ;
}

/// How long to wait before opening a ring once more: a step that doubles up to a limit.
pub open spec fn next_wait(wait_ms: int) -> int {
    if wait_ms * 2 < 40 {
        wait_ms * 2
    } else {
        40
    }
}

/// The first wait between two tries, in milliseconds.
pub const FIRST_WAIT_MS: u64 = 8;

/// What to do after a failed try to open a ring.
#[derive(Clone, Copy, PartialEq, Eq, Structural, Debug)]
pub enum OpenStep {
    /// Give up with the error that came.
    Fail,
    /// Give up: the file stayed mapped for the whole budget.
    StillMapped,
    /// Sleep that long, then try again with the next wait.
    Retry { sleep_ms: u64, next_ms: u64 },
}

/// What to do after a try to open a ring failed with `code`, `elapsed_ns` into a
/// budget of `budget_ns`. Readers may keep a removed camera's mapping for a few
/// milliseconds, so that one error is waited out and any other is not.
pub fn open_poll(code: Option<i32>, elapsed_ns: u64, budget_ns: u64, wait_ms: u64) -> (r: OpenStep)
    requires
        wait_ms <= 40,
    ensures
        r == if code != Some(USER_MAPPED) {
            OpenStep::Fail
        } else if elapsed_ns >= budget_ns {
            OpenStep::StillMapped
        } else {
            OpenStep::Retry { sleep_ms: wait_ms, next_ms: next_wait(wait_ms as int) as u64 }
        },
{
    if !is_user_mapped(code) {
        return OpenStep::Fail;
    }
    if elapsed_ns >= budget_ns {
        return OpenStep::StillMapped;
    }
    OpenStep::Retry {
        sleep_ms: wait_ms,
        next_ms: if wait_ms * 2 < 40 {
            wait_ms * 2
        } else {
            40
        },
    }
}

/// A header is laid out as readers in other processes know it: each number in four
/// bytes at its place.
pub proof fn header_is_laid_out(s: Seq<u8>, w: u32, h: u32, fps: u32)
    requires
        s.len() >= HEADER_BYTES,
        ring_len(w as int, h as int) <= u32::MAX,
    ensures
        ({
            let z = with_header(s, w, h, fps);
            let size = w * h + w * h / 2;
            &&& z.len() == s.len()
            &&& le32_at(z, 0) == MAGIC && le32_at(z, 4) == VERSION
            &&& le32_at(z, 8) == w && le32_at(z, 12) == h
            &&& le32_at(z, 16) == 3
            &&& le32_at(z, 20) == size
            &&& le32_at(z, 24) == (size + 63) / 64 * 64
            &&& le32_at(z, 28) == 256
            &&& le32_at(z, 40) == fps && le32_at(z, 44) == 1
        }),
{
    let z = with_header(s, w, h, fps);
    area_bounds(w as int, h as int);
    slot_within(w as int, h as int, 2);
    let size = nv12_len(w as int, h as int) as u32;
    let stride = stride_len(w as int, h as int) as u32;
    assert(forall|i: int| 0 <= i < 4 ==> #[trigger] z[0 + i] == le32(MAGIC)[i]);
    assert(forall|i: int| 0 <= i < 4 ==> #[trigger] z[4 + i] == le32(VERSION)[i]);
    assert(forall|i: int| 0 <= i < 4 ==> #[trigger] z[8 + i] == le32(w)[i]);
    assert(forall|i: int| 0 <= i < 4 ==> #[trigger] z[12 + i] == le32(h)[i]);
    assert(forall|i: int| 0 <= i < 4 ==> #[trigger] z[16 + i] == le32(SLOTS)[i]);
    assert(forall|i: int| 0 <= i < 4 ==> #[trigger] z[20 + i] == le32(size)[i]);
    assert(forall|i: int| 0 <= i < 4 ==> #[trigger] z[24 + i] == le32(stride)[i]);
    assert(forall|i: int| 0 <= i < 4 ==> #[trigger] z[28 + i] == le32(HEADER_BYTES)[i]);
    assert(forall|i: int| 0 <= i < 4 ==> #[trigger] z[40 + i] == le32(fps)[i]);
    assert(forall|i: int| 0 <= i < 4 ==> #[trigger] z[44 + i] == le32(1)[i]);
    read_word(z, 0, MAGIC);
    read_word(z, 4, VERSION);
    read_word(z, 8, w);
    read_word(z, 12, h);
    read_word(z, 16, SLOTS);
    read_word(z, 20, size);
    read_word(z, 24, stride);
    read_word(z, 28, HEADER_BYTES);
    read_word(z, 40, fps);
    read_word(z, 44, 1);
}

/// A frame that is published stands in one of three slots behind the header, as readers
/// in other processes know it: its number, the clock, its sides and its length, and 64
/// bytes behind the slot's beginning its pixels. The number is even, two more than the
/// one before, and the header leads to it.
pub proof fn frames_are_laid_out(s: Seq<u8>, w: u32, h: u32, nv12: Seq<u8>, qpc: u64)
    requires
        even_size(w as int, h as int),
        ring_len(w as int, h as int) <= u32::MAX,
        s.len() == ring_len(w as int, h as int),
        nv12.len() >= w * h + w * h / 2,
        le64_at(s, 32) + 2 <= u64::MAX,
    ensures
        ({
            let z = published(s, w, h, nv12, qpc);
            let size = w * h + w * h / 2;
            let n = le64_at(z, 32);
            let k = (n / 2) as int % 3;
            let at = 256 + k * (64 + (size + 63) / 64 * 64);
            &&& z.len() == s.len()
            &&& n == le64_at(s, 32) + 2
            &&& le64_at(z, at) == n
            &&& le64_at(z, at + 8) == qpc
            &&& le32_at(z, at + 16) == w && le32_at(z, at + 20) == h
            &&& le32_at(z, at + 24) == size
            &&& z.subrange(at + 64, at + 64 + size) == nv12.take(size)
        }),
{
    let size = nv12_len(w as int, h as int);
    let n = next_number(le64_at(s, PUBLISHED_AT as int));
    let at = slot_at(w as int, h as int, slot_of(n));
    area_bounds(w as int, h as int);
    slot_within(w as int, h as int, slot_of(n));
    stored_reads_back(s, at, n, w, h, qpc, nv12.subrange(0, size));
    assert(nv12.subrange(0, size) =~= nv12.take(size));
}

} // verus!
