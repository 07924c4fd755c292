//! The virtual camera: when its ring and its registration have to be made
//! anew, and what goes into the ring.

use crate::ipc::{even_size, nv12_len, nv12_size, ring_bytes, ring_len};
use crate::nv12::{contain_fit, fitted_into, waiting_in, waiting_still};
use crate::preview::{catalog_is_a_grid, quality_at, QualitySpec, QUALITIES};
use vstd::prelude::*;
use vstd::string::*;

verus! {

/// How long to wait for readers to let go of the ring, in nanoseconds.
pub const RING_WAIT: u64 = 2_000_000_000;

/// What a start came to.
#[derive(Clone, Copy, Debug, PartialEq, Eq, Structural)]
pub struct VcamStart {
    /// The camera that programs had selected is another one now.
    pub replaced: bool,
    pub width: u32,
    pub height: u32,
    pub fps: u32,
}

/// What a start has to do first.
#[derive(Clone, Copy, Debug, PartialEq, Eq, Structural)]
pub struct StartPlan {
    /// There was a ring already.
    pub existed: bool,
    /// The camera has to go, so that the ring can change.
    pub replace: bool,
}

/// What is left to do after the format was changed.
#[derive(Clone, Copy, Debug, PartialEq, Eq, Structural)]
pub enum FormatStep {
    Nothing,
    /// The ring, if it is open, gets another frame rate.
    SetFps(u32),
}

/// The ring came up at another size.
#[derive(Clone, Copy, Debug, PartialEq, Eq, Structural)]
pub struct WrongSize {
    pub width: u32,
    pub height: u32,
}

/// The virtual camera as the rest of the program sees it.
pub struct Vcam {
    pub on: bool,
    /// Width, height and frame rate of the canvas.
    pub canvas: (u32, u32, u32),
    pub notices: Vec<String>,
}

/// True where the ring there is cannot serve a size: it declares none, another,
/// or has another length than that size needs.
pub open spec fn replace_for(layout: Option<(u32, u32, u32)>, file_len: u64, w: u32, h: u32) -> bool {
    match layout {
        None => true,
        Some((lw, lh, _)) => lw != w || lh != h || (file_len != 0 && file_len != ring_len(
            w as int,
            h as int,
        )),
    }
}

/// True where the camera has to be replaced to get a size.
pub fn must_replace(layout: Option<(u32, u32, u32)>, file_len: u64, width: u32, height: u32) -> (r:
    bool)
    requires
        ring_len(width as int, height as int) <= u32::MAX,
    ensures
        r == replace_for(layout, file_len, width, height),
{
    let want: u64 = ring_bytes(width, height) as u64;
    match layout {
        None => true,
        Some((w, h, _)) => w != width || h != height || (file_len != 0 && file_len != want),
    }
}

impl Vcam {
    /// A camera that is off, with the default canvas.
    pub fn new() -> (r: Vcam)
        ensures
            !r.on && r.canvas == (1920u32, 1080u32, 30u32) && r.notices@.len() == 0,
    {
        Vcam { on: false, canvas: (1920, 1080, 30), notices: Vec::new() }
    }

    /// Takes all messages.
    pub fn take_notices(&mut self) -> (r: Vec<String>)
        ensures
            r@ == old(self).notices@,
            final(self).notices@.len() == 0,
            final(self).on == old(self).on,
            final(self).canvas == old(self).canvas,
    {
        let mut r: Vec<String> = Vec::new();
        std::mem::swap(&mut r, &mut self.notices);
        r
    }

    /// True while the camera is on.
    pub fn is_on(&self) -> (r: bool)
        ensures
            r == self.on,
    {
        self.on
    }

    /// The size of the canvas.
    pub fn canvas(&self) -> (r: (u32, u32))
        ensures
            r == (self.canvas.0, self.canvas.1),
    {
        (self.canvas.0, self.canvas.1)
    }

    /// What a start at a quality has to do first.
    pub fn plan_start(layout: Option<(u32, u32, u32)>, file_len: u64, spec: &QualitySpec) -> (r:
        StartPlan)
        requires
            ring_len(spec.width as int, spec.height as int) <= u32::MAX,
        ensures
            r == (StartPlan {
                existed: layout is Some,
                replace: replace_for(layout, file_len, spec.width, spec.height),
            }),
    {
        StartPlan {
            existed: layout.is_some(),
            replace: must_replace(layout, file_len, spec.width, spec.height),
        }
    }

    /// The ring was opened, with this width, height and rate. The canvas follows it.
    pub fn ring_opened(&mut self, spec: &QualitySpec, ring: (u32, u32, u32)) -> (r: Result<
        (),
        WrongSize,
    >)
        ensures
            match r {
                Ok(_) => {
                    &&& ring.0 == spec.width && ring.1 == spec.height
                    &&& *final(self) == (Vcam { canvas: ring, ..*old(self) })
                },
                Err(e) => {
                    &&& ring.0 != spec.width || ring.1 != spec.height
                    &&& e == (WrongSize { width: ring.0, height: ring.1 })
                    &&& *final(self) == *old(self)
                },
            },
    {
        if ring.0 != spec.width || ring.1 != spec.height {
            return Err(WrongSize { width: ring.0, height: ring.1 });
        }
        self.canvas = ring;
        Ok(())
    }

    /// The camera is up. Programs have to select it again where it was there
    /// before and is another one now.
    pub fn start(&mut self, plan: StartPlan, recreated: bool) -> (r: VcamStart)
        ensures
            *final(self) == (Vcam { on: true, ..*old(self) }),
            r == (VcamStart {
                replaced: recreated && plan.existed,
                width: old(self).canvas.0,
                height: old(self).canvas.1,
                fps: old(self).canvas.2,
            }),
    {
        self.on = true;
        VcamStart {
            replaced: recreated && plan.existed,
            width: self.canvas.0,
            height: self.canvas.1,
            fps: self.canvas.2,
        }
    }

    /// The camera goes off.
    pub fn stop(&mut self)
        ensures
            *final(self) == (Vcam { on: false, ..*old(self) }),
    {
        self.on = false;
    }

    /// The canvas after another quality was chosen. While the camera is on its
    /// size stays put, and pictures of another size are fitted.
    pub open spec fn canvas_for(self, spec: QualitySpec) -> (u32, u32, u32) {
        if self.canvas.0 == spec.width && self.canvas.1 == spec.height {
            (spec.width, spec.height, spec.fps)
        } else if self.on {
            self.canvas
        } else {
            (spec.width, spec.height, spec.fps)
        }
    }

    /// Another quality was chosen.
    pub fn set_format(&mut self, spec: &QualitySpec) -> (r: FormatStep)
        ensures
            *final(self) == (Vcam { canvas: old(self).canvas_for(*spec), ..*old(self) }),
            r == if old(self).canvas.0 == spec.width && old(self).canvas.1 == spec.height
                && old(self).canvas.2 != spec.fps {
                FormatStep::SetFps(spec.fps)
            } else {
                FormatStep::Nothing
            },
    {
        let (w, h, fps) = self.canvas;
        if w == spec.width && h == spec.height && fps == spec.fps {
            return FormatStep::Nothing;
        }
        if w == spec.width && h == spec.height {
            self.canvas = (w, h, spec.fps);
            return FormatStep::SetFps(spec.fps);
        }
        if self.on {
            return FormatStep::Nothing;
        }
        self.canvas = (spec.width, spec.height, spec.fps);
        FormatStep::Nothing
    }

    /// A canvas that a ring can have.
    pub open spec fn canvas_ok(self) -> bool {
        even_size(self.canvas.0 as int, self.canvas.1 as int) && nv12_len(
            self.canvas.0 as int,
            self.canvas.1 as int,
        ) <= u32::MAX
    }

    /// The picture to put into the ring while there is no phone.
    pub fn write_waiting(&self, mark: &[u8]) -> (r: Vec<u8>)
        requires
            self.canvas_ok(),
        ensures
            r@ == waiting_in(
                Seq::new(
                    nv12_len(self.canvas.0 as int, self.canvas.1 as int) as nat,
                    |i: int| 0u8,
                ),
                self.canvas.0 as int,
                self.canvas.1 as int,
                mark@,
            ),
    {
        let (w, h) = self.canvas();
        let mut buf: Vec<u8> = vec![0; nv12_size(w, h) as usize];
        assert(buf@ =~= Seq::new(nv12_len(w as int, h as int) as nat, |i: int| 0u8));
        waiting_still(buf.as_mut_slice(), w, h, mark);
        buf
    }

    /// Fits a picture into the canvas, in `dst`. True where it goes to the ring:
    /// the camera is on.
    pub fn write_contain(&self, src: &[u8], src_w: u32, src_h: u32, dst: &mut Vec<u8>) -> (r: bool)
        requires
            self.canvas_ok(),
            nv12_len(crate::nv12::side_of(src_w as int), crate::nv12::side_of(src_h as int))
                <= u32::MAX,
        ensures
            r == self.on,
            !r ==> final(dst)@ == old(dst)@,
            r ==> final(dst)@ == fitted_into(
                src@,
                src_w as int,
                src_h as int,
                sized(old(dst)@, nv12_len(self.canvas.0 as int, self.canvas.1 as int)),
                self.canvas.0 as int,
                self.canvas.1 as int,
            ),
    {
        if !self.on {
            return false;
        }
        let (dw, dh) = self.canvas();
        let need: usize = nv12_size(dw, dh) as usize;
        if dst.len() != need {
            dst.clear();
            dst.resize(need, 0);
        }
        assert(dst@ =~= sized(old(dst)@, need as int));
        contain_fit(src, src_w, src_h, dst.as_mut_slice(), dw, dh);
        true
    }
}

/// A buffer of a length: itself, or an empty one.
pub open spec fn sized(s: Seq<u8>, n: int) -> Seq<u8> {
    if s.len() == n {
        s
    } else {
        Seq::new(n as nat, |i: int| 0u8)
    }
}

/// While the camera is on, no choice of quality changes its size.
pub proof fn size_stays_while_on(v: Vcam, spec: QualitySpec)
    requires
        v.on,
    ensures
        v.canvas_for(spec).0 == v.canvas.0,
        v.canvas_for(spec).1 == v.canvas.1,
{
}

/// The default canvas can be had, and whatever quality of the catalog is chosen or
/// opened, the canvas can be had after it.
pub proof fn canvas_can_always_be_had(v: Vcam, i: int)
    requires
        0 <= i < QUALITIES,
        v.canvas_ok(),
    ensures
        (Vcam { canvas: (1920u32, 1080u32, 30u32), ..v }).canvas_ok(),
        (Vcam { canvas: v.canvas_for(quality_at(i)), ..v }).canvas_ok(),
        forall|fps: u32|
            #[trigger] (Vcam {
                canvas: (quality_at(i).width, quality_at(i).height, fps),
                ..v
            }).canvas_ok(),
{
    catalog_fits_ring(i);
    assert(1920 * 1080 == 2073600);
}

/// Every quality of the catalog is a size that a ring can have.
pub proof fn catalog_fits_ring(i: int)
    requires
        0 <= i < QUALITIES,
    ensures
        even_size(quality_at(i).width as int, quality_at(i).height as int),
        ring_len(quality_at(i).width as int, quality_at(i).height as int) <= u32::MAX,
        nv12_len(quality_at(i).width as int, quality_at(i).height as int) <= u32::MAX,
{
    catalog_is_a_grid(i);
    let k = i / 6;
    assert(k == 0 || k == 1 || k == 2 || k == 3 || k == 4);
    assert(854 * 480 == 409920 && 1280 * 720 == 921600 && 1920 * 1080 == 2073600 && 2560 * 1440
        == 3686400 && 3840 * 2160 == 8294400);
}

/// A camera that is off takes the size and the rate that are chosen; one that is on takes
/// the rate where the size is its own, and stays as it is otherwise.
pub proof fn cameras_take_their_format(v: Vcam, spec: QualitySpec)
    ensures
        !v.on ==> v.canvas_for(spec) == (spec.width, spec.height, spec.fps),
        v.on && v.canvas.0 == spec.width && v.canvas.1 == spec.height ==> v.canvas_for(spec) == (
            v.canvas.0,
            v.canvas.1,
            spec.fps,
        ),
        v.on && (v.canvas.0 != spec.width || v.canvas.1 != spec.height) ==> v.canvas_for(spec)
            == v.canvas,
{
}

/// A ring serves a size where it declares that size and has the length for it, as far as
/// its length is known.
pub proof fn rings_are_kept_where_they_fit(layout: Option<(u32, u32, u32)>, n: u64, w: u32, h: u32)
    ensures
        !replace_for(layout, n, w, h) <==> (layout matches Some(l) && l.0 == w && l.1 == h && (n == 0
            || n == ring_len(w as int, h as int))),
{
}

} // verus!
