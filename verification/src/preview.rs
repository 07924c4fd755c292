//! The desktop preview and what the stream looks like.
//!
//! The preview is a branch of its own: skipped, scaled down or native, with a
//! frame rate cap. The virtual camera and recordings stay native. Auto is a
//! 720p preview while nothing else runs, and is skipped while the virtual camera
//! or a recording does. Every picture for the preview keeps its long edge at or
//! below 1920.
//!
//! Times are in nanoseconds. Rates and percentages are single-precision numbers.

use crate::float::{
    a_second_is_one, float, integers_compare, integers_compute, least, most, products_keep_order,
    ratio, ratio_is_positive, ratios_keep_order, seconds, times, zero, Single,
};
use crate::text::{decimal, digit, push_decimal, same};
use vstd::prelude::*;
use vstd::string::*;

verus! {

/// How the preview is made. Applies even while idle, but for Auto, which follows load.
#[derive(Clone, Copy, Debug, PartialEq, Eq, Structural)]
pub enum PreviewEncoding {
    Auto,
    Off,
    P480_30,
    P480_60,
    P720_30,
    P720_60,
    P1080_30,
    P1080_60,
    P1440_30,
    P1440_60,
    P2160_30,
    P2160_60,
    Native,
}

/// What is done with a frame for the preview.
#[derive(Clone, Copy, Debug, PartialEq, Eq, Structural)]
pub struct PreviewPlan {
    pub skip_always: bool,
    pub native: bool,
    pub max_long: usize,
    /// Frames per second at most.
    pub max_fps: Option<u32>,
}

impl PreviewPlan {
    /// A large source is scaled down, whatever was asked for.
    pub open spec fn clamped(self, src_long: u32) -> PreviewPlan {
        if src_long > 1920 {
            PreviewPlan {
                native: false,
                max_long: if self.max_long < 1920 {
                    self.max_long
                } else {
                    1920
                },
                ..self
            }
        } else {
            self
        }
    }

    /// Keeps the preview of a source with a long edge above 1920 at 1920. A
    /// native preview of that size could exhaust the machine.
    pub fn clamp_for_source(self, src_long: u32) -> (r: PreviewPlan)
        ensures
            r == self.clamped(src_long),
    {
        if src_long > 1920 {
            PreviewPlan {
                skip_always: self.skip_always,
                native: false,
                max_long: if self.max_long < 1920 {
                    self.max_long
                } else {
                    1920
                },
                max_fps: self.max_fps,
            }
        } else {
            self
        }
    }
}

/// Seven tenths of a frame rate, within 14 and 36.
pub open spec fn slow_floor(quality_fps: u32) -> Single {
    least(most(times(float(quality_fps as int), ratio(7, 10)), float(14)), float(36))
}

/// Decoding below this rate means that the preview starves it.
pub fn slow_preview_floor(quality_fps: u32) -> (r: Single)
    ensures
        r == slow_floor(quality_fps),
{
    let f: Single = Single::of(quality_fps as u64).times(Single::ratio(7, 10));
    f.most(Single::of(14)).least(Single::of(36))
}

/// True of a rate at which frames come, but far below the chosen one.
pub open spec fn is_slow(fps: Single, quality_fps: u32) -> bool {
    ratio(5, 100).bits < fps.bits < slow_floor(quality_fps).bits
}

/// True where frames still come, but far below the chosen rate. A stall is
/// not that: where the last frame is older than a second and a half, or there was
/// none, the stream holds a gap.
pub fn preview_decode_too_slow(
    fps: Single,
    quality_fps: u32,
    last_frame_age: Option<u64>,
) -> (r: bool)
    ensures
        r == match last_frame_age {
            None => false,
            Some(age) => age <= 1_500_000_000 && is_slow(fps, quality_fps),
        },
{
    match last_frame_age {
        None => false,
        Some(age) => age <= 1_500_000_000 && fps.bits > Single::ratio(5, 100).bits && fps.bits
            < slow_preview_floor(quality_fps).bits,
    }
}

/// A rate from 36 on is never too slow, and one below 14 always is, as long as frames
/// come at all. Where more was asked for, no fewer rates are too slow.
pub proof fn slow_rates(fps: Single, quality_fps: u32, more: u32)
    requires
        quality_fps <= more,
    ensures
        fps.reaches(36) ==> !is_slow(fps, quality_fps),
        !fps.reaches(14) && fps.bits > ratio(5, 100).bits ==> is_slow(fps, quality_fps),
        is_slow(fps, quality_fps) ==> is_slow(fps, more),
{
    integers_compare(14, 36);
    ratios_keep_order(quality_fps as int, 1, more as int, 1);
    products_keep_order(float(quality_fps as int), float(more as int), ratio(7, 10));
}

impl PreviewEncoding {
    /// The number of a mode.
    pub open spec fn number(self) -> u8 {
        match self {
            PreviewEncoding::Auto => 0,
            PreviewEncoding::Off => 1,
            PreviewEncoding::P480_30 => 2,
            PreviewEncoding::P480_60 => 3,
            PreviewEncoding::P720_30 => 4,
            PreviewEncoding::P720_60 => 5,
            PreviewEncoding::P1080_30 => 6,
            PreviewEncoding::P1080_60 => 7,
            PreviewEncoding::P1440_30 => 8,
            PreviewEncoding::P1440_60 => 9,
            PreviewEncoding::P2160_30 => 10,
            PreviewEncoding::P2160_60 => 11,
            PreviewEncoding::Native => 12,
        }
    }

    /// The number of a mode.
    pub fn to_u8(self) -> (r: u8)
        ensures
            r == self.number(),
    {
        match self {
            PreviewEncoding::Auto => 0,
            PreviewEncoding::Off => 1,
            PreviewEncoding::P480_30 => 2,
            PreviewEncoding::P480_60 => 3,
            PreviewEncoding::P720_30 => 4,
            PreviewEncoding::P720_60 => 5,
            PreviewEncoding::P1080_30 => 6,
            PreviewEncoding::P1080_60 => 7,
            PreviewEncoding::P1440_30 => 8,
            PreviewEncoding::P1440_60 => 9,
            PreviewEncoding::P2160_30 => 10,
            PreviewEncoding::P2160_60 => 11,
            PreviewEncoding::Native => 12,
        }
    }

    /// The mode with a number; Auto where no mode holds it.
    pub open spec fn of_number(v: u8) -> PreviewEncoding {
        if v == 1 {
            PreviewEncoding::Off
        } else if v == 2 {
            PreviewEncoding::P480_30
        } else if v == 3 {
            PreviewEncoding::P480_60
        } else if v == 4 {
            PreviewEncoding::P720_30
        } else if v == 5 {
            PreviewEncoding::P720_60
        } else if v == 6 {
            PreviewEncoding::P1080_30
        } else if v == 7 {
            PreviewEncoding::P1080_60
        } else if v == 8 {
            PreviewEncoding::P1440_30
        } else if v == 9 {
            PreviewEncoding::P1440_60
        } else if v == 10 {
            PreviewEncoding::P2160_30
        } else if v == 11 {
            PreviewEncoding::P2160_60
        } else if v == 12 {
            PreviewEncoding::Native
        } else {
            PreviewEncoding::Auto
        }
    }

    /// The mode with a number; Auto where no mode holds it.
    pub fn from_u8(v: u8) -> (r: PreviewEncoding)
        ensures
            r == PreviewEncoding::of_number(v),
    {
        match v {
            1 => PreviewEncoding::Off,
            2 => PreviewEncoding::P480_30,
            3 => PreviewEncoding::P480_60,
            4 => PreviewEncoding::P720_30,
            5 => PreviewEncoding::P720_60,
            6 => PreviewEncoding::P1080_30,
            7 => PreviewEncoding::P1080_60,
            8 => PreviewEncoding::P1440_30,
            9 => PreviewEncoding::P1440_60,
            10 => PreviewEncoding::P2160_30,
            11 => PreviewEncoding::P2160_60,
            12 => PreviewEncoding::Native,
            _ => PreviewEncoding::Auto,
        }
    }

    /// All modes, in the order of their numbers.
    pub fn all() -> (r: Vec<PreviewEncoding>)
        ensures
            r@.len() == 13,
            forall|i: int| 0 <= i < 13 ==> r@[i] == PreviewEncoding::of_number(i as u8),
    {
        let mut r: Vec<PreviewEncoding> = Vec::new();
        let mut i: u8 = 0;
        while i < 13
            invariant
                i <= 13,
                r@.len() == i,
                forall|k: int| 0 <= k < i ==> r@[k] == PreviewEncoding::of_number(k as u8),
            decreases 13 - i,
        {
            r.push(PreviewEncoding::from_u8(i));
            i += 1;
        }
        r
    }

    /// The name of a mode.
    pub open spec fn name(self) -> Seq<char> {
        match self {
            PreviewEncoding::Auto => "Auto"@,
            PreviewEncoding::Off => "Off"@,
            PreviewEncoding::P480_30 => "480p 30"@,
            PreviewEncoding::P480_60 => "480p 60"@,
            PreviewEncoding::P720_30 => "720p 30"@,
            PreviewEncoding::P720_60 => "720p 60"@,
            PreviewEncoding::P1080_30 => "1080p 30"@,
            PreviewEncoding::P1080_60 => "1080p 60"@,
            PreviewEncoding::P1440_30 => "1440p 30"@,
            PreviewEncoding::P1440_60 => "1440p 60"@,
            PreviewEncoding::P2160_30 => "4K 30"@,
            PreviewEncoding::P2160_60 => "4K 60"@,
            PreviewEncoding::Native => "Native"@,
        }
    }

    /// The name of a mode.
    pub fn label(self) -> (r: &'static str)
        ensures
            r@ == self.name(),
    {
        match self {
            PreviewEncoding::Auto => "Auto",
            PreviewEncoding::Off => "Off",
            PreviewEncoding::P480_30 => "480p 30",
            PreviewEncoding::P480_60 => "480p 60",
            PreviewEncoding::P720_30 => "720p 30",
            PreviewEncoding::P720_60 => "720p 60",
            PreviewEncoding::P1080_30 => "1080p 30",
            PreviewEncoding::P1080_60 => "1080p 60",
            PreviewEncoding::P1440_30 => "1440p 30",
            PreviewEncoding::P1440_60 => "1440p 60",
            PreviewEncoding::P2160_30 => "4K 30",
            PreviewEncoding::P2160_60 => "4K 60",
            PreviewEncoding::Native => "Native",
        }
    }

    /// The long edge that a mode is for. Zero for those that fit any source.
    pub open spec fn long_edge(self) -> u32 {
        match self {
            PreviewEncoding::Auto | PreviewEncoding::Off | PreviewEncoding::Native => 0,
            PreviewEncoding::P480_30 | PreviewEncoding::P480_60 => 854,
            PreviewEncoding::P720_30 | PreviewEncoding::P720_60 => 1280,
            PreviewEncoding::P1080_30 | PreviewEncoding::P1080_60 => 1920,
            PreviewEncoding::P1440_30 | PreviewEncoding::P1440_60 => 2560,
            PreviewEncoding::P2160_30 | PreviewEncoding::P2160_60 => 3840,
        }
    }

    /// The long edge that a source must have for a mode with a size.
    pub fn min_src_long(self) -> (r: u32)
        ensures
            r == self.long_edge(),
    {
        match self {
            PreviewEncoding::Auto | PreviewEncoding::Off | PreviewEncoding::Native => 0,
            PreviewEncoding::P480_30 | PreviewEncoding::P480_60 => 854,
            PreviewEncoding::P720_30 | PreviewEncoding::P720_60 => 1280,
            PreviewEncoding::P1080_30 | PreviewEncoding::P1080_60 => 1920,
            PreviewEncoding::P1440_30 | PreviewEncoding::P1440_60 => 2560,
            PreviewEncoding::P2160_30 | PreviewEncoding::P2160_60 => 3840,
        }
    }

    /// True where a source is large enough for a mode. Of a source that is not
    /// known yet, nothing is held against any mode.
    pub fn fits(self, src_long: u32) -> (r: bool)
        ensures
            r == (self.long_edge() == 0 || src_long == 0 || self.long_edge() <= src_long),
    {
        let need: u32 = self.min_src_long();
        need == 0 || src_long == 0 || need <= src_long
    }

    /// What a mode asks for when nothing stands against it.
    pub open spec fn asks_for(self) -> PreviewPlan {
        match self {
            PreviewEncoding::Auto => PreviewPlan { skip_always: false, native: false, max_long: 1280, max_fps: Some(30) },
            PreviewEncoding::Off => PreviewPlan { skip_always: true, native: false, max_long: 2, max_fps: None },
            PreviewEncoding::P480_30 => PreviewPlan { skip_always: false, native: false, max_long: 854, max_fps: Some(30) },
            PreviewEncoding::P480_60 => PreviewPlan { skip_always: false, native: false, max_long: 854, max_fps: Some(60) },
            PreviewEncoding::P720_30 => PreviewPlan { skip_always: false, native: false, max_long: 1280, max_fps: Some(30) },
            PreviewEncoding::P720_60 => PreviewPlan { skip_always: false, native: false, max_long: 1280, max_fps: Some(60) },
            PreviewEncoding::P1080_30 => PreviewPlan { skip_always: false, native: false, max_long: 1920, max_fps: Some(30) },
            PreviewEncoding::P1080_60 => PreviewPlan { skip_always: false, native: false, max_long: 1920, max_fps: Some(60) },
            PreviewEncoding::P1440_30 => PreviewPlan { skip_always: false, native: false, max_long: 1920, max_fps: Some(30) },
            PreviewEncoding::P1440_60 => PreviewPlan { skip_always: false, native: false, max_long: 1920, max_fps: Some(60) },
            PreviewEncoding::P2160_30 => PreviewPlan { skip_always: false, native: false, max_long: 1920, max_fps: Some(30) },
            PreviewEncoding::P2160_60 => PreviewPlan { skip_always: false, native: false, max_long: 1920, max_fps: Some(60) },
            PreviewEncoding::Native => PreviewPlan { skip_always: false, native: true, max_long: 1920, max_fps: Some(60) },
        }
    }

    /// What a mode asks for when nothing stands against it.
    pub fn explicit_plan(self) -> (r: PreviewPlan)
        ensures
            r == self.asks_for(),
    {
        match self {
            PreviewEncoding::Auto => PreviewPlan { skip_always: false, native: false, max_long: 1280, max_fps: Some(30) },
            PreviewEncoding::Off => PreviewPlan { skip_always: true, native: false, max_long: 2, max_fps: None },
            PreviewEncoding::P480_30 => PreviewPlan { skip_always: false, native: false, max_long: 854, max_fps: Some(30) },
            PreviewEncoding::P480_60 => PreviewPlan { skip_always: false, native: false, max_long: 854, max_fps: Some(60) },
            PreviewEncoding::P720_30 => PreviewPlan { skip_always: false, native: false, max_long: 1280, max_fps: Some(30) },
            PreviewEncoding::P720_60 => PreviewPlan { skip_always: false, native: false, max_long: 1280, max_fps: Some(60) },
            PreviewEncoding::P1080_30 => PreviewPlan { skip_always: false, native: false, max_long: 1920, max_fps: Some(30) },
            PreviewEncoding::P1080_60 => PreviewPlan { skip_always: false, native: false, max_long: 1920, max_fps: Some(60) },
            PreviewEncoding::P1440_30 => PreviewPlan { skip_always: false, native: false, max_long: 1920, max_fps: Some(30) },
            PreviewEncoding::P1440_60 => PreviewPlan { skip_always: false, native: false, max_long: 1920, max_fps: Some(60) },
            PreviewEncoding::P2160_30 => PreviewPlan { skip_always: false, native: false, max_long: 1920, max_fps: Some(30) },
            PreviewEncoding::P2160_60 => PreviewPlan { skip_always: false, native: false, max_long: 1920, max_fps: Some(60) },
            PreviewEncoding::Native => PreviewPlan { skip_always: false, native: true, max_long: 1920, max_fps: Some(60) },
        }
    }
}

/// What modes ask for. None asks for a long edge beyond 1920; only Off does
/// without pictures, and only Native takes the source's own size. A mode with a
/// size asks for that size as far as 1920 goes, and for the rate that it is named
/// after. Auto asks for 1280 at 30 frames a second, and Native for 60.
pub proof fn plan_laws(e: PreviewEncoding)
    ensures
        e.asks_for().max_long <= 1920,
        e.asks_for().skip_always <==> e == PreviewEncoding::Off,
        e.asks_for().native <==> e == PreviewEncoding::Native,
        e.long_edge() > 0 ==> e.asks_for().max_long == if e.long_edge() < 1920 {
            e.long_edge() as int
        } else {
            1920
        },
        e is P480_30 || e is P720_30 || e is P1080_30 || e is P1440_30 || e is P2160_30
            ==> e.asks_for().max_fps == Some(30u32),
        e is P480_60 || e is P720_60 || e is P1080_60 || e is P1440_60 || e is P2160_60
            ==> e.asks_for().max_fps == Some(60u32),
        e == PreviewEncoding::Auto ==> e.asks_for().max_long == 1280 && e.asks_for().max_fps
            == Some(30u32),
        e == PreviewEncoding::Native ==> e.asks_for().max_long == 1920 && e.asks_for().max_fps
            == Some(60u32),
        e.asks_for().max_fps is None <==> e == PreviewEncoding::Off,
{
}

/// Modes and numbers correspond.
pub proof fn mode_numbers_roundtrip(e: PreviewEncoding)
    ensures
        PreviewEncoding::of_number(e.number()) == e,
        e.number() < 13,
{
}

/// A picture for the preview. Each pixel is red, green and blue in the low 24 bits.
pub struct RgbFrame {
    pub width: u32,
    pub height: u32,
    pub pixels: Vec<u32>,
    pub seq: u64,
}

/// The latest picture for the preview, until someone takes it.
pub struct FrameSlot {
    pub frame: Option<RgbFrame>,
}

impl Default for FrameSlot {
    fn default() -> (r: FrameSlot)
        ensures
            r.frame is None,
    {
        FrameSlot { frame: None }
    }
}

/// Whether the phone can do something.
#[derive(Clone, Copy, Debug, PartialEq, Eq, Structural)]
pub enum Avail {
    Unknown,
    Yes,
    No,
}

impl Avail {
    /// What an answer that may be missing says.
    pub fn from_opt(v: Option<bool>) -> (r: Avail)
        ensures
            r == match v {
                Some(true) => Avail::Yes,
                Some(false) => Avail::No,
                None => Avail::Unknown,
            },
    {
        match v {
            Some(b) => if b {
                Avail::Yes
            } else {
                Avail::No
            },
            None => Avail::Unknown,
        }
    }

    /// Whether one of two things can be done.
    pub open spec fn or(self, other: Avail) -> Avail {
        if self == Avail::Yes || other == Avail::Yes {
            Avail::Yes
        } else if self == Avail::Unknown || other == Avail::Unknown {
            Avail::Unknown
        } else {
            Avail::No
        }
    }

    /// Whether one of two things can be done.
    pub fn fold(self, other: Avail) -> (r: Avail)
        ensures
            r == self.or(other),
    {
        if self == Avail::Yes || other == Avail::Yes {
            Avail::Yes
        } else if self == Avail::Unknown || other == Avail::Unknown {
            Avail::Unknown
        } else {
            Avail::No
        }
    }
}

/// The order in which answers are put together does not matter. One Yes decides,
/// and a No adds nothing.
pub proof fn avail_fold_laws(a: Avail, b: Avail, c: Avail)
    ensures
        a.or(b) == b.or(a),
        a.or(b).or(c) == a.or(b.or(c)),
        a.or(a) == a,
        a.or(Avail::No) == a,
        a.or(Avail::Yes) == Avail::Yes,
{
}

/// Something to choose on the phone.
pub struct CameraItem {
    pub id: String,
    pub label: String,
    pub available: Avail,
}

/// What an item holds.
pub ghost struct ItemModel {
    pub id: Seq<char>,
    pub label: Seq<char>,
    pub available: Avail,
}

impl View for CameraItem {
    type V = ItemModel;

    open spec fn view(&self) -> ItemModel {
        ItemModel { id: self.id@, label: self.label@, available: self.available }
    }
}

/// The models of a list of items.
pub open spec fn items_view(v: Seq<CameraItem>) -> Seq<ItemModel> {
    v.map_values(|c: CameraItem| c@)
}

impl Default for CameraItem {
    fn default() -> (r: CameraItem)
        ensures
            r@ == (ItemModel { id: Seq::empty(), label: Seq::empty(), available: Avail::Unknown }),
    {
        CameraItem { id: String::new(), label: String::new(), available: Avail::Unknown }
    }
}

/// A quality that the phone, the preview and the virtual camera can be set to.
#[derive(Clone, Copy, Debug)]
pub struct QualitySpec {
    pub id: &'static str,
    pub label: &'static str,
    pub width: u32,
    pub height: u32,
    pub fps: u32,
}

/// How many qualities there are.
pub const QUALITIES: usize = 30;

pub const DEFAULT_QUALITY_ID: &'static str = "1080p30";

pub const DEFAULT_CAMERA_FMT: u8 = 15;

/// The sizes of the qualities: width and height.
pub open spec fn size_of(k: int) -> (u32, u32) {
    if k == 0 {
        (854, 480)
    } else if k == 1 {
        (1280, 720)
    } else if k == 2 {
        (1920, 1080)
    } else if k == 3 {
        (2560, 1440)
    } else {
        (3840, 2160)
    }
}

/// The frame rates of the qualities.
pub open spec fn rate_of(k: int) -> u32 {
    if k == 0 {
        15
    } else if k == 1 {
        24
    } else if k == 2 {
        25
    } else if k == 3 {
        30
    } else if k == 4 {
        50
    } else {
        60
    }
}

/// The sizes of the qualities: width and height.
pub fn quality_sizes() -> (r: [(u32, u32); 5])
    ensures
        forall|k: int| 0 <= k < 5 ==> r@[k] == size_of(k),
{
    [(854, 480), (1280, 720), (1920, 1080), (2560, 1440), (3840, 2160)]
}

/// The frame rates of the qualities.
pub fn quality_fps() -> (r: [u32; 6])
    ensures
        forall|k: int| 0 <= k < 6 ==> r@[k] == rate_of(k),
{
    [15, 24, 25, 30, 50, 60]
}

/// The qualities by number: sizes in order, and for each size the rates in order.
pub open spec fn quality_at(i: int) -> QualitySpec {
    if i == 0 {
        QualitySpec { id: "480p15", label: "480p 15 fps", width: 854, height: 480, fps: 15 }
    } else if i == 1 {
        QualitySpec { id: "480p24", label: "480p 24 fps", width: 854, height: 480, fps: 24 }
    } else if i == 2 {
        QualitySpec { id: "480p25", label: "480p 25 fps", width: 854, height: 480, fps: 25 }
    } else if i == 3 {
        QualitySpec { id: "480p30", label: "480p 30 fps", width: 854, height: 480, fps: 30 }
    } else if i == 4 {
        QualitySpec { id: "480p50", label: "480p 50 fps", width: 854, height: 480, fps: 50 }
    } else if i == 5 {
        QualitySpec { id: "480p60", label: "480p 60 fps", width: 854, height: 480, fps: 60 }
    } else if i == 6 {
        QualitySpec { id: "720p15", label: "720p 15 fps", width: 1280, height: 720, fps: 15 }
    } else if i == 7 {
        QualitySpec { id: "720p24", label: "720p 24 fps", width: 1280, height: 720, fps: 24 }
    } else if i == 8 {
        QualitySpec { id: "720p25", label: "720p 25 fps", width: 1280, height: 720, fps: 25 }
    } else if i == 9 {
        QualitySpec { id: "720p30", label: "720p 30 fps", width: 1280, height: 720, fps: 30 }
    } else if i == 10 {
        QualitySpec { id: "720p50", label: "720p 50 fps", width: 1280, height: 720, fps: 50 }
    } else if i == 11 {
        QualitySpec { id: "720p60", label: "720p 60 fps", width: 1280, height: 720, fps: 60 }
    } else if i == 12 {
        QualitySpec { id: "1080p15", label: "1080p 15 fps", width: 1920, height: 1080, fps: 15 }
    } else if i == 13 {
        QualitySpec { id: "1080p24", label: "1080p 24 fps", width: 1920, height: 1080, fps: 24 }
    } else if i == 14 {
        QualitySpec { id: "1080p25", label: "1080p 25 fps", width: 1920, height: 1080, fps: 25 }
    } else if i == 15 {
        QualitySpec { id: "1080p30", label: "1080p 30 fps \u{2014} recommended", width: 1920, height: 1080, fps: 30 }
    } else if i == 16 {
        QualitySpec { id: "1080p50", label: "1080p 50 fps", width: 1920, height: 1080, fps: 50 }
    } else if i == 17 {
        QualitySpec { id: "1080p60", label: "1080p 60 fps", width: 1920, height: 1080, fps: 60 }
    } else if i == 18 {
        QualitySpec { id: "1440p15", label: "1440p 15 fps", width: 2560, height: 1440, fps: 15 }
    } else if i == 19 {
        QualitySpec { id: "1440p24", label: "1440p 24 fps", width: 2560, height: 1440, fps: 24 }
    } else if i == 20 {
        QualitySpec { id: "1440p25", label: "1440p 25 fps", width: 2560, height: 1440, fps: 25 }
    } else if i == 21 {
        QualitySpec { id: "1440p30", label: "1440p 30 fps", width: 2560, height: 1440, fps: 30 }
    } else if i == 22 {
        QualitySpec { id: "1440p50", label: "1440p 50 fps", width: 2560, height: 1440, fps: 50 }
    } else if i == 23 {
        QualitySpec { id: "1440p60", label: "1440p 60 fps", width: 2560, height: 1440, fps: 60 }
    } else if i == 24 {
        QualitySpec { id: "2160p15", label: "4K 15 fps", width: 3840, height: 2160, fps: 15 }
    } else if i == 25 {
        QualitySpec { id: "2160p24", label: "4K 24 fps", width: 3840, height: 2160, fps: 24 }
    } else if i == 26 {
        QualitySpec { id: "2160p25", label: "4K 25 fps", width: 3840, height: 2160, fps: 25 }
    } else if i == 27 {
        QualitySpec { id: "2160p30", label: "4K 30 fps \u{2014} needs strong Wi-Fi", width: 3840, height: 2160, fps: 30 }
    } else if i == 28 {
        QualitySpec { id: "2160p50", label: "4K 50 fps \u{2014} needs strong Wi-Fi", width: 3840, height: 2160, fps: 50 }
    } else {
        QualitySpec { id: "2160p60", label: "4K 60 fps \u{2014} needs strong Wi-Fi", width: 3840, height: 2160, fps: 60 }
    }
}

/// The quality with a number.
fn quality(i: usize) -> (r: QualitySpec)
    requires
        i < QUALITIES,
    ensures
        r == quality_at(i as int),
{
    match i {
        0 => QualitySpec { id: "480p15", label: "480p 15 fps", width: 854, height: 480, fps: 15 },
        1 => QualitySpec { id: "480p24", label: "480p 24 fps", width: 854, height: 480, fps: 24 },
        2 => QualitySpec { id: "480p25", label: "480p 25 fps", width: 854, height: 480, fps: 25 },
        3 => QualitySpec { id: "480p30", label: "480p 30 fps", width: 854, height: 480, fps: 30 },
        4 => QualitySpec { id: "480p50", label: "480p 50 fps", width: 854, height: 480, fps: 50 },
        5 => QualitySpec { id: "480p60", label: "480p 60 fps", width: 854, height: 480, fps: 60 },
        6 => QualitySpec { id: "720p15", label: "720p 15 fps", width: 1280, height: 720, fps: 15 },
        7 => QualitySpec { id: "720p24", label: "720p 24 fps", width: 1280, height: 720, fps: 24 },
        8 => QualitySpec { id: "720p25", label: "720p 25 fps", width: 1280, height: 720, fps: 25 },
        9 => QualitySpec { id: "720p30", label: "720p 30 fps", width: 1280, height: 720, fps: 30 },
        10 => QualitySpec { id: "720p50", label: "720p 50 fps", width: 1280, height: 720, fps: 50 },
        11 => QualitySpec { id: "720p60", label: "720p 60 fps", width: 1280, height: 720, fps: 60 },
        12 => QualitySpec { id: "1080p15", label: "1080p 15 fps", width: 1920, height: 1080, fps: 15 },
        13 => QualitySpec { id: "1080p24", label: "1080p 24 fps", width: 1920, height: 1080, fps: 24 },
        14 => QualitySpec { id: "1080p25", label: "1080p 25 fps", width: 1920, height: 1080, fps: 25 },
        15 => QualitySpec { id: "1080p30", label: "1080p 30 fps \u{2014} recommended", width: 1920, height: 1080, fps: 30 },
        16 => QualitySpec { id: "1080p50", label: "1080p 50 fps", width: 1920, height: 1080, fps: 50 },
        17 => QualitySpec { id: "1080p60", label: "1080p 60 fps", width: 1920, height: 1080, fps: 60 },
        18 => QualitySpec { id: "1440p15", label: "1440p 15 fps", width: 2560, height: 1440, fps: 15 },
        19 => QualitySpec { id: "1440p24", label: "1440p 24 fps", width: 2560, height: 1440, fps: 24 },
        20 => QualitySpec { id: "1440p25", label: "1440p 25 fps", width: 2560, height: 1440, fps: 25 },
        21 => QualitySpec { id: "1440p30", label: "1440p 30 fps", width: 2560, height: 1440, fps: 30 },
        22 => QualitySpec { id: "1440p50", label: "1440p 50 fps", width: 2560, height: 1440, fps: 50 },
        23 => QualitySpec { id: "1440p60", label: "1440p 60 fps", width: 2560, height: 1440, fps: 60 },
        24 => QualitySpec { id: "2160p15", label: "4K 15 fps", width: 3840, height: 2160, fps: 15 },
        25 => QualitySpec { id: "2160p24", label: "4K 24 fps", width: 3840, height: 2160, fps: 24 },
        26 => QualitySpec { id: "2160p25", label: "4K 25 fps", width: 3840, height: 2160, fps: 25 },
        27 => QualitySpec { id: "2160p30", label: "4K 30 fps \u{2014} needs strong Wi-Fi", width: 3840, height: 2160, fps: 30 },
        28 => QualitySpec { id: "2160p50", label: "4K 50 fps \u{2014} needs strong Wi-Fi", width: 3840, height: 2160, fps: 50 },
        _ => QualitySpec { id: "2160p60", label: "4K 60 fps \u{2014} needs strong Wi-Fi", width: 3840, height: 2160, fps: 60 },
    }
}

/// The short name of a height.
pub open spec fn height_name(height: u32) -> Seq<char> {
    if height == 480 {
        "480p"@
    } else if height == 720 {
        "720p"@
    } else if height == 1080 {
        "1080p"@
    } else if height == 1440 {
        "1440p"@
    } else {
        "4K"@
    }
}

/// The short name of a height.
pub fn size_label(height: u32) -> (r: &'static str)
    ensures
        r@ == height_name(height),
{
    match height {
        480 => "480p",
        720 => "720p",
        1080 => "1080p",
        1440 => "1440p",
        _ => "4K",
    }
}

/// How a quality of that height and rate is called.
pub open spec fn id_for(height: u32, fps: u32) -> Seq<char> {
    decimal(
        if height >= 2160 {
            2160
        } else {
            height as nat
        },
    ) + "p"@ + decimal(fps as nat)
}

/// How a quality of that height and rate is called.
pub fn quality_id_for(height: u32, fps: u32) -> (r: String)
    ensures
        r@ == id_for(height, fps),
{
    let mut s: String = String::new();
    push_decimal(
        &mut s,
        if height >= 2160 {
            2160
        } else {
            height as u64
        },
    );
    s.append("p");
    push_decimal(&mut s, fps as u64);
    assert(s@ =~= id_for(height, fps));
    s
}

/// Where an item with that id first stands, at or behind `from`.
pub open spec fn item_at(items: Seq<ItemModel>, id: Seq<char>, from: int) -> Option<int>
    decreases items.len() - from,
{
    if from < 0 || from >= items.len() {
        None
    } else if items[from].id == id {
        Some(from)
    } else {
        item_at(items, id, from + 1)
    }
}

/// What is known of the item with an id: nothing where there is none.
pub open spec fn known_of(items: Seq<ItemModel>, id: Seq<char>) -> Avail {
    match item_at(items, id, 0) {
        Some(i) => items[i].available,
        None => Avail::Unknown,
    }
}

/// Where an item with that id first stands.
pub fn find_item(items: &[CameraItem], id: &str) -> (r: Option<usize>)
    ensures
        match r {
            Some(i) => i < items@.len() && item_at(items_view(items@), id@, 0) == Some(i as int),
            None => item_at(items_view(items@), id@, 0) is None,
        },
{
    let mut i: usize = 0;
    while i < items.len()
        invariant
            i <= items@.len(),
            item_at(items_view(items@), id@, 0) == item_at(items_view(items@), id@, i as int),
        decreases items@.len() - i,
    {
        if same(items[i].id.as_str(), id) {
            return Some(i);
        }
        i += 1;
    }
    None
}

/// What is known of the item with an id.
fn avail_of(items: &[CameraItem], id: &str) -> (r: Avail)
    ensures
        r == known_of(items_view(items@), id@),
{
    match find_item(items, id) {
        Some(i) => items[i].available,
        None => Avail::Unknown,
    }
}

/// What is known of the first `n` rates at a height, taken together.
pub open spec fn known_of_size(items: Seq<ItemModel>, height: u32, n: int) -> Avail
    decreases n,
{
    if n <= 0 {
        Avail::No
    } else {
        known_of_size(items, height, n - 1).or(known_of(items, id_for(height, rate_of(n - 1))))
    }
}

/// Whether the phone can do a size at any rate.
pub fn size_avail(items: &[CameraItem], height: u32) -> (r: Avail)
    ensures
        r == known_of_size(items_view(items@), height, 6),
{
    let rates: [u32; 6] = quality_fps();
    let mut r: Avail = Avail::No;
    let mut k: usize = 0;
    while k < 6
        invariant
            k <= 6,
            forall|k: int| 0 <= k < 6 ==> rates@[k] == rate_of(k),
            r == known_of_size(items_view(items@), height, k as int),
        decreases 6 - k,
    {
        let id: String = quality_id_for(height, rates[k]);
        r = r.fold(avail_of(items, id.as_str()));
        k += 1;
    }
    r
}

/// Whether the phone can do a size at a rate.
pub fn fps_avail(items: &[CameraItem], height: u32, fps: u32) -> (r: Avail)
    ensures
        r == known_of(items_view(items@), id_for(height, fps)),
{
    let id: String = quality_id_for(height, fps);
    avail_of(items, id.as_str())
}

/// The number of the quality with an id, at or behind `from`.
pub open spec fn number_of(id: Seq<char>, from: int) -> Option<int>
    decreases QUALITIES - from,
{
    if from < 0 || from >= QUALITIES {
        None
    } else if quality_at(from).id@ == id {
        Some(from)
    } else {
        number_of(id, from + 1)
    }
}

/// The number of the quality with an id.
fn find_quality(id: &str) -> (r: Option<usize>)
    ensures
        match r {
            Some(i) => i < QUALITIES && number_of(id@, 0) == Some(i as int),
            None => number_of(id@, 0) is None,
        },
{
    let mut i: usize = 0;
    while i < QUALITIES
        invariant
            i <= QUALITIES,
            number_of(id@, 0) == number_of(id@, i as int),
        decreases QUALITIES - i,
    {
        if same(quality(i).id, id) {
            return Some(i);
        }
        i += 1;
    }
    None
}

/// The quality with an id.
pub fn quality_by_id(id: &str) -> (r: Option<QualitySpec>)
    ensures
        r == match number_of(id@, 0) {
            Some(i) => Some(quality_at(i)),
            None => None,
        },
{
    match find_quality(id) {
        Some(i) => Some(quality(i)),
        None => None,
    }
}

/// The larger side of a quality.
pub open spec fn long_side(q: QualitySpec) -> u32 {
    if q.width >= q.height {
        q.width
    } else {
        q.height
    }
}

/// The larger side of the quality with an id, or 1920 where there is none.
pub fn quality_long_edge(id: &str) -> (r: u32)
    ensures
        r == match number_of(id@, 0) {
            Some(i) => long_side(quality_at(i)),
            None => 1920,
        },
{
    match quality_by_id(id) {
        Some(q) => if q.width >= q.height {
            q.width
        } else {
            q.height
        },
        None => 1920,
    }
}

/// True where one quality may take over from another: the size stays put while
/// the virtual camera or a recording runs, and a recording does not speed up.
pub open spec fn may_switch(
    current: QualitySpec,
    next: QualitySpec,
    vcam: bool,
    record: bool,
) -> bool {
    &&& vcam || record ==> next.width == current.width && next.height == current.height
    &&& record ==> next.fps <= current.fps
}

/// True where one quality may take over from another.
pub fn quality_allowed(current: &QualitySpec, next: &QualitySpec, vcam: bool, record: bool) -> (r:
    bool)
    ensures
        r == may_switch(*current, *next, vcam, record),
{
    if !vcam && !record {
        return true;
    }
    if next.width != current.width || next.height != current.height {
        return false;
    }
    if record && next.fps > current.fps {
        return false;
    }
    true
}

/// Whatever may follow while more runs may also follow while less does, and a
/// chain of allowed switches is allowed as a whole.
pub proof fn switches_compose(
    a: QualitySpec,
    b: QualitySpec,
    c: QualitySpec,
    vcam: bool,
    record: bool,
)
    ensures
        may_switch(a, a, vcam, record),
        may_switch(a, b, vcam, record) && may_switch(b, c, vcam, record) ==> may_switch(
            a,
            c,
            vcam,
            record,
        ),
        may_switch(a, b, true, true) ==> may_switch(a, b, vcam, record),
{
}

/// The quality with a number; the default where there is none.
pub fn quality_by_index(i: u8) -> (r: QualitySpec)
    ensures
        r == if i < QUALITIES {
            quality_at(i as int)
        } else {
            quality_at(DEFAULT_CAMERA_FMT as int)
        },
{
    if (i as usize) < QUALITIES {
        quality(i as usize)
    } else {
        quality(DEFAULT_CAMERA_FMT as usize)
    }
}

/// The number of the quality with an id, or of the default where there is none.
pub open spec fn index_for(id: Seq<char>) -> u8 {
    match number_of(id, 0) {
        Some(i) => i as u8,
        None => DEFAULT_CAMERA_FMT,
    }
}

/// The number of the quality with an id, or of the default where there is none.
pub fn quality_index(id: &str) -> (r: u8)
    ensures
        r == index_for(id@),
        r < QUALITIES,
{
    match find_quality(id) {
        Some(i) => i as u8,
        None => DEFAULT_CAMERA_FMT,
    }
}

/// The catalog as a list to choose from.
pub open spec fn catalog(available: Avail) -> Seq<ItemModel> {
    Seq::new(
        QUALITIES as nat,
        |i: int| ItemModel { id: quality_at(i).id@, label: quality_at(i).label@, available },
    )
}

/// The catalog as a list to choose from.
pub fn quality_catalog(available: Avail) -> (r: Vec<CameraItem>)
    ensures
        items_view(r@) == catalog(available),
{
    let mut r: Vec<CameraItem> = Vec::new();
    let mut i: usize = 0;
    while i < QUALITIES
        invariant
            i <= QUALITIES,
            r@.len() == i,
            forall|k: int| 0 <= k < i ==> (#[trigger] r@[k])@ == catalog(available)[k],
        decreases QUALITIES - i,
    {
        let q: QualitySpec = quality(i);
        r.push(CameraItem { id: q.id.to_owned(), label: q.label.to_owned(), available });
        i += 1;
    }
    assert(items_view(r@) =~= catalog(available));
    r
}

/// A list with one report merged in: the item with its id takes over what is
/// known and a label that is not empty; an item that is new goes to the end.
pub open spec fn merged_one(items: Seq<ItemModel>, r: ItemModel) -> Seq<ItemModel> {
    match item_at(items, r.id, 0) {
        Some(i) => items.update(
            i,
            ItemModel {
                id: items[i].id,
                label: if r.label.len() > 0 {
                    r.label
                } else {
                    items[i].label
                },
                available: r.available,
            },
        ),
        None => items.push(r),
    }
}

/// A list with the first `n` reports merged in, in order.
pub open spec fn merged(items: Seq<ItemModel>, reported: Seq<ItemModel>, n: int) -> Seq<ItemModel>
    decreases n,
{
    if n <= 0 {
        items
    } else {
        merged_one(merged(items, reported, n - 1), reported[n - 1])
    }
}

/// The catalog with what the phone reports merged in.
pub fn merge_qualities(reported: Vec<CameraItem>) -> (r: Vec<CameraItem>)
    ensures
        items_view(r@) == merged(
            catalog(Avail::Unknown),
            items_view(reported@),
            reported@.len() as int,
        ),
{
    let mut items: Vec<CameraItem> = quality_catalog(Avail::Unknown);
    let ghost all = items_view(reported@);
    let mut i: usize = 0;
    while i < reported.len()
        invariant
            i <= reported@.len(),
            all == items_view(reported@),
            items_view(items@) == merged(catalog(Avail::Unknown), all, i as int),
        decreases reported@.len() - i,
    {
        let ghost before = items@;
        let r: &CameraItem = &reported[i];
        assert(r@ == all[i as int]);
        match find_item(items.as_slice(), r.id.as_str()) {
            Some(k) => {
                let label: String = if r.label.as_str().is_empty() {
                    items[k].label.clone()
                } else {
                    r.label.clone()
                };
                let id: String = items[k].id.clone();
                items.set(k, CameraItem { id, label, available: r.available });
            },
            None => {
                items.push(
                    CameraItem {
                        id: r.id.clone(),
                        label: r.label.clone(),
                        available: r.available,
                    },
                );
            },
        }
        assert(items_view(items@) =~= merged_one(items_view(before), r@));
        i += 1;
    }
    items
}

/// Merging never loses an item: every quality of the catalog keeps its place.
pub proof fn merge_keeps_catalog(items: Seq<ItemModel>, reported: Seq<ItemModel>, n: int, k: int)
    requires
        0 <= n <= reported.len(),
        0 <= k < items.len(),
    ensures
        items.len() <= merged(items, reported, n).len(),
        merged(items, reported, n)[k].id == items[k].id,
    decreases n,
{
    if n > 0 {
        merge_keeps_catalog(items, reported, n - 1, k);
        let before = merged(items, reported, n - 1);
        item_at_bounds(before, reported[n - 1].id, 0);
    }
}

/// Where an item is found, it is, and none before it has its id.
pub proof fn item_at_bounds(items: Seq<ItemModel>, id: Seq<char>, from: int)
    requires
        0 <= from,
    ensures
        match item_at(items, id, from) {
            Some(i) => from <= i < items.len() && items[i].id == id,
            None => forall|k: int| from <= k < items.len() ==> (#[trigger] items[k]).id != id,
        },
    decreases items.len() - from,
{
    if from < items.len() && items[from].id != id {
        item_at_bounds(items, id, from + 1);
    }
}

/// After a report, what is known of its item is what it says.
pub proof fn merge_takes_report(items: Seq<ItemModel>, r: ItemModel)
    ensures
        known_of(merged_one(items, r), r.id) == r.available,
{
    item_at_bounds(items, r.id, 0);
    let z = merged_one(items, r);
    match item_at(items, r.id, 0) {
        Some(i) => {
            found_again(items, z, r.id, 0, i);
        },
        None => {
            found_again(items, z, r.id, 0, items.len() as int);
        },
    }
}

/// The first item with an id is found where it is.
proof fn found_again(a: Seq<ItemModel>, z: Seq<ItemModel>, id: Seq<char>, from: int, i: int)
    requires
        0 <= from <= i < z.len(),
        i <= a.len(),
        z[i].id == id,
        item_at(a, id, from) == Some(i) || (item_at(a, id, from) is None && i == a.len()),
        forall|k: int| 0 <= k < i ==> z[k].id == a[k].id,
    ensures
        item_at(z, id, from) == Some(i),
    decreases i - from,
{
    item_at_bounds(a, id, from);
    if from < i {
        if z[from].id == id {
            assert(a[from].id == id);
        }
        found_again(a, z, id, from + 1, i);
    }
}

/// The numbers in the catalog follow from its order: rates within sizes.
pub proof fn catalog_is_a_grid(i: int)
    requires
        0 <= i < QUALITIES,
    ensures
        (quality_at(i).width, quality_at(i).height) == size_of(i / 6),
        quality_at(i).fps == rate_of(i % 6),
{
}

/// The second character of an id tells the size, and the last two the rate.
proof fn id_marks(i: int)
    requires
        0 <= i < QUALITIES,
    ensures
        ({
            let s = quality_at(i).id@;
            let n = s.len() as int;
            let k = i / 6;
            let r = i % 6;
            &&& n >= 6
            &&& s[1] == if k == 0 {
                '8'
            } else if k == 1 {
                '2'
            } else if k == 2 {
                '0'
            } else if k == 3 {
                '4'
            } else {
                '1'
            }
            &&& s[n - 2] == if r == 0 {
                '1'
            } else if r <= 2 {
                '2'
            } else if r == 3 {
                '3'
            } else if r == 4 {
                '5'
            } else {
                '6'
            }
            &&& s[n - 1] == if r == 1 {
                '4'
            } else if r == 0 || r == 2 {
                '5'
            } else {
                '0'
            }
        }),
{
    reveal_strlit("480p15");
    reveal_strlit("480p24");
    reveal_strlit("480p25");
    reveal_strlit("480p30");
    reveal_strlit("480p50");
    reveal_strlit("480p60");
    reveal_strlit("720p15");
    reveal_strlit("720p24");
    reveal_strlit("720p25");
    reveal_strlit("720p30");
    reveal_strlit("720p50");
    reveal_strlit("720p60");
    reveal_strlit("1080p15");
    reveal_strlit("1080p24");
    reveal_strlit("1080p25");
    reveal_strlit("1080p30");
    reveal_strlit("1080p50");
    reveal_strlit("1080p60");
    reveal_strlit("1440p15");
    reveal_strlit("1440p24");
    reveal_strlit("1440p25");
    reveal_strlit("1440p30");
    reveal_strlit("1440p50");
    reveal_strlit("1440p60");
    reveal_strlit("2160p15");
    reveal_strlit("2160p24");
    reveal_strlit("2160p25");
    reveal_strlit("2160p30");
    reveal_strlit("2160p50");
    reveal_strlit("2160p60");
}

/// No two qualities share an id, so that ids and numbers correspond.
pub proof fn catalog_numbers_roundtrip(i: int)
    requires
        0 <= i < QUALITIES,
    ensures
        number_of(quality_at(i).id@, 0) == Some(i),
{
    assert forall|j: int| 0 <= j < i implies quality_at(j).id@ != quality_at(i).id@ by {
        id_marks(i);
        id_marks(j);
    }
    first_number(quality_at(i).id@, 0, i);
}

proof fn first_number(id: Seq<char>, from: int, i: int)
    requires
        0 <= from <= i < QUALITIES,
        quality_at(i).id@ == id,
        forall|j: int| 0 <= j < i ==> quality_at(j).id@ != id,
    ensures
        number_of(id, from) == Some(i),
    decreases i - from,
{
    if from < i {
        first_number(id, from + 1, i);
    }
}

/// The id of every quality is what its height and rate make it.
pub proof fn catalog_ids_follow(i: int)
    requires
        0 <= i < QUALITIES,
    ensures
        quality_at(i).id@ == id_for(quality_at(i).height, quality_at(i).fps),
{
    reveal_strlit("p");
    reveal_with_fuel(decimal, 5);
    let q = quality_at(i);
    let h = decimal(q.height as nat);
    let f = decimal(q.fps as nat);
    assert(f =~= seq![digit((q.fps / 10) as int), digit((q.fps % 10) as int)]);
    assert(h =~= if q.height < 1000 {
        seq![
            digit((q.height / 100) as int),
            digit((q.height / 10 % 10) as int),
            digit((q.height % 10) as int),
        ]
    } else {
        seq![
            digit((q.height / 1000) as int),
            digit((q.height / 100 % 10) as int),
            digit((q.height / 10 % 10) as int),
            digit((q.height % 10) as int),
        ]
    });
    if i == 0 {
        reveal_strlit("480p15");
        assert("480p15"@ =~= seq!['4', '8', '0', 'p', '1', '5']);
    } else if i == 1 {
        reveal_strlit("480p24");
        assert("480p24"@ =~= seq!['4', '8', '0', 'p', '2', '4']);
    } else if i == 2 {
        reveal_strlit("480p25");
        assert("480p25"@ =~= seq!['4', '8', '0', 'p', '2', '5']);
    } else if i == 3 {
        reveal_strlit("480p30");
        assert("480p30"@ =~= seq!['4', '8', '0', 'p', '3', '0']);
    } else if i == 4 {
        reveal_strlit("480p50");
        assert("480p50"@ =~= seq!['4', '8', '0', 'p', '5', '0']);
    } else if i == 5 {
        reveal_strlit("480p60");
        assert("480p60"@ =~= seq!['4', '8', '0', 'p', '6', '0']);
    } else if i == 6 {
        reveal_strlit("720p15");
        assert("720p15"@ =~= seq!['7', '2', '0', 'p', '1', '5']);
    } else if i == 7 {
        reveal_strlit("720p24");
        assert("720p24"@ =~= seq!['7', '2', '0', 'p', '2', '4']);
    } else if i == 8 {
        reveal_strlit("720p25");
        assert("720p25"@ =~= seq!['7', '2', '0', 'p', '2', '5']);
    } else if i == 9 {
        reveal_strlit("720p30");
        assert("720p30"@ =~= seq!['7', '2', '0', 'p', '3', '0']);
    } else if i == 10 {
        reveal_strlit("720p50");
        assert("720p50"@ =~= seq!['7', '2', '0', 'p', '5', '0']);
    } else if i == 11 {
        reveal_strlit("720p60");
        assert("720p60"@ =~= seq!['7', '2', '0', 'p', '6', '0']);
    } else if i == 12 {
        reveal_strlit("1080p15");
        assert("1080p15"@ =~= seq!['1', '0', '8', '0', 'p', '1', '5']);
    } else if i == 13 {
        reveal_strlit("1080p24");
        assert("1080p24"@ =~= seq!['1', '0', '8', '0', 'p', '2', '4']);
    } else if i == 14 {
        reveal_strlit("1080p25");
        assert("1080p25"@ =~= seq!['1', '0', '8', '0', 'p', '2', '5']);
    } else if i == 15 {
        reveal_strlit("1080p30");
        assert("1080p30"@ =~= seq!['1', '0', '8', '0', 'p', '3', '0']);
    } else if i == 16 {
        reveal_strlit("1080p50");
        assert("1080p50"@ =~= seq!['1', '0', '8', '0', 'p', '5', '0']);
    } else if i == 17 {
        reveal_strlit("1080p60");
        assert("1080p60"@ =~= seq!['1', '0', '8', '0', 'p', '6', '0']);
    } else if i == 18 {
        reveal_strlit("1440p15");
        assert("1440p15"@ =~= seq!['1', '4', '4', '0', 'p', '1', '5']);
    } else if i == 19 {
        reveal_strlit("1440p24");
        assert("1440p24"@ =~= seq!['1', '4', '4', '0', 'p', '2', '4']);
    } else if i == 20 {
        reveal_strlit("1440p25");
        assert("1440p25"@ =~= seq!['1', '4', '4', '0', 'p', '2', '5']);
    } else if i == 21 {
        reveal_strlit("1440p30");
        assert("1440p30"@ =~= seq!['1', '4', '4', '0', 'p', '3', '0']);
    } else if i == 22 {
        reveal_strlit("1440p50");
        assert("1440p50"@ =~= seq!['1', '4', '4', '0', 'p', '5', '0']);
    } else if i == 23 {
        reveal_strlit("1440p60");
        assert("1440p60"@ =~= seq!['1', '4', '4', '0', 'p', '6', '0']);
    } else if i == 24 {
        reveal_strlit("2160p15");
        assert("2160p15"@ =~= seq!['2', '1', '6', '0', 'p', '1', '5']);
    } else if i == 25 {
        reveal_strlit("2160p24");
        assert("2160p24"@ =~= seq!['2', '1', '6', '0', 'p', '2', '4']);
    } else if i == 26 {
        reveal_strlit("2160p25");
        assert("2160p25"@ =~= seq!['2', '1', '6', '0', 'p', '2', '5']);
    } else if i == 27 {
        reveal_strlit("2160p30");
        assert("2160p30"@ =~= seq!['2', '1', '6', '0', 'p', '3', '0']);
    } else if i == 28 {
        reveal_strlit("2160p50");
        assert("2160p50"@ =~= seq!['2', '1', '6', '0', 'p', '5', '0']);
    } else if i == 29 {
        reveal_strlit("2160p60");
        assert("2160p60"@ =~= seq!['2', '1', '6', '0', 'p', '6', '0']);
    }
    assert(q.id@ =~= h + "p"@ + f);
}

/// What is known of the stream.
pub struct StreamStats {
    pub first_frame: Option<u64>,
    pub last_frame: Option<u64>,
    pub decoded: u64,
    pub stalled: bool,
    pub codec: String,
    pub width: u32,
    pub height: u32,
    pub fps: Single,
    pub fps_count: u32,
    pub fps_origin: Option<u64>,
    pub ice: String,
    pub pc: String,
    pub rtp_gaps: u64,
    pub dropped_incomplete: u64,
    pub cameras: Vec<CameraItem>,
    pub selected_camera: String,
    pub qualities: Vec<CameraItem>,
    pub selected_quality: String,
    pub preview_w: u32,
    pub preview_h: u32,
    pub bitrate_kbps: Single,
    pub pkt_pps: Single,
    pub loss_pct: Single,
    pub decode_ms: Single,
    pub oom: bool,
    pub gaps_recent: u64,
    pub gaps_until: Option<u64>,
    pub drop_recent: u64,
    pub drop_until: Option<u64>,
    pub oom_until: Option<u64>,
}

/// How long an alert stays up.
pub const ALERT_HOLD: u64 = 8_000_000_000;

/// How long running out of memory stays up.
pub const OOM_HOLD: u64 = 12_000_000_000;

/// The time from `from` to `to`, none where `to` is earlier.
pub open spec fn since(from: u64, to: u64) -> u64 {
    if to >= from {
        (to - from) as u64
    } else {
        0
    }
}

/// A moment `by` later, as far as time goes.
pub open spec fn later(t: u64, by: u64) -> u64 {
    if t + by > u64::MAX {
        u64::MAX
    } else {
        (t + by) as u64
    }
}

/// So many nanoseconds in seconds, and at least a thousandth of one.
pub open spec fn span_of(ns: int) -> Single {
    most(seconds(ns), ratio(1, 1000))
}

/// So many nanoseconds in seconds, and at least a thousandth of one.
pub fn span(ns: u64) -> (r: Single)
    ensures
        r == span_of(ns as int),
        r.bits > 0,
{
    proof {
        ratio_is_positive(1, 1000);
    }
    Single::seconds(ns).most(Single::ratio(1, 1000))
}

/// So many in so many nanoseconds, per second.
pub open spec fn per_second(count: int, ns: int) -> Single {
    crate::float::over(float(count), span_of(ns))
}

/// So many in so many nanoseconds, per second.
pub fn rate(count: u64, ns: u64) -> (r: Single)
    ensures
        r == per_second(count as int, ns as int),
{
    Single::of(count).over(span(ns))
}

/// What comes in one second is its rate.
pub proof fn a_second_tells_the_rate(count: int)
    requires
        0 <= count <= 0x100_0000,
    ensures
        per_second(count, 1_000_000_000) == float(count),
{
    a_second_is_one();
    ratios_keep_order(1, 1000, 1, 1);
    integers_compute(count, 1);
}

/// One more, as far as a counter goes.
pub open spec fn one_more(n: u32) -> u32 {
    if n == u32::MAX {
        n
    } else {
        (n + 1) as u32
    }
}

/// True once an alert is over.
pub open spec fn over(until: Option<u64>, now: u64) -> bool {
    match until {
        Some(t) => now >= t,
        None => true,
    }
}

/// A count and the end of its alert after `n` more.
pub open spec fn alerted(recent: u64, until: Option<u64>, n: u64, now: u64) -> (u64, Option<u64>) {
    if n == 0 {
        (recent, until)
    } else {
        let base = if over(until, now) {
            0
        } else {
            recent
        };
        (later(base, n), Some(later(now, ALERT_HOLD)))
    }
}

/// What an alert shows.
pub open spec fn shown(recent: u64, until: Option<u64>, now: u64) -> Option<u64> {
    if over(until, now) || recent == 0 {
        None
    } else {
        Some(recent)
    }
}

impl StreamStats {
    /// With one more frame counted. The rate is taken anew once a second.
    pub open spec fn counted(self, now: u64) -> StreamStats {
        let n = one_more(self.fps_count);
        let first = match self.first_frame {
            Some(t) => Some(t),
            None => Some(now),
        };
        let s = StreamStats {
            first_frame: first,
            last_frame: Some(now),
            fps_count: n,
            ..self
        };
        match self.fps_origin {
            None => StreamStats {
                fps: per_second(n as int, 1_000_000_000),
                fps_count: 0,
                fps_origin: Some(now),
                ..s
            },
            Some(t) => if since(t, now) >= 1_000_000_000 {
                StreamStats {
                    fps: per_second(n as int, since(t, now) as int),
                    fps_count: 0,
                    fps_origin: Some(now),
                    ..s
                }
            } else {
                s
            },
        }
    }

    /// With so many gaps in all.
    pub open spec fn gaps_noted(self, total: u64, now: u64) -> StreamStats {
        let (n, t) = alerted(
            self.gaps_recent,
            self.gaps_until,
            since(self.rtp_gaps, total),
            now,
        );
        StreamStats { rtp_gaps: total, gaps_recent: n, gaps_until: t, ..self }
    }

    /// With so many dropped access units in all.
    pub open spec fn drops_noted(self, total: u64, now: u64) -> StreamStats {
        let (n, t) = alerted(
            self.drop_recent,
            self.drop_until,
            since(self.dropped_incomplete, total),
            now,
        );
        StreamStats { dropped_incomplete: total, drop_recent: n, drop_until: t, ..self }
    }

    /// With memory run out.
    pub open spec fn oom_noted(self, now: u64) -> StreamStats {
        StreamStats { oom: true, oom_until: Some(later(now, OOM_HOLD)), ..self }
    }

    /// Nothing known, and the catalog to choose from.
    pub open spec fn is_fresh(self) -> bool {
        &&& items_view(self.qualities@) == catalog(Avail::Unknown)
        &&& self.selected_quality@ == DEFAULT_QUALITY_ID@
        &&& self.first_frame is None && self.last_frame is None && self.fps_origin is None
        &&& self.decoded == 0 && !self.stalled && self.width == 0 && self.height == 0
        &&& self.fps == zero() && self.fps_count == 0
        &&& self.rtp_gaps == 0 && self.dropped_incomplete == 0
        &&& self.codec@ == Seq::<char>::empty() && self.ice@ == Seq::<char>::empty()
        &&& self.pc@ == Seq::<char>::empty()
        &&& items_view(self.cameras@) == Seq::<ItemModel>::empty()
        &&& self.selected_camera@ == Seq::<char>::empty()
        &&& self.preview_w == 0 && self.preview_h == 0
        &&& self.bitrate_kbps == zero() && self.pkt_pps == zero()
        &&& self.loss_pct == zero() && self.decode_ms == zero()
        &&& !self.oom && self.oom_until is None
        &&& self.gaps_recent == 0 && self.gaps_until is None
        &&& self.drop_recent == 0 && self.drop_until is None
    }

    /// Nothing known, and the catalog to choose from.
    pub fn fresh() -> (r: StreamStats)
        ensures
            r.is_fresh(),
    {
        let r: StreamStats = StreamStats {
            first_frame: None,
            last_frame: None,
            decoded: 0,
            stalled: false,
            codec: String::new(),
            width: 0,
            height: 0,
            fps: Single { bits: 0 },
            fps_count: 0,
            fps_origin: None,
            ice: String::new(),
            pc: String::new(),
            rtp_gaps: 0,
            dropped_incomplete: 0,
            cameras: Vec::new(),
            selected_camera: String::new(),
            qualities: quality_catalog(Avail::Unknown),
            selected_quality: DEFAULT_QUALITY_ID.to_owned(),
            preview_w: 0,
            preview_h: 0,
            bitrate_kbps: Single { bits: 0 },
            pkt_pps: Single { bits: 0 },
            loss_pct: Single { bits: 0 },
            decode_ms: Single { bits: 0 },
            oom: false,
            gaps_recent: 0,
            gaps_until: None,
            drop_recent: 0,
            drop_until: None,
            oom_until: None,
        };
        assert(items_view(r.cameras@) =~= Seq::empty());
        r
    }

    /// The stream is alive, even where no picture is made of it.
    pub fn pulse(&mut self, now: u64)
        ensures
            *final(self) == old(self).counted(now),
    {
        if self.first_frame.is_none() {
            self.first_frame = Some(now);
        }
        self.last_frame = Some(now);
        self.fps_count = self.fps_count.saturating_add(1);
        let dt: u64 = match self.fps_origin {
            None => 1_000_000_000,
            Some(t) => now.saturating_sub(t),
        };
        if dt >= 1_000_000_000 {
            self.fps = rate(self.fps_count as u64, dt);
            self.fps_count = 0;
            self.fps_origin = Some(now);
        }
    }

    /// A frame came out of the decoder.
    pub fn note_decoded(&mut self, now: u64)
        ensures
            *final(self) == (StreamStats {
                decoded: later(old(self).decoded, 1),
                ..old(self).counted(now)
            }),
    {
        self.pulse(now);
        self.decoded = self.decoded.saturating_add(1);
    }

    /// A picture went to the preview: its own size, and that of the stream.
    pub fn note_picture(&mut self, native: (u32, u32), preview: (u32, u32))
        ensures
            *final(self) == (StreamStats {
                width: native.0,
                height: native.1,
                preview_w: preview.0,
                preview_h: preview.1,
                ..*old(self)
            }),
    {
        self.width = native.0;
        self.height = native.1;
        self.preview_w = preview.0;
        self.preview_h = preview.1;
    }

    fn bump(recent: u64, until: Option<u64>, n: u64, now: u64) -> (r: (u64, Option<u64>))
        ensures
            r == alerted(recent, until, n, now),
    {
        if n == 0 {
            return (recent, until);
        }
        let done: bool = match until {
            Some(t) => now >= t,
            None => true,
        };
        let base: u64 = if done {
            0
        } else {
            recent
        };
        (base.saturating_add(n), Some(now.saturating_add(ALERT_HOLD)))
    }

    fn visible(recent: u64, until: Option<u64>, now: u64) -> (r: Option<u64>)
        ensures
            r == shown(recent, until, now),
    {
        match until {
            Some(t) => if now < t && recent > 0 {
                Some(recent)
            } else {
                None
            },
            None => None,
        }
    }

    /// Takes note of how many gaps there were in all.
    pub fn note_gaps(&mut self, total: u64, now: u64)
        ensures
            *final(self) == old(self).gaps_noted(total, now),
    {
        let added: u64 = total.saturating_sub(self.rtp_gaps);
        self.rtp_gaps = total;
        let (n, t) = Self::bump(self.gaps_recent, self.gaps_until, added, now);
        self.gaps_recent = n;
        self.gaps_until = t;
    }

    /// Takes note of how many access units were dropped in all.
    pub fn note_drops(&mut self, total: u64, now: u64)
        ensures
            *final(self) == old(self).drops_noted(total, now),
    {
        let added: u64 = total.saturating_sub(self.dropped_incomplete);
        self.dropped_incomplete = total;
        let (n, t) = Self::bump(self.drop_recent, self.drop_until, added, now);
        self.drop_recent = n;
        self.drop_until = t;
    }

    /// The decoder ran out of memory.
    pub fn note_oom(&mut self, now: u64)
        ensures
            *final(self) == old(self).oom_noted(now),
    {
        self.oom = true;
        self.oom_until = Some(now.saturating_add(OOM_HOLD));
    }

    /// Memory is no longer short.
    pub fn clear_oom(&mut self)
        ensures
            *final(self) == (StreamStats { oom: false, oom_until: None, ..*old(self) }),
    {
        self.oom = false;
        self.oom_until = None;
    }

    /// There is no picture in the preview.
    pub fn clear_preview_rgb(&mut self)
        ensures
            *final(self) == (StreamStats { preview_w: 0, preview_h: 0, ..*old(self) }),
    {
        self.preview_w = 0;
        self.preview_h = 0;
    }

    /// The gaps to show.
    pub fn visible_gaps(&self, now: u64) -> (r: Option<u64>)
        ensures
            r == shown(self.gaps_recent, self.gaps_until, now),
    {
        Self::visible(self.gaps_recent, self.gaps_until, now)
    }

    /// The drops to show.
    pub fn visible_drops(&self, now: u64) -> (r: Option<u64>)
        ensures
            r == shown(self.drop_recent, self.drop_until, now),
    {
        Self::visible(self.drop_recent, self.drop_until, now)
    }

    /// True while running out of memory is to be shown.
    pub fn oom_visible(&self, now: u64) -> (r: bool)
        ensures
            r == (self.oom && !over(self.oom_until, now)),
    {
        match self.oom_until {
            Some(t) => self.oom && now < t,
            None => false,
        }
    }
}

/// An alert goes up with the first new event, stays up for its time, and is then gone.
pub proof fn alerts_hold_and_end(recent: u64, until: Option<u64>, n: u64, now: u64, at: u64)
    requires
        n > 0,
        now + ALERT_HOLD <= u64::MAX,
    ensures
        ({
            let (r, t) = alerted(recent, until, n, now);
            &&& at < now + ALERT_HOLD ==> shown(r, t, at) == Some(r) && r >= n
            &&& at >= now + ALERT_HOLD ==> shown(r, t, at) is None
        }),
{
}

/// What the decoder reads for every frame, and the window sets.
#[derive(Clone, Copy, Debug, PartialEq, Eq, Structural)]
pub struct PreviewControl {
    pub vcam_on: bool,
    pub record_on: bool,
    pub encoding: u8,
    pub camera_fmt: u8,
    pub window_shown: bool,
    pub keep_rgb: bool,
}

/// The plan that makes no picture at all.
pub open spec fn no_picture() -> PreviewPlan {
    PreviewPlan { skip_always: true, native: false, max_long: 2, max_fps: None }
}

impl PreviewControl {
    /// The mode that is chosen.
    pub open spec fn mode(self) -> PreviewEncoding {
        PreviewEncoding::of_number(self.encoding)
    }

    /// What is done with a frame now.
    pub open spec fn planned(self) -> PreviewPlan {
        if !self.window_shown {
            no_picture()
        } else if self.mode() == PreviewEncoding::Auto && (self.vcam_on || self.record_on)
            && !self.keep_rgb {
            no_picture()
        } else {
            self.mode().asks_for()
        }
    }

    /// Auto, in a window that is shown, with nothing running.
    pub fn new() -> (r: PreviewControl)
        ensures
            r == (PreviewControl {
                vcam_on: false,
                record_on: false,
                encoding: PreviewEncoding::Auto.number(),
                camera_fmt: DEFAULT_CAMERA_FMT,
                window_shown: true,
                keep_rgb: false,
            }),
    {
        PreviewControl {
            vcam_on: false,
            record_on: false,
            encoding: PreviewEncoding::Auto.to_u8(),
            camera_fmt: DEFAULT_CAMERA_FMT,
            window_shown: true,
            keep_rgb: false,
        }
    }

    /// The quality of the virtual camera.
    pub fn camera_quality(&self) -> (r: QualitySpec)
        ensures
            r == if self.camera_fmt < QUALITIES {
                quality_at(self.camera_fmt as int)
            } else {
                quality_at(DEFAULT_CAMERA_FMT as int)
            },
    {
        quality_by_index(self.camera_fmt)
    }

    /// Sets the quality of the virtual camera; the default where there is none with that id.
    pub fn set_camera_quality(&mut self, id: &str)
        ensures
            *final(self) == (PreviewControl { camera_fmt: index_for(id@), ..*old(self) }),
            final(self).camera_fmt < QUALITIES,
    {
        self.camera_fmt = quality_index(id);
    }

    /// True where frames are decoded for the virtual camera, whatever the preview does.
    pub fn needs_nv12(&self) -> (r: bool)
        ensures
            r == self.vcam_on,
    {
        self.vcam_on
    }

    /// The mode that is chosen.
    pub fn encoding(&self) -> (r: PreviewEncoding)
        ensures
            r == self.mode(),
    {
        PreviewEncoding::from_u8(self.encoding)
    }

    /// Chooses a mode.
    pub fn set_encoding(&mut self, enc: PreviewEncoding)
        ensures
            *final(self) == (PreviewControl { encoding: enc.number(), ..*old(self) }),
            final(self).mode() == enc,
    {
        self.encoding = enc.to_u8();
    }

    /// True while the window is shown.
    pub fn window_shown(&self) -> (r: bool)
        ensures
            r == self.window_shown,
    {
        self.window_shown
    }

    /// Shows or hides the window.
    pub fn set_window_shown(&mut self, shown: bool)
        ensures
            *final(self) == (PreviewControl { window_shown: shown, ..*old(self) }),
    {
        self.window_shown = shown;
    }

    /// True while the preview is kept under load.
    pub fn keep_rgb(&self) -> (r: bool)
        ensures
            r == self.keep_rgb,
    {
        self.keep_rgb
    }

    /// Keeps the preview under load, or not.
    pub fn set_keep_rgb(&mut self, keep: bool)
        ensures
            *final(self) == (PreviewControl { keep_rgb: keep, ..*old(self) }),
    {
        self.keep_rgb = keep;
    }

    /// True while the virtual camera or a recording runs.
    pub fn loaded(&self) -> (r: bool)
        ensures
            r == (self.vcam_on || self.record_on),
    {
        self.vcam_on || self.record_on
    }

    /// True where the window shows that there is no preview.
    pub fn rgb_off(&self) -> (r: bool)
        ensures
            r == self.planned().skip_always,
    {
        self.plan().skip_always
    }

    /// What is done with a frame now. A hidden window has no preview, and
    /// neither has Auto under load unless it is kept. The mode stays as chosen.
    pub fn plan(&self) -> (r: PreviewPlan)
        ensures
            r == self.planned(),
    {
        if !self.window_shown {
            return PreviewPlan { skip_always: true, native: false, max_long: 2, max_fps: None };
        }
        let enc: PreviewEncoding = self.encoding();
        if enc == PreviewEncoding::Auto && self.loaded() && !self.keep_rgb {
            return PreviewPlan { skip_always: true, native: false, max_long: 2, max_fps: None };
        }
        enc.explicit_plan()
    }
}

/// Whatever is set, a picture for the preview has a long edge of at most 1920,
/// is native only where native was asked for, and has a rate of at most 60.
pub proof fn preview_is_bounded(p: PreviewControl, src_long: u32)
    ensures
        ({
            let plan = p.planned().clamped(src_long);
            &&& plan.max_long <= 1920
            &&& plan.native ==> p.mode() == PreviewEncoding::Native && src_long <= 1920
            &&& !plan.skip_always ==> plan.max_fps is Some && plan.max_fps->0 <= 60
        }),
{
}

/// Hiding and showing the window, or load that comes and goes, leaves the mode
/// and thus the preview as it was.
pub proof fn preview_comes_back(p: PreviewControl, vcam: bool, record: bool)
    requires
        p.window_shown,
    ensures
        ({
            let hidden = PreviewControl { window_shown: false, ..p };
            let loaded = PreviewControl { vcam_on: vcam, record_on: record, ..p };
            &&& hidden.planned().skip_always
            &&& hidden.mode() == p.mode()
            &&& (PreviewControl { window_shown: true, ..hidden }).planned() == p.planned()
            &&& loaded.mode() == p.mode()
            &&& (PreviewControl { vcam_on: p.vcam_on, record_on: p.record_on, ..loaded }).planned()
                == p.planned()
        }),
{
}

/// The preview makes pictures as its mode asks while the window is shown, but for Auto:
/// while the virtual camera or a recording runs it makes none, unless the user keeps it.
pub proof fn the_preview_gives_way(p: PreviewControl)
    ensures
        !p.window_shown ==> p.planned().skip_always,
        p.window_shown && p.mode() != PreviewEncoding::Auto ==> p.planned() == p.mode().asks_for(),
        p.window_shown && p.mode() == PreviewEncoding::Auto ==> (p.planned().skip_always <==> (
        p.vcam_on || p.record_on) && !p.keep_rgb),
        p.window_shown && p.mode() == PreviewEncoding::Auto && !p.planned().skip_always
            ==> p.planned() == p.mode().asks_for(),
{
}

/// While nothing runs any quality may be chosen. While the virtual camera or a recording
/// runs the size stays, and while a recording does the rate goes no higher.
pub proof fn what_runs_holds_the_quality(a: QualitySpec, b: QualitySpec, vcam: bool, record: bool)
    ensures
        !vcam && !record ==> may_switch(a, b, vcam, record),
        vcam && !record ==> (may_switch(a, b, vcam, record) <==> a.width == b.width && a.height
            == b.height),
        record ==> (may_switch(a, b, vcam, record) <==> a.width == b.width && a.height == b.height
            && b.fps <= a.fps),
{
}

} // verus!
