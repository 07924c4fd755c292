//! The figures that lie over the preview: what the stream and this computer do,
//! and which of it is cause for worry.

use crate::figures::{
    at_right, divided, fmt_rate, fmt_vram, per, percent, percent_of, rate_of, right, tenths,
    tenths_of, vram_of, whole, whole_of,
};
use crate::float::{float, least, ratio, times, zero, Single};
use crate::pairing::PairPhase;
use crate::preview::{
    long_side, number_of, over, quality_at, quality_by_id, shown, since, PreviewControl,
    PreviewEncoding, PreviewPlan, QualitySpec, StreamStats, DEFAULT_CAMERA_FMT, QUALITIES,
};
use crate::sys::SysLoad;
use crate::text::{chars, contains_text, decimal, holds, push_decimal, same};
use vstd::prelude::*;
use vstd::string::*;

verus! {

/// A stream without a frame for this long stands still, in nanoseconds.
pub const STALL: u64 = 2_000_000_000;

/// How a figure is meant.
#[derive(Clone, Copy, Debug, PartialEq, Eq, Structural)]
pub enum Tone {
    Plain,
    Muted,
    Live,
    Warn,
    Danger,
}

/// A piece of the overlay.
pub struct Span {
    pub text: String,
    pub tone: Tone,
}

/// A piece of the overlay.
pub ghost struct SpanModel {
    pub text: Seq<char>,
    pub tone: Tone,
}

impl View for Span {
    type V = SpanModel;

    open spec fn view(&self) -> SpanModel {
        SpanModel { text: self.text@, tone: self.tone }
    }
}

/// The pieces of an overlay.
pub open spec fn spans_view(v: Seq<Span>) -> Seq<SpanModel> {
    v.map_values(|s: Span| s@)
}

/// One piece.
pub open spec fn span(text: Seq<char>, tone: Tone) -> Seq<SpanModel> {
    seq![SpanModel { text, tone }]
}

/// One piece where there is cause for it.
pub open spec fn span_if(c: bool, text: Seq<char>, tone: Tone) -> Seq<SpanModel> {
    if c {
        span(text, tone)
    } else {
        Seq::empty()
    }
}

fn put(out: &mut Vec<Span>, text: String, tone: Tone)
    ensures
        spans_view(final(out)@) == spans_view(old(out)@) + span(text@, tone),
{
    let s: Span = Span { text, tone };
    let ghost m = s@;
    out.push(s);
    assert(spans_view(out@) =~= spans_view(old(out)@) + seq![m]);
}

fn put_text(out: &mut Vec<Span>, t: &str, tone: Tone)
    ensures
        spans_view(final(out)@) == spans_view(old(out)@) + span(t@, tone),
{
    put(out, t.to_owned(), tone);
}

/// A text between two others.
fn between(a: &str, b: &str, c: &str) -> (r: String)
    ensures
        r@ == a@ + b@ + c@,
{
    let mut s: String = String::new();
    s.append(a);
    s.append(b);
    s.append(c);
    assert(s@ =~= a@ + b@ + c@);
    s
}

/// How a figure is meant that should stay low.
pub open spec fn level_of(v: Single, warn: int, bad: int) -> Tone {
    if v.reaches(bad) {
        Tone::Danger
    } else if v.reaches(warn) {
        Tone::Warn
    } else {
        Tone::Plain
    }
}

/// How a figure is meant that should stay low.
pub fn level(v: Single, warn: u64, bad: u64) -> (r: Tone)
    ensures
        r == level_of(v, warn as int, bad as int),
{
    if v.at_least(bad) {
        Tone::Danger
    } else if v.at_least(warn) {
        Tone::Warn
    } else {
        Tone::Plain
    }
}

/// The phase in a word.
pub open spec fn phase_part(phase: PairPhase) -> Seq<SpanModel> {
    match phase {
        PairPhase::Waiting => span("wait"@, Tone::Plain),
        PairPhase::Connecting => span("ice"@, Tone::Warn),
        PairPhase::Live => span("live"@, Tone::Plain),
    }
}

fn put_phase(out: &mut Vec<Span>, phase: PairPhase)
    ensures
        spans_view(final(out)@) == spans_view(old(out)@) + phase_part(phase),
{
    match phase {
        PairPhase::Waiting => put_text(out, "wait", Tone::Plain),
        PairPhase::Connecting => put_text(out, "ice", Tone::Warn),
        PairPhase::Live => put_text(out, "live", Tone::Plain),
    }
}

/// At least one.
pub open spec fn one_up(n: u32) -> u32 {
    if n < 1 {
        1
    } else {
        n
    }
}

/// The larger of two sides.
pub open spec fn longer(w: u32, h: u32) -> u32 {
    if w >= h {
        w
    } else {
        h
    }
}

fn longer_side(w: u32, h: u32) -> (r: u32)
    ensures
        r == longer(w, h),
{
    if w >= h {
        w
    } else {
        h
    }
}

/// The quality with an id, if there is one.
pub open spec fn wanted(id: Seq<char>) -> Option<QualitySpec> {
    match number_of(id, 0) {
        Some(i) => Some(quality_at(i)),
        None => None,
    }
}

/// How the size of the stream is meant: from nine tenths of what was asked for
/// it is well, from 58 hundredths it is a warning.
pub open spec fn size_tone(live: bool, width: u32, height: u32, want: Option<QualitySpec>) -> Tone {
    if !live || width < 2 {
        Tone::Plain
    } else {
        match want {
            Some(q) => {
                let part = per(float(longer(width, height) as int), one_up(long_side(q)) as int);
                if part.bits >= ratio(90, 100).bits {
                    Tone::Plain
                } else if part.bits >= ratio(58, 100).bits {
                    Tone::Warn
                } else {
                    Tone::Danger
                }
            },
            None => Tone::Plain,
        }
    }
}

fn tone_of_size(live: bool, width: u32, height: u32, want: Option<QualitySpec>) -> (r: Tone)
    ensures
        r == size_tone(live, width, height, want),
{
    if !live || width < 2 {
        return Tone::Plain;
    }
    match want {
        Some(q) => {
            let mut asked: u64 = longer_side(q.width, q.height) as u64;
            if asked < 1 {
                asked = 1;
            }
            let part: Single = divided(Single::of(longer_side(width, height) as u64), asked);
            if part.bits >= Single::ratio(90, 100).bits {
                Tone::Plain
            } else if part.bits >= Single::ratio(58, 100).bits {
                Tone::Warn
            } else {
                Tone::Danger
            }
        },
        None => Tone::Plain,
    }
}

/// A size in words.
pub open spec fn size_text(w: u32, h: u32) -> Seq<char> {
    decimal(w as nat) + "\u{d7}"@ + decimal(h as nat)
}

fn push_sides(s: &mut String, w: u32, h: u32)
    ensures
        final(s)@ == old(s)@ + size_text(w, h),
{
    push_decimal(s, w as u64);
    s.append("\u{d7}");
    push_decimal(s, h as u64);
    assert(s@ =~= old(s)@ + size_text(w, h));
}

/// The size of the stream.
pub open spec fn size_part(live: bool, width: u32, height: u32, want: Option<QualitySpec>) -> Seq<
    SpanModel,
> {
    span("  "@ + size_text(one_up(width), one_up(height)), size_tone(live, width, height, want))
}

fn put_size(out: &mut Vec<Span>, live: bool, width: u32, height: u32, want: Option<QualitySpec>)
    ensures
        spans_view(final(out)@) == spans_view(old(out)@) + size_part(live, width, height, want),
{
    let w: u32 = if width < 1 {
        1
    } else {
        width
    };
    let h: u32 = if height < 1 {
        1
    } else {
        height
    };
    let mut s: String = "  ".to_owned();
    push_sides(&mut s, w, h);
    let tone: Tone = tone_of_size(live, width, height, want);
    put(out, s, tone);
}

/// How the rate is meant, in frames a second.
pub open spec fn rate_tone(live: bool, decoded: u64, stalled: bool, fps: Single) -> Tone {
    if !live || decoded == 0 {
        Tone::Plain
    } else if stalled || !fps.reaches(8) {
        Tone::Danger
    } else if !fps.reaches(20) {
        Tone::Warn
    } else {
        Tone::Plain
    }
}

/// The rate.
pub open spec fn rate_part(live: bool, decoded: u64, stalled: bool, fps: Single) -> Seq<SpanModel> {
    span("  "@ + at_right(whole_of(fps), 4) + " fps"@, rate_tone(live, decoded, stalled, fps))
}

fn put_rate(out: &mut Vec<Span>, live: bool, decoded: u64, stalled: bool, fps: Single)
    ensures
        spans_view(final(out)@) == spans_view(old(out)@) + rate_part(live, decoded, stalled, fps),
{
    let n: String = whole(fps);
    let n: String = right(n.as_str(), 4);
    let s: String = between("  ", n.as_str(), " fps");
    let tone: Tone = if !live || decoded == 0 {
        Tone::Plain
    } else if stalled || !fps.at_least(8) {
        Tone::Danger
    } else if !fps.at_least(20) {
        Tone::Warn
    } else {
        Tone::Plain
    };
    put(out, s, tone);
}

/// The size of the preview, where it is another one.
pub open spec fn preview_part(rgb_on: bool, s: StreamStats) -> Seq<SpanModel> {
    span_if(
        rgb_on && s.preview_w > 0 && (s.preview_w != s.width || s.preview_h != s.height),
        "  prev "@ + size_text(s.preview_w, s.preview_h),
        Tone::Plain,
    )
}

/// The mode of the preview.
pub open spec fn mode_part(rgb_on: bool, enc: PreviewEncoding) -> Seq<SpanModel> {
    let label = if rgb_on {
        enc.name()
    } else if enc == PreviewEncoding::Off {
        "Off"@
    } else {
        enc.name() + "\u{b7}off"@
    };
    span("  enc "@ + label, Tone::Plain)
}

/// The quality of the virtual camera.
pub open spec fn camera_part(cam: QualitySpec, vcam: bool) -> Seq<SpanModel> {
    span(
        "  cam "@ + size_text(cam.width, cam.height) + "@"@ + decimal(cam.fps as nat),
        if vcam {
            Tone::Live
        } else {
            Tone::Plain
        },
    )
}

fn put_preview(
    out: &mut Vec<Span>,
    rgb_on: bool,
    s: &StreamStats,
    enc: PreviewEncoding,
    cam: &QualitySpec,
    vcam: bool,
)
    ensures
        spans_view(final(out)@) == spans_view(old(out)@) + (preview_part(rgb_on, *s) + mode_part(
            rgb_on,
            enc,
        ) + camera_part(*cam, vcam)),
{
    if rgb_on && s.preview_w > 0 && (s.preview_w != s.width || s.preview_h != s.height) {
        let mut t: String = "  prev ".to_owned();
        push_sides(&mut t, s.preview_w, s.preview_h);
        put(out, t, Tone::Plain);
    }
    let ghost first = spans_view(old(out)@) + preview_part(rgb_on, *s);
    assert(spans_view(out@) =~= first);
    let label: String = if rgb_on {
        enc.label().to_owned()
    } else if enc == PreviewEncoding::Off {
        "Off".to_owned()
    } else {
        let mut t: String = enc.label().to_owned();
        t.append("\u{b7}off");
        t
    };
    let mut t: String = "  enc ".to_owned();
    t.append(label.as_str());
    put(out, t, Tone::Plain);
    assert(spans_view(out@) =~= first + mode_part(rgb_on, enc));
    let mut t: String = "  cam ".to_owned();
    push_sides(&mut t, cam.width, cam.height);
    t.append("@");
    push_decimal(&mut t, cam.fps as u64);
    let tone: Tone = if vcam {
        Tone::Live
    } else {
        Tone::Plain
    };
    put(out, t, tone);
    assert(spans_view(out@) =~= spans_view(old(out)@) + (preview_part(rgb_on, *s) + mode_part(
        rgb_on,
        enc,
    ) + camera_part(*cam, vcam)));
}

/// How fast pictures of the preview come: no faster than the stream, and than the
/// plan wants.
pub open spec fn picture_rate(plan: PreviewPlan, fps: Single) -> Single {
    match plan.max_fps {
        Some(f) => least(float(f as int), fps),
        None => fps,
    }
}

/// Bytes of pictures in a second, in millions.
pub open spec fn picture_bytes(plan: PreviewPlan, s: StreamStats) -> Single {
    let pixels = times(float(s.preview_w as int), float(s.preview_h as int));
    per(times(times(pixels, float(4)), picture_rate(plan, s.fps)), 1_000_000)
}

/// How pictures of the preview are made, and what they amount to.
pub open spec fn picture_part(
    rgb_on: bool,
    enc: PreviewEncoding,
    plan: PreviewPlan,
    s: StreamStats,
) -> Seq<SpanModel> {
    if !rgb_on || s.preview_w == 0 || s.preview_h == 0 {
        Seq::empty()
    } else {
        let long = longer(s.width, s.height);
        let path = if enc == PreviewEncoding::Native && 0 < long <= 1920 {
            "rec709"@
        } else {
            "nv12"@
        };
        let n = picture_bytes(plan, s);
        span("  rgb "@ + path, Tone::Plain) + span_if(
            n.reaches(1),
            " "@ + whole_of(n) + " MB/s"@,
            level_of(n, 800, 1200),
        )
    }
}

fn put_pictures(
    out: &mut Vec<Span>,
    rgb_on: bool,
    enc: PreviewEncoding,
    plan: PreviewPlan,
    s: &StreamStats,
)
    ensures
        spans_view(final(out)@) == spans_view(old(out)@) + picture_part(rgb_on, enc, plan, *s),
{
    if !rgb_on || s.preview_w == 0 || s.preview_h == 0 {
        assert(spans_view(out@) =~= spans_view(old(out)@) + picture_part(rgb_on, enc, plan, *s));
        return;
    }
    let long: u32 = longer_side(s.width, s.height);
    let path: &str = if enc == PreviewEncoding::Native && long > 0 && long <= 1920 {
        "rec709"
    } else {
        "nv12"
    };
    let mut t: String = "  rgb ".to_owned();
    t.append(path);
    put(out, t, Tone::Plain);
    let rate: Single = match plan.max_fps {
        Some(f) => Single::of(f as u64).least(s.fps),
        None => s.fps,
    };
    let pixels: Single = Single::of(s.preview_w as u64).times(Single::of(s.preview_h as u64));
    let n: Single = divided(pixels.times(Single::of(4)).times(rate), 1_000_000);
    if n.at_least(1) {
        let m: String = whole(n);
        put(out, between(" ", m.as_str(), " MB/s"), level(n, 800, 1200));
    }
    assert(spans_view(out@) =~= spans_view(old(out)@) + picture_part(rgb_on, enc, plan, *s));
}

/// What is lost, and how long decoding takes.
pub open spec fn loss_part(s: StreamStats) -> Seq<SpanModel> {
    span_if(
        s.loss_pct.bits >= ratio(5, 100).bits,
        "  loss "@ + at_right(tenths_of(s.loss_pct), 3) + "%"@,
        if s.loss_pct.reaches(2) {
            Tone::Danger
        } else {
            Tone::Warn
        },
    ) + span_if(
        s.decode_ms.bits > ratio(1, 2).bits,
        "  dec "@ + at_right(whole_of(s.decode_ms), 4) + " ms"@,
        level_of(s.decode_ms, 40, 80),
    )
}

fn put_loss(out: &mut Vec<Span>, s: &StreamStats)
    ensures
        spans_view(final(out)@) == spans_view(old(out)@) + loss_part(*s),
{
    if s.loss_pct.bits >= Single::ratio(5, 100).bits {
        let n: String = tenths(s.loss_pct);
        let n: String = right(n.as_str(), 3);
        let tone: Tone = if s.loss_pct.at_least(2) {
            Tone::Danger
        } else {
            Tone::Warn
        };
        let t: String = between("  loss ", n.as_str(), "%");
        put(out, t, tone);
    }
    if s.decode_ms.bits > Single::ratio(1, 2).bits {
        let n: String = whole(s.decode_ms);
        let n: String = right(n.as_str(), 4);
        let t: String = between("  dec ", n.as_str(), " ms");
        let tone: Tone = level(s.decode_ms, 40, 80);
        put(out, t, tone);
    }
    assert(spans_view(out@) =~= spans_view(old(out)@) + loss_part(*s));
}

/// A count of something that should not happen.
pub open spec fn count_part(label: Seq<char>, n: Option<u64>, bad: u64) -> Seq<SpanModel> {
    match n {
        Some(n) => span(
            label + decimal(n as nat),
            if n >= bad {
                Tone::Danger
            } else {
                Tone::Warn
            },
        ),
        None => Seq::empty(),
    }
}

fn put_count(out: &mut Vec<Span>, label: &str, n: Option<u64>, bad: u64)
    ensures
        spans_view(final(out)@) == spans_view(old(out)@) + count_part(label@, n, bad),
{
    if let Some(n) = n {
        let mut t: String = label.to_owned();
        push_decimal(&mut t, n);
        let tone: Tone = if n >= bad {
            Tone::Danger
        } else {
            Tone::Warn
        };
        put(out, t, tone);
    }
    assert(spans_view(out@) =~= spans_view(old(out)@) + count_part(label@, n, bad));
}

/// The state of the connection, where it is not simply up.
pub open spec fn ice_part(ice: Seq<char>) -> Seq<SpanModel> {
    span_if(
        ice.len() > 0 && ice != "connected"@ && ice != "completed"@ && ice != "\u{2014}"@,
        "  ice "@ + ice,
        if holds(ice, "fail"@) || holds(ice, "disconnect"@) {
            Tone::Danger
        } else {
            Tone::Warn
        },
    )
}

fn put_ice(out: &mut Vec<Span>, ice: &str)
    ensures
        spans_view(final(out)@) == spans_view(old(out)@) + ice_part(ice@),
{
    if !ice.is_empty() && !same(ice, "connected") && !same(ice, "completed") && !same(
        ice,
        "\u{2014}",
    ) {
        let c: Vec<char> = chars(ice);
        let tone: Tone = if contains_text(c.as_slice(), "fail") || contains_text(
            c.as_slice(),
            "disconnect",
        ) {
            Tone::Danger
        } else {
            Tone::Warn
        };
        let mut t: String = "  ice ".to_owned();
        t.append(ice);
        put(out, t, tone);
    }
    assert(spans_view(out@) =~= spans_view(old(out)@) + ice_part(ice@));
}

/// What went wrong lately.
pub open spec fn trouble_part(s: StreamStats, stalled: bool, now: u64) -> Seq<SpanModel> {
    span_if(stalled, "  STALL"@, Tone::Danger) + span_if(
        s.oom && !over(s.oom_until, now),
        "  OOM"@,
        Tone::Danger,
    ) + count_part("  gaps "@, shown(s.gaps_recent, s.gaps_until, now), 10) + count_part(
        "  drop "@,
        shown(s.drop_recent, s.drop_until, now),
        5,
    ) + ice_part(s.ice@)
}

fn put_trouble(out: &mut Vec<Span>, s: &StreamStats, stalled: bool, now: u64)
    ensures
        spans_view(final(out)@) == spans_view(old(out)@) + trouble_part(*s, stalled, now),
{
    if stalled {
        put_text(out, "  STALL", Tone::Danger);
    }
    if s.oom_visible(now) {
        put_text(out, "  OOM", Tone::Danger);
    }
    let gaps: Option<u64> = s.visible_gaps(now);
    put_count(out, "  gaps ", gaps, 10);
    let drops: Option<u64> = s.visible_drops(now);
    put_count(out, "  drop ", drops, 5);
    put_ice(out, s.ice.as_str());
    assert(spans_view(out@) =~= spans_view(old(out)@) + trouble_part(*s, stalled, now));
}

/// A figure with a mark behind it.
fn put_figure(out: &mut Vec<Span>, v: Single, width: usize, mark: &str, tone: Tone)
    ensures
        spans_view(final(out)@) == spans_view(old(out)@) + span(
            at_right(whole_of(v), width as int) + mark@,
            tone,
        ),
{
    let n: String = whole(v);
    let mut t: String = right(n.as_str(), width);
    t.append(mark);
    put(out, t, tone);
}

/// Processors and memory: this program's share, then that of all.
pub open spec fn host_part(sys: SysLoad) -> Seq<SpanModel> {
    span("CPU "@, Tone::Plain) + span(
        at_right(whole_of(sys.cpu_app_pct), 4) + "%"@,
        level_of(sys.cpu_app_pct, 25, 50),
    ) + span(" ("@, Tone::Plain) + span(
        at_right(whole_of(sys.cpu_pct), 0) + "%"@,
        level_of(sys.cpu_pct, 80, 92),
    ) + span(")"@, Tone::Plain) + span("   RAM "@, Tone::Plain) + span(
        at_right(whole_of(sys.proc_mb), 5) + " MB"@,
        level_of(sys.proc_mb, 500, 800),
    ) + span(" ("@, Tone::Plain) + span(
        whole_of(sys.ram_pct) + "% "@ + tenths_of(sys.ram_used_gb) + "/"@ + whole_of(
            sys.ram_total_gb,
        ) + " GB"@,
        level_of(sys.ram_pct, 80, 90),
    ) + span(")"@, Tone::Plain)
}

fn put_host(out: &mut Vec<Span>, sys: &SysLoad)
    ensures
        spans_view(final(out)@) == spans_view(old(out)@) + host_part(*sys),
{
    put_text(out, "CPU ", Tone::Plain);
    put_figure(out, sys.cpu_app_pct, 4, "%", level(sys.cpu_app_pct, 25, 50));
    put_text(out, " (", Tone::Plain);
    put_figure(out, sys.cpu_pct, 0, "%", level(sys.cpu_pct, 80, 92));
    put_text(out, ")", Tone::Plain);
    put_text(out, "   RAM ", Tone::Plain);
    put_figure(out, sys.proc_mb, 5, " MB", level(sys.proc_mb, 500, 800));
    put_text(out, " (", Tone::Plain);
    let mut t: String = whole(sys.ram_pct);
    t.append("% ");
    let used: String = tenths(sys.ram_used_gb);
    t.append(used.as_str());
    t.append("/");
    let total: String = whole(sys.ram_total_gb);
    t.append(total.as_str());
    t.append(" GB");
    put(out, t, level(sys.ram_pct, 80, 90));
    put_text(out, ")", Tone::Plain);
    assert(spans_view(out@) =~= spans_view(old(out)@) + host_part(*sys));
}

/// What goes over the network: the stream, then all of it.
pub open spec fn net_part(s: StreamStats, sys: SysLoad, live: bool) -> Seq<SpanModel> {
    let down = if live {
        s.bitrate_kbps
    } else {
        zero()
    };
    span("\n"@, Tone::Plain) + span("NET \u{2193}"@, Tone::Plain) + span(
        rate_of(down),
        if live && s.decoded > 0 && !down.reaches(200) && down != zero() {
            Tone::Warn
        } else {
            Tone::Plain
        },
    ) + span_if(
        s.pkt_pps != zero() && live,
        " "@ + at_right(whole_of(s.pkt_pps), 3) + "p/s"@,
        Tone::Plain,
    ) + span("  (\u{2193}"@, Tone::Plain) + span(rate_of(sys.nic_down_kbps), Tone::Plain) + span(
        " \u{2191}"@,
        Tone::Plain,
    ) + span(rate_of(sys.nic_up_kbps), Tone::Plain) + span(")"@, Tone::Plain)
}

fn put_net(out: &mut Vec<Span>, s: &StreamStats, sys: &SysLoad, live: bool)
    ensures
        spans_view(final(out)@) == spans_view(old(out)@) + net_part(*s, *sys, live),
{
    put_text(out, "\n", Tone::Plain);
    put_text(out, "NET \u{2193}", Tone::Plain);
    let down: Single = if live {
        s.bitrate_kbps
    } else {
        Single { bits: 0 }
    };
    let tone: Tone = if live && s.decoded > 0 && !down.at_least(200) && down.bits > 0 {
        Tone::Warn
    } else {
        Tone::Plain
    };
    put(out, fmt_rate(down), tone);
    if s.pkt_pps.bits > 0 && live {
        let n: String = whole(s.pkt_pps);
        let n: String = right(n.as_str(), 3);
        put(out, between(" ", n.as_str(), "p/s"), Tone::Plain);
    }
    put_text(out, "  (\u{2193}", Tone::Plain);
    put(out, fmt_rate(sys.nic_down_kbps), Tone::Plain);
    put_text(out, " \u{2191}", Tone::Plain);
    put(out, fmt_rate(sys.nic_up_kbps), Tone::Plain);
    put_text(out, ")", Tone::Plain);
    assert(spans_view(out@) =~= spans_view(old(out)@) + net_part(*s, *sys, live));
}

/// An engine of the graphics adapter: this program's share, then that of all.
pub open spec fn engine_part(label: Seq<char>, app: Single, all: Single) -> Seq<SpanModel> {
    span(label, Tone::Plain) + span(
        at_right(whole_of(app), 0) + "%"@,
        level_of(app, 70, 90),
    ) + span("("@, Tone::Plain) + span(
        at_right(whole_of(all), 0) + "%"@,
        level_of(all, 70, 90),
    ) + span(")"@, Tone::Plain)
}

fn put_engine(out: &mut Vec<Span>, label: &str, app: Single, all: Single)
    ensures
        spans_view(final(out)@) == spans_view(old(out)@) + engine_part(label@, app, all),
{
    put_text(out, label, Tone::Plain);
    put_figure(out, app, 0, "%", level(app, 70, 90));
    put_text(out, "(", Tone::Plain);
    put_figure(out, all, 0, "%", level(all, 70, 90));
    put_text(out, ")", Tone::Plain);
    assert(spans_view(out@) =~= spans_view(old(out)@) + engine_part(label@, app, all));
}

/// The engines that are shown.
pub open spec fn engines_part(sys: SysLoad) -> Seq<SpanModel> {
    engine_part("  3D "@, sys.gpu_3d_app, sys.gpu_3d_sys) + engine_part(
        "  copy "@,
        sys.gpu_copy_app,
        sys.gpu_copy_sys,
    ) + engine_part("  vdec "@, sys.gpu_vdec_app, sys.gpu_vdec_sys) + engine_part(
        "  vp "@,
        sys.gpu_vp_app,
        sys.gpu_vp_sys,
    ) + if sys.gpu_compute_sys.bits >= ratio(1, 2).bits || sys.gpu_compute_app.bits >= ratio(
        1,
        2,
    ).bits {
        engine_part("  cmp "@, sys.gpu_compute_app, sys.gpu_compute_sys)
    } else {
        Seq::empty()
    }
}

fn put_engines(out: &mut Vec<Span>, sys: &SysLoad)
    ensures
        spans_view(final(out)@) == spans_view(old(out)@) + engines_part(*sys),
{
    put_engine(out, "  3D ", sys.gpu_3d_app, sys.gpu_3d_sys);
    put_engine(out, "  copy ", sys.gpu_copy_app, sys.gpu_copy_sys);
    put_engine(out, "  vdec ", sys.gpu_vdec_app, sys.gpu_vdec_sys);
    put_engine(out, "  vp ", sys.gpu_vp_app, sys.gpu_vp_sys);
    let half: Single = Single::ratio(1, 2);
    if sys.gpu_compute_sys.bits >= half.bits || sys.gpu_compute_app.bits >= half.bits {
        put_engine(out, "  cmp ", sys.gpu_compute_app, sys.gpu_compute_sys);
    }
    assert(spans_view(out@) =~= spans_view(old(out)@) + engines_part(*sys));
}

/// How memory shared with the rest of the computer is meant. Without a budget
/// it is well.
pub open spec fn shared_tone(sys: SysLoad) -> Tone {
    if sys.gpu_shared_budget_mb.bits > float(1).bits {
        level_of(percent_of(sys.gpu_shared_used_mb, sys.gpu_shared_budget_mb), 40, 70)
    } else {
        Tone::Plain
    }
}

/// The memory of the graphics adapter.
pub open spec fn memory_part(sys: SysLoad) -> Seq<SpanModel> {
    (if sys.gpu_vram_budget_mb.bits > float(1).bits {
        span("  "@, Tone::Plain) + span(
            vram_of(sys.gpu_vram_used_mb, sys.gpu_vram_budget_mb),
            level_of(percent_of(sys.gpu_vram_used_mb, sys.gpu_vram_budget_mb), 75, 90),
        )
    } else {
        Seq::empty()
    }) + if sys.gpu_shared_used_mb.reaches(8) {
        span("  sh "@, Tone::Plain) + span(
            tenths_of(per(sys.gpu_shared_used_mb, 1024)) + "G"@,
            shared_tone(sys),
        )
    } else {
        Seq::empty()
    }
}

fn put_memory(out: &mut Vec<Span>, sys: &SysLoad)
    ensures
        spans_view(final(out)@) == spans_view(old(out)@) + memory_part(*sys),
{
    if sys.gpu_vram_budget_mb.bits > Single::of(1).bits {
        put_text(out, "  ", Tone::Plain);
        let part: Single = percent(sys.gpu_vram_used_mb, sys.gpu_vram_budget_mb);
        let tone: Tone = level(part, 75, 90);
        put(out, fmt_vram(sys.gpu_vram_used_mb, sys.gpu_vram_budget_mb), tone);
    }
    if sys.gpu_shared_used_mb.at_least(8) {
        put_text(out, "  sh ", Tone::Plain);
        let tone: Tone = if sys.gpu_shared_budget_mb.bits > Single::of(1).bits {
            level(percent(sys.gpu_shared_used_mb, sys.gpu_shared_budget_mb), 40, 70)
        } else {
            Tone::Plain
        };
        let mut t: String = tenths(divided(sys.gpu_shared_used_mb, 1024));
        t.append("G");
        put(out, t, tone);
    }
    assert(spans_view(out@) =~= spans_view(old(out)@) + memory_part(*sys));
}

/// The graphics adapter.
pub open spec fn gpu_part(sys: SysLoad) -> Seq<SpanModel> {
    span("\n"@, Tone::Plain) + span("GPU "@, Tone::Plain) + if sys.gpu_name@.len() == 0 {
        span("\u{2014}"@, Tone::Muted)
    } else {
        span(sys.gpu_name@, Tone::Plain) + engines_part(sys) + memory_part(sys)
    }
}

fn put_gpu(out: &mut Vec<Span>, sys: &SysLoad)
    ensures
        spans_view(final(out)@) == spans_view(old(out)@) + gpu_part(*sys),
{
    put_text(out, "\n", Tone::Plain);
    put_text(out, "GPU ", Tone::Plain);
    if sys.gpu_name.as_str().is_empty() {
        put_text(out, "\u{2014}", Tone::Muted);
        assert(spans_view(out@) =~= spans_view(old(out)@) + gpu_part(*sys));
        return;
    }
    put_text(out, sys.gpu_name.as_str(), Tone::Plain);
    put_engines(out, sys);
    put_memory(out, sys);
    assert(spans_view(out@) =~= spans_view(old(out)@) + gpu_part(*sys));
}

/// True of a stream that stands still: there were frames, and the last is long ago.
pub open spec fn stands_still(s: StreamStats, now: u64) -> bool {
    s.decoded > 0 && match s.last_frame {
        Some(t) => since(t, now) > STALL,
        None => false,
    }
}

/// The quality of the virtual camera.
pub open spec fn camera_of(p: PreviewControl) -> QualitySpec {
    if p.camera_fmt < QUALITIES {
        quality_at(p.camera_fmt as int)
    } else {
        quality_at(DEFAULT_CAMERA_FMT as int)
    }
}

/// The first line: the stream.
pub open spec fn stream_line(
    s: StreamStats,
    p: PreviewControl,
    vcam: bool,
    phase: PairPhase,
    now: u64,
) -> Seq<SpanModel> {
    let live = phase == PairPhase::Live;
    let stalled = stands_still(s, now);
    let rgb_on = !p.planned().skip_always;
    phase_part(phase) + size_part(live, s.width, s.height, wanted(s.selected_quality@)) + rate_part(
        live,
        s.decoded,
        stalled,
        s.fps,
    ) + (preview_part(rgb_on, s) + mode_part(rgb_on, p.mode()) + camera_part(camera_of(p), vcam))
        + picture_part(rgb_on, p.mode(), p.planned(), s) + loss_part(s) + trouble_part(
        s,
        stalled,
        now,
    )
}

/// The overlay.
pub open spec fn overlay_of(
    s: StreamStats,
    p: PreviewControl,
    vcam: bool,
    phase: PairPhase,
    sys: SysLoad,
    now: u64,
) -> Seq<SpanModel> {
    stream_line(s, p, vcam, phase, now) + span("\n"@, Tone::Plain) + host_part(sys) + net_part(
        s,
        sys,
        phase == PairPhase::Live,
    ) + gpu_part(sys)
}

/// The overlay, and whether the stream stands still.
pub fn debug_job(
    stats: &mut StreamStats,
    preview: &PreviewControl,
    vcam: bool,
    phase: PairPhase,
    sys: &SysLoad,
    now: u64,
) -> (r: Vec<Span>)
    ensures
        *final(stats) == (StreamStats { stalled: stands_still(*old(stats), now), ..*old(stats) }),
        spans_view(r@) == overlay_of(*old(stats), *preview, vcam, phase, *sys, now),
{
    let stalled: bool = stats.decoded > 0 && match stats.last_frame {
        Some(t) => now > t && now - t > STALL,
        None => false,
    };
    let live: bool = phase == PairPhase::Live;
    let want: Option<QualitySpec> = quality_by_id(stats.selected_quality.as_str());
    let rgb_on: bool = !preview.rgb_off();
    let enc: PreviewEncoding = preview.encoding();
    let cam: QualitySpec = preview.camera_quality();
    let plan: PreviewPlan = preview.plan();
    let mut out: Vec<Span> = Vec::new();
    put_phase(&mut out, phase);
    assert(spans_view(out@) =~= phase_part(phase));
    put_size(&mut out, live, stats.width, stats.height, want);
    put_rate(&mut out, live, stats.decoded, stalled, stats.fps);
    put_preview(&mut out, rgb_on, stats, enc, &cam, vcam);
    put_pictures(&mut out, rgb_on, enc, plan, stats);
    put_loss(&mut out, stats);
    put_trouble(&mut out, stats, stalled, now);
    assert(spans_view(out@) == stream_line(*stats, *preview, vcam, phase, now));
    put_text(&mut out, "\n", Tone::Plain);
    put_host(&mut out, sys);
    put_net(&mut out, stats, sys, live);
    put_gpu(&mut out, sys);
    stats.stalled = stalled;
    out
}

/// While no phone is live, neither the size nor the rate is cause for worry.
pub proof fn waiting_is_no_worry(
    width: u32,
    height: u32,
    want: Option<QualitySpec>,
    decoded: u64,
    stalled: bool,
    fps: Single,
)
    ensures
        size_tone(false, width, height, want) == Tone::Plain,
        rate_tone(false, decoded, stalled, fps) == Tone::Plain,
{
}

} // verus!
