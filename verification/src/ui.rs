//! The window: messages that come and go, the preview that gives way under load,
//! and what happens when the window is closed, shown or hidden.

use crate::decode::make_room;
use crate::pairing::{bytes_len, PairPhase, Pairing};
use crate::preview::{
    index_for, is_slow, no_picture, number_of, preview_decode_too_slow, quality_at, quality_by_id,
    since, FrameSlot, PreviewControl, PreviewEncoding, RgbFrame, StreamStats,
};
use crate::qr::{drawn, render, QrBitmap};
use crate::settings::{string_view, Settings};
use crate::shared::Shared;
use crate::sys::{preview_host_stress, stress_of, PreviewHostStress, SysLoad};
use crate::text::{chars, contains_text, holds, lower, lower_chars, same};
use vstd::prelude::*;
use vstd::string::*;
use vstd::utf8::encode_utf8;

verus! {

/// How many messages are up at once.
pub const TOASTS: usize = 3;

/// How long frames have to come too slowly before the preview goes, in nanoseconds.
pub const SLOW_HOLD: u64 = 900_000_000;

/// How a message is meant.
#[derive(Clone, Copy, Debug, PartialEq, Eq, Structural)]
pub enum ToastTone {
    Info,
    Warn,
    Danger,
}

/// A message that is up.
pub struct Toast {
    /// Since when, in nanoseconds.
    pub at: u64,
    /// For how long, in nanoseconds.
    pub hold: u64,
    pub msg: String,
    pub tone: ToastTone,
}

/// A message that is up.
pub ghost struct ToastModel {
    pub at: u64,
    pub hold: u64,
    pub msg: Seq<char>,
    pub tone: ToastTone,
}

impl View for Toast {
    type V = ToastModel;

    open spec fn view(&self) -> ToastModel {
        ToastModel { at: self.at, hold: self.hold, msg: self.msg@, tone: self.tone }
    }
}

/// The messages that are up.
pub open spec fn toasts_view(v: Seq<Toast>) -> Seq<ToastModel> {
    v.map_values(|t: Toast| t@)
}

/// How a message is meant, by its words.
pub open spec fn tone_of(msg: Seq<char>) -> ToastTone {
    let m = lower(msg);
    if holds(m, "fail"@) || holds(m, "error"@) || holds(m, "could not"@) || holds(m, "ran out"@) {
        ToastTone::Danger
    } else if holds(m, "preview off"@) || holds(m, "locked"@) || holds(m, "re-select"@) {
        ToastTone::Warn
    } else {
        ToastTone::Info
    }
}

/// How a message is meant, by its words.
pub fn toast_tone(msg: &str) -> (r: ToastTone)
    ensures
        r == tone_of(msg@),
{
    let c: Vec<char> = chars(msg);
    let m: Vec<char> = lower_chars(c.as_slice());
    let m: &[char] = m.as_slice();
    if contains_text(m, "fail") || contains_text(m, "error") || contains_text(m, "could not")
        || contains_text(m, "ran out") {
        ToastTone::Danger
    } else if contains_text(m, "preview off") || contains_text(m, "locked") || contains_text(
        m,
        "re-select",
    ) {
        ToastTone::Warn
    } else {
        ToastTone::Info
    }
}

/// How long a message stays up, in nanoseconds: longer ones stay longer, up to a limit.
pub open spec fn hold_of(msg: Seq<char>) -> u64 {
    let n = bytes_len(msg, msg.len() as int);
    if n <= 28 {
        4_500_000_000
    } else if 7_500 + 40 * n > 14_000 {
        14_000_000_000
    } else {
        ((7_500 + 40 * n) * 1_000_000) as u64
    }
}

/// Bytes in UTF-8, as far as they are at most `most`.
fn bytes_up_to(c: &[char], most: u64) -> (r: u64)
    requires
        most <= 1_000,
    ensures
        r == if bytes_len(c@, c@.len() as int) > most {
            (most + 1) as int
        } else {
            bytes_len(c@, c@.len() as int)
        },
{
    let mut n: u64 = 0;
    let mut i: usize = 0;
    while i < c.len()
        invariant
            i <= c@.len(),
            n == bytes_len(c@, i as int),
            n <= most <= 1_000,
        decreases c@.len() - i,
    {
        let x: u32 = c[i] as u32;
        n += if x <= 0x7F {
            1
        } else if x <= 0x7FF {
            2
        } else if x <= 0xFFFF {
            3
        } else {
            4
        };
        i += 1;
        if n > most {
            proof {
                crate::pairing::bytes_len_grows(c@, i as int, c@.len() as int);
            }
            return most + 1;
        }
    }
    n
}

/// How long a message stays up, in nanoseconds.
pub fn toast_hold(msg: &str) -> (r: u64)
    ensures
        r == hold_of(msg@),
{
    let c: Vec<char> = chars(msg);
    let n: u64 = bytes_up_to(c.as_slice(), 200);
    if n <= 28 {
        4_500_000_000
    } else if 7_500 + 40 * n > 14_000 {
        14_000_000_000
    } else {
        (7_500 + 40 * n) * 1_000_000
    }
}

/// The first `n` messages without those that say `msg`.
pub open spec fn others(ts: Seq<ToastModel>, msg: Seq<char>, n: int) -> Seq<ToastModel>
    decreases n,
{
    if n <= 0 {
        Seq::empty()
    } else if ts[n - 1].msg == msg {
        others(ts, msg, n - 1)
    } else {
        others(ts, msg, n - 1).push(ts[n - 1])
    }
}

/// The messages after one more: what says the same goes, and so does the oldest
/// where there are too many.
pub open spec fn bumped(ts: Seq<ToastModel>, msg: Seq<char>, now: u64) -> Seq<ToastModel> {
    if msg.len() == 0 {
        ts
    } else {
        let all = others(ts, msg, ts.len() as int).push(
            ToastModel { at: now, hold: hold_of(msg), msg, tone: tone_of(msg) },
        );
        if all.len() > TOASTS {
            all.skip(1)
        } else {
            all
        }
    }
}

/// The first `n` messages that are not over.
pub open spec fn lasting(ts: Seq<ToastModel>, now: u64, n: int) -> Seq<ToastModel>
    decreases n,
{
    if n <= 0 {
        Seq::empty()
    } else if since(ts[n - 1].at, now) < ts[n - 1].hold {
        lasting(ts, now, n - 1).push(ts[n - 1])
    } else {
        lasting(ts, now, n - 1)
    }
}

fn elapsed(from: u64, to: u64) -> (r: u64)
    ensures
        r == since(from, to),
{
    if to >= from {
        to - from
    } else {
        0
    }
}

/// Puts a message up.
pub fn bump(toasts: &mut Vec<Toast>, msg: String, now: u64)
    ensures
        toasts_view(final(toasts)@) == bumped(toasts_view(old(toasts)@), msg@, now),
{
    if msg.as_str().is_empty() {
        return;
    }
    let ghost ts = toasts_view(toasts@);
    let tone: ToastTone = toast_tone(msg.as_str());
    let hold: u64 = toast_hold(msg.as_str());
    let mut kept: Vec<Toast> = Vec::new();
    assert(toasts_view(kept@) =~= Seq::empty());
    let mut i: usize = 0;
    while i < toasts.len()
        invariant
            i <= toasts@.len(),
            toasts@ == old(toasts)@,
            ts == toasts_view(toasts@),
            toasts_view(kept@) == others(ts, msg@, i as int),
        decreases toasts@.len() - i,
    {
        let t: &Toast = &toasts[i];
        assert(ts[i as int] == t@);
        if !same(t.msg.as_str(), msg.as_str()) {
            let ghost before = kept@;
            let copy: Toast = Toast { at: t.at, hold: t.hold, msg: t.msg.clone(), tone: t.tone };
            let ghost m = copy@;
            kept.push(copy);
            assert(toasts_view(kept@) =~= toasts_view(before).push(m));
        }
        i += 1;
    }
    let ghost before = kept@;
    let newest: Toast = Toast { at: now, hold, msg, tone };
    let ghost m = newest@;
    kept.push(newest);
    assert(toasts_view(kept@) =~= toasts_view(before).push(m));
    if kept.len() > TOASTS {
        let ghost all = kept@;
        kept.remove(0);
        assert(toasts_view(kept@) =~= toasts_view(all).skip(1));
    }
    *toasts = kept;
}

/// Takes down the messages that are over.
pub fn expire(toasts: &mut Vec<Toast>, now: u64)
    ensures
        toasts_view(final(toasts)@) == lasting(
            toasts_view(old(toasts)@),
            now,
            old(toasts)@.len() as int,
        ),
{
    let ghost ts = toasts_view(toasts@);
    let mut kept: Vec<Toast> = Vec::new();
    assert(toasts_view(kept@) =~= Seq::empty());
    let mut i: usize = 0;
    while i < toasts.len()
        invariant
            i <= toasts@.len(),
            toasts@ == old(toasts)@,
            ts == toasts_view(toasts@),
            toasts_view(kept@) == lasting(ts, now, i as int),
        decreases toasts@.len() - i,
    {
        let t: &Toast = &toasts[i];
        assert(ts[i as int] == t@);
        if elapsed(t.at, now) < t.hold {
            let ghost before = kept@;
            let copy: Toast = Toast { at: t.at, hold: t.hold, msg: t.msg.clone(), tone: t.tone };
            let ghost m = copy@;
            kept.push(copy);
            assert(toasts_view(kept@) =~= toasts_view(before).push(m));
        }
        i += 1;
    }
    *toasts = kept;
}

/// How soon to look again, in nanoseconds: when the oldest message is over, and
/// at least four times a second.
pub fn draw_toasts(toasts: &[Toast], now: u64) -> (r: Option<u64>)
    ensures
        r == if toasts@.len() == 0 {
            None
        } else {
            let gone = since(toasts@[0].at, now);
            let left = if toasts@[0].hold >= gone {
                toasts@[0].hold - gone
            } else {
                0
            };
            Some(
                if left <= 250_000_000 {
                    left as u64
                } else {
                    250_000_000u64
                },
            )
        },
{
    if toasts.len() == 0 {
        return None;
    }
    let left: u64 = toasts[0].hold.saturating_sub(elapsed(toasts[0].at, now));
    if left <= 250_000_000 {
        Some(left)
    } else {
        Some(250_000_000)
    }
}

/// A message is put up last and once, with at most two others, all of which were
/// up before.
pub proof fn newest_is_up(ts: Seq<ToastModel>, msg: Seq<char>, now: u64)
    requires
        msg.len() > 0,
        ts.len() <= TOASTS,
    ensures
        ({
            let r = bumped(ts, msg, now);
            &&& 1 <= r.len() <= TOASTS
            &&& r.last().msg == msg
            &&& r.last().at == now
            &&& forall|i: int| 0 <= i < r.len() - 1 ==> (#[trigger] r[i]).msg != msg
            &&& forall|i: int| 0 <= i < r.len() - 1 ==> ts.contains(#[trigger] r[i])
        }),
{
    others_differ(ts, msg, ts.len() as int);
    let o = others(ts, msg, ts.len() as int);
    let r = bumped(ts, msg, now);
    assert forall|i: int| 0 <= i < r.len() - 1 implies (#[trigger] r[i]).msg != msg && ts.contains(
        r[i],
    ) by {
        let k = if o.len() + 1 > TOASTS {
            i + 1
        } else {
            i
        };
        assert(r[i] == o[k]);
    }
}

proof fn others_differ(ts: Seq<ToastModel>, msg: Seq<char>, n: int)
    requires
        0 <= n <= ts.len(),
    ensures
        others(ts, msg, n).len() <= n,
        forall|i: int|
            0 <= i < others(ts, msg, n).len() ==> (#[trigger] others(ts, msg, n)[i]).msg != msg,
        forall|i: int|
            0 <= i < others(ts, msg, n).len() ==> ts.contains(#[trigger] others(ts, msg, n)[i]),
    decreases n,
{
    if n > 0 {
        others_differ(ts, msg, n - 1);
        assert(ts.contains(ts[n - 1]));
    }
}

/// A message is up for as long as it holds, and not longer.
pub proof fn messages_end(ts: Seq<ToastModel>, now: u64, n: int)
    requires
        0 <= n <= ts.len(),
    ensures
        forall|i: int|
            0 <= i < lasting(ts, now, n).len() ==> since(
                (#[trigger] lasting(ts, now, n)[i]).at,
                now,
            ) < lasting(ts, now, n)[i].hold,
        forall|i: int|
            0 <= i < n && since((#[trigger] ts[i]).at, now) < ts[i].hold ==> lasting(
                ts,
                now,
                n,
            ).contains(ts[i]),
    decreases n,
{
    if n > 0 {
        messages_end(ts, now, n - 1);
        let before = lasting(ts, now, n - 1);
        let r = lasting(ts, now, n);
        assert forall|i: int| 0 <= i < n && since((#[trigger] ts[i]).at, now) < ts[i].hold implies
            r.contains(ts[i]) by {
            if i < n - 1 {
                let k = choose|k: int| 0 <= k < before.len() && before[k] == ts[i];
                assert(r[k] == ts[i]);
            } else {
                assert(r.last() == ts[i]);
            }
        }
    }
}

/// What the window remembers.
pub struct PocketCamApp {
    /// The program ends when the window closes.
    pub allow_exit: bool,
    /// The link that the code on show stands for. Empty while there is none.
    pub qr_url: String,
    /// The picture that was shown last.
    pub last_seq: u64,
    pub toasts: Vec<Toast>,
    pub show_log: bool,
    pub show_settings: bool,
    pub recordings_edit: String,
    /// Since when frames come too slowly, in nanoseconds.
    pub preview_slow_since: Option<u64>,
    /// Since when this computer has too much to do, in nanoseconds.
    pub preview_host_since: Option<u64>,
    pub show_pair_qr: bool,
}

/// What is done about the preview.
#[derive(Clone, Copy, Debug, PartialEq, Eq, Structural)]
pub enum Watch {
    /// Nothing to worry about.
    Calm,
    /// It goes on for a while, since then.
    Since(u64),
    /// The preview goes.
    Drop,
}

/// What is done about trouble that there is or not, was or was not, and goes on
/// for less than `hold` or not.
pub open spec fn watched(trouble: Option<u64>, from: Option<u64>, now: u64) -> Watch {
    match trouble {
        None => Watch::Calm,
        Some(hold) => {
            let start = match from {
                Some(t) => t,
                None => now,
            };
            if since(start, now) < hold {
                Watch::Since(start)
            } else {
                Watch::Drop
            }
        },
    }
}

fn watch(trouble: Option<u64>, from: Option<u64>, now: u64) -> (r: Watch)
    ensures
        r == watched(trouble, from, now),
{
    match trouble {
        None => Watch::Calm,
        Some(hold) => {
            let start: u64 = match from {
                Some(t) => t,
                None => now,
            };
            if elapsed(start, now) < hold {
                Watch::Since(start)
            } else {
                Watch::Drop
            }
        },
    }
}

/// True where the preview may be taken away: it is shown, on, and not kept.
pub open spec fn may_drop(p: PreviewControl, hidden: bool) -> bool {
    !hidden && p.mode() != PreviewEncoding::Off && !p.keep_rgb && !p.planned().skip_always
}

/// What is too much for the preview, if anything.
pub open spec fn host_trouble(sh: Shared, hidden: bool, sys: SysLoad) -> Option<PreviewHostStress> {
    if may_drop(sh.preview, hidden) {
        stress_of(sys, sh.stats.decode_ms)
    } else {
        None
    }
}

/// How long what is too much for the preview has to last.
pub open spec fn patience(why: Option<PreviewHostStress>) -> Option<u64> {
    match why {
        Some(w) => Some(
            if w.of_memory() {
                250_000_000u64
            } else {
                800_000_000u64
            },
        ),
        None => None,
    }
}

/// True where frames come too slowly for a preview.
pub open spec fn slow_trouble(sh: Shared, phase: PairPhase, hidden: bool, now: u64) -> bool {
    let s = sh.stats;
    let rate = match number_of(s.selected_quality@, 0) {
        Some(i) => quality_at(i).fps,
        None => 30,
    };
    &&& may_drop(sh.preview, hidden)
    &&& phase == PairPhase::Live
    &&& match s.last_frame {
        Some(t) => since(t, now) <= 1_500_000_000 && is_slow(s.fps, rate),
        None => false,
    }
}

/// The shared state after the preview was taken away.
pub open spec fn dropped(sh: Shared, oom: bool, now: u64) -> Shared {
    let s = if oom {
        sh.stats.oom_noted(now)
    } else {
        sh.stats
    };
    Shared {
        preview: PreviewControl { encoding: PreviewEncoding::Off.number(), ..sh.preview },
        stats: StreamStats { preview_w: 0, preview_h: 0, ..s },
        slot: FrameSlot { frame: None },
        ..sh
    }
}

/// What is told of a preview that came too slowly.
pub const SLOW_WORDS: &'static str =
    "Preview off \u{2014} frame rate dropped. Virtual camera and record stay native.";

impl PocketCamApp {
    /// A window that has just come up.
    pub fn new() -> (r: PocketCamApp)
        ensures
            !r.allow_exit && r.qr_url@.len() == 0 && r.last_seq == 0 && r.toasts@.len() == 0,
            r.show_log && !r.show_settings && r.recordings_edit@.len() == 0,
            r.preview_slow_since is None && r.preview_host_since is None && !r.show_pair_qr,
    {
        PocketCamApp {
            allow_exit: false,
            qr_url: String::new(),
            last_seq: 0,
            toasts: Vec::new(),
            show_log: true,
            show_settings: false,
            recordings_edit: String::new(),
            preview_slow_since: None,
            preview_host_since: None,
            show_pair_qr: false,
        }
    }

    /// Puts a message up.
    pub fn bump_notice(&mut self, msg: String, now: u64)
        ensures
            toasts_view(final(self).toasts@) == bumped(toasts_view(old(self).toasts@), msg@, now),
            *final(self) == (PocketCamApp { toasts: final(self).toasts, ..*old(self) }),
    {
        bump(&mut self.toasts, msg, now);
    }

    /// Takes the preview away, and says why.
    pub fn drop_preview(&mut self, shared: &mut Shared, msg: &str, oom: bool, now: u64)
        ensures
            *final(shared) == dropped(*old(shared), oom, now),
            toasts_view(final(self).toasts@) == bumped(toasts_view(old(self).toasts@), msg@, now),
            *final(self) == (PocketCamApp {
                toasts: final(self).toasts,
                preview_slow_since: None,
                preview_host_since: None,
                ..*old(self)
            }),
    {
        shared.preview.set_encoding(PreviewEncoding::Off);
        if oom {
            shared.stats.note_oom(now);
        }
        shared.slot.frame = None;
        shared.stats.clear_preview_rgb();
        self.preview_slow_since = None;
        self.preview_host_since = None;
        self.bump_notice(msg.to_owned(), now);
    }

    /// Takes the preview away where this computer has had too much to do for long
    /// enough. True where it did.
    pub fn maybe_pause_preview_on_host(
        &mut self,
        shared: &mut Shared,
        hidden: bool,
        sys: &SysLoad,
        now: u64,
    ) -> (r: bool)
        ensures
            ({
                let why = host_trouble(*old(shared), hidden, *sys);
                let w = watched(patience(why), old(self).preview_host_since, now);
                &&& r == (w == Watch::Drop)
                &&& w == Watch::Calm ==> *final(shared) == *old(shared) && *final(self) == (
                PocketCamApp { preview_host_since: None, ..*old(self) })
                &&& w matches Watch::Since(t) ==> *final(shared) == *old(shared) && *final(self)
                    == (PocketCamApp { preview_host_since: Some(t), ..*old(self) })
                &&& r ==> {
                    &&& *final(shared) == dropped(*old(shared), why->0.of_memory(), now)
                    &&& toasts_view(final(self).toasts@) == bumped(
                        toasts_view(old(self).toasts@),
                        why->0.words(),
                        now,
                    )
                    &&& *final(self) == (PocketCamApp {
                        toasts: final(self).toasts,
                        preview_slow_since: None,
                        preview_host_since: None,
                        ..*old(self)
                    })
                }
            }),
    {
        if hidden || shared.preview.encoding() == PreviewEncoding::Off || shared.preview.keep_rgb()
            || shared.preview.plan().skip_always {
            self.preview_host_since = None;
            return false;
        }
        match preview_host_stress(sys, shared.stats.decode_ms) {
            Some(why) => {
                match watch(Some(why.hold()), self.preview_host_since, now) {
                    Watch::Calm => false,
                    Watch::Since(t) => {
                        self.preview_host_since = Some(t);
                        false
                    },
                    Watch::Drop => {
                        self.drop_preview(shared, why.toast(), why.is_oom(), now);
                        true
                    },
                }
            },
            None => {
                self.preview_host_since = None;
                false
            },
        }
    }

    /// Takes the preview away where frames have come too slowly for long enough.
    /// True where it did.
    pub fn maybe_pause_preview_on_slow_fps(
        &mut self,
        shared: &mut Shared,
        phase: PairPhase,
        hidden: bool,
        now: u64,
    ) -> (r: bool)
        ensures
            ({
                let trouble = if slow_trouble(*old(shared), phase, hidden, now) {
                    Some(SLOW_HOLD)
                } else {
                    None
                };
                let w = watched(trouble, old(self).preview_slow_since, now);
                &&& r == (w == Watch::Drop)
                &&& w == Watch::Calm ==> *final(shared) == *old(shared) && *final(self) == (
                PocketCamApp { preview_slow_since: None, ..*old(self) })
                &&& w matches Watch::Since(t) ==> *final(shared) == *old(shared) && *final(self)
                    == (PocketCamApp { preview_slow_since: Some(t), ..*old(self) })
                &&& r ==> {
                    &&& *final(shared) == dropped(*old(shared), false, now)
                    &&& toasts_view(final(self).toasts@) == bumped(
                        toasts_view(old(self).toasts@),
                        SLOW_WORDS@,
                        now,
                    )
                    &&& *final(self) == (PocketCamApp {
                        toasts: final(self).toasts,
                        preview_slow_since: None,
                        preview_host_since: None,
                        ..*old(self)
                    })
                }
            }),
    {
        if hidden || phase != PairPhase::Live || shared.preview.encoding() == PreviewEncoding::Off
            || shared.preview.keep_rgb() || shared.preview.plan().skip_always {
            self.preview_slow_since = None;
            return false;
        }
        let rate: u32 = match quality_by_id(shared.stats.selected_quality.as_str()) {
            Some(q) => q.fps,
            None => 30,
        };
        let age: Option<u64> = match shared.stats.last_frame {
            Some(t) => Some(elapsed(t, now)),
            None => None,
        };
        if !preview_decode_too_slow(shared.stats.fps, rate, age) {
            self.preview_slow_since = None;
            return false;
        }
        match watch(Some(SLOW_HOLD), self.preview_slow_since, now) {
            Watch::Calm => false,
            Watch::Since(t) => {
                self.preview_slow_since = Some(t);
                false
            },
            Watch::Drop => {
                self.drop_preview(shared, SLOW_WORDS, false, now);
                true
            },
        }
    }
}

/// The preview is never taken away that is kept, off, or not shown.
pub proof fn kept_preview_stays(
    sh: Shared,
    hidden: bool,
    sys: SysLoad,
    phase: PairPhase,
    from: Option<u64>,
    now: u64,
)
    requires
        sh.preview.keep_rgb || sh.preview.mode() == PreviewEncoding::Off || hidden,
    ensures
        watched(patience(host_trouble(sh, hidden, sys)), from, now) == Watch::Calm,
        !slow_trouble(sh, phase, hidden, now),
{
}

/// A preview that was taken away stays away: nothing is left to take.
pub proof fn dropped_once(sh: Shared, oom: bool, now: u64, hidden: bool, sys: SysLoad, later: u64)
    ensures
        dropped(sh, oom, now).preview.mode() == PreviewEncoding::Off,
        dropped(sh, oom, now).preview.planned().skip_always,
        host_trouble(dropped(sh, oom, now), hidden, sys) is None,
        !slow_trouble(dropped(sh, oom, now), PairPhase::Live, hidden, later),
{
}

/// The messages after all of the first `n` of a list.
pub open spec fn bumped_all(ts: Seq<ToastModel>, msgs: Seq<String>, n: int, now: u64) -> Seq<
    ToastModel,
>
    decreases n,
{
    if n <= 0 {
        ts
    } else {
        bumped(bumped_all(ts, msgs, n - 1, now), msgs[n - 1]@, now)
    }
}

/// What happens to the window.
#[derive(Clone, Copy, Debug, PartialEq, Eq, Structural)]
pub enum CloseAnswer {
    /// It closes, and the program ends.
    Close,
    /// It is hidden, and the program goes on.
    Hide,
}

/// What is done about the code on show.
#[derive(Clone, Copy, Debug, PartialEq, Eq, Structural)]
pub enum QrStep {
    /// None can be shown.
    Clear,
    /// It stands for the link.
    Keep,
    /// Another one has to be made.
    Render,
}

/// What is done about the code on show.
pub open spec fn qr_step_for(on_show: Seq<char>, url: Seq<char>, bind_failed: bool) -> QrStep {
    if url.len() == 0 || bind_failed {
        QrStep::Clear
    } else if on_show != url {
        QrStep::Render
    } else {
        QrStep::Keep
    }
}

impl PocketCamApp {
    /// The program was asked to end, or to show its window.
    pub fn wake(&mut self, shared: &mut Shared, exit: bool, show: bool)
        ensures
            *final(self) == (PocketCamApp {
                allow_exit: old(self).allow_exit || exit,
                ..*old(self)
            }),
            *final(shared) == (Shared {
                preview: PreviewControl {
                    window_shown: old(shared).preview.window_shown || exit || show,
                    ..old(shared).preview
                },
                ..*old(shared)
            }),
    {
        if exit {
            self.allow_exit = true;
            shared.preview.set_window_shown(true);
        }
        if show {
            shared.preview.set_window_shown(true);
        }
    }

    /// Puts up messages, oldest first.
    pub fn bump_all(&mut self, msgs: &[String], now: u64)
        ensures
            toasts_view(final(self).toasts@) == bumped_all(
                toasts_view(old(self).toasts@),
                msgs@,
                msgs@.len() as int,
                now,
            ),
            *final(self) == (PocketCamApp { toasts: final(self).toasts, ..*old(self) }),
    {
        let mut i: usize = 0;
        while i < msgs.len()
            invariant
                i <= msgs@.len(),
                toasts_view(self.toasts@) == bumped_all(
                    toasts_view(old(self).toasts@),
                    msgs@,
                    i as int,
                    now,
                ),
                *self == (PocketCamApp { toasts: self.toasts, ..*old(self) }),
            decreases msgs@.len() - i,
        {
            self.bump_notice(msgs[i].clone(), now);
            i += 1;
        }
    }

    /// The window is to be closed. Unless the program ends it is only hidden, and
    /// has no preview.
    pub fn close_requested(&mut self, shared: &mut Shared, exit_requested: bool) -> (r: CloseAnswer)
        ensures
            *final(self) == *old(self),
            old(self).allow_exit || exit_requested ==> r == CloseAnswer::Close && *final(shared)
                == *old(shared),
            !old(self).allow_exit && !exit_requested ==> {
                &&& r == CloseAnswer::Hide
                &&& *final(shared) == (Shared {
                    preview: PreviewControl { window_shown: false, ..old(shared).preview },
                    slot: FrameSlot { frame: None },
                    ..*old(shared)
                })
                &&& final(shared).preview.planned() == no_picture()
            },
    {
        if self.allow_exit || exit_requested {
            return CloseAnswer::Close;
        }
        shared.preview.set_window_shown(false);
        shared.slot.frame = None;
        CloseAnswer::Hide
    }

    /// What is done about the code on show. Without one nothing is remembered of it.
    pub fn qr_step(&mut self, url: &str, bind_failed: bool) -> (r: QrStep)
        ensures
            r == qr_step_for(old(self).qr_url@, url@, bind_failed),
            final(self).qr_url@ == if r == QrStep::Clear {
                Seq::empty()
            } else {
                old(self).qr_url@
            },
            *final(self) == (PocketCamApp { qr_url: final(self).qr_url, ..*old(self) }),
    {
        if url.is_empty() || bind_failed {
            self.qr_url = String::new();
            return QrStep::Clear;
        }
        if !same(self.qr_url.as_str(), url) {
            return QrStep::Render;
        }
        QrStep::Keep
    }

    /// A code was made for a link.
    pub fn qr_rendered(&mut self, url: &str)
        ensures
            final(self).qr_url@ == url@,
            *final(self) == (PocketCamApp { qr_url: final(self).qr_url, ..*old(self) }),
    {
        self.qr_url = url.to_owned();
    }

    /// The user keeps the preview under load, or not.
    pub fn set_keep(&mut self, shared: &mut Shared, keep: bool)
        ensures
            *final(self) == (PocketCamApp {
                preview_slow_since: None,
                preview_host_since: None,
                ..*old(self)
            }),
            *final(shared) == (Shared {
                preview: PreviewControl { keep_rgb: keep, ..old(shared).preview },
                ..*old(shared)
            }),
    {
        shared.preview.set_keep_rgb(keep);
        self.preview_slow_since = None;
        self.preview_host_since = None;
    }

    /// The user chooses a mode of the preview. One that is too large for a source
    /// cannot be chosen.
    pub fn choose_mode(&mut self, shared: &mut Shared, enc: PreviewEncoding, src_long: u32) -> (r:
        bool)
        ensures
            r == (src_long == 0 || enc.long_edge() <= src_long),
            !r ==> *final(self) == *old(self) && *final(shared) == *old(shared),
            r ==> {
                &&& *final(self) == (PocketCamApp {
                    preview_slow_since: None,
                    preview_host_since: None,
                    ..*old(self)
                })
                &&& *final(shared) == (Shared {
                    preview: PreviewControl { encoding: enc.number(), ..old(shared).preview },
                    stats: StreamStats { oom: false, oom_until: None, ..old(shared).stats },
                    ..*old(shared)
                })
            },
    {
        if !enc.fits(src_long) {
            return false;
        }
        shared.preview.set_encoding(enc);
        shared.stats.clear_oom();
        self.preview_slow_since = None;
        self.preview_host_since = None;
        true
    }

    /// The user wants another token. While a phone is live, its code comes up.
    pub fn new_session(&mut self, phase: PairPhase, now: u64)
        ensures
            toasts_view(final(self).toasts@) == bumped(
                toasts_view(old(self).toasts@),
                "New token \u{2014} previous phone is disconnected."@,
                now,
            ),
            *final(self) == (PocketCamApp {
                toasts: final(self).toasts,
                last_seq: 0,
                show_pair_qr: old(self).show_pair_qr || phase == PairPhase::Live,
                ..*old(self)
            }),
    {
        self.last_seq = 0;
        if phase == PairPhase::Live {
            self.show_pair_qr = true;
        }
        self.bump_notice("New token \u{2014} previous phone is disconnected.".to_owned(), now);
    }

    /// The settings come up, with the folder for recordings that is set.
    pub fn open_settings(&mut self, shared: &Shared)
        ensures
            final(self).recordings_edit@ == match shared.settings.recordings {
                Some(p) => p@,
                None => Seq::empty(),
            },
            *final(self) == (PocketCamApp {
                recordings_edit: final(self).recordings_edit,
                show_settings: true,
                ..*old(self)
            }),
    {
        self.recordings_edit = match &shared.settings.recordings {
            Some(p) => p.clone(),
            None => String::new(),
        };
        self.show_settings = true;
    }
}

impl PocketCamApp {
    /// The user wants recordings in the default folder.
    pub fn use_default_folder(&mut self, next: &mut Settings)
        ensures
            final(self).recordings_edit@.len() == 0,
            *final(self) == (PocketCamApp {
                recordings_edit: final(self).recordings_edit,
                ..*old(self)
            }),
            *final(next) == (Settings { recordings: None, ..*old(next) }),
    {
        self.recordings_edit = String::new();
        next.recordings = None;
    }

    /// A folder for recordings was tried: it is set, or the user is told why it
    /// cannot be had. What was typed then gives way to what is set.
    pub fn folder_checked(
        &mut self,
        next: &mut Settings,
        checked: Result<Option<String>, String>,
        typed: bool,
    ) -> (r: Option<String>)
        ensures
            match checked {
                Ok(dir) => {
                    &&& r is None
                    &&& *final(next) == (Settings { recordings: dir, ..*old(next) })
                    &&& *final(self) == *old(self)
                },
                Err(why) => {
                    &&& string_view(r) == Some("Recordings folder: "@ + why@)
                    &&& *final(next) == *old(next)
                    &&& final(self).recordings_edit@ == if typed {
                        match string_view(old(next).recordings) {
                            Some(dir) => dir,
                            None => Seq::empty(),
                        }
                    } else {
                        old(self).recordings_edit@
                    }
                    &&& *final(self) == (PocketCamApp {
                        recordings_edit: final(self).recordings_edit,
                        ..*old(self)
                    })
                },
            },
    {
        match checked {
            Ok(dir) => {
                next.recordings = dir;
                None
            },
            Err(why) => {
                let mut s: String = "Recordings folder: ".to_owned();
                s.append(why.as_str());
                if typed {
                    self.recordings_edit = match &next.recordings {
                        Some(dir) => dir.clone(),
                        None => String::new(),
                    };
                }
                Some(s)
            },
        }
    }
}

/// With what the decoder reads in line with what runs and with the quality that
/// is chosen.
pub open spec fn synced(sh: Shared) -> Shared {
    Shared {
        preview: PreviewControl {
            record_on: sh.record.on,
            vcam_on: sh.vcam.on,
            camera_fmt: index_for(sh.stats.selected_quality@),
            ..sh.preview
        },
        ..sh
    }
}

/// Brings what the decoder reads in line with what runs and with the quality
/// that is chosen.
pub fn sync(shared: &mut Shared)
    ensures
        *final(shared) == synced(*old(shared)),
{
    shared.preview.record_on = shared.record.is_on();
    shared.preview.vcam_on = shared.vcam.is_on();
    shared.preview.set_camera_quality(shared.stats.selected_quality.as_str());
}

/// True of modes with many pixels.
pub open spec fn is_heavy(enc: PreviewEncoding) -> bool {
    match enc {
        PreviewEncoding::P1080_30
        | PreviewEncoding::P1080_60
        | PreviewEncoding::P1440_30
        | PreviewEncoding::P1440_60
        | PreviewEncoding::P2160_30
        | PreviewEncoding::P2160_60
        | PreviewEncoding::Native => true,
        _ => false,
    }
}

/// How soon the window is drawn again, in milliseconds.
pub open spec fn repaint_of(
    hidden: bool,
    phase: PairPhase,
    preview_off: bool,
    enc: PreviewEncoding,
) -> u64 {
    if hidden {
        200
    } else {
        match phase {
            PairPhase::Waiting => 200,
            PairPhase::Connecting => 50,
            PairPhase::Live => if preview_off {
                200
            } else if is_heavy(enc) {
                33
            } else {
                16
            },
        }
    }
}

/// How soon the window is drawn again, in milliseconds.
pub fn repaint_ms(hidden: bool, phase: PairPhase, preview_off: bool, enc: PreviewEncoding) -> (r:
    u64)
    ensures
        r == repaint_of(hidden, phase, preview_off, enc),
{
    if hidden {
        return 200;
    }
    match phase {
        PairPhase::Waiting => 200,
        PairPhase::Connecting => 50,
        PairPhase::Live => {
            if preview_off {
                return 200;
            }
            match enc {
                PreviewEncoding::P1080_30
                | PreviewEncoding::P1080_60
                | PreviewEncoding::P1440_30
                | PreviewEncoding::P1440_60
                | PreviewEncoding::P2160_30
                | PreviewEncoding::P2160_60
                | PreviewEncoding::Native => 33,
                _ => 16,
            }
        },
    }
}

/// What taking the latest picture comes to.
pub open spec fn takes(
    before: FrameSlot,
    last: u64,
    after: FrameSlot,
    next: u64,
    r: Option<RgbFrame>,
) -> bool {
    match before.frame {
        Some(f) => if f.seq == last {
            r is None && after == before && next == last
        } else {
            r == Some(f) && after.frame is None && next == f.seq
        },
        None => r is None && after == before && next == last,
    }
}

/// Takes the latest picture, unless it was shown already.
pub fn take_frame(slot: &mut FrameSlot, last_seq: &mut u64) -> (r: Option<RgbFrame>)
    ensures
        takes(*old(slot), *old(last_seq), *final(slot), *final(last_seq), r),
{
    let fresh: bool = match &slot.frame {
        Some(f) => f.seq != *last_seq,
        None => false,
    };
    if !fresh {
        return None;
    }
    let frame: Option<RgbFrame> = slot.frame.take();
    if let Some(f) = &frame {
        *last_seq = f.seq;
    }
    frame
}

/// Red, green and blue of a pixel.
pub open spec fn colours_of(p: u32) -> (u8, u8, u8) {
    ((p / 0x1_0000 % 0x100) as u8, (p / 0x100 % 0x100) as u8, (p % 0x100) as u8)
}

/// True of a picture with as many pixels as it declares, and with any.
pub open spec fn whole_picture(f: RgbFrame) -> bool {
    f.width * f.height == f.pixels@.len() && f.pixels@.len() > 0
}

/// The pixels of a picture, unpacked.
pub open spec fn unpacked(f: RgbFrame) -> Seq<(u8, u8, u8)> {
    Seq::new(f.pixels@.len(), |i: int| colours_of(f.pixels@[i]))
}

/// The sides of a picture that comes out: a whole one that there is room for.
pub open spec fn shown_sides(f: RgbFrame, room: bool) -> Option<(usize, usize)> {
    if whole_picture(f) && room {
        Some((f.width as usize, f.height as usize))
    } else {
        None
    }
}

/// How many pixels there must be room for, where the picture is whole.
pub fn picture_len(frame: &RgbFrame) -> (r: Option<usize>)
    ensures
        match r {
            Some(n) => whole_picture(*frame) && n == frame.pixels@.len(),
            None => !whole_picture(*frame),
        },
{
    assert(frame.width * frame.height <= 0xffff_ffff * 0xffff_ffff) by (nonlinear_arith)
        requires
            0 <= frame.width <= 0xffff_ffff,
            0 <= frame.height <= 0xffff_ffff,
    ;
    let n: u64 = (frame.width as u64) * (frame.height as u64);
    let len: usize = frame.pixels.len();
    if n == 0 || n != len as u64 {
        return None;
    }
    Some(len)
}

/// Unpacks the pixels of a picture into `scratch`, with room for them or without,
/// and gives its sides. None comes of a picture that is not whole, which changes
/// nothing, or without room, which leaves nothing behind.
pub fn fill_preview_image(frame: &RgbFrame, scratch: &mut Vec<(u8, u8, u8)>, room: bool) -> (r:
    Option<(usize, usize)>)
    ensures
        r == shown_sides(*frame, room),
        final(scratch)@ == if !whole_picture(*frame) {
            old(scratch)@
        } else if room {
            unpacked(*frame)
        } else {
            Seq::empty()
        },
{
    let len: usize = match picture_len(frame) {
        Some(n) => n,
        None => return None,
    };
    if !room {
        *scratch = Vec::new();
        assert(scratch@ =~= Seq::empty());
        return None;
    }
    scratch.clear();
    let mut i: usize = 0;
    while i < len
        invariant
            i <= len == frame.pixels@.len(),
            scratch@.len() == i,
            forall|k: int| 0 <= k < i ==> scratch@[k] == unpacked(*frame)[k],
        decreases len - i,
    {
        let p: u32 = frame.pixels[i];
        scratch.push(
            ((p / 0x1_0000 % 0x100) as u8, (p / 0x100 % 0x100) as u8, (p % 0x100) as u8),
        );
        i += 1;
    }
    assert(scratch@ =~= unpacked(*frame));
    assert(frame.width <= len && frame.height <= len) by (nonlinear_arith)
        requires
            len == frame.width * frame.height,
            len > 0,
            frame.width >= 0,
            frame.height >= 0,
    ;
    Some((frame.width as usize, frame.height as usize))
}

/// Unpacks the pixels of a picture into `scratch`, and gives its sides. Whether
/// there is memory for them is the machine's to say, but a vector that is long
/// enough has the room.
pub fn try_preview_image(frame: &RgbFrame, scratch: &mut Vec<(u8, u8, u8)>) -> (r: Option<
    (usize, usize),
>)
    ensures
        r == shown_sides(*frame, true) || r == shown_sides(*frame, false),
        old(scratch)@.len() >= frame.pixels@.len() ==> r == shown_sides(*frame, true),
        final(scratch)@ == if !whole_picture(*frame) {
            old(scratch)@
        } else if r is Some {
            unpacked(*frame)
        } else {
            Seq::empty()
        },
{
    let room: bool = match picture_len(frame) {
        Some(n) => make_room(scratch, n),
        None => false,
    };
    fill_preview_image(frame, scratch, room)
}

/// There was no memory for a picture: the preview goes off.
pub fn drop_preview_on_oom(shared: &mut Shared, now: u64) -> (r: PreviewEncoding)
    ensures
        r == PreviewEncoding::Off,
        *final(shared) == (Shared {
            slot: old(shared).slot,
            ..dropped(*old(shared), true, now)
        }),
{
    shared.preview.set_encoding(PreviewEncoding::Off);
    shared.stats.note_oom(now);
    shared.stats.clear_preview_rgb();
    PreviewEncoding::Off
}

/// Whole seconds for which the phone that left may come back.
pub open spec fn seconds_left(p: Pairing, now: u64) -> Option<u64> {
    match p.grace_until {
        Some(t) => {
            let s = since(now, t) / 1_000_000_000;
            if s > 0 {
                Some(s)
            } else {
                None
            }
        },
        None => None,
    }
}

/// Whole seconds for which the phone that left may come back.
pub fn grace_left(p: &Pairing, now: u64) -> (r: Option<u64>)
    ensures
        r == seconds_left(*p, now),
{
    match p.grace_until {
        Some(t) => {
            let s: u64 = elapsed(now, t) / 1_000_000_000;
            if s > 0 {
                Some(s)
            } else {
                None
            }
        },
        None => None,
    }
}

/// What was taken is not taken again: neither from the place it left, nor when
/// the same picture comes in once more.
pub proof fn pictures_are_shown_once(
    slot: FrameSlot,
    last: u64,
    after: FrameSlot,
    next: u64,
    f: RgbFrame,
    again: FrameSlot,
    end: FrameSlot,
    seq: u64,
    r: Option<RgbFrame>,
)
    requires
        takes(slot, last, after, next, Some(f)),
        again == after || again.frame == Some(f),
        takes(again, next, end, seq, r),
    ensures
        r is None,
        end == again,
        seq == next,
{
}

/// What becomes of the code on show.
pub enum QrOut {
    /// None is shown.
    Clear,
    /// The one on show stays.
    Keep,
    /// Another one is shown.
    Show(QrBitmap),
}

/// What becomes of the picture on show.
#[derive(Clone, Copy, Debug)]
pub enum PictureOut {
    /// None is shown.
    Off,
    /// The one on show stays.
    Keep,
    /// Another one is shown, with these sides.
    Show(usize, usize),
    /// There was no memory for another one, and none is shown.
    NoMemory,
}

/// What the window is drawn from.
pub struct FramePlan {
    pub phase: PairPhase,
    /// Seconds for which the phone that left may come back.
    pub grace: Option<u64>,
    pub hidden: bool,
    pub preview_off: bool,
    pub repaint_ms: u64,
    pub qr: QrOut,
    pub picture: PictureOut,
}

/// True where the code comes out so, and stands for this link then.
pub open spec fn qr_comes_to(
    on_show: Seq<char>,
    url: Seq<char>,
    bind_failed: bool,
    out: QrOut,
    next: Seq<char>,
) -> bool {
    match qr_step_for(on_show, url, bind_failed) {
        QrStep::Clear => out is Clear && next.len() == 0,
        QrStep::Keep => out is Keep && next == on_show,
        QrStep::Render => match drawn(encode_utf8(url)) {
            Some((side, rgba)) => {
                &&& out matches QrOut::Show(b) && b.size == side && b.rgba@ == rgba
                &&& next == url
            },
            None => out is Keep && next == on_show,
        },
    }
}

/// The picture to show next, if it is another one.
pub open spec fn next_picture(sh: Shared, last: u64) -> Option<RgbFrame> {
    match sh.slot.frame {
        Some(f) => if sh.preview.planned().skip_always || f.seq == last {
            None
        } else {
            Some(f)
        },
        None => None,
    }
}

/// True where the picture comes out so, and the unpacked pixels with it. One
/// that fits into what was unpacked before comes out for certain.
pub open spec fn picture_comes_to(
    sh: Shared,
    last: u64,
    out: PictureOut,
    before: Seq<(u8, u8, u8)>,
    after: Seq<(u8, u8, u8)>,
) -> bool {
    if sh.preview.planned().skip_always {
        out is Off && after == before
    } else {
        match next_picture(sh, last) {
            None => out is Keep && after == before,
            Some(f) => if !whole_picture(f) {
                out is NoMemory && after == before
            } else if out is NoMemory {
                before.len() < f.pixels@.len() && after.len() == 0
            } else {
                out == PictureOut::Show(f.width as usize, f.height as usize) && after == unpacked(f)
            },
        }
    }
}

/// What is told of a preview that there was no memory for.
pub open spec fn no_memory_words() -> Seq<char> {
    "Preview ran out of memory. Switched to "@ + PreviewEncoding::Off.name() + "."@
}

impl PocketCamApp {
    /// Gets the window ready to be drawn: the state is brought in line, the code
    /// for the link is made where it is another link, and the latest picture is
    /// unpacked where there is one. Without memory for it the preview goes off.
    pub fn update(
        &mut self,
        shared: &mut Shared,
        bind_failed: bool,
        scratch: &mut Vec<(u8, u8, u8)>,
        now: u64,
    ) -> (r: FramePlan)
        ensures
            ({
                let sh = synced(*old(shared));
                let p = old(shared).pairing;
                let next = next_picture(sh, old(self).last_seq);
                let taken = Shared {
                    slot: if next is Some {
                        FrameSlot { frame: None }
                    } else {
                        sh.slot
                    },
                    ..sh
                };
                &&& r.phase == p.phase
                &&& r.grace == seconds_left(p, now)
                &&& r.hidden == !sh.preview.window_shown
                &&& r.preview_off == sh.preview.planned().skip_always
                &&& r.repaint_ms == repaint_of(
                    r.hidden,
                    p.phase,
                    r.preview_off,
                    sh.preview.mode(),
                )
                &&& qr_comes_to(
                    old(self).qr_url@,
                    p.url@,
                    bind_failed,
                    r.qr,
                    final(self).qr_url@,
                )
                &&& picture_comes_to(
                    sh,
                    old(self).last_seq,
                    r.picture,
                    old(scratch)@,
                    final(scratch)@,
                )
                &&& *final(shared) == if r.picture is NoMemory {
                    dropped(taken, true, now)
                } else {
                    taken
                }
                &&& toasts_view(final(self).toasts@) == if r.picture is NoMemory {
                    bumped(toasts_view(old(self).toasts@), no_memory_words(), now)
                } else {
                    toasts_view(old(self).toasts@)
                }
                &&& *final(self) == (PocketCamApp {
                    qr_url: final(self).qr_url,
                    toasts: final(self).toasts,
                    last_seq: match next {
                        Some(f) => f.seq,
                        None => old(self).last_seq,
                    },
                    ..*old(self)
                })
            }),
    {
        sync(shared);
        let ghost sh = *shared;
        let phase: PairPhase = shared.pairing.phase;
        let grace: Option<u64> = grace_left(&shared.pairing, now);
        let hidden: bool = !shared.preview.window_shown();
        let preview_off: bool = shared.preview.rgb_off();
        let repaint_ms: u64 = repaint_ms(hidden, phase, preview_off, shared.preview.encoding());
        let qr: QrOut = self.refresh_qr(shared.pairing.url.as_str(), bind_failed);
        let picture: PictureOut = if preview_off {
            PictureOut::Off
        } else {
            match take_frame(&mut shared.slot, &mut self.last_seq) {
                Some(frame) => {
                    let sides: Option<(usize, usize)> = try_preview_image(&frame, scratch);
                    self.after_unpacking(shared, sides, now)
                },
                None => PictureOut::Keep,
            }
        };
        FramePlan { phase, grace, hidden, preview_off, repaint_ms, qr, picture }
    }

    /// What becomes of a picture that was unpacked, or that there was no memory
    /// for: without memory the preview goes off, and the user is told.
    pub fn after_unpacking(
        &mut self,
        shared: &mut Shared,
        sides: Option<(usize, usize)>,
        now: u64,
    ) -> (r: PictureOut)
        ensures
            r == match sides {
                Some((w, h)) => PictureOut::Show(w, h),
                None => PictureOut::NoMemory,
            },
            *final(shared) == if sides is None {
                Shared { slot: old(shared).slot, ..dropped(*old(shared), true, now) }
            } else {
                *old(shared)
            },
            toasts_view(final(self).toasts@) == if sides is None {
                bumped(toasts_view(old(self).toasts@), no_memory_words(), now)
            } else {
                toasts_view(old(self).toasts@)
            },
            *final(self) == (PocketCamApp { toasts: final(self).toasts, ..*old(self) }),
    {
        if let Some((w, h)) = sides {
            return PictureOut::Show(w, h);
        }
        let next: PreviewEncoding = drop_preview_on_oom(shared, now);
        let mut s: String = "Preview ran out of memory. Switched to ".to_owned();
        s.append(next.label());
        s.append(".");
        self.bump_notice(s, now);
        PictureOut::NoMemory
    }

    fn refresh_qr(&mut self, url: &str, bind_failed: bool) -> (r: QrOut)
        ensures
            qr_comes_to(old(self).qr_url@, url@, bind_failed, r, final(self).qr_url@),
            *final(self) == (PocketCamApp { qr_url: final(self).qr_url, ..*old(self) }),
    {
        match self.qr_step(url, bind_failed) {
            QrStep::Clear => QrOut::Clear,
            QrStep::Keep => QrOut::Keep,
            QrStep::Render => match render(url) {
                Ok(b) => {
                    self.qr_rendered(url);
                    QrOut::Show(b)
                },
                Err(_) => QrOut::Keep,
            },
        }
    }
}

/// Pictures are unpacked pixel by pixel: red, green and blue, which make the pixel up
/// again.
pub proof fn pixels_are_unpacked(f: RgbFrame, i: int)
    requires
        0 <= i < f.pixels@.len(),
    ensures
        ({
            let (r, g, b) = unpacked(f)[i];
            &&& unpacked(f).len() == f.pixels@.len()
            &&& r * 0x1_0000 + g * 0x100 + b == f.pixels@[i] % 0x100_0000
        }),
{
}

} // verus!
