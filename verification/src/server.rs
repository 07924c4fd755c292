//! Signaling: what a phone may say, and what it is answered.
//!
//! A connection says hello with the token first. The one that is accepted is
//! the phone until it leaves, or until there is another token.

use crate::pairing::{accepted, AcceptError, PairPhase, Pairing, TOKEN_GRACE};
use crate::preview::{
    index_for, item_at, items_view, later, merge_qualities, merged, catalog, may_switch, number_of,
    quality_allowed, quality_at, quality_by_id, Avail, CameraItem, FrameSlot, ItemModel,
    PreviewControl, QualitySpec, StreamStats,
};
use crate::settings::string_view;
use crate::shared::HostCmd;
use crate::text::{decimal, push_decimal, same};
use crate::vcam::{FormatStep, Vcam};
use vstd::prelude::*;
use vstd::string::*;

verus! {

/// A camera or a quality as the phone reports it.
pub struct CamMsg {
    pub id: String,
    pub label: String,
    pub available: Option<bool>,
}

/// A message from the phone.
pub struct SignalMsg {
    pub kind: String,
    pub sdp: Option<String>,
    pub token: Option<String>,
    pub devices: Option<Vec<CamMsg>>,
    pub qualities: Option<Vec<CamMsg>>,
    pub device_id: Option<String>,
    pub quality_id: Option<String>,
    pub label: Option<String>,
}

/// A connection.
#[derive(Clone, Copy, Debug, PartialEq, Eq, Structural)]
pub struct Conn {
    /// Its token was accepted.
    pub authed: bool,
    /// For which token that was.
    pub claimed_gen: u64,
    pub conn_id: u64,
}

/// What is to be done about a message.
pub enum SignalStep {
    /// Nothing.
    Ignore,
    /// Say that hello was heard.
    HelloOk,
    /// This connection is the phone from now on, and whoever was is cut off. Say
    /// that hello was heard.
    Claimed,
    /// Say why the token was refused.
    Refused(AcceptError),
    /// Say that hello comes first.
    HelloFirst,
    /// Say that there is another token, and close.
    Replaced,
    /// Answer the offer.
    Offer(String),
    /// The phone has changed its quality, and outputs follow.
    Quality(String),
}

/// What is to be done about a message.
pub ghost enum StepModel {
    Ignore,
    HelloOk,
    Claimed,
    Refused(AcceptError),
    HelloFirst,
    Replaced,
    Offer(Seq<char>),
    Quality(Seq<char>),
}

impl View for SignalStep {
    type V = StepModel;

    open spec fn view(&self) -> StepModel {
        match self {
            SignalStep::Ignore => StepModel::Ignore,
            SignalStep::HelloOk => StepModel::HelloOk,
            SignalStep::Claimed => StepModel::Claimed,
            SignalStep::Refused(e) => StepModel::Refused(*e),
            SignalStep::HelloFirst => StepModel::HelloFirst,
            SignalStep::Replaced => StepModel::Replaced,
            SignalStep::Offer(s) => StepModel::Offer(s@),
            SignalStep::Quality(s) => StepModel::Quality(s@),
        }
    }
}

/// What signaling keeps of the stream: cameras and qualities, and the chosen ones.
pub ghost struct Choices {
    pub cameras: Seq<ItemModel>,
    pub camera: Seq<char>,
    pub qualities: Seq<ItemModel>,
    pub quality: Seq<char>,
}

/// The choices in what is known of the stream.
pub open spec fn choices_of(s: StreamStats) -> Choices {
    Choices {
        cameras: items_view(s.cameras@),
        camera: s.selected_camera@,
        qualities: items_view(s.qualities@),
        quality: s.selected_quality@,
    }
}

/// Reported cameras as items: all can be used.
pub open spec fn cameras_of(v: Seq<CamMsg>) -> Seq<ItemModel> {
    Seq::new(
        v.len(),
        |i: int| ItemModel { id: v[i].id@, label: v[i].label@, available: Avail::Yes },
    )
}

/// Reported qualities as items.
pub open spec fn qualities_of(v: Seq<CamMsg>) -> Seq<ItemModel> {
    Seq::new(
        v.len(),
        |i: int|
            ItemModel {
                id: v[i].id@,
                label: v[i].label@,
                available: match v[i].available {
                    Some(true) => Avail::Yes,
                    Some(false) => Avail::No,
                    None => Avail::Unknown,
                },
            },
    )
}

/// A list with an item at its end, unless one has its id already.
pub open spec fn with_item(items: Seq<ItemModel>, id: Seq<char>, label: Option<Seq<char>>) -> Seq<
    ItemModel,
> {
    match label {
        Some(l) => if item_at(items, id, 0) is None {
            items.push(ItemModel { id, label: l, available: Avail::Yes })
        } else {
            items
        },
        None => items,
    }
}

/// True of the messages that only the phone may send.
pub open spec fn needs_hello(kind: Seq<char>) -> bool {
    kind == "offer"@ || kind == "cameras"@ || kind == "camera"@ || kind == "qualities"@ || kind
        == "quality"@
}

/// The outcome of a message: the connection, the pairing, the choices and what to do.
pub ghost struct Outcome {
    pub conn: Conn,
    pub consumed: bool,
    pub phase: PairPhase,
    pub grace_until: Option<u64>,
    pub choices: Choices,
    pub step: StepModel,
}

/// Nothing but a reply.
pub open spec fn only(c: Conn, p: Pairing, s: Choices, step: StepModel) -> Outcome {
    Outcome {
        conn: c,
        consumed: p.consumed,
        phase: p.phase,
        grace_until: p.grace_until,
        choices: s,
        step,
    }
}

/// The token that hello came with, if any.
pub open spec fn offered_token(t: Option<String>) -> Seq<char> {
    match t {
        Some(t) => t@,
        None => Seq::empty(),
    }
}

/// The outcome of hello.
pub open spec fn after_hello(c: Conn, p: Pairing, s: Choices, token: Seq<char>, id: u64) -> Outcome {
    if c.authed {
        only(c, p, s, StepModel::HelloOk)
    } else {
        match accepted(p, token) {
            Ok(_) => Outcome {
                conn: Conn { authed: true, claimed_gen: p.generation, conn_id: id },
                consumed: true,
                phase: PairPhase::Connecting,
                grace_until: None,
                choices: s,
                step: StepModel::Claimed,
            },
            Err(e) => only(c, p, s, StepModel::Refused(e)),
        }
    }
}

/// The outcome of what the phone reports or asks for.
pub open spec fn after_report(c: Conn, p: Pairing, s: Choices, m: SignalMsg) -> Outcome {
    let label = string_view(m.label);
    if m.kind@ == "offer"@ {
        match m.sdp {
            Some(sdp) => only(c, p, s, StepModel::Offer(sdp@)),
            None => only(c, p, s, StepModel::Ignore),
        }
    } else if m.kind@ == "cameras"@ {
        match m.devices {
            Some(v) => only(
                c,
                p,
                Choices { cameras: cameras_of(v@), ..s },
                StepModel::Ignore,
            ),
            None => only(c, p, s, StepModel::Ignore),
        }
    } else if m.kind@ == "qualities"@ {
        match m.qualities {
            Some(v) => {
                let t = Choices {
                    qualities: merged(catalog(Avail::Unknown), qualities_of(v@), v@.len() as int),
                    ..s
                };
                match m.quality_id {
                    Some(id) => only(
                        c,
                        p,
                        Choices { quality: id@, ..t },
                        StepModel::Quality(id@),
                    ),
                    None => only(c, p, t, StepModel::Ignore),
                }
            },
            None => only(c, p, s, StepModel::Ignore),
        }
    } else if m.kind@ == "quality"@ {
        match m.quality_id {
            Some(id) => only(
                c,
                p,
                Choices {
                    quality: id@,
                    qualities: with_item(s.qualities, id@, label),
                    ..s
                },
                StepModel::Quality(id@),
            ),
            None => only(c, p, s, StepModel::Ignore),
        }
    } else {
        match m.device_id {
            Some(id) => only(
                c,
                p,
                Choices { camera: id@, cameras: with_item(s.cameras, id@, label), ..s },
                StepModel::Ignore,
            ),
            None => only(c, p, s, StepModel::Ignore),
        }
    }
}

/// The outcome of a message on a connection. `id` is the number that the
/// connection gets where it becomes the phone.
pub open spec fn after_message(c: Conn, p: Pairing, s: Choices, m: SignalMsg, id: u64) -> Outcome {
    if c.authed && p.generation != c.claimed_gen {
        only(c, p, s, StepModel::Replaced)
    } else if m.kind@ == "hello"@ {
        after_hello(c, p, s, offered_token(m.token), id)
    } else if needs_hello(m.kind@) {
        if c.authed {
            after_report(c, p, s, m)
        } else {
            only(c, p, s, StepModel::HelloFirst)
        }
    } else {
        only(c, p, s, StepModel::Ignore)
    }
}

fn camera_items(v: &Vec<CamMsg>) -> (r: Vec<CameraItem>)
    ensures
        items_view(r@) == cameras_of(v@),
{
    let mut r: Vec<CameraItem> = Vec::new();
    let mut i: usize = 0;
    while i < v.len()
        invariant
            i <= v@.len(),
            r@.len() == i,
            forall|k: int| 0 <= k < i ==> (#[trigger] r@[k])@ == cameras_of(v@)[k],
        decreases v@.len() - i,
    {
        r.push(
            CameraItem { id: v[i].id.clone(), label: v[i].label.clone(), available: Avail::Yes },
        );
        i += 1;
    }
    assert(items_view(r@) =~= cameras_of(v@));
    r
}

fn quality_items(v: &Vec<CamMsg>) -> (r: Vec<CameraItem>)
    ensures
        items_view(r@) == qualities_of(v@),
{
    let mut r: Vec<CameraItem> = Vec::new();
    let mut i: usize = 0;
    while i < v.len()
        invariant
            i <= v@.len(),
            r@.len() == i,
            forall|k: int| 0 <= k < i ==> (#[trigger] r@[k])@ == qualities_of(v@)[k],
        decreases v@.len() - i,
    {
        r.push(
            CameraItem {
                id: v[i].id.clone(),
                label: v[i].label.clone(),
                available: Avail::from_opt(v[i].available),
            },
        );
        i += 1;
    }
    assert(items_view(r@) =~= qualities_of(v@));
    r
}

/// Adds an item that the phone named, unless one has its id already.
fn add_item(items: &mut Vec<CameraItem>, id: &String, label: &Option<String>)
    ensures
        items_view(final(items)@) == with_item(
            items_view(old(items)@),
            id@,
            string_view(*label),
        ),
{
    let ghost before = items@;
    if let Some(l) = label {
        let mut i: usize = 0;
        while i < items.len()
            invariant
                items@ == before,
                i <= items@.len(),
                item_at(items_view(before), id@, 0) == item_at(
                    items_view(before),
                    id@,
                    i as int,
                ),
                old(items)@ == before,
                *label == Some(*l),
            decreases items@.len() - i,
        {
            if same(items[i].id.as_str(), id.as_str()) {
                return;
            }
            i += 1;
        }
        items.push(CameraItem { id: id.clone(), label: l.clone(), available: Avail::Yes });
        assert(items_view(items@) =~= with_item(items_view(before), id@, Some(l@)));
    }
}

/// What else is known of the stream is not touched.
pub open spec fn only_choices_differ(a: StreamStats, b: StreamStats) -> bool {
    b == (StreamStats {
        cameras: b.cameras,
        selected_camera: b.selected_camera,
        qualities: b.qualities,
        selected_quality: b.selected_quality,
        ..a
    })
}

/// Takes a message on a connection.
pub fn handle_ws(
    conn: &mut Conn,
    pairing: &mut Pairing,
    stats: &mut StreamStats,
    msg: SignalMsg,
    next_id: u64,
) -> (r: SignalStep)
    ensures
        ({
            let o = after_message(
                *old(conn),
                *old(pairing),
                choices_of(*old(stats)),
                msg,
                next_id,
            );
            &&& *final(conn) == o.conn
            &&& *final(pairing) == (Pairing {
                consumed: o.consumed,
                phase: o.phase,
                grace_until: o.grace_until,
                ..*old(pairing)
            })
            &&& choices_of(*final(stats)) == o.choices
            &&& only_choices_differ(*old(stats), *final(stats))
            &&& r@ == o.step
        }),
{
    if conn.authed && pairing.generation != conn.claimed_gen {
        return SignalStep::Replaced;
    }
    let kind: &str = msg.kind.as_str();
    if same(kind, "hello") {
        return hello(conn, pairing, &msg.token, next_id);
    }
    let offer: bool = same(kind, "offer");
    let cameras: bool = same(kind, "cameras");
    let camera: bool = same(kind, "camera");
    let qualities: bool = same(kind, "qualities");
    let quality: bool = same(kind, "quality");
    if !(offer || cameras || camera || qualities || quality) {
        return SignalStep::Ignore;
    }
    if !conn.authed {
        return SignalStep::HelloFirst;
    }
    if offer {
        match msg.sdp {
            Some(sdp) => SignalStep::Offer(sdp),
            None => SignalStep::Ignore,
        }
    } else if cameras {
        if let Some(v) = &msg.devices {
            stats.cameras = camera_items(v);
        }
        SignalStep::Ignore
    } else if qualities {
        if let Some(v) = &msg.qualities {
            let reported: Vec<CameraItem> = quality_items(v);
            assert(items_view(reported@).len() == reported@.len());
            stats.qualities = merge_qualities(reported);
            if let Some(id) = &msg.quality_id {
                stats.selected_quality = id.clone();
                return SignalStep::Quality(id.clone());
            }
        }
        SignalStep::Ignore
    } else if quality {
        if let Some(id) = &msg.quality_id {
            stats.selected_quality = id.clone();
            add_item(&mut stats.qualities, id, &msg.label);
            return SignalStep::Quality(id.clone());
        }
        SignalStep::Ignore
    } else {
        if let Some(id) = &msg.device_id {
            stats.selected_camera = id.clone();
            add_item(&mut stats.cameras, id, &msg.label);
        }
        SignalStep::Ignore
    }
}

/// Takes hello on a connection.
fn hello(conn: &mut Conn, pairing: &mut Pairing, token: &Option<String>, next_id: u64) -> (r:
    SignalStep)
    ensures
        forall|s: Choices|
            ({
                let o = #[trigger] after_hello(
                    *old(conn),
                    *old(pairing),
                    s,
                    offered_token(*token),
                    next_id,
                );
                &&& *final(conn) == o.conn
                &&& *final(pairing) == (Pairing {
                    consumed: o.consumed,
                    phase: o.phase,
                    grace_until: o.grace_until,
                    ..*old(pairing)
                })
                &&& o.choices == s
                &&& r@ == o.step
            }),
{
    if conn.authed {
        return SignalStep::HelloOk;
    }
    let offered: &str = match token {
        Some(t) => t.as_str(),
        None => "",
    };
    proof {
        reveal_strlit("");
        assert(""@ =~= Seq::empty());
    }
    match pairing.accept_token(offered) {
        Ok(_) => {
            pairing.phase = PairPhase::Connecting;
            pairing.grace_until = None;
            conn.authed = true;
            conn.claimed_gen = pairing.generation;
            conn.conn_id = next_id;
            SignalStep::Claimed
        },
        Err(e) => SignalStep::Refused(e),
    }
}

/// An error as the phone is told: a tag and words.
#[derive(Clone, Copy, Debug)]
pub struct ErrorReply {
    pub code: &'static str,
    pub message: &'static str,
}

/// The error that a step sends, if it sends one.
pub open spec fn error_of(step: StepModel) -> Option<(Seq<char>, Seq<char>)> {
    match step {
        StepModel::Refused(e) => Some((e.tag(), e.words())),
        StepModel::HelloFirst => Some(
            ("hello-first"@, "Enter the token from the PC, then start the camera."@),
        ),
        _ => None,
    }
}

/// The error that a step sends, if it sends one.
pub fn error_reply(step: &SignalStep) -> (r: Option<ErrorReply>)
    ensures
        match r {
            Some(e) => error_of(step@) == Some((e.code@, e.message@)),
            None => error_of(step@) is None,
        },
{
    match step {
        SignalStep::Refused(e) => Some(ErrorReply { code: e.code(), message: e.message() }),
        SignalStep::HelloFirst => Some(
            ErrorReply {
                code: "hello-first",
                message: "Enter the token from the PC, then start the camera.",
            },
        ),
        _ => None,
    }
}

/// The error for an offer that could not be answered.
pub fn answer_failed() -> (r: ErrorReply)
    ensures
        r.code@ == "answer-failed"@,
        r.message@ == "Could not start the live session. Same Wi-Fi as the PC? Tap Start camera to retry."@,
{
    ErrorReply {
        code: "answer-failed",
        message: "Could not start the live session. Same Wi-Fi as the PC? Tap Start camera to retry.",
    }
}

/// Why a phone is cut off.
#[derive(Clone, Copy, Debug, PartialEq, Eq, Structural)]
pub enum ByeReason {
    /// It spoke after there was another token.
    Replaced,
    /// There is another token now.
    NewSession,
}

impl ByeReason {
    /// The reason as the phone knows it, and in words.
    pub open spec fn texts(self) -> (Seq<char>, Seq<char>) {
        match self {
            ByeReason::Replaced => (
                "replaced"@,
                "PC started a new session. Type the new token."@,
            ),
            ByeReason::NewSession => (
                "new-session"@,
                "PC started a new session. Type the new token shown on the PC."@,
            ),
        }
    }

    /// The reason as the phone knows it, and in words.
    pub fn bye(self) -> (r: (&'static str, &'static str))
        ensures
            (r.0@, r.1@) == self.texts(),
    {
        match self {
            ByeReason::Replaced => (
                "replaced",
                "PC started a new session. Type the new token.",
            ),
            ByeReason::NewSession => (
                "new-session",
                "PC started a new session. Type the new token shown on the PC.",
            ),
        }
    }
}

/// An offer was answered, or not. The phone is live where it was.
pub fn handle_offer(pairing: &mut Pairing, answered: bool)
    ensures
        *final(pairing) == (Pairing {
            phase: if answered {
                PairPhase::Live
            } else {
                old(pairing).phase
            },
            ..*old(pairing)
        }),
{
    if answered {
        pairing.phase = PairPhase::Live;
    }
}

/// What is to be done after a connection closed.
#[derive(Clone, Copy, Debug)]
pub struct CloseStep {
    /// It was the phone: hang up, and forget what was known of its stream.
    pub ours: bool,
    /// The token stays good for that one until then, if nothing else happens.
    pub grace: Option<(u64, u64)>,
}

/// True where the connection that closes is the phone.
pub open spec fn was_phone(conn: Conn, phone: Option<u64>) -> bool {
    conn.authed && phone == Some(conn.conn_id)
}

/// The pairing after the phone left: the same token may be used once more, for a while.
pub open spec fn left_behind(p: Pairing, conn: Conn, now: u64) -> Pairing {
    if p.generation != conn.claimed_gen {
        p
    } else {
        Pairing {
            consumed: false,
            phase: PairPhase::Waiting,
            grace_until: Some(later(now, TOKEN_GRACE)),
            ..p
        }
    }
}

/// A connection closed. Where it was the phone, it is forgotten, and may come
/// back with the same token for a while.
pub fn closed(conn: &Conn, pairing: &mut Pairing, phone: &mut Option<u64>, now: u64) -> (r: CloseStep)
    ensures
        *final(phone) == if *old(phone) == Some(conn.conn_id) {
            None
        } else {
            *old(phone)
        },
        *final(pairing) == if was_phone(*conn, *old(phone)) {
            left_behind(*old(pairing), *conn, now)
        } else {
            *old(pairing)
        },
        r == (CloseStep {
            ours: was_phone(*conn, *old(phone)),
            grace: if was_phone(*conn, *old(phone)) && old(pairing).generation == conn.claimed_gen {
                Some((conn.claimed_gen, later(now, TOKEN_GRACE)))
            } else {
                None
            },
        }),
{
    let ours: bool = match *phone {
        Some(id) => id == conn.conn_id,
        None => false,
    };
    if ours {
        *phone = None;
    }
    if !(ours && conn.authed) {
        return CloseStep { ours: false, grace: None };
    }
    if pairing.generation != conn.claimed_gen {
        return CloseStep { ours: true, grace: None };
    }
    let until: u64 = now.saturating_add(TOKEN_GRACE);
    pairing.consumed = false;
    pairing.phase = PairPhase::Waiting;
    pairing.grace_until = Some(until);
    CloseStep { ours: true, grace: Some((conn.claimed_gen, until)) }
}

/// True where the phone has not come back in time, and nothing else happened:
/// another token is due.
pub open spec fn overdue(p: Pairing, generation: u64, until: u64) -> bool {
    p.generation == generation && p.grace_until == Some(until) && !p.consumed
}

/// True where the phone has not come back in time.
pub fn grace_expired(pairing: &Pairing, generation: u64, until: u64) -> (r: bool)
    ensures
        r == overdue(*pairing, generation, until),
{
    match pairing.grace_until {
        Some(t) => pairing.generation == generation && t == until && !pairing.consumed,
        None => false,
    }
}

/// The limits that the phone is to keep to: the size, and how fast at most.
#[derive(Clone, Copy, Debug, PartialEq, Eq, Structural)]
pub struct CaptureLock {
    pub width: Option<u32>,
    pub height: Option<u32>,
    pub max_fps: Option<u32>,
}

/// The limits that the phone is to keep to: none while nothing runs, the size
/// while something does, and the rate while a recording does.
pub open spec fn lock_of(record: bool, vcam: bool, spec: QualitySpec) -> CaptureLock {
    if !record && !vcam {
        CaptureLock { width: None, height: None, max_fps: None }
    } else {
        CaptureLock {
            width: Some(spec.width),
            height: Some(spec.height),
            max_fps: if record {
                Some(spec.fps)
            } else {
                None
            },
        }
    }
}

/// The limits that the phone is to keep to.
pub fn capture_lock(record: bool, vcam: bool, spec: &QualitySpec) -> (r: CaptureLock)
    ensures
        r == lock_of(record, vcam, *spec),
{
    if !record && !vcam {
        return CaptureLock { width: None, height: None, max_fps: None };
    }
    CaptureLock {
        width: Some(spec.width),
        height: Some(spec.height),
        max_fps: if record {
            Some(spec.fps)
        } else {
            None
        },
    }
}

/// True of a quality that keeps to the limits.
pub open spec fn keeps_to(lock: CaptureLock, q: QualitySpec) -> bool {
    &&& lock.width matches Some(w) ==> q.width == w
    &&& lock.height matches Some(h) ==> q.height == h
    &&& lock.max_fps matches Some(f) ==> q.fps <= f
}

/// What the phone is told to keep to is what the window lets the user choose.
pub proof fn phone_and_window_agree(
    current: QualitySpec,
    next: QualitySpec,
    vcam: bool,
    record: bool,
)
    ensures
        keeps_to(lock_of(record, vcam, current), next) == may_switch(current, next, vcam, record),
{
}

/// The outputs after a quality was chosen.
pub open spec fn outputs_for(preview: PreviewControl, vcam: Vcam, id: Seq<char>) -> (
    PreviewControl,
    Vcam,
) {
    (
        PreviewControl { camera_fmt: index_for(id), ..preview },
        match number_of(id, 0) {
            Some(i) => Vcam { canvas: vcam.canvas_for(quality_at(i)), ..vcam },
            None => vcam,
        },
    )
}

/// What is left to do with the ring after a quality was chosen: the same size
/// at another rate changes its rate.
pub open spec fn ring_step(vcam: Vcam, id: Seq<char>) -> FormatStep {
    match number_of(id, 0) {
        Some(i) => {
            let q = quality_at(i);
            if vcam.canvas.0 == q.width && vcam.canvas.1 == q.height && vcam.canvas.2 != q.fps {
                FormatStep::SetFps(q.fps)
            } else {
                FormatStep::Nothing
            }
        },
        None => FormatStep::Nothing,
    }
}

/// Outputs follow a quality. The step is left for whoever holds the ring.
pub fn apply_output_quality(preview: &mut PreviewControl, vcam: &mut Vcam, id: &str) -> (r:
    FormatStep)
    ensures
        (*final(preview), *final(vcam)) == outputs_for(*old(preview), *old(vcam), id@),
        r == ring_step(*old(vcam), id@),
{
    preview.set_camera_quality(id);
    match quality_by_id(id) {
        Some(q) => vcam.set_format(&q),
        None => FormatStep::Nothing,
    }
}

/// What is to be done about a command from the window.
pub enum CmdStep {
    /// It is refused for now.
    Blocked,
    /// Tell the phone which camera to use.
    Camera(String),
    /// Tell the phone which quality to use, then its limits.
    Quality(String, FormatStep),
    /// Tell the phone its limits.
    Lock,
    /// Cut the phone off, mint another token, and forget the stream.
    NewSession,
}

/// True where a quality may not be chosen now.
pub open spec fn quality_blocked(preview: PreviewControl, vcam: bool, record: bool, id: Seq<char>) -> bool {
    let current = if preview.camera_fmt < crate::preview::QUALITIES {
        quality_at(preview.camera_fmt as int)
    } else {
        quality_at(crate::preview::DEFAULT_CAMERA_FMT as int)
    };
    match number_of(id, 0) {
        Some(i) => !may_switch(current, quality_at(i), vcam, record),
        None => false,
    }
}

/// Takes a command from the window.
pub fn run(
    cmd: HostCmd,
    stats: &mut StreamStats,
    preview: &mut PreviewControl,
    vcam: &mut Vcam,
    record: bool,
) -> (r: CmdStep)
    ensures
        only_choices_differ(*old(stats), *final(stats)),
        match cmd {
            HostCmd::SelectCamera(id) => {
                &&& r matches CmdStep::Camera(s) && s@ == id@
                &&& choices_of(*final(stats)) == (Choices {
                    camera: id@,
                    ..choices_of(*old(stats))
                })
                &&& *final(preview) == *old(preview)
                &&& *final(vcam) == *old(vcam)
            },
            HostCmd::SelectQuality(id) => if quality_blocked(
                *old(preview),
                old(vcam).on,
                record,
                id@,
            ) {
                &&& r is Blocked
                &&& *final(stats) == *old(stats)
                &&& *final(preview) == *old(preview)
                &&& *final(vcam) == *old(vcam)
            } else {
                &&& r matches CmdStep::Quality(s, f) && s@ == id@ && f == ring_step(
                    *old(vcam),
                    id@,
                )
                &&& choices_of(*final(stats)) == (Choices {
                    quality: id@,
                    ..choices_of(*old(stats))
                })
                &&& (*final(preview), *final(vcam)) == outputs_for(*old(preview), *old(vcam), id@)
            },
            HostCmd::CaptureLock => {
                &&& r is Lock
                &&& *final(stats) == *old(stats)
                &&& *final(preview) == *old(preview)
                &&& *final(vcam) == *old(vcam)
            },
            HostCmd::NewSession => {
                &&& r is NewSession
                &&& *final(stats) == *old(stats)
                &&& *final(preview) == *old(preview)
                &&& *final(vcam) == *old(vcam)
            },
        },
{
    match cmd {
        HostCmd::SelectCamera(id) => {
            stats.selected_camera = id.clone();
            CmdStep::Camera(id)
        },
        HostCmd::SelectQuality(id) => {
            let current: QualitySpec = preview.camera_quality();
            if let Some(next) = quality_by_id(id.as_str()) {
                if !quality_allowed(&current, &next, vcam.on, record) {
                    return CmdStep::Blocked;
                }
            }
            stats.selected_quality = id.clone();
            let step: FormatStep = apply_output_quality(preview, vcam, id.as_str());
            CmdStep::Quality(id, step)
        },
        HostCmd::CaptureLock => CmdStep::Lock,
        HostCmd::NewSession => CmdStep::NewSession,
    }
}

/// What is to be done when the stream is forgotten.
#[derive(Clone, Copy, Debug, PartialEq, Eq, Structural)]
pub struct ResetStep {
    /// The virtual camera shows the waiting picture.
    pub waiting: bool,
    /// The recording ends.
    pub stop_record: bool,
}

/// Forgets the stream: no picture, nothing known, and no recording.
pub fn reset_media(
    slot: &mut FrameSlot,
    stats: &mut StreamStats,
    preview: &mut PreviewControl,
    vcam: bool,
    record: bool,
) -> (r: ResetStep)
    ensures
        final(slot).frame is None,
        final(stats).is_fresh(),
        *final(preview) == (PreviewControl {
            record_on: old(preview).record_on && !record,
            ..*old(preview)
        }),
        r == (ResetStep { waiting: vcam, stop_record: record }),
{
    slot.frame = None;
    *stats = StreamStats::fresh();
    if record {
        preview.record_on = false;
    }
    ResetStep { waiting: vcam, stop_record: record }
}

/// What to tell the user of a recording that ended with the stream.
pub open spec fn stop_words(path: Option<Seq<char>>, kept: bool) -> Option<Seq<char>> {
    match path {
        Some(p) => if kept {
            Some("Recording stopped \u{2014} phone disconnected. Saved "@ + p)
        } else {
            Some("Recording stopped \u{2014} no video in the file yet."@)
        },
        None => None,
    }
}

/// What to tell the user of a recording that ended with the stream.
pub fn stop_notice(path: Option<&str>, kept: bool) -> (r: Option<String>)
    ensures
        string_view(r) == stop_words(crate::settings::text_view(path), kept),
{
    match path {
        Some(p) => if kept {
            let mut s: String = String::new();
            s.append("Recording stopped \u{2014} phone disconnected. Saved ");
            s.append(p);
            assert(s@ =~= "Recording stopped \u{2014} phone disconnected. Saved "@ + p@);
            Some(s)
        } else {
            Some("Recording stopped \u{2014} no video in the file yet.".to_owned())
        },
        None => None,
    }
}

/// What to tell the user where the port cannot be had.
pub open spec fn listen_words(port: u16, why: Seq<char>, serving: bool) -> Seq<char> {
    "Cannot listen on port "@ + decimal(port as nat) + ": "@ + why + if serving {
        ". Another app may be using it, or Windows Firewall blocked the bind."@
    } else {
        ". Another app may be using it."@
    }
}

/// What to tell the user where the port cannot be had, at the first try or while serving.
pub fn listen_error(port: u16, why: &str, serving: bool) -> (r: String)
    ensures
        r@ == listen_words(port, why@, serving),
{
    let mut s: String = String::new();
    s.append("Cannot listen on port ");
    push_decimal(&mut s, port as u64);
    s.append(": ");
    s.append(why);
    if serving {
        s.append(". Another app may be using it, or Windows Firewall blocked the bind.");
    } else {
        s.append(". Another app may be using it.");
    }
    assert(s@ =~= listen_words(port, why@, serving));
    s
}

/// Whoever has not said hello changes nothing but by a hello that is accepted:
/// what it reports or asks for is answered with a refusal.
pub proof fn strangers_change_nothing(c: Conn, p: Pairing, s: Choices, m: SignalMsg, id: u64)
    requires
        !c.authed,
    ensures
        ({
            let o = after_message(c, p, s, m, id);
            &&& o.choices == s
            &&& needs_hello(m.kind@) && m.kind@ != "hello"@ ==> o == only(
                c,
                p,
                s,
                StepModel::HelloFirst,
            )
            &&& o.conn.authed ==> m.kind@ == "hello"@ && accepted(
                p,
                offered_token(m.token),
            ) is Ok
            &&& !o.conn.authed ==> o == only(c, p, s, o.step)
        }),
{
}

/// One phone at a time: after a connection was accepted, every other hello is refused.
pub proof fn one_phone_at_a_time(
    c: Conn,
    p: Pairing,
    s: Choices,
    m: SignalMsg,
    id: u64,
    other: Conn,
    later_msg: SignalMsg,
    later_id: u64,
)
    requires
        !c.authed,
        after_message(c, p, s, m, id).conn.authed,
        !other.authed,
    ensures
        ({
            let o = after_message(c, p, s, m, id);
            let q = Pairing {
                consumed: o.consumed,
                phase: o.phase,
                grace_until: o.grace_until,
                ..p
            };
            !after_message(other, q, o.choices, later_msg, later_id).conn.authed
        }),
{
}

/// After another token was minted, the old phone is told so whatever it says,
/// and changes nothing.
pub proof fn old_phone_is_told(c: Conn, p: Pairing, s: Choices, m: SignalMsg, id: u64)
    requires
        c.authed,
        p.generation != c.claimed_gen,
    ensures
        after_message(c, p, s, m, id) == only(c, p, s, StepModel::Replaced),
{
}

/// A phone that left may come back with the same token; until it does, and if
/// nothing else happens, another token is due when the time is up, and not when
/// it came back.
pub proof fn phone_may_come_back(c: Conn, p: Pairing, s: Choices, m: SignalMsg, now: u64, id: u64)
    requires
        c.authed,
        p.generation == c.claimed_gen,
        m.kind@ == "hello"@,
        crate::pairing::normalized(
            offered_token(m.token),
            offered_token(m.token).len() as int,
        ) == p.token@,
    ensures
        ({
            let q = left_behind(p, c, now);
            let stranger = Conn { authed: false, claimed_gen: 0, conn_id: 0 };
            let o = after_message(stranger, q, s, m, id);
            let back = Pairing {
                consumed: o.consumed,
                phase: o.phase,
                grace_until: o.grace_until,
                ..q
            };
            &&& overdue(q, c.claimed_gen, later(now, TOKEN_GRACE))
            &&& o.conn.authed
            &&& !overdue(back, c.claimed_gen, later(now, TOKEN_GRACE))
        }),
{
}

/// A connection that is no longer the phone leaves everything alone when it closes.
pub proof fn late_close_is_harmless(c: Conn, phone: Option<u64>)
    requires
        phone != Some(c.conn_id),
    ensures
        !was_phone(c, phone),
{
}

/// A stranger becomes the phone with the right token, once: its connection is told apart
/// by its number and by the token's generation. Whoever comes with a used token, or with
/// another one, is told which of the two it was, and nothing changes.
pub proof fn hello_is_answered(c: Conn, p: Pairing, s: Choices, m: SignalMsg, id: u64)
    requires
        !c.authed,
        m.kind@ == "hello"@,
    ensures
        ({
            let o = after_message(c, p, s, m, id);
            let right = crate::pairing::letters_of(offered_token(m.token)) == p.token@;
            &&& o.choices == s
            &&& right && !p.consumed ==> {
                &&& o.step == StepModel::Claimed
                &&& o.conn == (Conn { authed: true, claimed_gen: p.generation, conn_id: id })
                &&& o.consumed && o.phase == PairPhase::Connecting && o.grace_until is None
            }
            &&& right && p.consumed ==> o.step == StepModel::Refused(
                crate::pairing::AcceptError::Used,
            )
            &&& !right ==> o.step == StepModel::Refused(crate::pairing::AcceptError::Unknown)
            &&& !(right && !p.consumed) ==> o.conn == c && o.consumed == p.consumed && o.phase
                == p.phase && o.grace_until == p.grace_until
        }),
{
    crate::pairing::tokens_are_compared_by_letters(p, offered_token(m.token));
}

/// What the phone says is taken for what it is about: an offer is handed on, a quality or
/// a camera that it names is the one chosen from then on, and neither touches the other,
/// nor the pairing.
pub proof fn the_phone_is_heard(c: Conn, p: Pairing, s: Choices, m: SignalMsg, id: u64)
    requires
        c.authed,
        p.generation == c.claimed_gen,
    ensures
        ({
            let o = after_message(c, p, s, m, id);
            let k = m.kind@;
            &&& o.conn == c && o.consumed == p.consumed && o.phase == p.phase && o.grace_until
                == p.grace_until
            &&& k == "hello"@ ==> o.step == StepModel::HelloOk && o.choices == s
            &&& k == "offer"@ && m.sdp is Some ==> o.step == StepModel::Offer(m.sdp->0@)
                && o.choices == s
            &&& k == "quality"@ && m.quality_id is Some ==> {
                let q = m.quality_id->0@;
                &&& o.step == StepModel::Quality(q) && o.choices.quality == q
                &&& o.choices.camera == s.camera && o.choices.cameras == s.cameras
            }
            &&& k == "camera"@ && m.device_id is Some ==> {
                &&& o.choices.camera == m.device_id->0@
                &&& o.choices.quality == s.quality && o.choices.qualities == s.qualities
            }
            &&& k == "cameras"@ && m.devices is Some ==> {
                let v = m.devices->0@;
                &&& o.choices.cameras.len() == v.len()
                &&& forall|i: int| 0 <= i < v.len() ==> (#[trigger] o.choices.cameras[i]).id
                    == v[i].id@ && o.choices.cameras[i].label == v[i].label@
                &&& o.choices.camera == s.camera && o.choices.quality == s.quality
                &&& o.choices.qualities == s.qualities
            }
        }),
{
    reveal_strlit("hello");
    reveal_strlit("offer");
    reveal_strlit("cameras");
    reveal_strlit("camera");
    reveal_strlit("qualities");
    reveal_strlit("quality");
    let k = m.kind@;
    assert("hello"@.len() == 5 && "offer"@.len() == 5 && "offer"@[0] == 'o' && "hello"@[0] == 'h');
    assert("cameras"@.len() == 7 && "camera"@.len() == 6 && "quality"@.len() == 7);
    assert("cameras"@[0] == 'c' && "quality"@[0] == 'q' && "qualities"@.len() == 9);
}

} // verus!
