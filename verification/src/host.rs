//! The icon in the notification area: what it shows, what its menu offers, and
//! what is done about a message to it.

use crate::figures::{whole, whole_of};
use crate::float::{zero, Single};
use crate::icon::TrayTint;
use crate::overlay::{camera_of, wanted};
use crate::preview::{quality_by_id, since, QualitySpec, StreamStats};
use crate::settings::string_view;
use crate::shared::Shared;
use crate::text::{
    chars, contains_text, decimal, holds, push_decimal, slice, tail, tail_is_part, tail_of, text,
};
use vstd::prelude::*;
use vstd::string::*;

verus! {

/// The window system's numbers of messages.
pub const WM_DESTROY: u32 = 0x0002;

pub const WM_SETTINGCHANGE: u32 = 0x001A;

pub const WM_CONTEXTMENU: u32 = 0x007B;

pub const WM_COMMAND: u32 = 0x0111;

pub const WM_TIMER: u32 = 0x0113;

pub const WM_LBUTTONUP: u32 = 0x0202;

pub const WM_LBUTTONDBLCLK: u32 = 0x0203;

pub const WM_RBUTTONUP: u32 = 0x0205;

/// The numbers of this program's own messages.
pub const WM_TRAY: u32 = 0x8001;

pub const WM_TRAY_REFRESH: u32 = 0x8002;

pub const WM_TRAY_MENU: u32 = 0x8003;

pub const WM_TOGGLE_VCAM: u32 = 0x8004;

pub const WM_TOGGLE_RECORD: u32 = 0x8005;

pub const WM_TRAY_BALLOON: u32 = 0x8006;

/// The timer that keeps the icon up to date.
pub const TRAY_TIMER: u64 = 1;

/// The numbers of menu rows.
pub const ID_SHOW: u32 = 1;

pub const ID_EXIT: u32 = 2;

pub const ID_VCAM: u32 = 3;

pub const ID_RECORD: u32 = 4;

/// How often a second start asks the first to show its window.
pub const SHOW_TRIES: u32 = 20;

/// A stream without a frame for this long is not live, in nanoseconds.
pub const QUIET: u64 = 1_500_000_000;

/// What the user wants of the program.
#[derive(Clone, Copy, Debug, PartialEq, Eq, Structural)]
pub enum TrayCmd {
    Show,
    Exit,
    ToggleVcam,
    ToggleRecord,
}

/// What is done about a message.
#[derive(Clone, Copy, Debug, PartialEq, Eq, Structural)]
pub enum TrayStep {
    /// Nothing, and nobody else has to do anything.
    Nothing,
    /// What the window system does by itself.
    Default,
    /// What the user wants.
    Cmd(TrayCmd),
    /// The menu is asked for by a message of its own: clicks on a menu that comes
    /// up in the middle of this one would be lost.
    AskMenu,
    /// The menu comes up.
    Menu,
    /// The balloon comes up.
    Balloon,
    /// The icon is brought up to date.
    Refresh,
    /// The theme may be another one.
    Theme,
    Quit,
}

/// What a menu row stands for.
pub open spec fn cmd_of(id: u32) -> Option<TrayCmd> {
    if id == ID_SHOW {
        Some(TrayCmd::Show)
    } else if id == ID_EXIT {
        Some(TrayCmd::Exit)
    } else if id == ID_VCAM {
        Some(TrayCmd::ToggleVcam)
    } else if id == ID_RECORD {
        Some(TrayCmd::ToggleRecord)
    } else {
        None
    }
}

/// What a menu row stands for.
pub fn dispatch_cmd(id: u32) -> (r: Option<TrayCmd>)
    ensures
        r == cmd_of(id),
{
    if id == ID_SHOW {
        Some(TrayCmd::Show)
    } else if id == ID_EXIT {
        Some(TrayCmd::Exit)
    } else if id == ID_VCAM {
        Some(TrayCmd::ToggleVcam)
    } else if id == ID_RECORD {
        Some(TrayCmd::ToggleRecord)
    } else {
        None
    }
}

/// What is done about a message with its two values.
pub open spec fn step_for(msg: u32, w: u64, l: u64) -> TrayStep {
    let mouse = l % 0x1_0000_0000;
    if msg == WM_TRAY {
        if mouse == WM_LBUTTONUP || mouse == WM_LBUTTONDBLCLK {
            TrayStep::Cmd(TrayCmd::Show)
        } else if mouse == WM_RBUTTONUP || mouse == WM_CONTEXTMENU {
            TrayStep::AskMenu
        } else {
            TrayStep::Nothing
        }
    } else if msg == WM_COMMAND {
        match cmd_of((w % 0x1_0000) as u32) {
            Some(c) => TrayStep::Cmd(c),
            None => TrayStep::Nothing,
        }
    } else if msg == WM_TIMER {
        if w == TRAY_TIMER {
            TrayStep::Refresh
        } else {
            TrayStep::Nothing
        }
    } else if msg == WM_TRAY_BALLOON {
        TrayStep::Balloon
    } else if msg == WM_TRAY_MENU {
        TrayStep::Menu
    } else if msg == WM_TRAY_REFRESH {
        TrayStep::Refresh
    } else if msg == WM_TOGGLE_VCAM {
        TrayStep::Cmd(TrayCmd::ToggleVcam)
    } else if msg == WM_TOGGLE_RECORD {
        TrayStep::Cmd(TrayCmd::ToggleRecord)
    } else if msg == WM_SETTINGCHANGE {
        TrayStep::Theme
    } else if msg == WM_DESTROY {
        TrayStep::Quit
    } else {
        TrayStep::Default
    }
}

/// What is done about a message with its two values.
pub fn tray_wndproc(msg: u32, w: u64, l: u64) -> (r: TrayStep)
    ensures
        r == step_for(msg, w, l),
{
    if msg == WM_TRAY {
        let mouse: u64 = l % 0x1_0000_0000;
        if mouse == WM_LBUTTONUP as u64 || mouse == WM_LBUTTONDBLCLK as u64 {
            TrayStep::Cmd(TrayCmd::Show)
        } else if mouse == WM_RBUTTONUP as u64 || mouse == WM_CONTEXTMENU as u64 {
            TrayStep::AskMenu
        } else {
            TrayStep::Nothing
        }
    } else if msg == WM_COMMAND {
        match dispatch_cmd((w % 0x1_0000) as u32) {
            Some(c) => TrayStep::Cmd(c),
            None => TrayStep::Nothing,
        }
    } else if msg == WM_TIMER {
        if w == TRAY_TIMER {
            TrayStep::Refresh
        } else {
            TrayStep::Nothing
        }
    } else if msg == WM_TRAY_BALLOON {
        TrayStep::Balloon
    } else if msg == WM_TRAY_MENU {
        TrayStep::Menu
    } else if msg == WM_TRAY_REFRESH {
        TrayStep::Refresh
    } else if msg == WM_TOGGLE_VCAM {
        TrayStep::Cmd(TrayCmd::ToggleVcam)
    } else if msg == WM_TOGGLE_RECORD {
        TrayStep::Cmd(TrayCmd::ToggleRecord)
    } else if msg == WM_SETTINGCHANGE {
        TrayStep::Theme
    } else if msg == WM_DESTROY {
        TrayStep::Quit
    } else {
        TrayStep::Default
    }
}

/// What a second start does next.
#[derive(Clone, Copy, Debug, PartialEq, Eq, Structural)]
pub enum ClaimStep {
    /// The first start was asked to show its window.
    Asked,
    /// It is tried again after a while.
    Wait,
    /// The user is told to look for the icon.
    Tell,
}

/// What a second start does after as many tries, the last of which went well or not.
pub fn claim(tries: u32, signalled: bool) -> (r: ClaimStep)
    ensures
        r == if signalled {
            ClaimStep::Asked
        } else if tries < SHOW_TRIES {
            ClaimStep::Wait
        } else {
            ClaimStep::Tell
        },
{
    if signalled {
        ClaimStep::Asked
    } else if tries < SHOW_TRIES {
        ClaimStep::Wait
    } else {
        ClaimStep::Tell
    }
}

/// True where the icon has to be drawn anew.
pub fn icon_due(force: bool, tint: TrayTint, last: Option<TrayTint>) -> (r: bool)
    ensures
        r == (force || last != Some(tint)),
{
    match last {
        Some(t) => force || t != tint,
        None => true,
    }
}

/// The balloon that a message comes up in while the window is hidden: a message
/// of a failure is a warning.
pub fn notice_balloon(window_shown: bool, msg: &str) -> (r: Option<bool>)
    ensures
        r == if window_shown {
            None
        } else {
            Some(holds(msg@, "failed"@))
        },
{
    if window_shown {
        return None;
    }
    let c: Vec<char> = chars(msg);
    Some(contains_text(c.as_slice(), "failed"))
}

/// A character in UTF-16: itself, or two surrogates.
pub open spec fn utf16_of(c: char) -> Seq<u16> {
    let n = c as u32 as int;
    if n < 0x1_0000 {
        seq![n as u16]
    } else {
        seq![(0xd800 + (n - 0x1_0000) / 0x400) as u16, (0xdc00 + (n - 0x1_0000) % 0x400) as u16]
    }
}

/// The first `n` characters in UTF-16.
pub open spec fn utf16(s: Seq<char>, n: int) -> Seq<u16>
    decreases n,
{
    if n <= 0 {
        Seq::empty()
    } else {
        utf16(s, n - 1) + utf16_of(s[n - 1])
    }
}

fn encode_utf16(s: &str) -> (r: Vec<u16>)
    ensures
        r@ == utf16(s@, s@.len() as int),
{
    let c: Vec<char> = chars(s);
    let mut r: Vec<u16> = Vec::new();
    let mut i: usize = 0;
    while i < c.len()
        invariant
            i <= c@.len(),
            c@ == s@,
            r@ == utf16(s@, i as int),
        decreases c@.len() - i,
    {
        let ghost before = r@;
        let ch: char = c[i];
        let n: u32 = ch as u32;
        if n < 0x1_0000 {
            r.push(n as u16);
        } else {
            let k: u32 = n - 0x1_0000;
            r.push((0xd800 + k / 0x400) as u16);
            r.push((0xdc00 + k % 0x400) as u16);
        }
        assert(r@ =~= before + utf16_of(s@[i as int]));
        i += 1;
    }
    r
}

/// A text in a buffer: as much of it as there is room for, then zeros.
pub open spec fn in_buffer(s: Seq<char>, len: int) -> Seq<u16> {
    let t = utf16(s, s.len() as int);
    Seq::new(
        len as nat,
        |i: int|
            if i < t.len() {
                t[i]
            } else {
                0
            },
    )
}

/// Puts a text into a buffer: as much of it as there is room for, then zeros.
pub fn write_utf16(dest: &mut [u16], s: &str)
    ensures
        final(dest)@ == in_buffer(s@, old(dest)@.len() as int),
{
    let t: Vec<u16> = encode_utf16(s);
    let ghost want = in_buffer(s@, dest@.len() as int);
    let len: usize = dest.len();
    let mut i: usize = 0;
    while i < len
        invariant
            i <= len == dest@.len(),
            old(dest)@.len() == len,
            t@ == utf16(s@, s@.len() as int),
            want == in_buffer(s@, len as int),
            forall|k: int| 0 <= k < i ==> dest@[k] == want[k],
        decreases len - i,
    {
        dest[i] = if i < t.len() {
            t[i]
        } else {
            0
        };
        i += 1;
    }
    assert(dest@ =~= want);
}

/// What the icon shows.
pub struct TraySnap {
    pub vcam: bool,
    pub rec: bool,
    /// The file that is being recorded.
    pub rec_file: Option<String>,
    pub status_line: String,
    pub tip: String,
    pub tint: TrayTint,
}

/// True of a stream whose last frame is recent.
pub open spec fn is_live(s: StreamStats, now: u64) -> bool {
    match s.last_frame {
        Some(t) => since(t, now) <= QUIET,
        None => false,
    }
}

/// The quality that is chosen, or that of the virtual camera.
pub open spec fn chosen(sh: Shared) -> QualitySpec {
    match wanted(sh.stats.selected_quality@) {
        Some(q) => q,
        None => camera_of(sh.preview),
    }
}

/// The line of the menu on the stream.
pub open spec fn status_words(sh: Shared, now: u64) -> Seq<char> {
    let q = chosen(sh);
    let label = decimal(q.height as nat) + "p "@ + decimal(q.fps as nat);
    if is_live(sh.stats, now) {
        label + "  \u{b7}  "@ + whole_of(sh.stats.fps) + " fps"@
    } else if sh.vcam.on || sh.record.on {
        label + "  \u{b7}  waiting"@
    } else {
        label + "  \u{b7}  idle"@
    }
}

/// The text at the icon.
pub open spec fn tip_words(sh: Shared, now: u64) -> Seq<char> {
    let a = if is_live(sh.stats, now) {
        "PocketCam"@ + " \u{b7} "@ + whole_of(sh.stats.fps) + "/"@ + decimal(
            chosen(sh).fps as nat,
        ) + " fps"@
    } else {
        "PocketCam"@
    };
    let b = if sh.vcam.on {
        a + " \u{b7} vcam"@
    } else {
        a
    };
    if sh.record.on {
        b + " \u{b7} rec"@
    } else {
        b
    }
}

/// The colour of the icon.
pub open spec fn tint_of(sh: Shared, now: u64) -> TrayTint {
    if !sh.vcam.on && !sh.record.on {
        TrayTint::Idle
    } else if is_live(sh.stats, now) {
        TrayTint::at_rate(sh.stats.fps, chosen(sh).fps)
    } else {
        TrayTint::at_rate(zero(), chosen(sh).fps)
    }
}

/// The name of a file: what stands behind the last separator, or behind the drive
/// of a path without one.
pub open spec fn file_name(p: Seq<char>) -> Seq<char> {
    let t = tail_of(p, '\\', '/', p.len() as int);
    if t == p && p.len() >= 2 && p[1] == ':' && (('a' <= p[0] && p[0] <= 'z') || ('A' <= p[0]
        && p[0] <= 'Z')) {
        p.skip(2)
    } else {
        t
    }
}

fn name_of(path: &str) -> (r: String)
    ensures
        r@ == file_name(path@),
{
    let c: Vec<char> = chars(path);
    let t: Vec<char> = tail(c.as_slice(), '\\', '/');
    let n: usize = c.len();
    proof {
        tail_is_part(c@, '\\', '/', c@.len() as int);
        assert(c@.skip(0) =~= c@);
    }
    if t.len() == n && n >= 2 && c[1] == ':' && (('a' <= c[0] && c[0] <= 'z') || ('A' <= c[0]
        && c[0] <= 'Z')) {
        let rest: Vec<char> = slice(c.as_slice(), 2, n);
        assert(rest@ =~= c@.skip(2));
        text(rest.as_slice())
    } else {
        text(t.as_slice())
    }
}

/// The file that is being recorded.
pub open spec fn recorded_file(sh: Shared) -> Option<Seq<char>> {
    match string_view(sh.record.last_path) {
        Some(p) => if sh.record.on {
            Some(file_name(p))
        } else {
            None
        },
        None => None,
    }
}

impl TraySnap {
    /// What the icon shows, before and after the program has started up.
    pub fn capture(shared: Option<&Shared>, now: u64) -> (r: TraySnap)
        ensures
            match shared {
                None => {
                    &&& !r.vcam && !r.rec && r.rec_file is None
                    &&& r.status_line@ == "Starting\u{2026}"@
                    &&& r.tip@ == "PocketCam"@
                    &&& r.tint == TrayTint::Idle
                },
                Some(sh) => {
                    &&& r.vcam == sh.vcam.on && r.rec == sh.record.on
                    &&& string_view(r.rec_file) == recorded_file(*sh)
                    &&& r.status_line@ == status_words(*sh, now)
                    &&& r.tip@ == tip_words(*sh, now)
                    &&& r.tint == tint_of(*sh, now)
                },
            },
    {
        match shared {
            None => TraySnap {
                vcam: false,
                rec: false,
                rec_file: None,
                status_line: "Starting\u{2026}".to_owned(),
                tip: "PocketCam".to_owned(),
                tint: TrayTint::Idle,
            },
            Some(sh) => Self::of(sh, now),
        }
    }

    fn of(sh: &Shared, now: u64) -> (r: TraySnap)
        ensures
            r.vcam == sh.vcam.on && r.rec == sh.record.on,
            string_view(r.rec_file) == recorded_file(*sh),
            r.status_line@ == status_words(*sh, now),
            r.tip@ == tip_words(*sh, now),
            r.tint == tint_of(*sh, now),
    {
        let vcam: bool = sh.vcam.is_on();
        let rec: bool = sh.record.is_on();
        let q: QualitySpec = match quality_by_id(sh.stats.selected_quality.as_str()) {
            Some(q) => q,
            None => sh.preview.camera_quality(),
        };
        let live: bool = match sh.stats.last_frame {
            Some(t) => now <= t || now - t <= QUIET,
            None => false,
        };
        let fps: String = whole(sh.stats.fps);
        let mut status_line: String = String::new();
        push_decimal(&mut status_line, q.height as u64);
        status_line.append("p ");
        push_decimal(&mut status_line, q.fps as u64);
        if live {
            status_line.append("  \u{b7}  ");
            status_line.append(fps.as_str());
            status_line.append(" fps");
        } else if vcam || rec {
            status_line.append("  \u{b7}  waiting");
        } else {
            status_line.append("  \u{b7}  idle");
        }
        assert(status_line@ =~= status_words(*sh, now));
        let mut tip: String = "PocketCam".to_owned();
        if live {
            tip.append(" \u{b7} ");
            tip.append(fps.as_str());
            tip.append("/");
            push_decimal(&mut tip, q.fps as u64);
            tip.append(" fps");
        }
        if vcam {
            tip.append(" \u{b7} vcam");
        }
        if rec {
            tip.append(" \u{b7} rec");
        }
        assert(tip@ =~= tip_words(*sh, now));
        let tint: TrayTint = if !vcam && !rec {
            TrayTint::Idle
        } else if live {
            TrayTint::from_fps(sh.stats.fps, q.fps)
        } else {
            TrayTint::from_fps(Single { bits: 0 }, q.fps)
        };
        let rec_file: Option<String> = match &sh.record.last_path {
            Some(p) => if rec {
                Some(name_of(p.as_str()))
            } else {
                None
            },
            None => None,
        };
        TraySnap { vcam, rec, rec_file, status_line, tip, tint }
    }
}

/// A row of the menu.
pub enum MenuRow {
    Line,
    Row { id: u32, text: String, checked: bool, grey: bool },
}

/// A row of the menu.
pub ghost enum RowModel {
    Line,
    Row { id: u32, text: Seq<char>, checked: bool, grey: bool },
}

impl View for MenuRow {
    type V = RowModel;

    open spec fn view(&self) -> RowModel {
        match *self {
            MenuRow::Line => RowModel::Line,
            MenuRow::Row { id, text, checked, grey } => RowModel::Row {
                id,
                text: text@,
                checked,
                grey,
            },
        }
    }
}

/// The rows of the menu.
pub open spec fn rows_view(v: Seq<MenuRow>) -> Seq<RowModel> {
    v.map_values(|m: MenuRow| m@)
}

/// A row to choose.
pub open spec fn choice(id: u32, text: Seq<char>, checked: bool) -> RowModel {
    RowModel::Row { id, text, checked, grey: false }
}

/// A row to read.
pub open spec fn remark(text: Seq<char>) -> RowModel {
    RowModel::Row { id: 0, text, checked: false, grey: true }
}

/// The menu.
pub open spec fn menu_of(s: TraySnap) -> Seq<RowModel> {
    seq![
        choice(ID_SHOW, "Show window"@, false),
        RowModel::Line,
        remark(s.status_line@),
        choice(ID_VCAM, "Virtual camera"@, s.vcam),
        choice(ID_RECORD, "Record"@, s.rec),
    ] + match s.rec_file {
        Some(f) => seq![remark(f@)],
        None => Seq::empty(),
    } + seq![RowModel::Line, choice(ID_EXIT, "Exit"@, false)]
}

fn put_row(out: &mut Vec<MenuRow>, row: MenuRow)
    ensures
        rows_view(final(out)@) == rows_view(old(out)@).push(row@),
{
    let ghost m = row@;
    out.push(row);
    assert(rows_view(out@) =~= rows_view(old(out)@).push(m));
}

/// The menu.
pub fn popup_menu(s: &TraySnap) -> (r: Vec<MenuRow>)
    ensures
        rows_view(r@) == menu_of(*s),
{
    let mut out: Vec<MenuRow> = Vec::new();
    put_row(
        &mut out,
        MenuRow::Row {
            id: ID_SHOW,
            text: "Show window".to_owned(),
            checked: false,
            grey: false,
        },
    );
    put_row(&mut out, MenuRow::Line);
    put_row(
        &mut out,
        MenuRow::Row { id: 0, text: s.status_line.clone(), checked: false, grey: true },
    );
    put_row(
        &mut out,
        MenuRow::Row {
            id: ID_VCAM,
            text: "Virtual camera".to_owned(),
            checked: s.vcam,
            grey: false,
        },
    );
    put_row(
        &mut out,
        MenuRow::Row { id: ID_RECORD, text: "Record".to_owned(), checked: s.rec, grey: false },
    );
    if let Some(f) = &s.rec_file {
        put_row(&mut out, MenuRow::Row { id: 0, text: f.clone(), checked: false, grey: true });
    }
    put_row(&mut out, MenuRow::Line);
    put_row(
        &mut out,
        MenuRow::Row { id: ID_EXIT, text: "Exit".to_owned(), checked: false, grey: false },
    );
    assert(rows_view(out@) =~= menu_of(*s));
    out
}

/// Every row of the menu that can be chosen stands for something to do, and
/// nothing can be done that is not in the menu.
pub proof fn menu_rows_lead_somewhere(s: TraySnap)
    ensures
        forall|i: int|
            #![trigger menu_of(s)[i]]
            0 <= i < menu_of(s).len() ==> (menu_of(s)[i] matches RowModel::Row { id, grey, .. }
                ==> (cmd_of(id) is Some <==> !grey)),
        forall|id: u32|
            #[trigger] cmd_of(id) is Some ==> exists|i: int|
                0 <= i < menu_of(s).len() && (#[trigger] menu_of(s)[i] matches RowModel::Row {
                    id: j,
                    ..
                } && j == id),
{
    let m = menu_of(s);
    assert forall|id: u32| #[trigger] cmd_of(id) is Some implies exists|i: int|
        0 <= i < m.len() && (#[trigger] m[i] matches RowModel::Row { id: j, .. } && j == id) by {
        if id == ID_SHOW {
            assert(m[0] == choice(ID_SHOW, "Show window"@, false));
        } else if id == ID_VCAM {
            assert(m[3] == choice(ID_VCAM, "Virtual camera"@, s.vcam));
        } else if id == ID_RECORD {
            assert(m[4] == choice(ID_RECORD, "Record"@, s.rec));
        } else {
            let last = m.len() - 1;
            assert(m[last] == choice(ID_EXIT, "Exit"@, false));
        }
    }
}

/// The icon has the colour of idleness exactly while nothing is on.
pub proof fn idle_means_nothing_on(sh: Shared, now: u64)
    ensures
        tint_of(sh, now) == TrayTint::Idle <==> !sh.vcam.on && !sh.record.on,
{
}

} // verus!
