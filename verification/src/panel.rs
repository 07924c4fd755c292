//! What stands in the window: labels, hints, and lists to choose from.

use crate::pairing::PairPhase;
use crate::preview::{
    catalog, find_item, fps_avail, id_for, item_at, items_view, known_of, known_of_size, may_switch,
    number_of, quality_allowed, quality_by_id, quality_catalog, quality_fps,
    quality_id_for, quality_sizes, rate_of, size_avail, size_label, size_of, Avail, CameraItem,
    ItemModel, PreviewEncoding, PreviewPlan, QualitySpec, StreamStats,
};
use crate::overlay::{camera_of, wanted};
use crate::settings::{
    adapters_view, find_adapter, lan_of, named_at, string_view, text_view, Adapter, AdapterModel,
    Settings,
};
use crate::shared::Shared;
use crate::text::{chars, contains_text, decimal, holds, push_decimal, same};
use vstd::prelude::*;
use vstd::string::*;

verus! {

/// The colour of a label.
#[derive(Clone, Copy, Debug, PartialEq, Eq, Structural)]
pub enum Hue {
    Accent,
    Live,
    Muted,
    Warn,
    Danger,
}

/// The label on the pairing.
pub open spec fn chip_of(phase: PairPhase, consumed: bool, grace: bool) -> (Seq<char>, Hue) {
    match phase {
        PairPhase::Waiting => if consumed {
            ("Token used \u{2014} new session"@, Hue::Danger)
        } else if grace {
            ("Waiting \u{2014} same token"@, Hue::Warn)
        } else {
            ("Waiting for phone"@, Hue::Accent)
        },
        PairPhase::Connecting => ("Connecting"@, Hue::Warn),
        PairPhase::Live => ("Live"@, Hue::Live),
    }
}

/// The label on the pairing.
pub fn phase_chip(phase: PairPhase, consumed: bool, grace: bool) -> (r: (&'static str, Hue))
    ensures
        (r.0@, r.1) == chip_of(phase, consumed, grace),
{
    match phase {
        PairPhase::Waiting => if consumed {
            ("Token used \u{2014} new session", Hue::Danger)
        } else if grace {
            ("Waiting \u{2014} same token", Hue::Warn)
        } else {
            ("Waiting for phone", Hue::Accent)
        },
        PairPhase::Connecting => ("Connecting", Hue::Warn),
        PairPhase::Live => ("Live", Hue::Live),
    }
}

/// The note at the token. Minutes that have begun count as whole.
pub open spec fn note_of(consumed: bool, phase: PairPhase, grace: Option<u64>) -> (Seq<char>, Hue) {
    if consumed && phase == PairPhase::Live {
        ("In use by the phone"@, Hue::Warn)
    } else if consumed {
        ("Used \u{2014} New session for another phone"@, Hue::Warn)
    } else {
        match grace {
            Some(secs) => (
                "Phone left. Same token ~"@ + decimal(((secs + 59) / 60) as nat) + " min."@,
                Hue::Warn,
            ),
            None => if phase != PairPhase::Live {
                (Seq::empty(), Hue::Muted)
            } else {
                ("Type this if the QR did not open"@, Hue::Muted)
            },
        }
    }
}

/// The note at the token.
pub fn token_note(consumed: bool, phase: PairPhase, grace: Option<u64>) -> (r: (String, Hue))
    ensures
        (r.0@, r.1) == note_of(consumed, phase, grace),
{
    if consumed && phase == PairPhase::Live {
        ("In use by the phone".to_owned(), Hue::Warn)
    } else if consumed {
        ("Used \u{2014} New session for another phone".to_owned(), Hue::Warn)
    } else {
        match grace {
            Some(secs) => {
                let mut s: String = "Phone left. Same token ~".to_owned();
                let begun: u64 = if secs % 60 > 0 {
                    1
                } else {
                    0
                };
                push_decimal(&mut s, secs / 60 + begun);
                s.append(" min.");
                (s, Hue::Warn)
            },
            None => if phase != PairPhase::Live {
                (String::new(), Hue::Muted)
            } else {
                ("Type this if the QR did not open".to_owned(), Hue::Muted)
            },
        }
    }
}

/// What the preview does, in a sentence.
pub open spec fn hint_of(sh: Shared) -> Seq<char> {
    let enc = sh.preview.mode();
    let plan = sh.preview.planned();
    if plan.skip_always {
        if sh.preview.vcam_on {
            "Preview off. Decode still feeds the virtual camera."@
        } else if sh.record.on {
            "Preview off. Recording native H.264 \u{2014} decode is off."@
        } else {
            "Preview off. Decode is off."@
        }
    } else if sh.preview.keep_rgb {
        "Keep is on \u{2014} RGB preview will not auto-off."@
    } else if enc == PreviewEncoding::Auto && (sh.preview.vcam_on || sh.preview.record_on) {
        "Auto: RGB off while virtual camera or record is on."@
    } else if enc == PreviewEncoding::Auto {
        "Auto: 720p 30. GPU contain-fit. Phone stream stays native."@
    } else if plan.native {
        match plan.max_fps {
            Some(f) => "Native Rec.709, capped at "@ + decimal(f as nat) + " fps."@,
            None => "Native Rec.709, every decoded frame."@,
        }
    } else {
        "Preview "@ + enc.name() + " (long edge \u{2264} "@ + decimal(plan.max_long as nat) + "), "@
            + match plan.max_fps {
            Some(f) => decimal(f as nat) + " fps"@,
            None => "source fps"@,
        } + ". GPU contain-fit."@
    }
}

/// What the preview does, in a sentence.
pub fn preview_hint(sh: &Shared) -> (r: String)
    ensures
        r@ == hint_of(*sh),
{
    let enc: PreviewEncoding = sh.preview.encoding();
    let plan: PreviewPlan = sh.preview.plan();
    if plan.skip_always {
        return if sh.preview.needs_nv12() {
            "Preview off. Decode still feeds the virtual camera.".to_owned()
        } else if sh.record.is_on() {
            "Preview off. Recording native H.264 \u{2014} decode is off.".to_owned()
        } else {
            "Preview off. Decode is off.".to_owned()
        };
    }
    if sh.preview.keep_rgb() {
        return "Keep is on \u{2014} RGB preview will not auto-off.".to_owned();
    }
    if enc == PreviewEncoding::Auto && sh.preview.loaded() {
        return "Auto: RGB off while virtual camera or record is on.".to_owned();
    }
    if enc == PreviewEncoding::Auto {
        return "Auto: 720p 30. GPU contain-fit. Phone stream stays native.".to_owned();
    }
    if plan.native {
        return match plan.max_fps {
            Some(f) => {
                let mut s: String = "Native Rec.709, capped at ".to_owned();
                push_decimal(&mut s, f as u64);
                s.append(" fps.");
                s
            },
            None => "Native Rec.709, every decoded frame.".to_owned(),
        };
    }
    let mut rate: String = String::new();
    match plan.max_fps {
        Some(f) => {
            push_decimal(&mut rate, f as u64);
            rate.append(" fps");
            assert(rate@ =~= decimal(f as nat) + " fps"@);
        },
        None => {
            rate = "source fps".to_owned();
        },
    }
    let mut s: String = "Preview ".to_owned();
    s.append(enc.label());
    s.append(" (long edge \u{2264} ");
    push_decimal(&mut s, plan.max_long as u64);
    s.append("), ");
    s.append(rate.as_str());
    s.append(". GPU contain-fit.");
    s
}

/// What to know of the quality that is chosen, in a sentence.
pub open spec fn quality_words(rec: bool, vcam: bool, id: Seq<char>) -> Seq<char> {
    if rec {
        "Recording: size is locked. You can only drop fps."@
    } else if vcam {
        "Virtual camera is on: size is locked (same ring). You can still drop fps."@
    } else if holds(id, "2160"@) {
        "4K needs strong Wi-Fi and runs the phone hot. Drop back if it stutters."@
    } else if holds(id, "1440"@) {
        "1440p uses more Wi-Fi than 1080p. Drop back if it stutters."@
    } else if holds(id, "60"@) {
        "60 fps uses more Wi-Fi and battery. Drop back if it stutters."@
    } else {
        "Phone, recording, and virtual camera share this. Preview is separate."@
    }
}

/// What to know of the quality that is chosen, in a sentence.
pub fn quality_hint(sh: &Shared) -> (r: &'static str)
    ensures
        r@ == quality_words(sh.record.on, sh.vcam.on, sh.stats.selected_quality@),
{
    let id: Vec<char> = chars(sh.stats.selected_quality.as_str());
    if sh.record.is_on() {
        "Recording: size is locked. You can only drop fps."
    } else if sh.vcam.is_on() {
        "Virtual camera is on: size is locked (same ring). You can still drop fps."
    } else if contains_text(id.as_slice(), "2160") {
        "4K needs strong Wi-Fi and runs the phone hot. Drop back if it stutters."
    } else if contains_text(id.as_slice(), "1440") {
        "1440p uses more Wi-Fi than 1080p. Drop back if it stutters."
    } else if contains_text(id.as_slice(), "60") {
        "60 fps uses more Wi-Fi and battery. Drop back if it stutters."
    } else {
        "Phone, recording, and virtual camera share this. Preview is separate."
    }
}

/// What stands in place of a preview that is off.
pub fn preview_off_overlay(live: bool, vcam: bool, record: bool) -> (r: &'static str)
    ensures
        r@ == if !live {
            "Waiting for phone \u{2014} preview stays off until you turn it on"@
        } else if vcam {
            "Decode still feeds the virtual camera"@
        } else if record {
            "Recording native H.264 \u{2014} decode is off"@
        } else {
            "Turn preview on in the toolbar to see the phone"@
        },
{
    if live && vcam {
        "Decode still feeds the virtual camera"
    } else if live && record {
        "Recording native H.264 \u{2014} decode is off"
    } else if live {
        "Turn preview on in the toolbar to see the phone"
    } else {
        "Waiting for phone \u{2014} preview stays off until you turn it on"
    }
}

/// What stands in place of a code that there is none of.
pub fn no_qr(bind_failed: bool, no_url: bool) -> (r: &'static str)
    ensures
        r@ == if bind_failed {
            "No QR until HTTPS is listening"@
        } else if no_url {
            "No QR until there is a LAN IPv4"@
        } else {
            "QR is generating\u{2026}"@
        },
{
    if bind_failed {
        "No QR until HTTPS is listening"
    } else if no_url {
        "No QR until there is a LAN IPv4"
    } else {
        "QR is generating\u{2026}"
    }
}

/// What stands below the code.
pub fn waiting_overlay(cert_stale: bool) -> (r: (&'static str, Hue))
    ensures
        (r.0@, r.1) == if cert_stale {
            ("This IP is not on the certificate. Exit and reopen PocketCam."@, Hue::Warn)
        } else {
            ("Scan this QR, or type the token on the phone"@, Hue::Muted)
        },
{
    if cert_stale {
        ("This IP is not on the certificate. Exit and reopen PocketCam.", Hue::Warn)
    } else {
        ("Scan this QR, or type the token on the phone", Hue::Muted)
    }
}

/// True where the certificate has names, and the address is none of them.
pub open spec fn not_on_certificate(ip: Seq<char>, names: Seq<String>) -> bool {
    ip.len() > 0 && names.len() > 0 && !exists|i: int|
        0 <= i < names.len() && (#[trigger] names[i])@ == ip
}

/// True where the certificate has names, and the address is none of them.
pub fn cert_stale(ip: &str, names: &[String]) -> (r: bool)
    ensures
        r == not_on_certificate(ip@, names@),
{
    if ip.is_empty() || names.len() == 0 {
        return false;
    }
    let mut i: usize = 0;
    while i < names.len()
        invariant
            i <= names@.len(),
            forall|k: int| 0 <= k < i ==> (#[trigger] names@[k])@ != ip@,
        decreases names@.len() - i,
    {
        if same(names[i].as_str(), ip) {
            return false;
        }
        i += 1;
    }
    true
}

/// An adapter and its address.
pub open spec fn adapter_words(a: AdapterModel) -> Seq<char> {
    a.name + "  "@ + a.ip.dotted()
}

/// An adapter and its address.
pub fn adapter_row(a: &Adapter) -> (r: String)
    ensures
        r@ == adapter_words(a@),
{
    let mut s: String = a.name.clone();
    s.append("  ");
    let ip: String = a.ip.to_text();
    s.append(ip.as_str());
    s
}

/// The adapter that is chosen.
pub open spec fn adapter_label_of(adapter: Option<Seq<char>>, nics: Seq<AdapterModel>) -> Seq<char> {
    match adapter {
        Some(name) => match named_at(nics, name, 0) {
            Some(i) => adapter_words(nics[i]),
            None => name + " (not found)"@,
        },
        None => match lan_of(adapter, nics) {
            Some(ip) => "Auto  "@ + ip.dotted(),
            None => "Auto  (no LAN IPv4)"@,
        },
    }
}

/// The adapter that is chosen.
pub fn adapter_label(settings: &Settings, nics: &[Adapter]) -> (r: String)
    ensures
        r@ == adapter_label_of(string_view(settings.adapter), adapters_view(nics@)),
{
    match &settings.adapter {
        Some(name) => match find_adapter(nics, name.as_str()) {
            Some(i) => {
                assert(adapters_view(nics@)[i as int] == nics@[i as int]@);
                adapter_row(&nics[i])
            },
            None => {
                let mut s: String = name.clone();
                s.append(" (not found)");
                s
            },
        },
        None => match settings.resolve_lan(nics) {
            Some(ip) => {
                let mut s: String = "Auto  ".to_owned();
                let t: String = ip.to_text();
                s.append(t.as_str());
                s
            },
            None => "Auto  (no LAN IPv4)".to_owned(),
        },
    }
}

/// What is told when another adapter was chosen and settings were saved.
pub fn adapter_combo(saved: String) -> (r: String)
    ensures
        r@ == if saved@ == "Settings saved."@ {
            "QR updated for this adapter."@
        } else {
            saved@
        },
{
    if same(saved.as_str(), "Settings saved.") {
        "QR updated for this adapter.".to_owned()
    } else {
        saved
    }
}

/// What is told when settings were saved: nothing, where that is all.
pub fn settings_window(saved: String) -> (r: Option<String>)
    ensures
        string_view(r) == if saved@ == "Settings saved."@ {
            None
        } else {
            Some(saved@)
        },
{
    if same(saved.as_str(), "Settings saved.") {
        None
    } else {
        Some(saved)
    }
}

/// Which port is listened on while another is set.
pub open spec fn port_words(before: Seq<char>, listen: u16, port: u16) -> Seq<char> {
    before + decimal(listen as nat) + ". Exit to use "@ + decimal(port as nat) + "."@
}

fn port_line(before: &str, listen: u16, port: u16) -> (r: String)
    ensures
        r@ == port_words(before@, listen, port),
{
    let mut s: String = before.to_owned();
    push_decimal(&mut s, listen as u64);
    s.append(". Exit to use ");
    push_decimal(&mut s, port as u64);
    s.append(".");
    s
}

/// In the settings: which port is listened on while another is set.
pub fn port_note(listen: u16, port: u16) -> (r: Option<String>)
    ensures
        string_view(r) == if port != listen {
            Some(port_words("Still listening on "@, listen, port))
        } else {
            None
        },
{
    if port != listen {
        Some(port_line("Still listening on ", listen, port))
    } else {
        None
    }
}

/// In the help: which port is listened on while another is set.
pub fn port_help(listen: u16, port: u16) -> (r: Option<String>)
    ensures
        string_view(r) == if port != listen {
            Some(port_words("Listening on "@, listen, port))
        } else {
            None
        },
{
    if port != listen {
        Some(port_line("Listening on ", listen, port))
    } else {
        None
    }
}

/// What the button for recording says of it.
pub open spec fn record_words(on: bool, dir: Seq<char>, last: Option<Seq<char>>) -> Seq<char> {
    if on {
        "Stop and write the MP4 trailer. Native phone H.264 \u{2014} same Quality as the virtual camera."@
    } else {
        match last {
            Some(p) => "Muxes phone H.264 into "@ + dir
                + ". Starts on the next keyframe. Last file: "@ + p,
            None => "Muxes the phone H.264 into "@ + dir
                + ". Same Quality as the phone and virtual camera. Starts on the next keyframe."@,
        }
    }
}

/// What the button for recording says of it.
pub fn record_hover(on: bool, dir: &str, last: Option<&str>) -> (r: String)
    ensures
        r@ == record_words(on, dir@, text_view(last)),
{
    if on {
        return "Stop and write the MP4 trailer. Native phone H.264 \u{2014} same Quality as the virtual camera.".to_owned();
    }
    match last {
        Some(p) => {
            let mut s: String = "Muxes phone H.264 into ".to_owned();
            s.append(dir);
            s.append(". Starts on the next keyframe. Last file: ");
            s.append(p);
            s
        },
        None => {
            let mut s: String = "Muxes the phone H.264 into ".to_owned();
            s.append(dir);
            s.append(
                ". Same Quality as the phone and virtual camera. Starts on the next keyframe.",
            );
            s
        },
    }
}

/// The mode of the preview, as its list says it.
pub fn mode_label(sh: &Shared) -> (r: String)
    ensures
        r@ == if sh.preview.mode() == PreviewEncoding::Auto && sh.preview.planned().skip_always
            && sh.preview.window_shown {
            "Preview Auto \u{b7} off"@
        } else {
            "Preview "@ + sh.preview.mode().name()
        },
{
    let enc: PreviewEncoding = sh.preview.encoding();
    if enc == PreviewEncoding::Auto && sh.preview.rgb_off() && sh.preview.window_shown() {
        "Preview Auto \u{b7} off".to_owned()
    } else {
        let mut s: String = "Preview ".to_owned();
        s.append(enc.label());
        s
    }
}

/// The qualities to choose from: those that the phone reported, or all.
pub open spec fn items_of(s: StreamStats) -> Seq<ItemModel> {
    if s.qualities@.len() == 0 {
        catalog(Avail::Unknown)
    } else {
        items_view(s.qualities@)
    }
}

fn copy_items(v: &[CameraItem]) -> (r: Vec<CameraItem>)
    ensures
        items_view(r@) == items_view(v@),
{
    let mut r: Vec<CameraItem> = Vec::new();
    let mut i: usize = 0;
    while i < v.len()
        invariant
            i <= v@.len(),
            r@.len() == i,
            forall|k: int| 0 <= k < i ==> (#[trigger] r@[k])@ == v@[k]@,
        decreases v@.len() - i,
    {
        let c: CameraItem = CameraItem {
            id: v[i].id.clone(),
            label: v[i].label.clone(),
            available: v[i].available,
        };
        r.push(c);
        i += 1;
    }
    assert(items_view(r@) =~= items_view(v@));
    r
}

/// The qualities to choose from.
pub fn quality_items(s: &StreamStats) -> (r: Vec<CameraItem>)
    ensures
        items_view(r@) == items_of(*s),
{
    if s.qualities.len() == 0 {
        quality_catalog(Avail::Unknown)
    } else {
        copy_items(s.qualities.as_slice())
    }
}

/// The quality of a height at a rate, or at thirty frames where there is none.
pub open spec fn picked(height: u32, fps: u32) -> Seq<char> {
    if number_of(id_for(height, fps), 0) is Some {
        id_for(height, fps)
    } else {
        id_for(height, 30)
    }
}

/// The quality of a height at a rate, or at thirty frames where there is none.
pub fn pick_quality(height: u32, fps: u32) -> (r: String)
    ensures
        r@ == picked(height, fps),
{
    let id: String = quality_id_for(height, fps);
    if quality_by_id(id.as_str()).is_some() {
        return id;
    }
    quality_id_for(height, 30)
}

/// What choosing a row does.
pub enum Pick {
    Nothing,
    /// It is refused, and the user is told why.
    Locked(&'static str),
    /// The phone is told to use the quality with an id.
    Select(String),
}

/// What choosing a row does.
pub ghost enum PickModel {
    Nothing,
    Locked(Seq<char>),
    Select(Seq<char>),
}

impl View for Pick {
    type V = PickModel;

    open spec fn view(&self) -> PickModel {
        match *self {
            Pick::Nothing => PickModel::Nothing,
            Pick::Locked(why) => PickModel::Locked(why@),
            Pick::Select(id) => PickModel::Select(id@),
        }
    }
}

/// A row to choose.
pub struct ChoiceRow {
    pub label: String,
    pub avail: Avail,
    pub selected: bool,
    pub pick: Pick,
}

/// A row to choose.
pub ghost struct ChoiceModel {
    pub label: Seq<char>,
    pub avail: Avail,
    pub selected: bool,
    pub pick: PickModel,
}

impl View for ChoiceRow {
    type V = ChoiceModel;

    open spec fn view(&self) -> ChoiceModel {
        ChoiceModel {
            label: self.label@,
            avail: self.avail,
            selected: self.selected,
            pick: self.pick@,
        }
    }
}

/// Rows to choose from.
pub open spec fn choices_view(v: Seq<ChoiceRow>) -> Seq<ChoiceModel> {
    v.map_values(|r: ChoiceRow| r@)
}

/// Height and rate of the quality that is chosen.
pub open spec fn chosen_of(s: StreamStats) -> (u32, u32) {
    match wanted(s.selected_quality@) {
        Some(q) => (q.height, q.fps),
        None => (1080, 30),
    }
}

fn chosen(s: &StreamStats) -> (r: (u32, u32))
    ensures
        r == chosen_of(*s),
{
    match quality_by_id(s.selected_quality.as_str()) {
        Some(q) => (q.height, q.fps),
        None => (1080, 30),
    }
}

/// True where the quality with an id may follow the one in use. One that is not
/// in the catalog is not held back.
pub open spec fn free_to_take(sh: Shared, id: Seq<char>) -> bool {
    match wanted(id) {
        Some(q) => may_switch(camera_of(sh.preview), q, sh.vcam.on, sh.record.on),
        None => true,
    }
}

/// A row for the quality with an id.
pub open spec fn row_for(
    sh: Shared,
    id: Seq<char>,
    label: Seq<char>,
    avail: Avail,
    selected: bool,
    why: Seq<char>,
) -> ChoiceModel {
    let free = free_to_take(sh, id);
    ChoiceModel {
        label,
        avail: if free {
            avail
        } else {
            Avail::No
        },
        selected,
        pick: if selected {
            PickModel::Nothing
        } else if !free {
            PickModel::Locked(why)
        } else if wanted(id) is Some {
            PickModel::Select(id)
        } else {
            PickModel::Nothing
        },
    }
}

fn choice_row(
    sh: &Shared,
    id: String,
    label: String,
    avail: Avail,
    selected: bool,
    why: &'static str,
) -> (r: ChoiceRow)
    ensures
        r@ == row_for(*sh, id@, label@, avail, selected, why@),
{
    let next: Option<QualitySpec> = quality_by_id(id.as_str());
    let current: QualitySpec = sh.preview.camera_quality();
    let free: bool = match next {
        Some(q) => quality_allowed(&current, &q, sh.vcam.is_on(), sh.record.is_on()),
        None => true,
    };
    let avail: Avail = if free {
        avail
    } else {
        Avail::No
    };
    let pick: Pick = if selected {
        Pick::Nothing
    } else if !free {
        Pick::Locked(why)
    } else if next.is_some() {
        Pick::Select(id)
    } else {
        Pick::Nothing
    };
    ChoiceRow { label, avail, selected, pick }
}

/// Why the size cannot be changed.
pub open spec fn size_locked(record: bool) -> Seq<char> {
    if record {
        "Recording: size is locked. You can only drop fps."@
    } else {
        "Virtual camera is on: size is locked."@
    }
}

/// The row for a height.
pub open spec fn height_row(sh: Shared, k: int) -> ChoiceModel {
    let (height, fps) = chosen_of(sh.stats);
    let h = size_of(k).1;
    row_for(
        sh,
        picked(h, fps),
        if h == 1080 {
            crate::preview::height_name(h) + " \u{2014} recommended"@
        } else {
            crate::preview::height_name(h)
        },
        known_of_size(items_of(sh.stats), h, 6),
        h == height,
        size_locked(sh.record.on),
    )
}

/// The list of heights.
pub fn resolution_combo(sh: &Shared) -> (r: Vec<ChoiceRow>)
    ensures
        choices_view(r@) == Seq::new(5, |k: int| height_row(*sh, k)),
{
    let items: Vec<CameraItem> = quality_items(&sh.stats);
    let (height, fps) = chosen(&sh.stats);
    let sizes: [(u32, u32); 5] = quality_sizes();
    let why: &'static str = if sh.record.is_on() {
        "Recording: size is locked. You can only drop fps."
    } else {
        "Virtual camera is on: size is locked."
    };
    let mut r: Vec<ChoiceRow> = Vec::new();
    let mut k: usize = 0;
    while k < 5
        invariant
            k <= 5,
            (height, fps) == chosen_of(sh.stats),
            items_view(items@) == items_of(sh.stats),
            why@ == size_locked(sh.record.on),
            forall|j: int| 0 <= j < 5 ==> sizes@[j] == size_of(j),
            r@.len() == k,
            forall|j: int| 0 <= j < k ==> (#[trigger] r@[j])@ == height_row(*sh, j),
        decreases 5 - k,
    {
        let h: u32 = sizes[k].1;
        assert(sizes@[k as int] == size_of(k as int));
        let mut label: String = size_label(h).to_owned();
        if h == 1080 {
            label.append(" \u{2014} recommended");
        }
        let id: String = pick_quality(h, fps);
        let avail: Avail = size_avail(items.as_slice(), h);
        let row: ChoiceRow = choice_row(sh, id, label, avail, h == height, why);
        assert(row@ == height_row(*sh, k as int));
        r.push(row);
        k += 1;
    }
    assert(choices_view(r@) =~= Seq::new(5, |k: int| height_row(*sh, k)));
    r
}

/// The row for a rate.
pub open spec fn rate_row(sh: Shared, k: int) -> ChoiceModel {
    let (height, fps) = chosen_of(sh.stats);
    let f = rate_of(k);
    row_for(
        sh,
        picked(height, f),
        decimal(f as nat),
        known_of(items_of(sh.stats), id_for(height, f)),
        f == fps,
        "Recording: cannot raise fps while a file is open."@,
    )
}

/// The list of rates.
pub fn fps_combo(sh: &Shared) -> (r: Vec<ChoiceRow>)
    ensures
        choices_view(r@) == Seq::new(6, |k: int| rate_row(*sh, k)),
{
    let items: Vec<CameraItem> = quality_items(&sh.stats);
    let (height, fps) = chosen(&sh.stats);
    let rates: [u32; 6] = quality_fps();
    let mut r: Vec<ChoiceRow> = Vec::new();
    let mut k: usize = 0;
    while k < 6
        invariant
            k <= 6,
            (height, fps) == chosen_of(sh.stats),
            items_view(items@) == items_of(sh.stats),
            forall|j: int| 0 <= j < 6 ==> rates@[j] == rate_of(j),
            r@.len() == k,
            forall|j: int| 0 <= j < k ==> (#[trigger] r@[j])@ == rate_row(*sh, j),
        decreases 6 - k,
    {
        let f: u32 = rates[k];
        assert(rates@[k as int] == rate_of(k as int));
        let mut label: String = String::new();
        push_decimal(&mut label, f as u64);
        assert(label@ =~= decimal(f as nat));
        let id: String = pick_quality(height, f);
        let avail: Avail = fps_avail(items.as_slice(), height, f);
        let row: ChoiceRow = choice_row(
            sh,
            id,
            label,
            avail,
            f == fps,
            "Recording: cannot raise fps while a file is open.",
        );
        assert(row@ == rate_row(*sh, k as int));
        r.push(row);
        k += 1;
    }
    assert(choices_view(r@) =~= Seq::new(6, |k: int| rate_row(*sh, k)));
    r
}

/// What the two lists show while they are closed: each with what is known of it.
pub fn quality_shown(sh: &Shared) -> (r: ((&'static str, Avail), (u32, Avail)))
    ensures
        ({
            let (height, fps) = chosen_of(sh.stats);
            &&& r.0.0@ == crate::preview::height_name(height)
            &&& r.0.1 == known_of_size(items_of(sh.stats), height, 6)
            &&& r.1 == (fps, known_of(items_of(sh.stats), id_for(height, fps)))
        }),
{
    let items: Vec<CameraItem> = quality_items(&sh.stats);
    let (height, fps) = chosen(&sh.stats);
    (
        (size_label(height), size_avail(items.as_slice(), height)),
        (fps, fps_avail(items.as_slice(), height, fps)),
    )
}

/// The camera that is chosen.
pub open spec fn camera_words(cameras: Seq<ItemModel>, id: Seq<char>) -> Seq<char> {
    match item_at(cameras, id, 0) {
        Some(i) => cameras[i].label,
        None => if cameras.len() == 0 {
            "No cameras yet"@
        } else {
            "Select\u{2026}"@
        },
    }
}

/// The camera that is chosen.
pub fn camera_combo(s: &StreamStats) -> (r: String)
    ensures
        r@ == camera_words(items_view(s.cameras@), s.selected_camera@),
{
    match find_item(s.cameras.as_slice(), s.selected_camera.as_str()) {
        Some(i) => {
            assert(items_view(s.cameras@)[i as int] == s.cameras@[i as int]@);
            s.cameras[i].label.clone()
        },
        None => if s.cameras.len() == 0 {
            "No cameras yet".to_owned()
        } else {
            "Select\u{2026}".to_owned()
        },
    }
}

/// Whatever the lists offer is a quality of the catalog that may follow the one
/// in use.
pub proof fn offers_are_allowed(sh: Shared, k: int)
    ensures
        0 <= k < 5 ==> (height_row(sh, k).pick matches PickModel::Select(id) ==> wanted(id) is Some
            && free_to_take(sh, id)),
        0 <= k < 6 ==> (rate_row(sh, k).pick matches PickModel::Select(id) ==> wanted(id) is Some
            && free_to_take(sh, id)),
{
}

/// While a recording or the virtual camera runs, nothing that the lists offer
/// changes the size.
pub proof fn running_keeps_size(sh: Shared, k: int)
    requires
        sh.vcam.on || sh.record.on,
    ensures
        0 <= k < 5 ==> (height_row(sh, k).pick matches PickModel::Select(id) ==> wanted(id)->0.width
            == camera_of(sh.preview).width && wanted(id)->0.height == camera_of(sh.preview).height),
        0 <= k < 6 ==> (rate_row(sh, k).pick matches PickModel::Select(id) ==> wanted(id)->0.width
            == camera_of(sh.preview).width && wanted(id)->0.height == camera_of(sh.preview).height),
{
}

/// While nothing runs, every quality can be taken.
pub proof fn idle_offers_all(sh: Shared, id: Seq<char>)
    requires
        !sh.vcam.on && !sh.record.on,
    ensures
        free_to_take(sh, id),
{
}

} // verus!
