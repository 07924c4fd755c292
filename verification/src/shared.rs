//! What the parts of the program have in common: the state that the window, the
//! server and the notification area share, and what they say to each other.

use crate::health::{probed, FirewallProbe, FirewallState};
use crate::pairing::{endpoint_of, Pairing};
use crate::preview::{
    index_for, quality_at, FrameSlot, PreviewControl, PreviewEncoding, QualitySpec, StreamStats,
    DEFAULT_CAMERA_FMT, QUALITIES,
};
use crate::record::Recorder;
use crate::settings::{
    adapters_view, string_view, text_view, Adapter, Settings, DEFAULT_PORT, DEFAULT_STUN,
};
use crate::text::{decimal, push_decimal};
use crate::vcam::{Vcam, VcamStart};
use vstd::prelude::*;
use vstd::string::*;

verus! {

/// What the window asks the server to do.
pub enum HostCmd {
    SelectCamera(String),
    SelectQuality(String),
    CaptureLock,
    NewSession,
}

/// Whether phones can reach this computer.
pub enum ListenState {
    Starting,
    Listening,
    Failed(String),
}

/// What the phone is told when its hello was heard.
#[derive(Clone, Copy, Debug)]
pub struct HelloOk {
    pub kind: &'static str,
    pub stun: bool,
    pub stun_url: &'static str,
}

/// What is left to do to switch the virtual camera.
pub enum VcamStep {
    /// It is off. The user is told so.
    Off(String),
    /// It has to be started at a quality.
    Start(QualitySpec),
}

/// What is left to do to switch recording.
#[derive(Clone, Copy, Debug, PartialEq, Eq, Structural)]
pub enum RecordStep {
    /// The writer has to end.
    Stop,
    /// A file has to be made.
    Start,
}

/// What is left to do at the end of the program.
#[derive(Clone, Copy, Debug, PartialEq, Eq, Structural)]
pub struct ExitStep {
    pub stop_record: bool,
    pub stop_vcam: bool,
}

/// The state that the parts of the program share.
pub struct Shared {
    pub slot: FrameSlot,
    pub stats: StreamStats,
    pub pairing: Pairing,
    pub preview: PreviewControl,
    pub vcam: Vcam,
    pub record: Recorder,
    pub settings: Settings,
    /// The port that is listened on. The one in the settings is for the next start.
    pub listen_port: u16,
    pub listen: ListenState,
    pub firewall: FirewallState,
    /// The names on the certificate.
    pub cert_names: Vec<String>,
}

/// The port to use for one that is set: none is the default.
pub open spec fn usable_port(port: u16) -> u16 {
    if port == 0 {
        DEFAULT_PORT
    } else {
        port
    }
}

/// What the user is told of settings that were saved.
pub open spec fn saved_words(port: u16, listen: u16) -> Seq<char> {
    if port != listen {
        "Settings saved. Restart PocketCam to listen on port "@ + decimal(port as nat) + " (now "@
            + decimal(listen as nat) + ")."@
    } else {
        "Settings saved."@
    }
}

/// A size and a rate.
pub open spec fn size_words(width: u32, height: u32, fps: u32) -> Seq<char> {
    decimal(width as nat) + "\u{d7}"@ + decimal(height as nat) + " @ "@ + decimal(fps as nat)
        + " fps."@
}

/// What the user is told of a virtual camera that was started.
pub open spec fn started_words(info: VcamStart, rgb_skipped: bool) -> Seq<char> {
    let size = size_words(info.width, info.height, info.fps);
    let msg = if info.replaced {
        "PocketCam is "@ + size
            + " Select it again in OBS or Discord if the picture went black."@
    } else {
        "Virtual camera on "@ + size + " Pick PocketCam in OBS, Discord, or Zoom."@
    };
    if rgb_skipped {
        msg + " Auto preview skipped RGB so the virtual camera can hold frame rate."@
    } else {
        msg
    }
}

fn push_size(s: &mut String, width: u32, height: u32, fps: u32)
    ensures
        final(s)@ == old(s)@ + size_words(width, height, fps),
{
    push_decimal(s, width as u64);
    s.append("\u{d7}");
    push_decimal(s, height as u64);
    s.append(" @ ");
    push_decimal(s, fps as u64);
    s.append(" fps.");
    assert(s@ =~= old(s)@ + size_words(width, height, fps));
}

/// Two texts in one.
fn joined_text(a: &str, b: &str) -> (r: String)
    ensures
        r@ == a@ + b@,
{
    let mut s: String = String::new();
    s.append(a);
    s.append(b);
    assert(s@ =~= a@ + b@);
    s
}

impl Shared {
    /// The state at launch, given the settings that could be read, the adapters
    /// there are, and what is known of the firewall.
    pub fn new(read: Option<Settings>, nics: &[Adapter], probe: &FirewallProbe) -> (r: Shared)
        ensures
            r.slot.frame is None,
            r.stats.is_fresh(),
            r.pairing.fresh_for(&r.settings, r.listen_port, nics@),
            r.pairing.generation == 0,
            r.preview == (PreviewControl {
                vcam_on: false,
                record_on: false,
                encoding: PreviewEncoding::Auto.number(),
                camera_fmt: DEFAULT_CAMERA_FMT,
                window_shown: true,
                keep_rgb: r.settings.keep_preview,
            }),
            !r.vcam.on && r.vcam.canvas == (1920u32, 1080u32, 30u32),
            r.vcam.notices@.len() == 0,
            !r.record.on && !r.record.pli && r.record.last_path is None,
            r.record.notices@.len() == 0,
            r.listen_port == r.settings.port,
            r.listen is Starting,
            r.firewall == probed(r.listen_port, *probe),
            r.cert_names@.len() == 0,
            match read {
                Some(s) => r.settings == (Settings { port: usable_port(s.port), ..s }),
                None => {
                    &&& r.settings.adapter is None && r.settings.recordings is None
                    &&& r.settings.port == DEFAULT_PORT
                    &&& !r.settings.stun && !r.settings.vcam_on_launch && !r.settings.keep_preview
                },
            },
    {
        let settings: Settings = Settings::load(read);
        let port: u16 = settings.port;
        let pairing: Pairing = Pairing::new(&settings, port, nics);
        let mut preview: PreviewControl = PreviewControl::new();
        preview.set_keep_rgb(settings.keep_preview);
        Shared {
            slot: FrameSlot::default(),
            stats: StreamStats::fresh(),
            pairing,
            preview,
            vcam: Vcam::new(),
            record: Recorder::new(),
            settings,
            listen_port: port,
            listen: ListenState::Starting,
            firewall: FirewallState::inbound_tcp(port, probe),
            cert_names: Vec::new(),
        }
    }

    /// Looks at the firewall again.
    pub fn refresh_firewall(&mut self, probe: &FirewallProbe)
        ensures
            *final(self) == (Shared {
                firewall: probed(old(self).listen_port, *probe),
                ..*old(self)
            }),
    {
        self.firewall = FirewallState::inbound_tcp(self.listen_port, probe);
    }

    /// Takes settings that were saved. The port that is listened on stays; the
    /// user is told where the settings want another one. The token stays, and is
    /// printed anew.
    pub fn apply_settings(&mut self, next: Settings, nics: &[Adapter]) -> (r: String)
        ensures
            final(self).settings == (Settings { port: usable_port(next.port), ..next }),
            final(self).pairing.printed() == endpoint_of(
                string_view(next.adapter),
                adapters_view(nics@),
                old(self).listen_port,
                old(self).pairing.token@,
            ),
            final(self).pairing.token == old(self).pairing.token,
            final(self).pairing.consumed == old(self).pairing.consumed,
            final(self).pairing.phase == old(self).pairing.phase,
            final(self).pairing.generation == old(self).pairing.generation,
            final(self).pairing.grace_until == old(self).pairing.grace_until,
            *final(self) == (Shared {
                settings: final(self).settings,
                pairing: final(self).pairing,
                ..*old(self)
            }),
            r@ == saved_words(usable_port(next.port), old(self).listen_port),
    {
        let mut next: Settings = next;
        next.clamp_port();
        let port: u16 = next.port;
        let listen: u16 = self.listen_port;
        self.pairing.set_endpoint(&next, listen, nics);
        self.settings = next;
        if port != listen {
            let mut s: String = String::new();
            s.append("Settings saved. Restart PocketCam to listen on port ");
            push_decimal(&mut s, port as u64);
            s.append(" (now ");
            push_decimal(&mut s, listen as u64);
            s.append(").");
            assert(s@ =~= saved_words(port, listen));
            s
        } else {
            "Settings saved.".to_owned()
        }
    }

    /// Mints another token.
    pub fn rotate_session(&mut self, nics: &[Adapter])
        ensures
            final(self).pairing.fresh_for(&old(self).settings, old(self).listen_port, nics@),
            final(self).pairing.generation == (old(self).pairing.generation + 1)
                % 0x1_0000_0000_0000_0000,
            *final(self) == (Shared { pairing: final(self).pairing, ..*old(self) }),
    {
        self.pairing.rotate(&self.settings, self.listen_port, nics);
    }

    /// What the phone is told when its hello was heard.
    pub fn hello_ok_json(&self) -> (r: HelloOk)
        ensures
            r.kind@ == "hello-ok"@,
            r.stun == self.settings.stun,
            r.stun_url@ == DEFAULT_STUN@,
    {
        HelloOk { kind: "hello-ok", stun: self.settings.stun, stun_url: DEFAULT_STUN }
    }

    /// Switches the virtual camera off, or says what it has to be started at.
    pub fn toggle_vcam(&mut self) -> (r: VcamStep)
        ensures
            old(self).preview.vcam_on ==> {
                &&& r matches VcamStep::Off(msg) && msg@ == "Virtual camera off."@
                &&& *final(self) == (Shared {
                    vcam: Vcam { on: false, ..old(self).vcam },
                    preview: PreviewControl { vcam_on: false, ..old(self).preview },
                    ..*old(self)
                })
            },
            !old(self).preview.vcam_on ==> {
                let fmt = index_for(old(self).stats.selected_quality@);
                &&& *final(self) == (Shared {
                    preview: PreviewControl { camera_fmt: fmt, ..old(self).preview },
                    ..*old(self)
                })
                &&& fmt < QUALITIES
                &&& r matches VcamStep::Start(spec) && spec == quality_at(fmt as int)
            },
    {
        if self.preview.vcam_on {
            self.vcam.stop();
            self.preview.vcam_on = false;
            return VcamStep::Off("Virtual camera off.".to_owned());
        }
        self.preview.set_camera_quality(self.stats.selected_quality.as_str());
        VcamStep::Start(self.preview.camera_quality())
    }

    /// The virtual camera was started. What the user is told.
    pub fn vcam_started(&mut self, info: VcamStart) -> (r: String)
        ensures
            *final(self) == (Shared {
                preview: PreviewControl { vcam_on: true, ..old(self).preview },
                ..*old(self)
            }),
            r@ == started_words(info, old(self).preview.mode() == PreviewEncoding::Auto),
    {
        self.preview.vcam_on = true;
        let mut s: String = String::new();
        if info.replaced {
            s.append("PocketCam is ");
            push_size(&mut s, info.width, info.height, info.fps);
            s.append(" Select it again in OBS or Discord if the picture went black.");
        } else {
            s.append("Virtual camera on ");
            push_size(&mut s, info.width, info.height, info.fps);
            s.append(" Pick PocketCam in OBS, Discord, or Zoom.");
        }
        assert(s@ =~= started_words(info, false));
        if self.preview.encoding() == PreviewEncoding::Auto && self.preview.loaded() {
            s.append(" Auto preview skipped RGB so the virtual camera can hold frame rate.");
        }
        s
    }

    /// The virtual camera could not be started. What the user is told.
    pub fn vcam_failed(why: &str) -> (r: String)
        ensures
            r@ == "Virtual camera failed: "@ + why@,
    {
        joined_text("Virtual camera failed: ", why)
    }

    /// Switches recording: says whether the writer has to end, or a file has to
    /// be made.
    pub fn toggle_record(&mut self) -> (r: RecordStep)
        ensures
            old(self).record.on ==> r == RecordStep::Stop && *final(self) == (Shared {
                record: Recorder { on: false, ..old(self).record },
                ..*old(self)
            }),
            !old(self).record.on ==> r == RecordStep::Start && *final(self) == *old(self),
    {
        if self.record.is_on() {
            self.record.stop();
            RecordStep::Stop
        } else {
            RecordStep::Start
        }
    }

    /// The writer has ended, with the file told, if there is one. What the user is told.
    pub fn record_stopped(&mut self, path: Option<&str>) -> (r: String)
        ensures
            match text_view(path) {
                Some(p) => {
                    &&& r@ == "Saved "@ + p
                    &&& *final(self) == (Shared {
                        preview: PreviewControl { record_on: false, ..old(self).preview },
                        ..*old(self)
                    })
                },
                None => r@ == "Record already stopped."@ && *final(self) == *old(self),
            },
    {
        match path {
            Some(p) => {
                self.preview.record_on = false;
                joined_text("Saved ", p)
            },
            None => "Record already stopped.".to_owned(),
        }
    }

    /// A file was made, and a recording runs. What the user is told.
    pub fn record_started(&mut self, path: &str) -> (r: String)
        ensures
            *final(self) == (Shared {
                preview: PreviewControl { record_on: true, ..old(self).preview },
                ..*old(self)
            }),
            r@ == "Recording "@ + path@
                + " \u{2014} starts on the next keyframe. Quality size is locked."@,
    {
        self.preview.record_on = true;
        let mut s: String = joined_text("Recording ", path);
        s.append(" \u{2014} starts on the next keyframe. Quality size is locked.");
        s
    }

    /// No file could be made. What the user is told.
    pub fn record_failed(why: &str) -> (r: String)
        ensures
            r@ == "Record failed: "@ + why@,
    {
        joined_text("Record failed: ", why)
    }

    /// The program ends: recording and the virtual camera go off.
    pub fn exit(&mut self) -> (r: ExitStep)
        ensures
            r == (ExitStep { stop_record: old(self).record.on, stop_vcam: old(self).vcam.on }),
            *final(self) == (Shared {
                record: Recorder { on: false, ..old(self).record },
                vcam: Vcam { on: false, ..old(self).vcam },
                preview: PreviewControl {
                    record_on: old(self).preview.record_on && !old(self).record.on,
                    vcam_on: old(self).preview.vcam_on && !old(self).vcam.on,
                    ..old(self).preview
                },
                ..*old(self)
            }),
    {
        let step: ExitStep = ExitStep {
            stop_record: self.record.is_on(),
            stop_vcam: self.vcam.is_on(),
        };
        if step.stop_record {
            self.record.stop();
            self.preview.record_on = false;
        }
        if step.stop_vcam {
            self.vcam.stop();
            self.preview.vcam_on = false;
        }
        step
    }
}

/// Saying that settings were saved says nothing of a port exactly where the port
/// that is set is the one that is listened on.
pub proof fn port_is_mentioned_when_it_differs(port: u16, listen: u16)
    ensures
        saved_words(port, listen) == "Settings saved."@ <==> port == listen,
{
    if port != listen {
        reveal_strlit("Settings saved.");
        reveal_strlit("Settings saved. Restart PocketCam to listen on port ");
        assert(saved_words(port, listen).len() > 15);
    }
}

} // verus!
