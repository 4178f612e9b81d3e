//! Export: the chosen settings, the three phases of a render (the preview is
//! torn down, the render runs, the preview comes back), the stall watchdog,
//! the fallback to software, Cancel, and what the user is told at the end. The
//! engine, the timer and the files are the caller's.

use crate::clip::opt_model;
use crate::dialogs::{show_error, show_info_at, Dialog, DialogModel};
use crate::paths::{FilePath, PathModel};
use crate::text::{begins_with, concat, decimal, lemma_padded_length, padded, push_decimal, push_padded};
use vstd::prelude::*;

verus! {

/// How many ticks without progress make a render look stuck.
pub const STALL_TICKS: u32 = 100;

#[derive(Clone, Copy, PartialEq, Eq, Structural, Debug)]
pub enum VideoCodec {
    H264,
    Vp9,
    Vp8,
}

/// Who encodes: the machine decides, or the user did.
#[derive(Clone, Copy, PartialEq, Eq, Structural, Debug)]
pub enum Encoder {
    Auto,
    Hardware,
    Software,
}

#[derive(Clone, Copy, PartialEq, Eq, Structural, Debug)]
pub struct ExportSettings {
    pub codec: VideoCodec,
    pub width: i32,
    pub height: i32,
    pub fps: u32,
    pub bitrate_kbps: u32,
    pub encoder: Encoder,
}

/// What the export dialog's controls say.
#[derive(Clone, Copy, PartialEq, Eq, Structural, Debug)]
pub struct ExportControls {
    pub codec: i32,
    pub width: i32,
    pub height: i32,
    pub fps: i32,
    pub bitrate_kbps: i32,
    pub encoder: i32,
}

/// The settings that the controls say: an index that is none of a choice's is
/// its first one, the frame rate is within 1 to 240, and the bit rate is not
/// negative.
pub open spec fn settings_of(c: ExportControls) -> ExportSettings {
    ExportSettings {
        codec: if c.codec == 1 {
            VideoCodec::Vp9
        } else if c.codec == 2 {
            VideoCodec::Vp8
        } else {
            VideoCodec::H264
        },
        width: c.width,
        height: c.height,
        fps: if c.fps < 1 {
            1
        } else if c.fps > 240 {
            240
        } else {
            c.fps as u32
        },
        bitrate_kbps: if c.bitrate_kbps < 0 {
            0
        } else {
            c.bitrate_kbps as u32
        },
        encoder: if c.encoder == 1 {
            Encoder::Hardware
        } else if c.encoder == 2 {
            Encoder::Software
        } else {
            Encoder::Auto
        },
    }
}

/// The settings that the controls say.
pub fn export_settings(c: ExportControls) -> (r: ExportSettings)
    ensures
        r == settings_of(c),
{
    ExportSettings {
        codec: match c.codec {
            1 => VideoCodec::Vp9,
            2 => VideoCodec::Vp8,
            _ => VideoCodec::H264,
        },
        width: c.width,
        height: c.height,
        fps: if c.fps < 1 {
            1
        } else if c.fps > 240 {
            240
        } else {
            c.fps as u32
        },
        bitrate_kbps: if c.bitrate_kbps < 0 {
            0
        } else {
            c.bitrate_kbps as u32
        },
        encoder: match c.encoder {
            1 => Encoder::Hardware,
            2 => Encoder::Software,
            _ => Encoder::Auto,
        },
    }
}

/// The extension of the container that a codec goes into.
pub fn extension(codec: VideoCodec) -> (r: &'static str)
    ensures
        r@ == match codec {
            VideoCodec::H264 => "mp4"@,
            _ => "webm"@,
        },
{
    match codec {
        VideoCodec::H264 => "mp4",
        _ => "webm",
    }
}

/// The time in hours, minutes and seconds; the hours only where there are any,
/// and no zero in front of the first number.
pub open spec fn clock_text(secs: nat) -> Seq<char> {
    let h = secs / 3600;
    let m = (secs / 60) % 60;
    let s = secs % 60;
    if h > 0 {
        decimal(h) + ":"@ + padded(m, 2) + ":"@ + padded(s, 2)
    } else {
        decimal(m) + ":"@ + padded(s, 2)
    }
}

/// "1:15", "59:59", "1:01:01" — no leading zero on the first field, so short
/// renders read as the seconds they are.
pub fn clock(secs: u64) -> (r: String)
    ensures
        r@ == clock_text(secs as nat),
{
    let h: u64 = secs / 3600;
    let m: u64 = (secs / 60) % 60;
    let s: u64 = secs % 60;
    let mut out = String::new();
    if h > 0 {
        push_decimal(&mut out, h);
        out.append(":");
        push_padded(&mut out, m, 2);
    } else {
        push_decimal(&mut out, m);
    }
    out.append(":");
    push_padded(&mut out, s, 2);
    assert(out@ =~= clock_text(secs as nat));
    out
}

/// How far a render is.
#[derive(Clone, Copy, PartialEq, Eq, Structural, Debug)]
pub struct Pace {
    /// The fraction done, in whole percent, rounded.
    pub percent: u64,
    /// Whether nothing is done yet.
    pub nothing: bool,
    /// Whether everything is done.
    pub everything: bool,
    /// The seconds since the start.
    pub elapsed: u64,
    /// The seconds left, at the rate so far.
    pub left: u64,
}

/// The line under the export progress bar.
pub open spec fn status_text(p: Pace) -> Seq<char> {
    let percent = decimal(p.percent as nat) + "%"@;
    if p.elapsed < 3 || p.nothing {
        percent
    } else {
        let line = percent + " \u{b7} "@ + clock_text(p.elapsed as nat) + " elapsed"@;
        if p.everything {
            line
        } else {
            line + " \u{b7} about "@ + clock_text(p.left as nat) + " left"@
        }
    }
}

/// The line under the export progress bar. The estimate is withheld for the
/// first few seconds, when the rate is dominated by the pipeline starting up,
/// and at the finish, where "about 0:00 left" reads like a stall.
pub fn export_status_line(p: Pace) -> (r: String)
    ensures
        r@ == status_text(p),
{
    let mut out = String::new();
    push_decimal(&mut out, p.percent);
    out.append("%");
    assert(out@ =~= decimal(p.percent as nat) + "%"@);
    if p.elapsed < 3 || p.nothing {
        return out;
    }
    out.append(" \u{b7} ");
    out.append(clock(p.elapsed).as_str());
    out.append(" elapsed");
    if p.everything {
        return out;
    }
    out.append(" \u{b7} about ");
    out.append(clock(p.left).as_str());
    out.append(" left");
    out
}

/// Whether a failed render is worth another try in software.
pub open spec fn falls_back(choice: Encoder, used_hardware: Option<bool>, already: bool) -> bool {
    choice == Encoder::Auto && !already && used_hardware == Some(true)
}

/// Should a failed render be tried again in software?
///
/// Only when the machine was asked to decide (`Auto`), only when the encoder
/// that failed was a hardware one, and only once. A software encoder that
/// failed will fail the same way twice, and someone who explicitly chose
/// Hardware wants to see the failure, not a quiet substitution. `None` for the
/// encoder means the render fell over before one was built, which a different
/// encoder would not fix either.
pub fn should_fall_back(
    choice: Encoder,
    used_hardware: Option<bool>,
    already_fell_back: bool,
) -> (r: bool)
    ensures
        r == falls_back(choice, used_hardware, already_fell_back),
{
    let hardware = match used_hardware {
        Some(h) => h,
        None => false,
    };
    choice == Encoder::Auto && !already_fell_back && hardware
}

/// The file that an export writes, and how its path is shown.
#[derive(PartialEq, Eq, Debug)]
pub struct OutputFile {
    pub path: FilePath,
    pub shown: String,
}

/// The file that an export writes.
pub struct OutputModel {
    pub path: PathModel,
    pub shown: Seq<char>,
}

impl View for OutputFile {
    type V = OutputModel;

    open spec fn view(&self) -> OutputModel {
        OutputModel { path: self.path@, shown: self.shown@ }
    }
}

impl Clone for OutputFile {
    fn clone(&self) -> (r: OutputFile)
        ensures
            r@ == self@,
    {
        OutputFile { path: self.path.clone(), shown: self.shown.clone() }
    }
}

/// What the user is told once the preview is back and the progress dialog
/// closes.
pub enum Ending {
    /// Nothing, after a cancel.
    Silent,
    /// The render finished: the file it wrote, how many seconds it took, the
    /// encoder that did it, and whether it had to fall back to software.
    Done { file: OutputFile, took: Option<u64>, encoder: Option<String>, fell_back: bool },
    /// It failed, with the engine's reason.
    Failed(String),
}

/// What the user is told.
pub enum EndingModel {
    Silent,
    Done { file: OutputModel, took: Option<u64>, encoder: Option<Seq<char>>, fell_back: bool },
    Failed(Seq<char>),
}

impl View for Ending {
    type V = EndingModel;

    open spec fn view(&self) -> EndingModel {
        match self {
            Ending::Silent => EndingModel::Silent,
            Ending::Done { file, took, encoder, fell_back } => EndingModel::Done {
                file: file@,
                took: *took,
                encoder: opt_model(*encoder),
                fell_back: *fell_back,
            },
            Ending::Failed(e) => EndingModel::Failed(e@),
        }
    }
}

/// Where an export is.
pub enum Phase {
    Idle,
    /// The preview is being torn down; the render starts once the pipeline has
    /// settled.
    Starting { file: OutputFile, settings: ExportSettings },
    Rendering { file: OutputFile, settings: ExportSettings },
    /// The preview is coming back.
    Finishing(Ending),
}

/// Where an export is.
pub enum PhaseModel {
    Idle,
    Starting { file: OutputModel, settings: ExportSettings },
    Rendering { file: OutputModel, settings: ExportSettings },
    Finishing(EndingModel),
}

impl View for Phase {
    type V = PhaseModel;

    open spec fn view(&self) -> PhaseModel {
        match self {
            Phase::Idle => PhaseModel::Idle,
            Phase::Starting { file, settings } => PhaseModel::Starting {
                file: file@,
                settings: *settings,
            },
            Phase::Rendering { file, settings } => PhaseModel::Rendering {
                file: file@,
                settings: *settings,
            },
            Phase::Finishing(ending) => PhaseModel::Finishing(ending@),
        }
    }
}

/// The running (or about-to-start) export.
pub struct ExportState {
    pub phase: Phase,
    /// This export has already been retried in software; a second failure is
    /// the file's, not the encoder's.
    pub fell_back: bool,
    /// The last fraction that actually advanced, by the bits of its float,
    /// which order as the fractions do.
    pub best: u32,
    /// The ticks since then.
    pub ticks: u32,
}

/// The running export.
#[verifier::ext_equal]
pub struct ExportModel {
    pub phase: PhaseModel,
    pub fell_back: bool,
    pub best: u32,
    pub ticks: u32,
}

impl View for ExportState {
    type V = ExportModel;

    open spec fn view(&self) -> ExportModel {
        ExportModel {
            phase: self.phase@,
            fell_back: self.fell_back,
            best: self.best,
            ticks: self.ticks,
        }
    }
}

/// What to ask the engine on a tick.
#[derive(Clone, Copy, PartialEq, Eq, Structural, Debug)]
pub enum Ask {
    Nothing,
    /// Whether the pipeline has settled for the render.
    RenderReady,
    /// How the render is doing.
    RenderStatus,
    /// Whether the preview is back.
    RestoreReady,
}

/// The dialog of an export that could not start.
pub open spec fn start_failed_dialog(error: Seq<char>) -> DialogModel {
    DialogModel {
        title: "Export failed to start"@,
        detail: error,
        info: false,
        reveal: seq![],
    }
}

/// What a finished export says.
pub open spec fn done_text(
    shown: Seq<char>,
    took: Option<u64>,
    encoder: Option<Seq<char>>,
    fell_back: bool,
) -> Seq<char> {
    shown + match took {
        Some(t) => "\n\nTook "@ + clock_text(t as nat),
        None => seq![],
    } + match encoder {
        Some(name) => "\nEncoder: "@ + name,
        None => seq![],
    } + if fell_back {
        "\n\nThe hardware encoder failed on this export, so it was encoded in software. Choosing Software in the export settings skips the attempt next time."@
    } else {
        seq![]
    }
}

/// The dialog that an ending leads to, if it leads to one.
pub open spec fn ending_dialog(ending: EndingModel) -> Option<DialogModel> {
    match ending {
        EndingModel::Silent => None,
        EndingModel::Done { file, took, encoder, fell_back } => Some(
            DialogModel {
                title: "Export finished"@,
                detail: done_text(file.shown, took, encoder, fell_back),
                info: true,
                reveal: file.shown,
            },
        ),
        EndingModel::Failed(e) => Some(
            DialogModel { title: "Export failed"@, detail: e, info: false, reveal: seq![] },
        ),
    }
}

/// The engine's reason, and the encoder that was in use.
pub open spec fn failure_reason(error: Seq<char>, encoder: Option<Seq<char>>) -> Seq<char> {
    match encoder {
        Some(name) => error + "\n\nEncoder: "@ + name,
        None => error,
    }
}

/// The watchdog after one more tick: the last fraction that advanced, and the
/// ticks since then.
pub open spec fn watch_one(best: u32, ticks: u32, fraction: u32) -> (u32, u32) {
    if fraction > best {
        (fraction, 0)
    } else if ticks == u32::MAX {
        (best, ticks)
    } else {
        (best, (ticks + 1) as u32)
    }
}

/// What asking for an export leads to.
pub enum Asked {
    /// One is on its way already.
    Busy,
    /// There is nothing to export, and this says so.
    Nothing(Dialog),
    /// The file to export to is chosen.
    Choose,
}

/// What to say where there is nothing to export.
pub open spec fn no_export_dialog() -> DialogModel {
    DialogModel {
        title: "Nothing to export"@,
        detail: "Add a clip to the timeline first."@,
        info: false,
        reveal: seq![],
    }
}

impl ExportState {
    pub fn new() -> (r: ExportState)
        ensures
            r@ == (ExportModel { phase: PhaseModel::Idle, fell_back: false, best: 0, ticks: 0 }),
    {
        ExportState { phase: Phase::Idle, fell_back: false, best: 0, ticks: 0 }
    }

    /// Whether a render is running.
    pub fn active(&self) -> (r: bool)
        ensures
            r == (self@.phase is Rendering),
    {
        match &self.phase {
            Phase::Rendering { .. } => true,
            _ => false,
        }
    }

    /// Whether the pipeline is in transition: the preview being torn down
    /// before a render, or brought back after one.
    pub fn pending(&self) -> (r: bool)
        ensures
            r == (self@.phase is Starting || self@.phase is Finishing),
    {
        match &self.phase {
            Phase::Starting { .. } => true,
            Phase::Finishing(_) => true,
            _ => false,
        }
    }

    /// An export was asked for, where `project` tells whether there is anything to
    /// export yet.
    pub fn asked(&self, project: bool) -> (r: Asked)
        ensures
            match self@.phase {
                PhaseModel::Idle => if project {
                    r is Choose
                } else {
                    r matches Asked::Nothing(d) && d@ == no_export_dialog()
                },
                _ => r is Busy,
            },
    {
        match &self.phase {
            Phase::Idle => {},
            _ => {
                return Asked::Busy;
            },
        }
        if project {
            return Asked::Choose;
        }
        Asked::Nothing(
            show_error(
                String::from_str("Nothing to export"),
                String::from_str("Add a clip to the timeline first."),
            ),
        )
    }

    /// A file was chosen to export to, and the preview asked to make way, which
    /// failed with `refused` where that is an error.
    pub fn begin(
        &mut self,
        file: OutputFile,
        settings: ExportSettings,
        refused: Option<String>,
    ) -> (r: Option<Dialog>)
        requires
            old(self)@.phase is Idle,
        ensures
            match refused {
                None => r is None && final(self)@ == (ExportModel {
                    phase: PhaseModel::Starting { file: file@, settings },
                    fell_back: false,
                    ..old(self)@
                }),
                Some(e) => r is Some && r->0@ == start_failed_dialog(e@) && final(self)@
                    == old(self)@,
            },
    {
        match refused {
            None => {
                self.phase = Phase::Starting { file, settings };
                self.fell_back = false;
                None
            },
            Some(e) => Some(show_error(String::from_str("Export failed to start"), e)),
        }
    }

    /// Cancel: the render is torn down and the partial file, which this gives,
    /// discarded. Nothing to cancel once the preview is already coming back.
    pub fn cancel(&mut self) -> (r: Option<OutputFile>)
        ensures
            match old(self)@.phase {
                PhaseModel::Starting { file, .. } => r is Some && r->0@ == file && final(self)@ == (
                ExportModel { phase: PhaseModel::Finishing(EndingModel::Silent), ..old(self)@ }),
                PhaseModel::Rendering { file, .. } => r is Some && r->0@ == file && final(self)@
                    == (ExportModel {
                    phase: PhaseModel::Finishing(EndingModel::Silent),
                    ..old(self)@
                }),
                _ => r is None && final(self)@ == old(self)@,
            },
    {
        let file = match &self.phase {
            Phase::Starting { file, .. } => Some(file.clone()),
            Phase::Rendering { file, .. } => Some(file.clone()),
            _ => None,
        };
        if file.is_some() {
            self.phase = Phase::Finishing(Ending::Silent);
        }
        file
    }

    /// What to ask the engine on a tick.
    pub fn ask(&self) -> (r: Ask)
        ensures
            r == match self@.phase {
                PhaseModel::Idle => Ask::Nothing,
                PhaseModel::Starting { .. } => Ask::RenderReady,
                PhaseModel::Rendering { .. } => Ask::RenderStatus,
                PhaseModel::Finishing(_) => Ask::RestoreReady,
            },
    {
        match &self.phase {
            Phase::Idle => Ask::Nothing,
            Phase::Starting { .. } => Ask::RenderReady,
            Phase::Rendering { .. } => Ask::RenderStatus,
            Phase::Finishing(_) => Ask::RestoreReady,
        }
    }

    /// The pipeline has settled and the render was asked to start, which failed
    /// with `error` where that is one: then the file, which this gives, goes.
    pub fn started(&mut self, error: Option<String>) -> (r: Option<(OutputFile, Dialog)>)
        requires
            old(self)@.phase is Starting,
        ensures
            ({
                let file = old(self)@.phase->Starting_file;
                let settings = old(self)@.phase->Starting_settings;
                match error {
                    None => r is None && final(self)@ == (ExportModel {
                        phase: PhaseModel::Rendering { file, settings },
                        ..old(self)@
                    }),
                    Some(e) => {
                        &&& final(self)@ == (ExportModel { phase: PhaseModel::Idle, ..old(self)@ })
                        &&& r matches Some((gone, dialog))
                        &&& gone@ == file
                        &&& dialog@ == start_failed_dialog(e@)
                    },
                }
            }),
    {
        let (file, settings) = match &self.phase {
            Phase::Starting { file, settings } => (file.clone(), *settings),
            _ => { return None },
        };
        match error {
            None => {
                self.phase = Phase::Rendering { file, settings };
                None
            },
            Some(e) => {
                self.phase = Phase::Idle;
                Some((file, show_error(String::from_str("Export failed to start"), e)))
            },
        }
    }

    /// The render goes on: whether it looks stuck, after [`STALL_TICKS`] ticks
    /// without progress. The baseline is the last fraction that actually
    /// advanced — comparing against the previous tick called a slow but healthy
    /// render stuck.
    pub fn progressed(&mut self, fraction: u32) -> (stuck: bool)
        ensures
            final(self)@ == (ExportModel {
                best: watch_one(old(self)@.best, old(self)@.ticks, fraction).0,
                ticks: watch_one(old(self)@.best, old(self)@.ticks, fraction).1,
                ..old(self)@
            }),
            stuck == (final(self)@.ticks >= STALL_TICKS),
    {
        if fraction > self.best {
            self.best = fraction;
            self.ticks = 0;
        } else {
            self.ticks = self.ticks.saturating_add(1);
        }
        self.ticks >= STALL_TICKS
    }

    /// What the progress dialog says of a render that goes on.
    pub fn status(stuck: bool, pace: Pace) -> (r: String)
        ensures
            r@ == if stuck {
                "Export appears stuck \u{2014} you can cancel."@
            } else {
                status_text(pace)
            },
    {
        if stuck {
            String::from_str("Export appears stuck \u{2014} you can cancel.")
        } else {
            export_status_line(pace)
        }
    }

    /// The render is done, and the preview was asked to come back, which failed
    /// with `restore` where that is an error: a preview that fails to come back
    /// is otherwise a silently black viewer for the rest of the session.
    pub fn rendered(
        &mut self,
        took: Option<u64>,
        encoder: Option<String>,
        restore: Option<String>,
    )
        requires
            old(self)@.phase is Rendering,
        ensures
            final(self)@ == (ExportModel {
                phase: PhaseModel::Finishing(
                    match restore {
                        Some(e) => EndingModel::Failed(
                            "The file is written, but the preview could not be restored: "@ + e@,
                        ),
                        None => EndingModel::Done {
                            file: old(self)@.phase->Rendering_file,
                            took,
                            encoder: opt_model(encoder),
                            fell_back: old(self)@.fell_back,
                        },
                    },
                ),
                ..old(self)@
            }),
    {
        let file = match &self.phase {
            Phase::Rendering { file, .. } => file.clone(),
            _ => { return  },
        };
        let ending = match restore {
            Some(e) => Ending::Failed(
                concat(
                    "The file is written, but the preview could not be restored: ",
                    e.as_str(),
                ),
            ),
            None => Ending::Done { file, took, encoder, fell_back: self.fell_back },
        };
        self.phase = Phase::Finishing(ending);
    }

    /// The render failed: whether to try it again in software. Then the
    /// half-written file goes first, because the retry writes the same name
    /// from the beginning. `used_hardware` tells of the encoder in use, if
    /// there was one, whether it was a hardware one.
    pub fn wants_retry(&self, used_hardware: Option<bool>) -> (r: bool)
        requires
            self@.phase is Rendering,
        ensures
            r == falls_back(
                self@.phase->Rendering_settings.encoder,
                used_hardware,
                self@.fell_back,
            ),
    {
        match &self.phase {
            Phase::Rendering { settings, .. } => should_fall_back(
                settings.encoder,
                used_hardware,
                self.fell_back,
            ),
            _ => false,
        }
    }

    /// The pipeline makes way for another try, in software.
    pub fn retry(&mut self)
        requires
            old(self)@.phase is Rendering,
        ensures
            final(self)@ == (ExportModel {
                phase: PhaseModel::Starting {
                    file: old(self)@.phase->Rendering_file,
                    settings: ExportSettings {
                        encoder: Encoder::Software,
                        ..old(self)@.phase->Rendering_settings
                    },
                },
                fell_back: true,
                best: 0,
                ticks: 0,
            }),
    {
        let (file, settings) = match &self.phase {
            Phase::Rendering { file, settings } => (file.clone(), *settings),
            _ => { return  },
        };
        self.phase = Phase::Starting {
            file,
            settings: ExportSettings { encoder: Encoder::Software, ..settings },
        };
        self.fell_back = true;
        self.best = 0;
        self.ticks = 0;
    }

    /// The render failed for good: the truncated output, which this gives,
    /// goes; the reason waits for the preview, so there is only ever one
    /// dialog.
    pub fn give_up(&mut self, error: String, encoder: Option<String>) -> (r: OutputFile)
        requires
            old(self)@.phase is Rendering,
        ensures
            r@ == old(self)@.phase->Rendering_file,
            final(self)@ == (ExportModel {
                phase: PhaseModel::Finishing(
                    EndingModel::Failed(failure_reason(error@, opt_model(encoder))),
                ),
                ..old(self)@
            }),
    {
        let file = match &self.phase {
            Phase::Rendering { file, .. } => file.clone(),
            Phase::Starting { file, .. } => file.clone(),
            _ => OutputFile {
                path: FilePath { parts: Vec::new() },
                shown: String::new(),
            },
        };
        let reason = match encoder {
            Some(name) => {
                let mut s = concat(error.as_str(), "\n\nEncoder: ");
                s.append(name.as_str());
                s
            },
            None => error,
        };
        self.phase = Phase::Finishing(Ending::Failed(reason));
        file
    }

    /// The preview is back: the progress dialog closes, and the user is told
    /// how it ended.
    pub fn restored(&mut self) -> (r: Option<Dialog>)
        requires
            old(self)@.phase is Finishing,
        ensures
            final(self)@ == (ExportModel {
                phase: PhaseModel::Idle,
                best: 0,
                ticks: 0,
                ..old(self)@
            }),
            match ending_dialog(old(self)@.phase->Finishing_0) {
                Some(d) => r is Some && r->0@ == d,
                None => r is None,
            },
    {
        let dialog = match &self.phase {
            Phase::Finishing(Ending::Done { file, took, encoder, fell_back }) => {
                let mut detail = file.shown.clone();
                let ghost d0 = detail@;
                if let Some(t) = took {
                    detail.append("\n\nTook ");
                    detail.append(clock(*t).as_str());
                }
                if let Some(name) = encoder {
                    detail.append("\nEncoder: ");
                    detail.append(name.as_str());
                }
                if *fell_back {
                    detail.append(
                        "\n\nThe hardware encoder failed on this export, so it was encoded in software. Choosing Software in the export settings skips the attempt next time.",
                    );
                }
                assert(detail@ =~= done_text(file@.shown, *took, opt_model(*encoder), *fell_back));
                Some(
                    show_info_at(String::from_str("Export finished"), detail, file.shown.clone()),
                )
            },
            Phase::Finishing(Ending::Failed(e)) => Some(
                show_error(String::from_str("Export failed"), e.clone()),
            ),
            _ => None,
        };
        self.phase = Phase::Idle;
        self.best = 0;
        self.ticks = 0;
        dialog
    }
}

// ---------------------------------------------------------------------------
// Laws
// ---------------------------------------------------------------------------

/// The settings of an export are what its controls say. The size is kept. A frame
/// rate from 1 to 240 is kept, one below is 1 and one above 240; a bit rate that
/// is not negative is kept, one that is is 0. Of the codecs 1 is VP9 and 2 is VP8,
/// of the encoders 1 is a hardware one and 2 software; any other index is H.264,
/// and leaves the choice to the machine.
pub proof fn the_settings_are_what_the_controls_say(c: ExportControls, r: ExportSettings)
    requires
        call_ensures(export_settings, (c,), r),
    ensures
        r.width == c.width && r.height == c.height,
        1 <= c.fps <= 240 ==> r.fps == c.fps,
        c.fps < 1 ==> r.fps == 1,
        c.fps > 240 ==> r.fps == 240,
        c.bitrate_kbps >= 0 ==> r.bitrate_kbps == c.bitrate_kbps,
        c.bitrate_kbps < 0 ==> r.bitrate_kbps == 0,
        r.codec is Vp9 <==> c.codec == 1,
        r.codec is Vp8 <==> c.codec == 2,
        r.encoder is Hardware <==> c.encoder == 1,
        r.encoder is Software <==> c.encoder == 2,
{
}

/// Once an export fell back to software it never does again: once is a
/// fallback, twice is a loop. And it only does where the machine was asked to
/// decide and a hardware encoder failed.
pub proof fn an_export_falls_back_at_most_once(choice: Encoder, used_hardware: Option<bool>)
    ensures
        !falls_back(choice, used_hardware, true),
        !falls_back(Encoder::Software, used_hardware, false),
        !falls_back(Encoder::Hardware, used_hardware, false),
        !falls_back(choice, None, false),
        !falls_back(choice, Some(false), false),
{
}

/// The watchdog after a run of ticks.
pub open spec fn watched(best: u32, ticks: u32, seen: Seq<u32>) -> (u32, u32)
    decreases seen.len(),
{
    if seen.len() == 0 {
        (best, ticks)
    } else {
        let (b, t) = watched(best, ticks, seen.drop_last());
        watch_one(b, t, seen.last())
    }
}

/// A render that advanced within the last [`STALL_TICKS`] ticks does not look
/// stuck: the watchdog counts from the last fraction above all before it.
pub proof fn a_render_that_advances_is_not_stuck(best: u32, ticks: u32, seen: Seq<u32>, k: int)
    requires
        0 <= k < seen.len(),
        seen[k] > watched(best, ticks, seen.take(k)).0,
        seen.len() - k <= STALL_TICKS,
    ensures
        watched(best, ticks, seen).1 < STALL_TICKS,
        watched(best, ticks, seen).1 <= seen.len() - 1 - k,
    decreases seen.len(),
{
    let rest = seen.drop_last();
    if k < rest.len() {
        assert(rest.take(k) =~= seen.take(k));
        assert(rest[k] == seen[k]);
        a_render_that_advances_is_not_stuck(best, ticks, rest, k);
    } else {
        assert(rest =~= seen.take(k));
    }
}

/// Minutes and seconds behind a colon always take two characters, so the clock
/// of a time under an hour ends in ":" and two digits.
pub proof fn the_clock_ends_in_two_digits(secs: nat)
    ensures
        clock_text(secs).len() >= 4,
        clock_text(secs)[clock_text(secs).len() - 3] == ':',
{
    reveal_strlit(":");
    lemma_padded_length(secs % 60, 2);
    lemma_padded_length((secs / 60) % 60, 2);
    lemma_decimal_nonempty(secs / 3600);
    lemma_decimal_nonempty((secs / 60) % 60);
}

proof fn lemma_decimal_nonempty(n: nat)
    ensures
        decimal(n).len() >= 1,
{
}

/// H.264 goes into an MP4, the others into a WebM.
pub proof fn a_codec_has_its_container(codec: VideoCodec, r: &'static str)
    requires
        call_ensures(extension, (codec,), r),
    ensures
        codec is H264 ==> r@ == "mp4"@,
        codec is Vp9 || codec is Vp8 ==> r@ == "webm"@,
{
}

/// A clock shows hours, minutes and seconds, or minutes and seconds where there is no
/// full hour; what follows a colon has two digits.
pub proof fn a_clock_shows_its_time(secs: u64, r: String)
    requires
        call_ensures(clock, (secs,), r),
    ensures
        secs >= 3600 ==> r@ == decimal(secs as nat / 3600) + ":"@ + padded(
            secs as nat / 60 % 60,
            2,
        ) + ":"@ + padded(secs as nat % 60, 2),
        secs < 3600 ==> r@ == decimal(secs as nat / 60) + ":"@ + padded(secs as nat % 60, 2),
{
}

/// The line under the progress bar always tells the percentage. From three seconds on,
/// once anything is done, it tells the time that passed, and until everything is done
/// the time that is left.
pub proof fn the_estimate_waits_three_seconds(p: Pace, passed: String, left: String, r: String)
    requires
        call_ensures(export_status_line, (p,), r),
        call_ensures(clock, (p.elapsed,), passed),
        call_ensures(clock, (p.left,), left),
    ensures
        p.elapsed < 3 || p.nothing ==> r@ == decimal(p.percent as nat) + "%"@,
        p.elapsed >= 3 && !p.nothing && p.everything ==> r@ == decimal(p.percent as nat) + "%"@
            + " \u{b7} "@ + passed@ + " elapsed"@,
        p.elapsed >= 3 && !p.nothing && !p.everything ==> r@ == decimal(p.percent as nat) + "%"@
            + " \u{b7} "@ + passed@ + " elapsed"@ + " \u{b7} about "@ + left@ + " left"@,
{
}

/// A failed render is tried again in software exactly where the machine was asked to
/// decide, the encoder that failed was a hardware one, and it is the first failure.
pub proof fn a_hardware_failure_is_tried_again_in_software(
    choice: Encoder,
    used_hardware: Option<bool>,
    already: bool,
    r: bool,
)
    requires
        call_ensures(should_fall_back, (choice, used_hardware, already), r),
    ensures
        r <==> choice is Auto && used_hardware == Some(true) && !already,
{
}

/// An export begins with its file and its settings, as one that has not fallen back;
/// where the preview refuses to make way, it says why and nothing changes.
pub proof fn an_export_begins_with_its_file(
    e: &mut ExportState,
    file: OutputFile,
    settings: ExportSettings,
    refused: Option<String>,
    r: Option<Dialog>,
)
    requires
        call_ensures(ExportState::begin, (e, file, settings, refused), r),
    ensures
        refused is None ==> {
            &&& r is None
            &&& final(e)@.phase == (PhaseModel::Starting { file: file@, settings })
            &&& !final(e).fell_back
            &&& final(e).best == old(e).best && final(e).ticks == old(e).ticks
        },
        refused is Some ==> {
            &&& r is Some && r->0.title@ == "Export failed to start"@
            &&& r->0.detail@ == refused->0@ && !r->0.info && r->0.reveal@.len() == 0
            &&& final(e)@ == old(e)@
        },
{
    assert(final(e)@.fell_back == final(e).fell_back && final(e)@.best == final(e).best);
    assert(final(e)@.ticks == final(e).ticks);
    if refused is Some {
        let d = r->0;
        assert(d@.title == d.title@ && d@.detail == d.detail@ && d@.info == d.info);
        assert(d@.reveal == d.reveal@);
    }
}

/// A cancel gives up the file of an export that starts or renders, and brings the
/// preview back without a word. Otherwise there is nothing to cancel.
pub proof fn a_cancel_gives_up_the_file(e: &mut ExportState, r: Option<OutputFile>)
    requires
        call_ensures(ExportState::cancel, (e,), r),
    ensures
        r is Some <==> old(e)@.phase is Starting || old(e)@.phase is Rendering,
        old(e)@.phase is Starting ==> r->0@ == old(e)@.phase->Starting_file,
        old(e)@.phase is Rendering ==> r->0@ == old(e)@.phase->Rendering_file,
        r is Some ==> final(e)@.phase == PhaseModel::Finishing(EndingModel::Silent),
        r is None ==> final(e)@ == old(e)@,
{
}

/// Each phase asks the engine its own question: whether the render can start, how it
/// is doing, whether the preview is back. An export is active while it renders, and
/// pending before and after.
pub proof fn each_phase_asks_its_own_question(
    e: &ExportState,
    ask: Ask,
    active: bool,
    pending: bool,
)
    requires
        call_ensures(ExportState::ask, (e,), ask),
        call_ensures(ExportState::active, (e,), active),
        call_ensures(ExportState::pending, (e,), pending),
    ensures
        ask is Nothing <==> e.phase is Idle,
        ask is RenderReady <==> e.phase is Starting,
        ask is RenderStatus <==> e.phase is Rendering,
        ask is RestoreReady <==> e.phase is Finishing,
        active <==> e.phase is Rendering,
        pending <==> e.phase is Starting || e.phase is Finishing,
{
}

/// An export can be asked for only while none is on its way, and leads to the choice
/// of a file where there is something to export.
pub proof fn one_export_at_a_time(e: &ExportState, project: bool, r: Asked)
    requires
        call_ensures(ExportState::asked, (e, project), r),
    ensures
        r is Busy <==> !(e.phase is Idle),
        r is Choose <==> e.phase is Idle && project,
        r matches Asked::Nothing(d) ==> d.title@ == "Nothing to export"@ && d.detail@
            == "Add a clip to the timeline first."@ && !d.info,
{
    if let Asked::Nothing(d) = r {
        assert(d@.title == d.title@ && d@.detail == d.detail@ && d@.info == d.info);
    }
}

/// A render that starts keeps its file and its settings. One that fails to start
/// leaves nothing on its way, gives up its file and says why.
pub proof fn a_render_starts_with_its_settings(
    e: &mut ExportState,
    error: Option<String>,
    r: Option<(OutputFile, Dialog)>,
)
    requires
        call_ensures(ExportState::started, (e, error), r),
        old(e)@.phase is Starting,
    ensures
        error is None ==> r is None && final(e)@.phase == (PhaseModel::Rendering {
            file: old(e)@.phase->Starting_file,
            settings: old(e)@.phase->Starting_settings,
        }),
        error is Some ==> {
            &&& final(e)@.phase is Idle
            &&& r matches Some((file, dialog))
            &&& file@ == old(e)@.phase->Starting_file
            &&& dialog.title@ == "Export failed to start"@ && dialog.detail@ == error->0@
        },
        final(e).fell_back == old(e).fell_back,
{
    assert(final(e)@.fell_back == final(e).fell_back);
    if let Some((file, dialog)) = r {
        assert(dialog@.title == dialog.title@ && dialog@.detail == dialog.detail@);
    }
}

/// A render looks stuck after a hundred ticks in which its fraction went no higher
/// than it had been; a tick in which it does sets the count back.
pub proof fn a_render_is_stuck_after_a_hundred_ticks(e: &mut ExportState, fraction: u32, stuck: bool)
    requires
        call_ensures(ExportState::progressed, (e, fraction), stuck),
    ensures
        fraction > old(e).best ==> final(e).best == fraction && final(e).ticks == 0 && !stuck,
        fraction <= old(e).best ==> final(e).best == old(e).best,
        fraction <= old(e).best && old(e).ticks < u32::MAX ==> final(e).ticks == old(e).ticks + 1,
        stuck <==> final(e).ticks >= 100,
        final(e)@.phase == old(e)@.phase && final(e).fell_back == old(e).fell_back,
{
    assert(final(e)@.fell_back == final(e).fell_back && final(e)@.best == final(e).best);
    assert(final(e)@.ticks == final(e).ticks);
}

/// A render that is done ends with its file, the time it took, its encoder, and
/// whether it fell back. Where the preview fails to come back, that is what is told.
pub proof fn a_render_that_is_done_ends_with_its_file(
    e: &mut ExportState,
    took: Option<u64>,
    encoder: Option<String>,
    restore: Option<String>,
)
    requires
        call_ensures(ExportState::rendered, (e, took, encoder, restore), ()),
        old(e)@.phase is Rendering,
    ensures
        restore is None ==> final(e)@.phase == PhaseModel::Finishing(
            EndingModel::Done {
                file: old(e)@.phase->Rendering_file,
                took,
                encoder: match encoder {
                    Some(name) => Some(name@),
                    None => None,
                },
                fell_back: old(e).fell_back,
            },
        ),
        restore is Some ==> final(e)@.phase == PhaseModel::Finishing(
            EndingModel::Failed(
                "The file is written, but the preview could not be restored: "@ + restore->0@,
            ),
        ),
{
}

/// A retry writes the same file by the same settings, but in software, and it is
/// remembered; the watchdog begins anew. It is wanted by the rule for falling back.
pub proof fn a_retry_differs_in_the_encoder_alone(
    e: &mut ExportState,
    asked: &ExportState,
    used_hardware: Option<bool>,
    wanted: bool,
)
    requires
        call_ensures(ExportState::retry, (e,), ()),
        old(e)@.phase is Rendering,
        call_ensures(ExportState::wants_retry, (asked, used_hardware), wanted),
        asked@.phase is Rendering,
    ensures
        final(e)@.phase is Starting,
        final(e)@.phase->Starting_file == old(e)@.phase->Rendering_file,
        ({
            let s = final(e)@.phase->Starting_settings;
            let t = old(e)@.phase->Rendering_settings;
            &&& s.encoder is Software
            &&& s.codec == t.codec && s.width == t.width && s.height == t.height
            &&& s.fps == t.fps && s.bitrate_kbps == t.bitrate_kbps
        }),
        final(e).fell_back && final(e).best == 0 && final(e).ticks == 0,
        wanted <==> asked@.phase->Rendering_settings.encoder is Auto && used_hardware == Some(true)
            && !asked.fell_back,
{
    assert(final(e)@.fell_back == final(e).fell_back && final(e)@.best == final(e).best);
    assert(final(e)@.ticks == final(e).ticks);
}

/// An export that is given up gives up its file, and waits to tell the reason, and the
/// encoder where there was one.
pub proof fn an_export_that_is_given_up_tells_why(
    e: &mut ExportState,
    error: String,
    encoder: Option<String>,
    r: OutputFile,
)
    requires
        call_ensures(ExportState::give_up, (e, error, encoder), r),
        old(e)@.phase is Rendering,
    ensures
        r@ == old(e)@.phase->Rendering_file,
        encoder is None ==> final(e)@.phase == PhaseModel::Finishing(EndingModel::Failed(error@)),
        encoder is Some ==> final(e)@.phase == PhaseModel::Finishing(
            EndingModel::Failed(error@ + "\n\nEncoder: "@ + encoder->0@),
        ),
{
}

/// Once the preview is back nothing is on its way, and the user is told how it ended:
/// nothing after a cancel, an error after a failure, and after success the file, which
/// can be shown, with the time, the encoder and the fallback where there are any.
pub proof fn the_user_is_told_how_it_ended(e: &mut ExportState, r: Option<Dialog>)
    requires
        call_ensures(ExportState::restored, (e,), r),
        old(e)@.phase is Finishing,
    ensures
        final(e)@.phase is Idle && final(e).best == 0 && final(e).ticks == 0,
        match old(e)@.phase->Finishing_0 {
            EndingModel::Silent => r is None,
            EndingModel::Failed(reason) => r is Some && r->0.title@ == "Export failed"@
                && r->0.detail@ == reason && !r->0.info && r->0.reveal@.len() == 0,
            EndingModel::Done { file, took, encoder, fell_back } => {
                &&& r is Some && r->0.title@ == "Export finished"@ && r->0.info
                &&& r->0.reveal@ == file.shown
                &&& begins_with(r->0.detail@, file.shown)
                &&& took is None && encoder is None && !fell_back ==> r->0.detail@ == file.shown
                &&& took is Some && encoder is None && !fell_back ==> r->0.detail@ == file.shown
                    + ("\n\nTook "@ + clock_text(took->0 as nat))
                &&& took is Some && encoder is Some && !fell_back ==> r->0.detail@ == file.shown
                    + ("\n\nTook "@ + clock_text(took->0 as nat)) + ("\nEncoder: "@ + encoder->0)
                &&& took is Some && encoder is Some && fell_back ==> r->0.detail@ == file.shown + (
                "\n\nTook "@ + clock_text(took->0 as nat)) + ("\nEncoder: "@ + encoder->0)
                    + "\n\nThe hardware encoder failed on this export, so it was encoded in software. Choosing Software in the export settings skips the attempt next time."@
            },
        },
{
    assert(final(e)@.best == final(e).best && final(e)@.ticks == final(e).ticks);
    if let Some(d) = r {
        assert(d@.title == d.title@ && d@.detail == d.detail@ && d@.info == d.info);
        assert(d@.reveal == d.reveal@);
        if let EndingModel::Done { file, took, encoder, fell_back } = old(e)@.phase->Finishing_0 {
            assert(d.detail@.take(file.shown.len() as int) =~= file.shown);
            if took is None && encoder is None && !fell_back {
                assert(d.detail@ =~= file.shown);
            }
            if took is Some && encoder is None && !fell_back {
                assert(d.detail@ =~= file.shown + ("\n\nTook "@ + clock_text(took->0 as nat)));
            }
            if took is Some && encoder is Some && !fell_back {
                assert(d.detail@ =~= file.shown + ("\n\nTook "@ + clock_text(took->0 as nat)) + (
                "\nEncoder: "@ + encoder->0));
            }
        }
    }
}

/// What the progress dialog says of a render that goes on.
pub proof fn a_stuck_render_says_so(stuck: bool, pace: Pace, line: String, r: String)
    requires
        call_ensures(ExportState::status, (stuck, pace), r),
        call_ensures(export_status_line, (pace,), line),
    ensures
        stuck ==> r@ == "Export appears stuck \u{2014} you can cancel."@,
        !stuck ==> r@ == line@,
{
}

} // verus!
