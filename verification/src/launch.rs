//! How the app starts and how a headless run ends.

use crate::cli::{Mode, ModeModel};
use crate::dialogs::{failure_message, failure_text, Failure, FailureModel};
use crate::order::models;
use crate::paths::{has_name, name_of, FilePath, PathModel};
use crate::quickrun::{meaning, verdict, QuickRunReport, ReportModel, Verdict};
use crate::rendezvous::preset_group;
use crate::sequence_render::{SequenceReport, SequenceReportModel};
use crate::text::{decimal, push_decimal};
use vstd::prelude::*;

verus! {

/// The group in which the processes of a mode meet, where they do: a plain
/// launch (no paths) skips the wait.
pub open spec fn group_for(mode: ModeModel) -> Option<Seq<char>> {
    match mode {
        ModeModel::QuickRun { preset, .. } => Some("preset:"@ + preset),
        ModeModel::SequenceMp4 { .. } => Some("sequence-mp4"@),
        ModeModel::Gui { paths } => if paths.len() > 0 {
            Some("open"@)
        } else {
            None
        },
        _ => None,
    }
}

/// The group in which the processes of a mode meet. One group per preset, so two
/// different presets never merge; selecting several frames of one run launches
/// one process per frame, which resolve to that single sequence; opening several
/// items must open ONE window with all of them.
pub fn group_of(mode: &Mode) -> (r: Option<String>)
    ensures
        match group_for(mode@) {
            Some(group) => r is Some && r->0@ == group,
            None => r is None,
        },
{
    match mode {
        Mode::QuickRun { preset, .. } => Some(preset_group(preset.as_str())),
        Mode::SequenceMp4 { .. } => Some(String::from_str("sequence-mp4")),
        Mode::Gui { paths } => {
            assert(paths.len() == models(paths@).len());
            if paths.len() > 0 {
                Some(String::from_str("open"))
            } else {
                None
            }
        },
        _ => None,
    }
}

/// How a headless run ends.
#[derive(PartialEq, Eq, Debug)]
pub enum Finish {
    /// The user cancelled: no dialog, even if some files had already failed
    /// before that.
    Silent,
    /// A line for the log.
    Log(String),
    /// A dialog, and an exit that a script can tell from success.
    Fail { title: &'static str, message: String },
}

/// How a headless run ends.
pub enum FinishModel {
    Silent,
    Log(Seq<char>),
    Fail { title: Seq<char>, message: Seq<char> },
}

impl View for Finish {
    type V = FinishModel;

    open spec fn view(&self) -> FinishModel {
        match self {
            Finish::Silent => FinishModel::Silent,
            Finish::Log(line) => FinishModel::Log(line@),
            Finish::Fail { title, message } => FinishModel::Fail {
                title: title@,
                message: message@,
            },
        }
    }
}

/// The failures of a run under the names to show them by: the files' own, or
/// the whole paths of those that have none.
pub open spec fn named(failures: Seq<(PathModel, Seq<char>)>, whole: Seq<Seq<char>>) -> Seq<
    FailureModel,
> {
    Seq::new(
        failures.len(),
        |i: int|
            FailureModel {
                name: if has_name(failures[i].0) {
                    name_of(failures[i].0)
                } else {
                    whole[i]
                },
                error: failures[i].1,
            },
    )
}

/// The failures of a run under the names to show them by; `whole` holds the
/// whole path of each.
pub fn name_failures(failures: &Vec<(FilePath, String)>, whole: &Vec<String>) -> (r: Vec<Failure>)
    requires
        failures.len() == whole.len(),
    ensures
        models(r@) == named(models(failures@), models(whole@)),
{
    let mut r: Vec<Failure> = Vec::new();
    let mut i: usize = 0;
    while i < failures.len()
        invariant
            i <= failures.len(),
            failures.len() == whole.len(),
            r.len() == i,
            forall|j: int|
                0 <= j < i ==> (#[trigger] r@[j])@ == named(models(failures@), models(whole@))[j],
        decreases failures.len() - i,
    {
        assert(models(failures@)[i as int] == failures@[i as int]@);
        assert(models(whole@)[i as int] == whole@[i as int]@);
        let name = match failures[i].0.file_name() {
            Some(name) => name,
            None => whole[i].clone(),
        };
        r.push(Failure { name, error: failures[i].1.clone() });
        i += 1;
    }
    assert(models(r@) =~= named(models(failures@), models(whole@)));
    r
}

/// How a quick run ends.
pub open spec fn quick_end(report: ReportModel, whole: Seq<Seq<char>>) -> FinishModel {
    match meaning(report) {
        Verdict::Cancelled => FinishModel::Silent,
        Verdict::Failed { failed, total } => FinishModel::Fail {
            title: "Kuvatin \u{2014} some files failed"@,
            message: failure_text(
                decimal(failed as nat) + " of "@ + decimal(total as nat)
                    + " file(s) could not be processed:"@,
                named(report.failures, whole),
            ),
        },
        Verdict::Converted(count) => FinishModel::Log(
            "quick run done: "@ + decimal(count as nat) + " file(s) converted"@,
        ),
    }
}

/// How a quick run ends; `whole` holds the whole path of each failure.
pub fn quick_finish(report: &QuickRunReport, whole: &Vec<String>) -> (r: Finish)
    requires
        report.failures.len() == whole.len(),
    ensures
        r@ == quick_end(report@, models(whole@)),
{
    match verdict(report) {
        Verdict::Cancelled => Finish::Silent,
        Verdict::Failed { failed, total } => {
            let mut intro = String::new();
            push_decimal(&mut intro, failed as u64);
            intro.append(" of ");
            push_decimal(&mut intro, total as u64);
            intro.append(" file(s) could not be processed:");
            assert(intro@ =~= decimal(failed as nat) + " of "@ + decimal(total as nat)
                + " file(s) could not be processed:"@);
            let failures = name_failures(&report.failures, whole);
            Finish::Fail {
                title: "Kuvatin \u{2014} some files failed",
                message: failure_message(intro.as_str(), &failures),
            }
        },
        Verdict::Converted(count) => {
            let mut line = String::from_str("quick run done: ");
            push_decimal(&mut line, count as u64);
            line.append(" file(s) converted");
            Finish::Log(line)
        },
    }
}

/// How a sequence render ends.
pub open spec fn sequence_end(report: SequenceReportModel, whole: Seq<Seq<char>>) -> FinishModel {
    if report.cancelled {
        FinishModel::Silent
    } else if report.failures.len() > 0 {
        FinishModel::Fail {
            title: "Kuvatin \u{2014} sequence render"@,
            message: failure_text(
                decimal(report.rendered.len()) + " rendered, "@ + decimal(report.failures.len())
                    + " could not be rendered:"@,
                named(report.failures, whole),
            ),
        }
    } else {
        FinishModel::Log(
            "sequence render done: "@ + decimal(report.rendered.len()) + " MP4(s) written"@,
        )
    }
}

/// How a sequence render ends; `whole` holds the whole path of each failure.
pub fn sequence_finish(report: &SequenceReport, whole: &Vec<String>) -> (r: Finish)
    requires
        report.failures.len() == whole.len(),
    ensures
        r@ == sequence_end(report@, models(whole@)),
{
    assert(report.failures.len() == report@.failures.len());
    assert(report.rendered.len() == report@.rendered.len());
    if report.cancelled {
        Finish::Silent
    } else if report.failures.len() > 0 {
        let mut intro = String::new();
        push_decimal(&mut intro, report.rendered.len() as u64);
        intro.append(" rendered, ");
        push_decimal(&mut intro, report.failures.len() as u64);
        intro.append(" could not be rendered:");
        assert(intro@ =~= decimal(report@.rendered.len()) + " rendered, "@ + decimal(
            report@.failures.len(),
        ) + " could not be rendered:"@);
        let failures = name_failures(&report.failures, whole);
        Finish::Fail {
            title: "Kuvatin \u{2014} sequence render",
            message: failure_message(intro.as_str(), &failures),
        }
    } else {
        let mut line = String::from_str("sequence render done: ");
        push_decimal(&mut line, report.rendered.len() as u64);
        line.append(" MP4(s) written");
        Finish::Log(line)
    }
}

/// Two presets meet in two groups: a quick run never merges with another
/// preset's, nor with a render or a window.
pub proof fn presets_never_merge(a: Seq<char>, b: Seq<char>, paths: Seq<Seq<char>>, fps: u32)
    requires
        a != b,
    ensures
        group_for(ModeModel::QuickRun { preset: a, paths }) != group_for(
            ModeModel::QuickRun { preset: b, paths },
        ),
        group_for(ModeModel::QuickRun { preset: a, paths }) != group_for(
            ModeModel::SequenceMp4 { paths, fps },
        ),
        group_for(ModeModel::QuickRun { preset: a, paths }) != group_for(ModeModel::Gui { paths }),
        group_for(ModeModel::SequenceMp4 { paths, fps }) != group_for(ModeModel::Gui { paths }),
{
    reveal_strlit("preset:");
    reveal_strlit("sequence-mp4");
    reveal_strlit("open");
    let x = "preset:"@ + a;
    let y = "preset:"@ + b;
    if x == y {
        assert(x.skip(7) =~= a);
        assert(y.skip(7) =~= b);
    }
    assert(x[0] == 'p' && x[1] == 'r');
    assert("sequence-mp4"@[0] == 's');
    assert("open"@[0] == 'o');
}

/// A run that had failures and was not cancelled always ends in a dialog.
pub proof fn failures_are_never_silent(report: ReportModel, whole: Seq<Seq<char>>)
    requires
        report.failures.len() > 0,
        report.cancelled == 0,
    ensures
        quick_end(report, whole) is Fail,
{
}

/// The processes of a quick run meet by their preset, those of a render with each
/// other, and those that open files in one window; nothing else meets.
pub proof fn processes_meet_by_what_they_do(mode: &Mode, r: Option<String>)
    requires
        call_ensures(group_of, (mode,), r),
    ensures
        match mode {
            Mode::QuickRun { preset, paths } => r is Some && r->0@ == "preset:"@ + preset@,
            Mode::SequenceMp4 { paths, fps } => r is Some && r->0@ == "sequence-mp4"@,
            Mode::Gui { paths } => {
                &&& paths.len() > 0 ==> r is Some && r->0@ == "open"@
                &&& paths.len() == 0 ==> r is None
            },
            _ => r is None,
        },
{
}

/// Each failure keeps its place and its error, under the file's own name, or its
/// whole path where it has none.
pub proof fn a_failure_is_named_after_its_file(
    failures: &Vec<(FilePath, String)>,
    whole: &Vec<String>,
    r: Vec<Failure>,
    i: int,
)
    requires
        call_ensures(name_failures, (failures, whole), r),
        failures.len() == whole.len(),
        0 <= i < failures.len(),
    ensures
        r.len() == failures.len(),
        r[i].error@ == failures[i].1@,
        has_name(failures[i].0@) ==> r[i].name@ == name_of(failures[i].0@),
        !has_name(failures[i].0@) ==> r[i].name@ == whole[i]@,
{
    let m = models(r@);
    assert(m.len() == r.len());
    assert(m[i] == r[i]@);
    assert(models(failures@)[i] == failures[i]@);
    assert(models(whole@)[i] == whole[i]@);
}

/// A quick run that was cancelled ends silently. One with failures ends in a dialog
/// that counts and names them, any other in a line of the log that counts its files.
pub proof fn a_quick_run_ends_as_it_went(
    report: &QuickRunReport,
    whole: &Vec<String>,
    named_as: Vec<Failure>,
    r: Finish,
)
    requires
        call_ensures(quick_finish, (report, whole), r),
        call_ensures(name_failures, (&report.failures, whole), named_as),
    ensures
        r is Silent <==> report.cancelled > 0,
        report.cancelled == 0 && report.failures.len() > 0 ==> (
        r matches Finish::Fail { title, message } && {
            &&& title@ == "Kuvatin \u{2014} some files failed"@
            &&& message@ == failure_text(
                decimal(report.failures.len() as nat) + " of "@ + decimal(report.total as nat)
                    + " file(s) could not be processed:"@,
                models(named_as@),
            )
        }),
        report.cancelled == 0 && report.failures.len() == 0 ==> (r matches Finish::Log(line)
            && line@ == "quick run done: "@ + decimal(report.total as nat)
            + " file(s) converted"@),
{
    assert(report@.failures.len() == report.failures.len());
    assert(report@.failures == models(report.failures@));
}

/// A render ends in the same ways: silently where it was cancelled, in a dialog where
/// there were failures, else in a line of the log.
pub proof fn a_render_ends_as_it_went(
    report: &SequenceReport,
    whole: &Vec<String>,
    named_as: Vec<Failure>,
    r: Finish,
)
    requires
        call_ensures(sequence_finish, (report, whole), r),
        call_ensures(name_failures, (&report.failures, whole), named_as),
    ensures
        r is Silent <==> report.cancelled,
        !report.cancelled && report.failures.len() > 0 ==> (
        r matches Finish::Fail { title, message } && {
            &&& title@ == "Kuvatin \u{2014} sequence render"@
            &&& message@ == failure_text(
                decimal(report.rendered.len() as nat) + " rendered, "@ + decimal(
                    report.failures.len() as nat,
                ) + " could not be rendered:"@,
                models(named_as@),
            )
        }),
        !report.cancelled && report.failures.len() == 0 ==> (r matches Finish::Log(line) && line@
            == "sequence render done: "@ + decimal(report.rendered.len() as nat)
            + " MP4(s) written"@),
{
    assert(report@.failures.len() == report.failures.len());
    assert(report@.rendered.len() == report.rendered.len());
    assert(report@.failures == models(report.failures@));
}

} // verus!
