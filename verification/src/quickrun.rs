//! A preset's quick run over a selection: finding the preset, and what the run's
//! outcome means for the person who started it.

use crate::batch::{Ended, EndedModel};
use crate::order::models;
use crate::paths::{FilePath, PathModel};
use crate::presets::{Preset, PresetModel};
use crate::text::{decimal, lowercase, push_decimal, trim, trimmed};
use vstd::prelude::*;

verus! {

/// Outcome of a quick-run over a set of paths.
pub struct QuickRunReport {
    /// Total images the run attempted.
    pub total: usize,
    /// `(input path, error message)` for every file that failed.
    pub failures: Vec<(FilePath, String)>,
    /// Inputs skipped because the user cancelled mid-run.
    pub cancelled: usize,
}

/// Outcome of a quick-run.
#[verifier::ext_equal]
pub struct ReportModel {
    pub total: nat,
    pub failures: Seq<(PathModel, Seq<char>)>,
    pub cancelled: nat,
}

impl View for QuickRunReport {
    type V = ReportModel;

    open spec fn view(&self) -> ReportModel {
        ReportModel {
            total: self.total as nat,
            failures: models(self.failures@),
            cancelled: self.cancelled as nat,
        }
    }
}

impl QuickRunReport {
    /// How many files failed.
    pub fn failure_count(&self) -> (r: usize)
        ensures
            r == self@.failures.len(),
    {
        self.failures.len()
    }
}

/// What a finished quick run means for the person who started it.
#[derive(Debug, PartialEq, Eq, Structural)]
pub enum Verdict {
    /// The user cancelled: no dialog at all, even if files had already failed
    /// before they stopped it. They know what they did.
    Cancelled,
    /// Some files could not be processed: name them and exit non-zero, so a
    /// script that invoked us can tell.
    Failed { failed: usize, total: usize },
    /// Everything went through; log the count and say nothing.
    Converted(usize),
}

/// What a finished quick run means.
pub open spec fn meaning(report: ReportModel) -> Verdict {
    if report.cancelled > 0 {
        Verdict::Cancelled
    } else if report.failures.len() > 0 {
        Verdict::Failed { failed: report.failures.len() as usize, total: report.total as usize }
    } else {
        Verdict::Converted(report.total as usize)
    }
}

/// Read the report the way the shell entry point does. This is the contract of
/// the entire right-click feature.
pub fn verdict(report: &QuickRunReport) -> (r: Verdict)
    ensures
        r == meaning(report@),
{
    assert(report.failures.len() == report@.failures.len());
    if report.cancelled > 0 {
        return Verdict::Cancelled;
    }
    if report.failure_count() > 0 {
        return Verdict::Failed { failed: report.failure_count(), total: report.total };
    }
    Verdict::Converted(report.total)
}

/// Begin a run over so many images. An error where the selection holds none.
pub fn begin(images: usize) -> (r: Result<(), &'static str>)
    ensures
        match r {
            Ok(_) => images > 0,
            Err(e) => images == 0 && e@ == "no image files in selection"@,
        },
{
    if images == 0 {
        return Err("no image files in selection");
    }
    Ok(())
}

/// Whether the first preset of that name is at `i`. Names match in any case,
/// and without the white space around what was asked for.
pub open spec fn found_at(presets: Seq<PresetModel>, name: Seq<char>, i: int) -> bool {
    &&& 0 <= i < presets.len()
    &&& lowercase(presets[i].name) == lowercase(trimmed(name))
    &&& forall|j: int|
        0 <= j < i ==> lowercase((#[trigger] presets[j]).name) != lowercase(trimmed(name))
}

/// Whether there is no preset of that name.
pub open spec fn unknown(presets: Seq<PresetModel>, name: Seq<char>) -> bool {
    forall|j: int|
        0 <= j < presets.len() ==> lowercase((#[trigger] presets[j]).name) != lowercase(
            trimmed(name),
        )
}

/// What to say of a preset that is not there.
pub open spec fn unknown_text(name: Seq<char>, note: Option<Seq<char>>) -> Seq<char> {
    "unknown preset: "@ + name + match note {
        Some(note) => "\n\n"@ + note,
        None => seq![],
    }
}

/// Find the named preset, or explain why it isn't there.
///
/// "unknown preset" on its own is misleading when the store was unreadable and
/// quietly replaced by the built-ins: the user's preset really did exist, and
/// the note explaining what happened to it is attached here rather than
/// discarded.
pub fn resolve_preset(presets: &Vec<Preset>, note: &Option<String>, name: &str) -> (r: Result<
    usize,
    String,
>)
    ensures
        match r {
            Ok(i) => found_at(models(presets@), name@, i as int),
            Err(text) => {
                &&& unknown(models(presets@), name@)
                &&& text@ == unknown_text(name@, crate::clip::opt_model(*note))
            },
        },
{
    let ghost m = models(presets@);
    let wanted = trim(name).as_str().to_lowercase();
    let mut i: usize = 0;
    while i < presets.len()
        invariant
            i <= presets.len(),
            m == models(presets@),
            wanted@ == lowercase(trimmed(name@)),
            forall|j: int|
                0 <= j < i ==> lowercase((#[trigger] m[j]).name) != lowercase(trimmed(name@)),
        decreases presets.len() - i,
    {
        assert(m[i as int] == presets[i as int]@);
        if presets[i].name.as_str().to_lowercase() == wanted {
            return Ok(i);
        }
        i += 1;
    }
    let mut s = String::from_str("unknown preset: ");
    s.append(name);
    if let Some(text) = note {
        s.append("\n\n");
        s.append(text.as_str());
    }
    assert(s@ =~= unknown_text(name@, crate::clip::opt_model(*note)));
    Err(s)
}

/// A file of a run and how it ended.
pub struct FileOutcome {
    pub input: FilePath,
    pub ended: Ended,
}

/// A file of a run and how it ended.
pub struct OutcomeModel {
    pub input: PathModel,
    pub ended: EndedModel,
}

impl View for FileOutcome {
    type V = OutcomeModel;

    open spec fn view(&self) -> OutcomeModel {
        OutcomeModel { input: self.input@, ended: self.ended@ }
    }
}

/// The failures of a run, in its order.
pub open spec fn failures_of(results: Seq<OutcomeModel>) -> Seq<(PathModel, Seq<char>)>
    decreases results.len(),
{
    if results.len() == 0 {
        seq![]
    } else {
        let rest = failures_of(results.drop_last());
        match results.last().ended {
            EndedModel::Failed(reason) => rest.push((results.last().input, reason)),
            _ => rest,
        }
    }
}

/// How many files of a run were cancelled.
pub open spec fn cancelled_of(results: Seq<OutcomeModel>) -> nat
    decreases results.len(),
{
    if results.len() == 0 {
        0
    } else {
        cancelled_of(results.drop_last()) + if results.last().ended is Cancelled {
            1nat
        } else {
            0nat
        }
    }
}

/// How many files of a run were written.
pub open spec fn written_of(results: Seq<OutcomeModel>) -> nat
    decreases results.len(),
{
    if results.len() == 0 {
        0
    } else {
        written_of(results.drop_last()) + if results.last().ended is Written {
            1nat
        } else {
            0nat
        }
    }
}

/// The report of a run, from how each of its files ended.
pub fn report(results: &Vec<FileOutcome>) -> (r: QuickRunReport)
    ensures
        r@ == (ReportModel {
            total: results@.len(),
            failures: failures_of(models(results@)),
            cancelled: cancelled_of(models(results@)),
        }),
{
    let ghost m = models(results@);
    let mut failures: Vec<(FilePath, String)> = Vec::new();
    let mut cancelled: usize = 0;
    let mut i: usize = 0;
    assert(models(failures@) =~= failures_of(m.take(0)));
    while i < results.len()
        invariant
            i <= results.len(),
            m == models(results@),
            models(failures@) == failures_of(m.take(i as int)),
            cancelled == cancelled_of(m.take(i as int)),
            cancelled <= i,
        decreases results.len() - i,
    {
        let ghost f = models(failures@);
        assert(m[i as int] == results[i as int]@);
        assert(m.take(i + 1).drop_last() =~= m.take(i as int));
        match &results[i].ended {
            Ended::Cancelled => {
                cancelled += 1;
            },
            Ended::Failed(reason) => {
                failures.push((results[i].input.clone(), reason.clone()));
                assert(models(failures@) =~= f.push((results[i as int].input@, reason@)));
            },
            Ended::Written(_) => {},
        }
        i += 1;
    }
    assert(m.take(i as int) =~= m);
    QuickRunReport { total: results.len(), failures, cancelled }
}

/// The status line while a run is on.
pub fn status(done: usize, total: usize, name: &str) -> (r: String)
    ensures
        r@ == decimal(done as nat) + " / "@ + decimal(total as nat) + "  \u{b7}  "@ + name@,
{
    let mut s = String::new();
    push_decimal(&mut s, done as u64);
    s.append(" / ");
    push_decimal(&mut s, total as u64);
    s.append("  \u{b7}  ");
    s.append(name);
    assert(s@ =~= decimal(done as nat) + " / "@ + decimal(total as nat) + "  \u{b7}  "@ + name@);
    s
}

// ---------------------------------------------------------------------------
// Laws
// ---------------------------------------------------------------------------

/// Every file of a run is counted once: as written, as failed or as cancelled.
pub proof fn every_file_is_counted_once(results: Seq<OutcomeModel>)
    ensures
        results.len() == written_of(results) + failures_of(results).len() + cancelled_of(results),
    decreases results.len(),
{
    if results.len() > 0 {
        every_file_is_counted_once(results.drop_last());
    }
}

/// A cancelled run is silent even when files had already failed; a run with
/// failures is never called converted.
pub proof fn only_a_clean_run_is_converted(report: ReportModel)
    ensures
        report.cancelled > 0 ==> meaning(report) == Verdict::Cancelled,
        meaning(report) is Converted <==> report.cancelled == 0 && report.failures.len() == 0,
{
}

/// One more file adds to the report what became of it: one that failed its path and
/// why, one that was cancelled one to those cancelled, one that was written nothing;
/// each adds one to the total.
pub proof fn a_report_counts_each_file(
    results: &Vec<FileOutcome>,
    more: &Vec<FileOutcome>,
    r: QuickRunReport,
    s: QuickRunReport,
)
    requires
        call_ensures(report, (results,), r),
        call_ensures(report, (more,), s),
        more.len() == results.len() + 1,
        forall|i: int| 0 <= i < results.len() ==> (#[trigger] more[i])@ == results[i]@,
    ensures
        results.len() == 0 ==> r.total == 0 && r.failures.len() == 0 && r.cancelled == 0,
        s.total == r.total + 1,
        match more[results.len() as int].ended {
            Ended::Written(path) => models(s.failures@) == models(r.failures@) && s.cancelled
                == r.cancelled,
            Ended::Cancelled => models(s.failures@) == models(r.failures@) && s.cancelled
                == r.cancelled + 1,
            Ended::Failed(reason) => models(s.failures@) == models(r.failures@).push(
                (more[results.len() as int].input@, reason@),
            ) && s.cancelled == r.cancelled,
        },
{
    let m = models(more@);
    assert(m.drop_last() =~= models(results@));
    assert(m.last() == more[results.len() as int]@);
    assert(r@.failures == models(r.failures@) && s@.failures == models(s.failures@));
    assert(r@.total == r.total && s@.total == s.total);
    assert(r@.cancelled == r.cancelled && s@.cancelled == s.cancelled);
}

/// A run that was cancelled counts as cancelled, whatever failed; one with failures
/// tells how many of how many failed; any other converted all of its files.
pub proof fn a_verdict_reads_the_report(report: &QuickRunReport, r: Verdict)
    requires
        call_ensures(verdict, (report,), r),
    ensures
        r is Cancelled <==> report.cancelled > 0,
        report.cancelled == 0 && report.failures.len() > 0 ==> r == (Verdict::Failed {
            failed: report.failures.len(),
            total: report.total,
        }),
        report.cancelled == 0 && report.failures.len() == 0 ==> r == Verdict::Converted(
            report.total,
        ),
{
    assert(report@.failures.len() == report.failures.len());
}

/// A run begins exactly where there is an image to run on.
pub proof fn a_run_begins_with_an_image(images: usize, r: Result<(), &'static str>)
    requires
        call_ensures(begin, (images,), r),
    ensures
        r is Ok <==> images > 0,
        r is Err ==> r->Err_0@ == "no image files in selection"@,
{
}

/// The preset that is found is the first whose name is the one asked for, but for
/// case and the blanks around what was asked for. One that is not there is named, and
/// the note on the store follows where there is one.
pub proof fn a_preset_is_found_by_its_name(
    presets: &Vec<Preset>,
    note: &Option<String>,
    name: &str,
    r: Result<usize, String>,
    i: int,
)
    requires
        call_ensures(resolve_preset, (presets, note, name), r),
        0 <= i < presets.len(),
    ensures
        lowercase(presets[i].name@) == lowercase(trimmed(name@)) ==> r is Ok && r->Ok_0 <= i,
        r is Ok ==> r->Ok_0 < presets.len() && lowercase(presets[r->Ok_0 as int].name@)
            == lowercase(trimmed(name@)),
        r is Err && note is None ==> r->Err_0@ == "unknown preset: "@ + name@,
        r is Err && note is Some ==> r->Err_0@ == "unknown preset: "@ + name@ + ("\n\n"@
            + note->0@),
{
    let m = models(presets@);
    assert(m[i] == presets[i]@);
    if let Ok(k) = r {
        assert(m[k as int] == presets[k as int]@);
    } else {
        assert("unknown preset: "@ + name@ + Seq::<char>::empty() =~= "unknown preset: "@ + name@);
    }
}

/// The status line counts the files and names the one at hand; the count of failures
/// is that of the report.
pub proof fn a_status_counts_the_files(
    done: usize,
    total: usize,
    name: &str,
    line: String,
    report: &QuickRunReport,
    count: usize,
)
    requires
        call_ensures(status, (done, total, name), line),
        call_ensures(QuickRunReport::failure_count, (report,), count),
    ensures
        line@ == decimal(done as nat) + " / "@ + decimal(total as nat) + "  \u{b7}  "@ + name@,
        count == report.failures.len(),
{
    assert(report@.failures.len() == report.failures.len());
}

} // verus!
