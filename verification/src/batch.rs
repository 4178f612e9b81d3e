//! The Convert batch: what each file is to become, where the outputs go, and
//! what the run says when it is over.

use crate::dialogs::{
    name_lines, name_list, show_error, show_info, show_info_at, Dialog, DialogModel,
};
use crate::image_history::{entry, Crop};
use crate::order::models;
use crate::paths::{stem_of, FilePath, PathModel};
use crate::presets::{job_for_file, CropMode, Job, JobModel};
use crate::sorted_map::SortedMap;
use crate::text::{decimal, push_decimal};
use vstd::prelude::*;

verus! {

/// A file and the job to run on it.
pub struct Item {
    pub input: FilePath,
    pub job: Job,
}

/// A file and the job to run on it.
pub struct ItemModel {
    pub input: PathModel,
    pub job: JobModel,
}

impl View for Item {
    type V = ItemModel;

    open spec fn view(&self) -> ItemModel {
        ItemModel { input: self.input@, job: self.job@ }
    }
}

/// The job of a file: its own crop, where it has one, in place of the job's.
pub open spec fn item_for(path: PathModel, crops: Map<PathModel, Crop>, job: JobModel) -> ItemModel {
    ItemModel {
        input: path,
        job: match entry(crops, path) {
            Some(c) => JobModel {
                crop: CropMode::Rect { x: c.0, y: c.1, width: c.2, height: c.3 },
                ..job
            },
            None => job,
        },
    }
}

/// Each file of the queue with its job: a crop that was drawn for the file
/// overrides the job's own.
pub fn items(files: &Vec<FilePath>, crops: &SortedMap<FilePath, Crop>, job: &Job) -> (r: Vec<Item>)
    requires
        crops.wf(),
    ensures
        models(r@) == Seq::new(
            files@.len(),
            |i: int| item_for(models(files@)[i], crops@, job@),
        ),
{
    let mut r: Vec<Item> = Vec::new();
    let mut i: usize = 0;
    while i < files.len()
        invariant
            i <= files.len(),
            r.len() == i,
            crops.wf(),
            forall|j: int|
                0 <= j < i ==> (#[trigger] r@[j])@ == item_for(models(files@)[j], crops@, job@),
        decreases files.len() - i,
    {
        let path = &files[i];
        let crop = match crops.get(path) {
            Some(c) => Some(*c),
            None => None,
        };
        r.push(Item { input: path.clone(), job: job_for_file(job, crop) });
        i += 1;
    }
    assert(models(r@) =~= Seq::new(
        files@.len(),
        |i: int| item_for(models(files@)[i], crops@, job@),
    ));
    r
}

/// Where a run's outputs go.
#[derive(Clone, Copy, PartialEq, Eq, Structural, Debug)]
pub enum SaveTo {
    /// To a file that the user names, the suffixed name filled in.
    File,
    /// To a folder that the user picks, under their own names.
    Folder,
    /// To a folder named after the suffix inside the one that the user picks.
    Subfolder,
}

/// Where to ask the outputs to go: a single file without a subfolder gets a
/// Save dialog, everything else a folder picker.
pub fn save_to(count: usize, subfolder: bool) -> (r: SaveTo)
    ensures
        r == if subfolder {
            SaveTo::Subfolder
        } else if count == 1 {
            SaveTo::File
        } else {
            SaveTo::Folder
        },
{
    if subfolder {
        SaveTo::Subfolder
    } else if count == 1 {
        SaveTo::File
    } else {
        SaveTo::Folder
    }
}

/// The stem that an output's name is built from: the input's, or "image" where
/// that is no valid text.
pub fn output_stem(input: &FilePath) -> (r: String)
    ensures
        r@ == match stem_of(input@) {
            Some(stem) => stem,
            None => "image"@,
        },
{
    match input.file_stem() {
        Some(stem) => stem,
        None => String::from_str("image"),
    }
}

// ---------------------------------------------------------------------------
// What a run says when it is over
// ---------------------------------------------------------------------------

/// How a run went.
#[derive(Clone, Copy, PartialEq, Eq, Structural, Debug)]
pub struct BatchSummary {
    pub ok: usize,
    pub failed: usize,
    pub cancelled: usize,
}

impl BatchSummary {
    /// How many files the run was over.
    pub open spec fn all(self) -> nat {
        (self.ok + self.failed + self.cancelled) as nat
    }
}

impl Default for BatchSummary {
    fn default() -> (r: BatchSummary)
        ensures
            r == (BatchSummary { ok: 0, failed: 0, cancelled: 0 }),
    {
        BatchSummary { ok: 0, failed: 0, cancelled: 0 }
    }
}

/// The heading for the dialog a finished run puts up.
pub open spec fn title_text(s: BatchSummary) -> Seq<char> {
    if s.cancelled > 0 {
        "Cancelled after "@ + decimal(s.ok as nat) + " of "@ + decimal(s.all()) + " files"@
    } else if s.failed > 0 {
        "Converted "@ + decimal(s.ok as nat) + " of "@ + decimal(s.all()) + " files"@
    } else if s.ok == 1 {
        "Converted 1 file"@
    } else {
        "Converted "@ + decimal(s.ok as nat) + " files"@
    }
}

/// The heading for the dialog a finished run puts up. A cancelled run says so
/// rather than reporting the files it did get through as the whole job.
pub fn run_title(s: &BatchSummary) -> (r: String)
    requires
        s.all() <= u64::MAX,
    ensures
        r@ == title_text(*s),
{
    if s.cancelled == 0 && s.failed == 0 && s.ok == 1 {
        return String::from_str("Converted 1 file");
    }
    let mut r = String::from_str(if s.cancelled > 0 {
        "Cancelled after "
    } else {
        "Converted "
    });
    push_decimal(&mut r, s.ok as u64);
    if s.cancelled > 0 || s.failed > 0 {
        r.append(" of ");
        push_decimal(&mut r, s.ok as u64 + s.failed as u64 + s.cancelled as u64);
    }
    r.append(" files");
    r
}

/// How one file of a run ended.
#[derive(PartialEq, Eq, Debug)]
pub enum Ended {
    /// It was written, to this path.
    Written(String),
    /// The user cancelled before its turn.
    Cancelled,
    /// It could not be converted, for this reason.
    Failed(String),
}

/// How one file of a run ended.
pub enum EndedModel {
    Written(Seq<char>),
    Cancelled,
    Failed(Seq<char>),
}

impl View for Ended {
    type V = EndedModel;

    open spec fn view(&self) -> EndedModel {
        match self {
            Ended::Written(path) => EndedModel::Written(path@),
            Ended::Cancelled => EndedModel::Cancelled,
            Ended::Failed(reason) => EndedModel::Failed(reason@),
        }
    }
}

/// A file of a run, by the name to show it under, and how it ended.
pub struct FileResult {
    pub name: String,
    pub ended: Ended,
}

/// A file of a run and how it ended.
pub struct ResultModel {
    pub name: Seq<char>,
    pub ended: EndedModel,
}

impl View for FileResult {
    type V = ResultModel;

    open spec fn view(&self) -> ResultModel {
        ResultModel { name: self.name@, ended: self.ended@ }
    }
}

/// A line for each file that failed. One that was cancelled did not fail.
pub open spec fn failed_lines(results: Seq<ResultModel>) -> Seq<Seq<char>>
    decreases results.len(),
{
    if results.len() == 0 {
        seq![]
    } else {
        let rest = failed_lines(results.drop_last());
        match results.last().ended {
            EndedModel::Failed(reason) => rest.push(results.last().name + ": "@ + reason),
            _ => rest,
        }
    }
}

/// The first output that was written, if one was.
pub open spec fn first_written(results: Seq<ResultModel>) -> Option<Seq<char>>
    decreases results.len(),
{
    if results.len() == 0 {
        None
    } else {
        match first_written(results.drop_last()) {
            Some(path) => Some(path),
            None => match results.last().ended {
                EndedModel::Written(path) => Some(path),
                _ => None,
            },
        }
    }
}

/// What the dialog of a finished run says: the line about sizes, then the files
/// that failed.
pub open spec fn run_detail(size_line: Seq<char>, failed: Seq<Seq<char>>) -> Seq<char> {
    if failed.len() == 0 {
        size_line
    } else {
        size_line + (if size_line.len() == 0 {
            ""@
        } else {
            "\n\n"@
        }) + decimal(failed.len()) + (if failed.len() == 1 {
            " file failed:\n"@
        } else {
            " files failed:\n"@
        }) + name_lines(failed)
    }
}

/// The dialog of a finished run. Any one output is enough to open the folder
/// they landed in.
pub open spec fn run_dialog(
    s: BatchSummary,
    size_line: Seq<char>,
    results: Seq<ResultModel>,
) -> DialogModel {
    let failed = failed_lines(results);
    DialogModel {
        title: title_text(s),
        detail: run_detail(size_line, failed),
        info: s.failed == 0,
        reveal: if s.failed == 0 && first_written(results) is Some {
            first_written(results)->0
        } else {
            seq![]
        },
    }
}

/// The dialog of a finished run: counts, bytes in against out, and which files
/// failed. A run without failures offers to show the folder of what it wrote.
pub fn run_finished(s: &BatchSummary, size_line: &String, results: &Vec<FileResult>) -> (r: Dialog)
    requires
        s.all() <= u64::MAX,
    ensures
        r@ == run_dialog(*s, size_line@, models(results@)),
{
    let ghost m = models(results@);
    proof {
        reveal_strlit("");
    }
    let mut failed: Vec<String> = Vec::new();
    let mut written: Option<String> = None;
    let mut i: usize = 0;
    assert(models(failed@) =~= failed_lines(m.take(0)));
    while i < results.len()
        invariant
            i <= results.len(),
            m == models(results@),
            models(failed@) == failed_lines(m.take(i as int)),
            match first_written(m.take(i as int)) {
                Some(path) => written is Some && written->0@ == path,
                None => written is None,
            },
        decreases results.len() - i,
    {
        let ghost f = models(failed@);
        assert(m[i as int] == results[i as int]@);
        assert(m.take(i + 1).drop_last() =~= m.take(i as int));
        match &results[i].ended {
            Ended::Written(path) => {
                if written.is_none() {
                    written = Some(path.clone());
                }
            },
            Ended::Cancelled => {},
            Ended::Failed(reason) => {
                let mut line = results[i].name.clone();
                line.append(": ");
                line.append(reason.as_str());
                let ghost l = line@;
                failed.push(line);
                assert(models(failed@) =~= f.push(l));
            },
        }
        i += 1;
    }
    assert(m.take(i as int) =~= m);
    let title = run_title(s);
    let mut detail = size_line.clone();
    assert(failed.len() == models(failed@).len());
    if failed.len() > 0 {
        if !size_line.as_str().is_empty() {
            detail.append("\n\n");
        }
        push_decimal(&mut detail, failed.len() as u64);
        detail.append(if failed.len() == 1 {
            " file failed:\n"
        } else {
            " files failed:\n"
        });
        detail.append(name_list(&failed).as_str());
    }
    assert(detail@ =~= run_detail(size_line@, models(failed@)));
    if s.failed > 0 {
        show_error(title, detail)
    } else {
        match written {
            Some(path) => show_info_at(title, detail, path),
            None => show_info(title, detail),
        }
    }
}

/// A cancelled run never claims to have converted what it was given.
pub proof fn a_cancelled_run_says_so(s: BatchSummary)
    ensures
        s.cancelled > 0 <==> crate::text::begins_with(title_text(s), "Cancelled after "@),
{
    reveal_strlit("Cancelled after ");
    reveal_strlit("Converted ");
    reveal_strlit("Converted 1 file");
    let t = title_text(s);
    let head = "Cancelled after "@;
    if s.cancelled > 0 {
        assert(t.take(head.len() as int) =~= head);
    } else {
        assert(t[1] == 'o');
        if t.len() >= head.len() {
            assert(t.take(head.len() as int)[1] != head[1]);
        }
    }
}

// ---------------------------------------------------------------------------
// Laws
// ---------------------------------------------------------------------------

/// Every file of the queue is converted, in the queue's order, by the job given; the
/// crop drawn for a file stands in for the job's, and nothing else of the job
/// differs from file to file.
pub proof fn every_file_gets_the_job(
    files: &Vec<FilePath>,
    crops: &SortedMap<FilePath, Crop>,
    job: &Job,
    r: Vec<Item>,
    i: int,
)
    requires
        call_ensures(items, (files, crops, job), r),
        0 <= i < files.len(),
    ensures
        r.len() == files.len(),
        r[i].input@ == files[i]@,
        r[i].job.format == job.format && r[i].job.quality == job.quality,
        r[i].job.png == job.png && r[i].job.suffix@ == job.suffix@,
        r[i].job.subfolder == job.subfolder && r[i].job.resize == job.resize,
        !crops@.dom().contains(files[i]@) ==> r[i].job.crop == job.crop,
        crops@.dom().contains(files[i]@) ==> r[i].job.crop == (CropMode::Rect {
            x: crops@[files[i]@].0,
            y: crops@[files[i]@].1,
            width: crops@[files[i]@].2,
            height: crops@[files[i]@].3,
        }),
{
    let m = models(r@);
    assert(m.len() == r.len());
    assert(m[i] == r[i]@);
    assert(models(files@)[i] == files[i]@);
    let j = r[i].job;
    assert(j@.format == j.format && j@.quality == j.quality && j@.png == j.png);
    assert(j@.suffix == j.suffix@ && j@.subfolder == j.subfolder && j@.resize == j.resize);
    assert(j@.crop == j.crop);
}

/// With a subfolder the outputs go there; without, a single file is saved by name and
/// several to a folder.
pub proof fn one_file_is_saved_by_name(count: usize, subfolder: bool, r: SaveTo)
    requires
        call_ensures(save_to, (count, subfolder), r),
    ensures
        r is Subfolder <==> subfolder,
        r is File <==> !subfolder && count == 1,
        r is Folder <==> !subfolder && count != 1,
{
}

/// An output is named after its input, or "image" where that has no readable name.
pub proof fn an_output_is_named_after_its_input(input: &FilePath, stem: Option<String>, r: String)
    requires
        call_ensures(FilePath::file_stem, (input,), stem),
        call_ensures(output_stem, (input,), r),
    ensures
        stem is Some ==> r@ == stem->0@,
        stem is None ==> r@ == "image"@,
{
}

/// The heading counts the files that were written. Where the run was cancelled or
/// files failed it counts them against all of them.
pub proof fn the_heading_counts_what_was_written(s: &BatchSummary, r: String)
    requires
        call_ensures(run_title, (s,), r),
    ensures
        ({
            let all = (s.ok + s.failed + s.cancelled) as nat;
            &&& s.cancelled > 0 ==> r@ == "Cancelled after "@ + decimal(s.ok as nat) + " of "@
                + decimal(all) + " files"@
            &&& s.cancelled == 0 && s.failed > 0 ==> r@ == "Converted "@ + decimal(s.ok as nat)
                + " of "@ + decimal(all) + " files"@
            &&& s.cancelled == 0 && s.failed == 0 && s.ok == 1 ==> r@ == "Converted 1 file"@
            &&& s.cancelled == 0 && s.failed == 0 && s.ok != 1 ==> r@ == "Converted "@ + decimal(
                s.ok as nat,
            ) + " files"@
        }),
{
}

/// Each file that failed adds a line, with its name and why; no other file does.
pub proof fn each_failed_file_has_a_line(results: Seq<ResultModel>, next: ResultModel)
    ensures
        failed_lines(seq![]) == Seq::<Seq<char>>::empty(),
        next.ended matches EndedModel::Failed(reason) ==> failed_lines(results.push(next))
            == failed_lines(results).push(next.name + ": "@ + reason),
        !(next.ended is Failed) ==> failed_lines(results.push(next)) == failed_lines(results),
{
    assert(results.push(next).drop_last() =~= results);
}

/// Whether the first file that was written is at `i`.
pub open spec fn first_written_at(results: Seq<FileResult>, i: int) -> bool {
    &&& 0 <= i < results.len()
    &&& results[i].ended is Written
    &&& forall|j: int| 0 <= j < i ==> !((#[trigger] results[j]).ended is Written)
}

proof fn lemma_first_written(results: Seq<FileResult>)
    ensures
        forall|i: int| #[trigger]
            first_written_at(results, i) ==> first_written(models(results)) == Some(
                results[i].ended@->Written_0,
            ),
        first_written(models(results)) is Some ==> exists|i: int|
            first_written_at(results, i),
    decreases results.len(),
{
    if results.len() > 0 {
        let less = results.drop_last();
        lemma_first_written(less);
        assert(models(results).drop_last() =~= models(less));
        assert(models(results).last() == results.last()@);
        assert forall|i: int| #[trigger] first_written_at(results, i) implies first_written(
            models(results),
        ) == Some(results[i].ended@->Written_0) by {
            if i < less.len() {
                assert(less[i] == results[i]);
                assert forall|j: int| 0 <= j < i implies !((#[trigger] less[j]).ended is Written) by {
                    assert(less[j] == results[j]);
                }
                assert(first_written_at(less, i));
            } else if first_written(models(less)) is Some {
                let k = choose|k: int| first_written_at(less, k);
                assert(less[k] == results[k]);
            }
        }
        if first_written(models(results)) is Some {
            if first_written(models(less)) is Some {
                let k = choose|k: int| first_written_at(less, k);
                assert forall|j: int| 0 <= j < k implies !((#[trigger] results[j]).ended is Written) by {
                    assert(less[j] == results[j]);
                }
                assert(less[k] == results[k]);
                assert(first_written_at(results, k));
            } else {
                let k = results.len() - 1;
                assert forall|j: int| 0 <= j < k implies !((#[trigger] results[j]).ended is Written) by {
                    if results[j].ended is Written {
                        lemma_some_written(less, j);
                    }
                }
                assert(first_written_at(results, k));
            }
        }
    }
}

/// Where a file was written, a first one was.
proof fn lemma_some_written(results: Seq<FileResult>, j: int)
    requires
        0 <= j < results.len(),
        results[j].ended is Written,
    ensures
        first_written(models(results)) is Some,
    decreases results.len(),
{
    let less = results.drop_last();
    assert(models(results).drop_last() =~= models(less));
    assert(models(results).last() == results.last()@);
    if j < less.len() {
        assert(less[j] == results[j]);
        lemma_some_written(less, j);
    }
}

/// A run with failures ends in an error, one without in information, which offers to
/// show the first file that was written.
pub proof fn a_run_without_failures_shows_its_output(
    s: &BatchSummary,
    size_line: &String,
    results: &Vec<FileResult>,
    title: String,
    r: Dialog,
)
    requires
        call_ensures(run_finished, (s, size_line, results), r),
        call_ensures(run_title, (s,), title),
    ensures
        r.title@ == title@,
        r.info <==> s.failed == 0,
        s.failed > 0 ==> r.reveal@.len() == 0,
        s.failed == 0 ==> forall|i: int| #[trigger]
            first_written_at(results@, i) ==> r.reveal@ == results[i].ended@->Written_0,
        (forall|i: int|
            0 <= i < results.len() ==> !((#[trigger] results[i]).ended is Written))
            ==> r.reveal@.len() == 0,
{
    lemma_first_written(results@);
    assert(r@.title == r.title@ && r@.info == r.info && r@.reveal == r.reveal@);
    if forall|i: int| 0 <= i < results.len() ==> !((#[trigger] results[i]).ended is Written) {
        if first_written(models(results@)) is Some {
            let i = choose|i: int| first_written_at(results@, i);
            assert(!(results[i].ended is Written));
        }
    }
}

/// The dialog of a run says its sizes, and then, where files failed, how many and
/// which.
pub proof fn a_run_names_the_files_that_failed(
    s: &BatchSummary,
    size_line: &String,
    results: &Vec<FileResult>,
    r: Dialog,
)
    requires
        call_ensures(run_finished, (s, size_line, results), r),
    ensures
        ({
            let failed = failed_lines(models(results@));
            &&& failed.len() == 0 ==> r.detail@ == size_line@
            &&& failed.len() == 1 ==> r.detail@ == size_line@ + (if size_line@.len() == 0 {
                ""@
            } else {
                "\n\n"@
            }) + decimal(1) + " file failed:\n"@ + name_lines(failed)
            &&& failed.len() > 1 ==> r.detail@ == size_line@ + (if size_line@.len() == 0 {
                ""@
            } else {
                "\n\n"@
            }) + decimal(failed.len()) + " files failed:\n"@ + name_lines(failed)
        }),
{
    assert(r@.detail == r.detail@);
}

} // verus!
