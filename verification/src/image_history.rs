//! Undo and redo for Images mode: adding files, removing one, clearing the
//! list and applying a crop. A step keeps exactly what its action threw away
//! or overwrote and applies to the file list, the crop map and the thumbnail
//! cache as plain data; the rows are then brought in line with them, the way
//! every list change is.

use crate::history::Step;
use crate::order::{
    contains, insert_sorted, lemma_push_to_set, listed, models, one_sorted_list, remove_sorted,
    sort_distinct, without,
};
use crate::paths::{name_of, FilePath, PathModel};
use crate::sorted_map::SortedMap;
use crate::text::{concat, decimal, push_decimal};
use vstd::prelude::*;

verus! {

/// A crop in absolute pixels: x, y, width, height.
pub type Crop = (u32, u32, u32, u32);

/// A decoded thumbnail, and the size of its image as text.
#[derive(PartialEq, Eq, Debug)]
pub struct ThumbData {
    pub rgba: Vec<u8>,
    pub w: u32,
    pub h: u32,
    pub dims: String,
}

/// What a thumbnail shows.
pub struct ThumbModel {
    pub rgba: Seq<u8>,
    pub w: u32,
    pub h: u32,
    pub dims: Seq<char>,
}

impl View for ThumbData {
    type V = ThumbModel;

    open spec fn view(&self) -> ThumbModel {
        ThumbModel { rgba: self.rgba@, w: self.w, h: self.h, dims: self.dims@ }
    }
}

impl Clone for ThumbData {
    fn clone(&self) -> (r: ThumbData)
        ensures
            r@ == self@,
    {
        ThumbData { rgba: self.rgba.clone(), w: self.w, h: self.h, dims: self.dims.clone() }
    }
}

/// One undoable change to the Images mode list or crops.
#[derive(Debug)]
pub enum ImageStep {
    /// The files an add actually put in the list (not the ones already there).
    AddFiles { paths: Vec<FilePath> },
    /// A file removed with its row's ×, and the crop it had.
    RemoveFile { path: FilePath, crop: Option<Crop> },
    /// Everything Clear threw away.
    ClearList {
        paths: Vec<FilePath>,
        crops: Vec<(FilePath, Crop)>,
        thumbs: Vec<(FilePath, ThumbData)>,
    },
    /// A crop applied to a file, and the crop it replaced.
    ApplyCrop { path: FilePath, before: Option<Crop>, after: Crop },
}

/// What a step holds.
pub enum StepModel {
    AddFiles { paths: Seq<PathModel> },
    RemoveFile { path: PathModel, crop: Option<Crop> },
    ClearList {
        paths: Seq<PathModel>,
        crops: Seq<(PathModel, Crop)>,
        thumbs: Seq<(PathModel, ThumbModel)>,
    },
    ApplyCrop { path: PathModel, before: Option<Crop>, after: Crop },
}

impl View for ImageStep {
    type V = StepModel;

    open spec fn view(&self) -> StepModel {
        match self {
            ImageStep::AddFiles { paths } => StepModel::AddFiles { paths: models(paths@) },
            ImageStep::RemoveFile { path, crop } => StepModel::RemoveFile {
                path: path@,
                crop: *crop,
            },
            ImageStep::ClearList { paths, crops, thumbs } => StepModel::ClearList {
                paths: models(paths@),
                crops: crops@.map_values(|e: (FilePath, Crop)| (e.0@, e.1)),
                thumbs: thumbs@.map_values(|e: (FilePath, ThumbData)| (e.0@, e.1@)),
            },
            ImageStep::ApplyCrop { path, before, after } => StepModel::ApplyCrop {
                path: path@,
                before: *before,
                after: *after,
            },
        }
    }
}

/// Images mode's undoable state.
pub struct Lists {
    pub files: Vec<FilePath>,
    pub crops: SortedMap<FilePath, Crop>,
    pub thumbs: SortedMap<FilePath, ThumbData>,
}

/// What the lists hold.
#[verifier::ext_equal]
pub struct ListsModel {
    pub files: Seq<PathModel>,
    pub crops: Map<PathModel, Crop>,
    pub thumbs: Map<PathModel, ThumbModel>,
}

impl View for Lists {
    type V = ListsModel;

    open spec fn view(&self) -> ListsModel {
        ListsModel { files: models(self.files@), crops: self.crops@, thumbs: self.thumbs@ }
    }
}

impl Lists {
    /// The file list is in order, and the maps are maps.
    pub open spec fn wf(&self) -> bool {
        &&& listed::<FilePath>(models(self.files@))
        &&& self.crops.wf()
        &&& self.thumbs.wf()
    }

    pub fn new() -> (r: Lists)
        ensures
            r.wf(),
            r@ == (ListsModel { files: seq![], crops: Map::empty(), thumbs: Map::empty() }),
    {
        let r = Lists { files: Vec::new(), crops: SortedMap::new(), thumbs: SortedMap::new() };
        assert(models(r.files@) =~= Seq::<PathModel>::empty());
        r
    }
}

/// What an undo or redo leaves for the handler to do.
#[derive(Debug, PartialEq, Eq)]
pub struct Outcome {
    /// Files that could not come back because they are no longer on disk.
    pub skipped: usize,
    /// The file to select so the change is visible, if the step is about one.
    pub select: Option<FilePath>,
}

/// What an outcome says.
pub struct OutcomeModel {
    pub skipped: nat,
    pub select: Option<PathModel>,
}

impl View for Outcome {
    type V = OutcomeModel;

    open spec fn view(&self) -> OutcomeModel {
        OutcomeModel {
            skipped: self.skipped as nat,
            select: match self.select {
                Some(p) => Some(p@),
                None => None,
            },
        }
    }
}

impl Default for Outcome {
    fn default() -> (r: Outcome)
        ensures
            r@ == (OutcomeModel { skipped: 0, select: None }),
    {
        Outcome { skipped: 0, select: None }
    }
}

/// "1 file", "12 files".
pub open spec fn files_text(n: nat) -> Seq<char> {
    if n == 1 {
        "1 file"@
    } else {
        decimal(n) + " files"@
    }
}

/// "1 file", "12 files".
pub fn files_phrase(n: usize) -> (r: String)
    ensures
        r@ == files_text(n as nat),
{
    if n == 1 {
        String::from_str("1 file")
    } else {
        let mut s = String::new();
        push_decimal(&mut s, n as u64);
        s.append(" files");
        assert(s@ =~= decimal(n as nat) + " files"@);
        s
    }
}

impl Step for ImageStep {
    open spec fn phrase(&self) -> Seq<char> {
        match self@ {
            StepModel::AddFiles { paths } => "adding "@ + files_text(paths.len()),
            StepModel::RemoveFile { path, .. } => "removing "@ + name_of(path),
            StepModel::ClearList { paths, .. } => "clearing the list ("@ + files_text(paths.len())
                + ")"@,
            StepModel::ApplyCrop { path, .. } => "cropping "@ + name_of(path),
        }
    }

    open spec fn continued_by(&self, newer: &Self) -> bool {
        false
    }

    open spec fn folds(&self, newer: &Self, all: &Self) -> bool {
        *all == *self
    }

    open spec fn changed_nothing(&self) -> bool {
        match self@ {
            StepModel::AddFiles { paths } => paths.len() == 0,
            StepModel::RemoveFile { .. } => false,
            StepModel::ClearList { paths, .. } => paths.len() == 0,
            StepModel::ApplyCrop { before, after, .. } => before == Some(after),
        }
    }

    fn describe(&self) -> (r: String) {
        match self {
            ImageStep::AddFiles { paths } => concat("adding ", files_phrase(paths.len()).as_str()),
            ImageStep::RemoveFile { path, .. } => concat("removing ", path.name_or_empty().as_str()),
            ImageStep::ClearList { paths, .. } => {
                let mut s = concat("clearing the list (", files_phrase(paths.len()).as_str());
                s.append(")");
                s
            },
            ImageStep::ApplyCrop { path, .. } => concat("cropping ", path.name_or_empty().as_str()),
        }
    }

    /// Every Images mode action is a deliberate click; none of them merge.
    fn merges_with(&self, newer: &Self) -> (r: bool) {
        false
    }

    fn absorb(&mut self, newer: Self) {
    }

    fn is_empty(&self) -> (r: bool) {
        match self {
            ImageStep::AddFiles { paths } => paths.len() == 0,
            ImageStep::ClearList { paths, .. } => paths.len() == 0,
            ImageStep::RemoveFile { .. } => false,
            ImageStep::ApplyCrop { before, after, .. } => match before {
                Some(b) => b.0 == after.0 && b.1 == after.1 && b.2 == after.2 && b.3 == after.3,
                None => false,
            },
        }
    }
}

// ---------------------------------------------------------------------------
// What an undo and a redo do
// ---------------------------------------------------------------------------

/// How many of the answers are no.
pub open spec fn noes(answers: Seq<bool>) -> nat
    decreases answers.len(),
{
    if answers.len() == 0 {
        0
    } else {
        noes(answers.drop_last()) + if answers.last() {
            0nat
        } else {
            1nat
        }
    }
}

/// The files with those of `paths` that are on disk.
pub open spec fn with_present(
    files: Set<PathModel>,
    paths: Seq<PathModel>,
    on_disk: Seq<bool>,
) -> Set<PathModel>
    decreases paths.len(),
{
    if paths.len() == 0 {
        files
    } else {
        let rest = with_present(files, paths.drop_last(), on_disk.drop_last());
        if on_disk.last() {
            rest.insert(paths.last())
        } else {
            rest
        }
    }
}

/// The map with those of the entries whose path is in `files`.
pub open spec fn with_listed<V>(
    map: Map<PathModel, V>,
    entries: Seq<(PathModel, V)>,
    files: Seq<PathModel>,
) -> Map<PathModel, V>
    decreases entries.len(),
{
    if entries.len() == 0 {
        map
    } else {
        let rest = with_listed(map, entries.drop_last(), files);
        if files.contains(entries.last().0) {
            rest.insert(entries.last().0, entries.last().1)
        } else {
            rest
        }
    }
}

impl StepModel {
    /// The paths that an undo asks about.
    pub open spec fn undo_asks(self) -> Seq<PathModel> {
        match self {
            StepModel::RemoveFile { path, .. } => seq![path],
            StepModel::ClearList { paths, .. } => paths,
            _ => seq![],
        }
    }

    /// The paths that a redo asks about.
    pub open spec fn redo_asks(self) -> Seq<PathModel> {
        match self {
            StepModel::AddFiles { paths } => paths,
            _ => seq![],
        }
    }

    /// Whether undoing the step takes `l` to `after` with the outcome `out`,
    /// where `on_disk` tells of each path of [`Self::undo_asks`] whether it is
    /// still there.
    pub open spec fn undoes(
        self,
        l: ListsModel,
        on_disk: Seq<bool>,
        after: ListsModel,
        out: OutcomeModel,
    ) -> bool {
        &&& listed::<FilePath>(after.files)
        &&& match self {
            StepModel::AddFiles { paths } => {
                &&& after.files.to_set() == l.files.to_set().difference(paths.to_set())
                &&& after.crops == l.crops.remove_keys(paths.to_set())
                &&& after.thumbs == l.thumbs
                &&& out == OutcomeModel { skipped: 0, select: None }
            },
            StepModel::RemoveFile { path, crop } => {
                &&& after.thumbs == l.thumbs
                &&& if on_disk[0] {
                    &&& after.files.to_set() == l.files.to_set().insert(path)
                    &&& after.crops == match crop {
                        Some(c) => l.crops.insert(path, c),
                        None => l.crops,
                    }
                    &&& out == OutcomeModel { skipped: 0, select: Some(path) }
                } else {
                    &&& after.files == l.files
                    &&& after.crops == l.crops
                    &&& out == OutcomeModel { skipped: 1, select: None }
                }
            },
            StepModel::ClearList { paths, crops, thumbs } => {
                &&& after.files.to_set() == with_present(l.files.to_set(), paths, on_disk)
                &&& after.crops == with_listed(l.crops, crops, after.files)
                &&& after.thumbs == with_listed(l.thumbs, thumbs, after.files)
                &&& out == OutcomeModel { skipped: noes(on_disk), select: None }
            },
            StepModel::ApplyCrop { path, before, .. } => {
                &&& after.files == l.files
                &&& after.thumbs == l.thumbs
                &&& if l.files.contains(path) {
                    &&& after.crops == match before {
                        Some(c) => l.crops.insert(path, c),
                        None => l.crops.remove(path),
                    }
                    &&& out == OutcomeModel { skipped: 0, select: Some(path) }
                } else {
                    &&& after.crops == l.crops
                    &&& out == OutcomeModel { skipped: 0, select: None }
                }
            },
        }
    }

    /// Whether applying the step again takes `l` to `after` with the outcome
    /// `out`, where `on_disk` tells of each path of [`Self::redo_asks`] whether
    /// it is still there.
    pub open spec fn redoes(
        self,
        l: ListsModel,
        on_disk: Seq<bool>,
        after: ListsModel,
        out: OutcomeModel,
    ) -> bool {
        &&& listed::<FilePath>(after.files)
        &&& match self {
            StepModel::AddFiles { paths } => {
                &&& after.files.to_set() == with_present(l.files.to_set(), paths, on_disk)
                &&& after.crops == l.crops
                &&& after.thumbs == l.thumbs
                &&& out == OutcomeModel { skipped: noes(on_disk), select: None }
            },
            StepModel::RemoveFile { path, .. } => {
                &&& after.files.to_set() == l.files.to_set().remove(path)
                &&& after.crops == l.crops.remove(path)
                &&& after.thumbs == l.thumbs
                &&& out == OutcomeModel { skipped: 0, select: None }
            },
            StepModel::ClearList { .. } => {
                &&& after == ListsModel { files: seq![], crops: Map::empty(), thumbs: Map::empty() }
                &&& out == OutcomeModel { skipped: 0, select: None }
            },
            StepModel::ApplyCrop { path, after: crop, .. } => {
                &&& after.files == l.files
                &&& after.thumbs == l.thumbs
                &&& if l.files.contains(path) {
                    &&& after.crops == l.crops.insert(path, crop)
                    &&& out == OutcomeModel { skipped: 0, select: Some(path) }
                } else {
                    &&& after.crops == l.crops
                    &&& out == OutcomeModel { skipped: 0, select: None }
                }
            },
        }
    }
}

/// Whether `ask` can give these answers about these paths.
pub open spec fn answered<F: Fn(&FilePath) -> bool>(
    ask: F,
    paths: Seq<PathModel>,
    answers: Seq<bool>,
) -> bool {
    &&& answers.len() == paths.len()
    &&& forall|i: int| 0 <= i < paths.len() ==> #[trigger] answer_of(ask, paths[i], answers[i])
}

/// Whether `ask` can give this answer about this path.
pub open spec fn answer_of<F: Fn(&FilePath) -> bool>(ask: F, path: PathModel, answer: bool) -> bool {
    exists|p: FilePath| #[trigger] p@ == path && call_ensures(ask, (&p,), answer)
}

/// Put those of `paths` that are on disk into the list; give how many are not.
fn add_present<F: Fn(&FilePath) -> bool>(
    files: &mut Vec<FilePath>,
    paths: &Vec<FilePath>,
    on_disk: &F,
) -> (skipped: usize)
    requires
        listed::<FilePath>(models(old(files)@)),
        forall|p: &FilePath| call_requires(*on_disk, (p,)),
    ensures
        listed::<FilePath>(models(final(files)@)),
        exists|answers: Seq<bool>|
            {
                &&& #[trigger] answered(*on_disk, models(paths@), answers)
                &&& models(final(files)@).to_set() == with_present(
                    models(old(files)@).to_set(),
                    models(paths@),
                    answers,
                )
                &&& skipped == noes(answers)
            },
{
    let mut skipped: usize = 0;
    let mut i: usize = 0;
    let ghost mut answers: Seq<bool> = seq![];
    let ghost before = models(files@).to_set();
    while i < paths.len()
        invariant
            i <= paths.len(),
            listed::<FilePath>(models(files@)),
            forall|p: &FilePath| call_requires(*on_disk, (p,)),
            answers.len() == i,
            forall|j: int|
                0 <= j < i ==> #[trigger] answer_of(*on_disk, models(paths@)[j], answers[j]),
            models(files@).to_set() == with_present(before, models(paths@).take(i as int), answers),
            skipped == noes(answers),
            skipped <= i,
        decreases paths.len() - i,
    {
        let there = on_disk(&paths[i]);
        proof {
            let a0 = answers;
            answers = answers.push(there);
            assert(paths[i as int]@ == models(paths@)[i as int]);
            assert(answer_of(*on_disk, models(paths@)[i as int], there));
            assert(answers.drop_last() =~= a0);
            assert(models(paths@).take(i + 1).drop_last() =~= models(paths@).take(i as int));
        }
        if there {
            insert_sorted(files, paths[i].clone());
        } else {
            skipped += 1;
        }
        i += 1;
    }
    assert(models(paths@).take(i as int) =~= models(paths@));
    assert(answered(*on_disk, models(paths@), answers));
    skipped
}

impl ImageStep {
    /// Take the list and crops back to before this step. `on_disk` says whether
    /// a file is still on disk; one that is not is skipped and counted.
    pub fn undo<F: Fn(&FilePath) -> bool>(&self, lists: &mut Lists, on_disk: &F) -> (out: Outcome)
        requires
            old(lists).wf(),
            forall|p: &FilePath| call_requires(*on_disk, (p,)),
        ensures
            final(lists).wf(),
            exists|answers: Seq<bool>|
                {
                    &&& #[trigger] answered(*on_disk, self@.undo_asks(), answers)
                    &&& self@.undoes(old(lists)@, answers, final(lists)@, out@)
                },
    {
        let mut out = Outcome::default();
        let ghost l = lists@;
        match self {
            ImageStep::AddFiles { paths } => {
                let added = sort_distinct(paths);
                let kept = without(&lists.files, &added);
                lists.files = kept;
                let mut i: usize = 0;
                assert(lists.crops@ =~= l.crops.remove_keys(models(paths@).take(0).to_set()));
                while i < paths.len()
                    invariant
                        i <= paths.len(),
                        lists.crops.wf(),
                        lists.thumbs.wf(),
                        lists.files@ == kept@,
                        lists.thumbs@ == l.thumbs,
                        lists.crops@ == l.crops.remove_keys(models(paths@).take(i as int).to_set()),
                    decreases paths.len() - i,
                {
                    lists.crops.remove(&paths[i]);
                    proof {
                        let m = models(paths@);
                        assert(m.take(i + 1) =~= m.take(i as int).push(m[i as int]));
                        lemma_push_to_set(m.take(i as int), m[i as int]);
                        assert(lists.crops@ =~= l.crops.remove_keys(m.take(i + 1).to_set()));
                    }
                    i += 1;
                }
                assert(models(paths@).take(i as int) =~= models(paths@));
                assert(answered(*on_disk, self@.undo_asks(), seq![]));
            },
            ImageStep::RemoveFile { path, crop } => {
                let there = on_disk(path);
                if there {
                    insert_sorted(&mut lists.files, path.clone());
                    if let Some(c) = crop {
                        lists.crops.insert(path.clone(), *c);
                    }
                    out.select = Some(path.clone());
                } else {
                    out.skipped = 1;
                }
                proof {
                    let answers = seq![there];
                    assert(answer_of(*on_disk, path@, there));
                    assert(answered(*on_disk, self@.undo_asks(), answers));
                }
            },
            ImageStep::ClearList { paths, crops, thumbs } => {
                out.skipped = add_present(&mut lists.files, paths, on_disk);
                let ghost files = models(lists.files@);
                let ghost cs = crops@.map_values(|e: (FilePath, Crop)| (e.0@, e.1));
                let ghost ts = thumbs@.map_values(|e: (FilePath, ThumbData)| (e.0@, e.1@));
                let mut i: usize = 0;
                while i < crops.len()
                    invariant
                        i <= crops.len(),
                        lists.wf(),
                        files == models(lists.files@),
                        cs == crops@.map_values(|e: (FilePath, Crop)| (e.0@, e.1)),
                        lists.thumbs@ == l.thumbs,
                        lists.crops@ == with_listed(l.crops, cs.take(i as int), files),
                    decreases crops.len() - i,
                {
                    if contains(&lists.files, &crops[i].0) {
                        lists.crops.insert(crops[i].0.clone(), crops[i].1);
                    }
                    assert(cs.take(i + 1).drop_last() =~= cs.take(i as int));
                    i += 1;
                }
                assert(cs.take(i as int) =~= cs);
                let mut k: usize = 0;
                while k < thumbs.len()
                    invariant
                        k <= thumbs.len(),
                        lists.wf(),
                        files == models(lists.files@),
                        ts == thumbs@.map_values(|e: (FilePath, ThumbData)| (e.0@, e.1@)),
                        lists.thumbs@ == with_listed(l.thumbs, ts.take(k as int), files),
                        lists.crops@ == with_listed(l.crops, cs, files),
                    decreases thumbs.len() - k,
                {
                    if contains(&lists.files, &thumbs[k].0) {
                        lists.thumbs.insert(thumbs[k].0.clone(), thumbs[k].1.clone());
                    }
                    assert(ts.take(k + 1).drop_last() =~= ts.take(k as int));
                    k += 1;
                }
                assert(ts.take(k as int) =~= ts);
            },
            ImageStep::ApplyCrop { path, before, .. } => {
                // A crop belongs to a file in the list: one that did not come
                // back must not leave a crop behind for a later add to pick up.
                if contains(&lists.files, path) {
                    match before {
                        Some(c) => lists.crops.insert(path.clone(), *c),
                        None => lists.crops.remove(path),
                    }
                    out.select = Some(path.clone());
                }
                assert(answered(*on_disk, self@.undo_asks(), seq![]));
            },
        }
        out
    }

    /// Apply this step again after an undo.
    pub fn redo<F: Fn(&FilePath) -> bool>(&self, lists: &mut Lists, on_disk: &F) -> (out: Outcome)
        requires
            old(lists).wf(),
            forall|p: &FilePath| call_requires(*on_disk, (p,)),
        ensures
            final(lists).wf(),
            exists|answers: Seq<bool>|
                {
                    &&& #[trigger] answered(*on_disk, self@.redo_asks(), answers)
                    &&& self@.redoes(old(lists)@, answers, final(lists)@, out@)
                },
    {
        let mut out = Outcome::default();
        match self {
            ImageStep::AddFiles { paths } => {
                out.skipped = add_present(&mut lists.files, paths, on_disk);
            },
            ImageStep::RemoveFile { path, .. } => {
                remove_sorted(&mut lists.files, path);
                lists.crops.remove(path);
                assert(answered(*on_disk, self@.redo_asks(), seq![]));
            },
            ImageStep::ClearList { .. } => {
                lists.files.clear();
                lists.crops.clear();
                lists.thumbs.clear();
                assert(models(lists.files@) =~= Seq::<PathModel>::empty());
                assert(answered(*on_disk, self@.redo_asks(), seq![]));
            },
            ImageStep::ApplyCrop { path, after, .. } => {
                if contains(&lists.files, path) {
                    lists.crops.insert(path.clone(), *after);
                    out.select = Some(path.clone());
                }
                assert(answered(*on_disk, self@.redo_asks(), seq![]));
            },
        }
        out
    }
}

// ---------------------------------------------------------------------------
// Laws
// ---------------------------------------------------------------------------

/// Whether all the answers are yes.
pub open spec fn all_yes(answers: Seq<bool>) -> bool {
    forall|i: int| 0 <= i < answers.len() ==> answers[i]
}

/// The value of a key, where the map has one.
pub open spec fn entry<V>(map: Map<PathModel, V>, path: PathModel) -> Option<V> {
    if map.dom().contains(path) {
        Some(map[path])
    } else {
        None
    }
}

/// Whether every crop is of a file in the list.
pub open spec fn crops_listed(l: ListsModel) -> bool {
    forall|p: PathModel| #[trigger] l.crops.dom().contains(p) ==> l.files.contains(p)
}

impl StepModel {
    /// Whether the step keeps what its action finds in `l`: the files it adds
    /// are new, and what it throws away or overwrites is there.
    pub open spec fn taken_from(self, l: ListsModel) -> bool {
        match self {
            StepModel::AddFiles { paths } => forall|i: int|
                0 <= i < paths.len() ==> !l.files.contains(#[trigger] paths[i])
                    && !l.crops.dom().contains(paths[i]),
            StepModel::RemoveFile { path, crop } => l.files.contains(path) && crop == entry(
                l.crops,
                path,
            ),
            StepModel::ClearList { paths, crops, thumbs } => {
                &&& paths == l.files
                &&& l.crops == with_listed(Map::empty(), crops, l.files)
                &&& l.thumbs == with_listed(Map::empty(), thumbs, l.files)
            },
            StepModel::ApplyCrop { path, before, .. } => l.files.contains(path) && before == entry(
                l.crops,
                path,
            ),
        }
    }
}

proof fn lemma_with_all_present(files: Set<PathModel>, paths: Seq<PathModel>, answers: Seq<bool>)
    requires
        all_yes(answers),
        answers.len() == paths.len(),
    ensures
        with_present(files, paths, answers) == files.union(paths.to_set()),
    decreases paths.len(),
{
    if paths.len() == 0 {
        assert(with_present(files, paths, answers) =~= files.union(paths.to_set()));
    } else {
        assert(paths =~= paths.drop_last().push(paths.last()));
        lemma_push_to_set(paths.drop_last(), paths.last());
        assert(all_yes(answers.drop_last()));
        lemma_with_all_present(files, paths.drop_last(), answers.drop_last());
        assert(with_present(files, paths, answers) =~= files.union(paths.to_set()));
    }
}

proof fn lemma_with_listed_keys<V>(
    map: Map<PathModel, V>,
    entries: Seq<(PathModel, V)>,
    files: Seq<PathModel>,
)
    ensures
        forall|p: PathModel| #[trigger]
            with_listed(map, entries, files).dom().contains(p) ==> map.dom().contains(p)
                || files.contains(p),
    decreases entries.len(),
{
    if entries.len() > 0 {
        lemma_with_listed_keys(map, entries.drop_last(), files);
        let rest = with_listed(map, entries.drop_last(), files);
        assert forall|p: PathModel| #[trigger]
            with_listed(map, entries, files).dom().contains(p) implies map.dom().contains(p)
            || files.contains(p) by {
            assert(rest.dom().contains(p) || p == entries.last().0);
        }
    }
}

/// Undoing a step takes the lists back to where they were before it, as long
/// as the files are still on disk.
pub proof fn undo_takes_back_a_step(
    step: StepModel,
    before: ListsModel,
    redo_answers: Seq<bool>,
    after: ListsModel,
    redo_out: OutcomeModel,
    undo_answers: Seq<bool>,
    back: ListsModel,
    undo_out: OutcomeModel,
)
    requires
        listed::<FilePath>(before.files),
        step.taken_from(before),
        all_yes(redo_answers),
        redo_answers.len() == step.redo_asks().len(),
        step.redoes(before, redo_answers, after, redo_out),
        all_yes(undo_answers),
        undo_answers.len() == step.undo_asks().len(),
        step.undoes(after, undo_answers, back, undo_out),
    ensures
        back == before,
{
    match step {
        StepModel::AddFiles { paths } => {
            lemma_with_all_present(before.files.to_set(), paths, redo_answers);
            assert forall|p: PathModel| back.files.to_set().contains(p)
                <==> before.files.to_set().contains(p) by {
                if paths.to_set().contains(p) {
                    let i = choose|i: int| 0 <= i < paths.len() && paths[i] == p;
                    assert(!before.files.contains(paths[i]));
                }
            }
            assert(back.files.to_set() =~= before.files.to_set());
            one_sorted_list::<FilePath>(back.files, before.files);
            assert forall|p: PathModel| paths.to_set().contains(p) implies !before.crops.dom().contains(
                p,
            ) by {
                let i = choose|i: int| 0 <= i < paths.len() && paths[i] == p;
                assert(!before.crops.dom().contains(paths[i]));
            }
            assert(back.crops =~= before.crops);
        },
        StepModel::RemoveFile { path, crop } => {
            assert(undo_answers[0]);
            assert(before.files.to_set().contains(path));
            assert(back.files.to_set() =~= before.files.to_set());
            one_sorted_list::<FilePath>(back.files, before.files);
            assert(back.crops =~= before.crops);
        },
        StepModel::ClearList { paths, crops, thumbs } => {
            lemma_with_all_present(after.files.to_set(), paths, undo_answers);
            assert(back.files.to_set() =~= before.files.to_set());
            one_sorted_list::<FilePath>(back.files, before.files);
        },
        StepModel::ApplyCrop { path, .. } => {
            assert(back.crops =~= before.crops);
        },
    }
    assert(back =~= before);
}

/// Doing a step again after an undo takes the lists to where the step had left
/// them, as long as the files are still on disk.
pub proof fn redo_does_a_step_again(
    step: StepModel,
    before: ListsModel,
    answers: Seq<bool>,
    after: ListsModel,
    out: OutcomeModel,
    again: ListsModel,
    again_out: OutcomeModel,
)
    requires
        step.redoes(before, answers, after, out),
        step.redoes(before, answers, again, again_out),
    ensures
        again == after,
        again_out == out,
{
    one_sorted_list::<FilePath>(again.files, after.files);
    assert(again =~= after);
}

/// A crop belongs to a file in the list: an undo leaves no crop behind for a
/// file that is not there.
pub proof fn undo_keeps_crops_listed(
    step: StepModel,
    l: ListsModel,
    answers: Seq<bool>,
    after: ListsModel,
    out: OutcomeModel,
)
    requires
        crops_listed(l),
        answers.len() == step.undo_asks().len(),
        step.undoes(l, answers, after, out),
    ensures
        crops_listed(after),
{
    assert forall|p: PathModel| #[trigger] after.crops.dom().contains(p) implies after.files.contains(
        p,
    ) by {
        match step {
            StepModel::AddFiles { paths } => {
                assert(l.crops.dom().contains(p));
                assert(l.files.to_set().contains(p));
                assert(after.files.to_set().contains(p));
            },
            StepModel::RemoveFile { path, crop } => {
                if l.crops.dom().contains(p) {
                    assert(l.files.to_set().contains(p));
                }
                if answers[0] {
                    assert(after.files.to_set().contains(p));
                }
            },
            StepModel::ClearList { paths, crops, thumbs } => {
                lemma_with_listed_keys(l.crops, crops, after.files);
                if l.crops.dom().contains(p) {
                    assert(l.files.to_set().contains(p));
                    lemma_with_present_keeps(l.files.to_set(), paths, answers, p);
                    assert(after.files.to_set().contains(p));
                }
            },
            StepModel::ApplyCrop { path, .. } => {},
        }
    }
}

proof fn lemma_with_present_keeps(
    files: Set<PathModel>,
    paths: Seq<PathModel>,
    answers: Seq<bool>,
    p: PathModel,
)
    requires
        files.contains(p),
    ensures
        with_present(files, paths, answers).contains(p),
    decreases paths.len(),
{
    if paths.len() > 0 {
        lemma_with_present_keeps(files, paths.drop_last(), answers.drop_last(), p);
    }
}

/// A redo leaves no crop behind for a file that is not in the list either.
pub proof fn redo_keeps_crops_listed(
    step: StepModel,
    l: ListsModel,
    answers: Seq<bool>,
    after: ListsModel,
    out: OutcomeModel,
)
    requires
        crops_listed(l),
        answers.len() == step.redo_asks().len(),
        step.redoes(l, answers, after, out),
    ensures
        crops_listed(after),
{
    assert forall|p: PathModel| #[trigger] after.crops.dom().contains(p) implies after.files.contains(
        p,
    ) by {
        if l.crops.dom().contains(p) {
            assert(l.files.to_set().contains(p));
        }
        match step {
            StepModel::AddFiles { paths } => {
                lemma_with_present_keeps(l.files.to_set(), paths, answers, p);
                assert(after.files.to_set().contains(p));
            },
            StepModel::RemoveFile { path, crop } => {
                assert(after.files.to_set().contains(p));
            },
            _ => {},
        }
    }
}

/// Whether the disk answers by what is there: `ask` says of a path whether it is
/// one of `there`.
pub open spec fn tells<F: Fn(&FilePath) -> bool>(ask: F, there: Set<PathModel>) -> bool {
    forall|p: FilePath, b: bool| #[trigger]
        call_ensures(ask, (&p,), b) ==> b == there.contains(p@)
}

/// The answers of a disk that holds `there`.
proof fn lemma_answers<F: Fn(&FilePath) -> bool>(
    ask: F,
    there: Set<PathModel>,
    paths: Seq<PathModel>,
    answers: Seq<bool>,
)
    requires
        tells(ask, there),
        answered(ask, paths, answers),
    ensures
        answers == paths.map_values(|p: PathModel| there.contains(p)),
{
    assert forall|i: int| 0 <= i < paths.len() implies answers[i] == there.contains(paths[i]) by {
        assert(answer_of(ask, paths[i], answers[i]));
        let p = choose|p: FilePath| #[trigger] p@ == paths[i] && call_ensures(
            ask,
            (&p,),
            answers[i],
        );
        assert(call_ensures(ask, (&p,), answers[i]));
    }
}

/// The files with those that are there, one by one.
proof fn lemma_present(
    files: Set<PathModel>,
    paths: Seq<PathModel>,
    there: Set<PathModel>,
    p: PathModel,
)
    ensures
        with_present(
            files,
            paths,
            paths.map_values(|p: PathModel| there.contains(p)),
        ).contains(p) <==> files.contains(p) || paths.contains(p) && there.contains(p),
        noes(paths.map_values(|p: PathModel| there.contains(p))) == paths.filter(
            |p: PathModel| !there.contains(p),
        ).len(),
    decreases paths.len(),
{
    reveal(Seq::filter);
    let answers = paths.map_values(|p: PathModel| there.contains(p));
    if paths.len() > 0 {
        let less = paths.drop_last();
        lemma_present(files, less, there, p);
        assert(answers.drop_last() =~= less.map_values(|p: PathModel| there.contains(p)));
        assert(paths.contains(p) <==> less.contains(p) || paths.last() == p) by {
            if paths.contains(p) {
                let k = paths.index_of(p);
                if k < less.len() {
                    assert(less[k] == p);
                }
            }
            if less.contains(p) {
                let k = less.index_of(p);
                assert(paths[k] == p);
            }
            assert(paths[paths.len() - 1] == paths.last());
        }
    }
}

/// An entry of a file that is listed is in the map, unless a later one of the same
/// file is; nothing else of the map changes.
proof fn lemma_with_listed<V>(
    map: Map<PathModel, V>,
    entries: Seq<(PathModel, V)>,
    files: Seq<PathModel>,
    p: PathModel,
)
    ensures
        (forall|i: int| 0 <= i < entries.len() ==> (#[trigger] entries[i]).0 != p) ==> entry(
            with_listed(map, entries, files),
            p,
        ) == entry(map, p),
        !files.contains(p) ==> entry(with_listed(map, entries, files), p) == entry(map, p),
    decreases entries.len(),
{
    if entries.len() > 0 {
        let less = entries.drop_last();
        lemma_with_listed(map, less, files, p);
        assert(entries[entries.len() - 1] == entries.last());
        if forall|i: int| 0 <= i < entries.len() ==> (#[trigger] entries[i]).0 != p {
            assert forall|i: int| 0 <= i < less.len() implies (#[trigger] less[i]).0 != p by {
                assert(less[i] == entries[i]);
            }
        }
    }
}

/// The last entry of a file that is listed is the file's.
proof fn lemma_last_entry<V>(
    map: Map<PathModel, V>,
    entries: Seq<(PathModel, V)>,
    files: Seq<PathModel>,
    i: int,
)
    requires
        0 <= i < entries.len(),
        forall|j: int| i < j < entries.len() ==> (#[trigger] entries[j]).0 != entries[i].0,
        files.contains(entries[i].0),
    ensures
        entry(with_listed(map, entries, files), entries[i].0) == Some(entries[i].1),
    decreases entries.len(),
{
    if i < entries.len() - 1 {
        let less = entries.drop_last();
        assert forall|j: int| i < j < less.len() implies (#[trigger] less[j]).0 != less[i].0 by {
            assert(less[j] == entries[j]);
        }
        lemma_last_entry(map, less, files, i);
        assert(entries[entries.len() - 1].0 != entries[i].0);
    }
}

/// Undoing an add takes exactly the files added out of the list, and their crops
/// with them. Every other file, crop and thumbnail stays.
pub proof fn undoing_an_add_takes_its_files_out<F: Fn(&FilePath) -> bool>(
    step: &ImageStep,
    lists: &mut Lists,
    on_disk: &F,
    out: Outcome,
    p: PathModel,
)
    requires
        call_ensures(ImageStep::undo::<F>, (step, lists, on_disk), out),
    ensures
        step matches ImageStep::AddFiles { paths } ==> {
            &&& models(final(lists).files@).contains(p) <==> models(old(lists).files@).contains(p)
                && !models(paths@).contains(p)
            &&& !models(paths@).contains(p) ==> entry(final(lists).crops@, p) == entry(
                old(lists).crops@,
                p,
            )
            &&& models(paths@).contains(p) ==> entry(final(lists).crops@, p) is None
            &&& final(lists).thumbs@ == old(lists).thumbs@
            &&& out.skipped == 0 && out.select is None
        },
{
    if let ImageStep::AddFiles { paths } = step {
        let a = old(lists)@;
        let b = final(lists)@;
        assert(b.files.to_set().contains(p) <==> b.files.contains(p));
        assert(a.files.to_set().contains(p) <==> a.files.contains(p));
        assert(models(paths@).to_set().contains(p) <==> models(paths@).contains(p));
        assert(out@.skipped == out.skipped);
    }
}

/// Undoing a removal brings the file back, selected and with the crop it had, where
/// the disk still holds it; where it does not, it is counted as skipped and nothing
/// changes.
pub proof fn undoing_a_removal_brings_the_file_back<F: Fn(&FilePath) -> bool>(
    step: &ImageStep,
    lists: &mut Lists,
    on_disk: &F,
    out: Outcome,
    there: Set<PathModel>,
    p: PathModel,
)
    requires
        call_ensures(ImageStep::undo::<F>, (step, lists, on_disk), out),
        tells(*on_disk, there),
    ensures
        step matches ImageStep::RemoveFile { path, crop } ==> {
            &&& final(lists).thumbs@ == old(lists).thumbs@
            &&& there.contains(path@) ==> {
                &&& models(final(lists).files@).contains(p) <==> models(
                    old(lists).files@,
                ).contains(p) || p == path@
                &&& p != path@ ==> entry(final(lists).crops@, p) == entry(old(lists).crops@, p)
                &&& crop is Some ==> entry(final(lists).crops@, path@) == *crop
                &&& crop is None ==> final(lists).crops@ == old(lists).crops@
                &&& out.skipped == 0 && out.select is Some && out.select->0@ == path@
            }
            &&& !there.contains(path@) ==> {
                &&& models(final(lists).files@) == models(old(lists).files@)
                &&& final(lists).crops@ == old(lists).crops@
                &&& out.skipped == 1 && out.select is None
            }
        },
{
    if let ImageStep::RemoveFile { path, crop } = step {
        let a = old(lists)@;
        let b = final(lists)@;
        let asks = step@.undo_asks();
        let answers = choose|answers: Seq<bool>|
            {
                &&& #[trigger] answered(*on_disk, asks, answers)
                &&& step@.undoes(a, answers, b, out@)
            };
        lemma_answers(*on_disk, there, asks, answers);
        assert(asks[0] == path@);
        assert(answers[0] == there.contains(path@));
        assert(b.files.to_set().contains(p) <==> b.files.contains(p));
        assert(a.files.to_set().contains(p) <==> a.files.contains(p));
        assert(out@.skipped == out.skipped);
    }
}

/// Undoing a clear brings back every file that the disk still holds, and counts the
/// others. A file that is back has its last crop and its last thumbnail of those
/// that were thrown away.
pub proof fn undoing_a_clear_brings_the_list_back<F: Fn(&FilePath) -> bool>(
    step: &ImageStep,
    lists: &mut Lists,
    on_disk: &F,
    out: Outcome,
    there: Set<PathModel>,
    p: PathModel,
    i: int,
)
    requires
        call_ensures(ImageStep::undo::<F>, (step, lists, on_disk), out),
        tells(*on_disk, there),
    ensures
        step matches ImageStep::ClearList { paths, crops, thumbs } ==> {
            &&& models(final(lists).files@).contains(p) <==> models(old(lists).files@).contains(p)
                || models(paths@).contains(p) && there.contains(p)
            &&& out.skipped == models(paths@).filter(|q: PathModel| !there.contains(q)).len()
            &&& out.select is None
            &&& 0 <= i < crops.len() && (forall|j: int|
                i < j < crops.len() ==> (#[trigger] crops[j]).0@ != crops[i].0@) && models(
                final(lists).files@,
            ).contains(crops[i].0@) ==> entry(final(lists).crops@, crops[i].0@) == Some(crops[i].1)
            &&& 0 <= i < thumbs.len() && (forall|j: int|
                i < j < thumbs.len() ==> (#[trigger] thumbs[j]).0@ != thumbs[i].0@) && models(
                final(lists).files@,
            ).contains(thumbs[i].0@) ==> entry(final(lists).thumbs@, thumbs[i].0@) == Some(
                thumbs[i].1@,
            )
        },
{
    if let ImageStep::ClearList { paths, crops, thumbs } = step {
        let a = old(lists)@;
        let b = final(lists)@;
        let asks = models(paths@);
        assert(step@.undo_asks() == asks);
        let answers = choose|answers: Seq<bool>|
            {
                &&& #[trigger] answered(*on_disk, step@.undo_asks(), answers)
                &&& step@.undoes(a, answers, b, out@)
            };
        lemma_answers(*on_disk, there, asks, answers);
        lemma_present(a.files.to_set(), asks, there, p);
        assert(b.files.to_set().contains(p) <==> b.files.contains(p));
        assert(a.files.to_set().contains(p) <==> a.files.contains(p));
        assert(out@.skipped == out.skipped);
        let c = crops@.map_values(|e: (FilePath, Crop)| (e.0@, e.1));
        let t = thumbs@.map_values(|e: (FilePath, ThumbData)| (e.0@, e.1@));
        if 0 <= i < crops.len() && (forall|j: int|
            i < j < crops.len() ==> (#[trigger] crops[j]).0@ != crops[i].0@) && b.files.contains(
            crops[i].0@,
        ) {
            assert forall|j: int| i < j < c.len() implies (#[trigger] c[j]).0 != c[i].0 by {
                assert(crops[j].0@ != crops[i].0@);
            }
            lemma_last_entry(a.crops, c, b.files, i);
        }
        if 0 <= i < thumbs.len() && (forall|j: int|
            i < j < thumbs.len() ==> (#[trigger] thumbs[j]).0@ != thumbs[i].0@) && b.files.contains(
            thumbs[i].0@,
        ) {
            assert forall|j: int| i < j < t.len() implies (#[trigger] t[j]).0 != t[i].0 by {
                assert(thumbs[j].0@ != thumbs[i].0@);
            }
            lemma_last_entry(a.thumbs, t, b.files, i);
        }
    }
}

/// Undoing a crop gives the file the crop it had before, or none, and selects it;
/// every other crop stays. Where the file has left the list nothing changes.
pub proof fn undoing_a_crop_gives_back_the_one_before<F: Fn(&FilePath) -> bool>(
    step: &ImageStep,
    lists: &mut Lists,
    on_disk: &F,
    out: Outcome,
    p: PathModel,
)
    requires
        call_ensures(ImageStep::undo::<F>, (step, lists, on_disk), out),
    ensures
        step matches ImageStep::ApplyCrop { path, before, after } ==> {
            &&& models(final(lists).files@) == models(old(lists).files@)
            &&& final(lists).thumbs@ == old(lists).thumbs@
            &&& out.skipped == 0
            &&& p != path@ ==> entry(final(lists).crops@, p) == entry(old(lists).crops@, p)
            &&& models(old(lists).files@).contains(path@) ==> entry(final(lists).crops@, path@)
                == *before && out.select is Some && out.select->0@ == path@
            &&& !models(old(lists).files@).contains(path@) ==> final(lists).crops@ == old(lists).crops@ && out.select is None
        },
{
    assert(out@.skipped == out.skipped);
}

/// Doing an add again brings in every file of it that the disk holds, and counts
/// the others; crops and thumbnails stay.
pub proof fn redoing_an_add_brings_its_files_in<F: Fn(&FilePath) -> bool>(
    step: &ImageStep,
    lists: &mut Lists,
    on_disk: &F,
    out: Outcome,
    there: Set<PathModel>,
    p: PathModel,
)
    requires
        call_ensures(ImageStep::redo::<F>, (step, lists, on_disk), out),
        tells(*on_disk, there),
    ensures
        step matches ImageStep::AddFiles { paths } ==> {
            &&& models(final(lists).files@).contains(p) <==> models(old(lists).files@).contains(p)
                || models(paths@).contains(p) && there.contains(p)
            &&& out.skipped == models(paths@).filter(|q: PathModel| !there.contains(q)).len()
            &&& out.select is None
            &&& final(lists).crops@ == old(lists).crops@
            &&& final(lists).thumbs@ == old(lists).thumbs@
        },
{
    if let ImageStep::AddFiles { paths } = step {
        let a = old(lists)@;
        let b = final(lists)@;
        let asks = models(paths@);
        assert(step@.redo_asks() == asks);
        let answers = choose|answers: Seq<bool>|
            {
                &&& #[trigger] answered(*on_disk, step@.redo_asks(), answers)
                &&& step@.redoes(a, answers, b, out@)
            };
        lemma_answers(*on_disk, there, asks, answers);
        lemma_present(a.files.to_set(), asks, there, p);
        assert(b.files.to_set().contains(p) <==> b.files.contains(p));
        assert(a.files.to_set().contains(p) <==> a.files.contains(p));
        assert(out@.skipped == out.skipped);
    }
}

/// Doing a removal, a clear or a crop again does what it says: the file goes with
/// its crop, the lists are empty, the file has the crop.
pub proof fn redoing_does_what_the_step_says<F: Fn(&FilePath) -> bool>(
    step: &ImageStep,
    lists: &mut Lists,
    on_disk: &F,
    out: Outcome,
    p: PathModel,
)
    requires
        call_ensures(ImageStep::redo::<F>, (step, lists, on_disk), out),
    ensures
        step matches ImageStep::RemoveFile { path, crop } ==> {
            &&& models(final(lists).files@).contains(p) <==> models(old(lists).files@).contains(p)
                && p != path@
            &&& p != path@ ==> entry(final(lists).crops@, p) == entry(old(lists).crops@, p)
            &&& entry(final(lists).crops@, path@) is None
            &&& final(lists).thumbs@ == old(lists).thumbs@
        },
        step is ClearList ==> final(lists).files.len() == 0 && final(lists).crops@.dom()
            == Set::<PathModel>::empty() && final(lists).thumbs@.dom()
            == Set::<PathModel>::empty(),
        step matches ImageStep::ApplyCrop { path, before, after } ==> {
            &&& models(final(lists).files@) == models(old(lists).files@)
            &&& p != path@ ==> entry(final(lists).crops@, p) == entry(old(lists).crops@, p)
            &&& models(old(lists).files@).contains(path@) ==> entry(final(lists).crops@, path@)
                == Some(*after) && out.select is Some && out.select->0@ == path@
            &&& !models(old(lists).files@).contains(path@) ==> final(lists).crops@ == old(lists).crops@ && out.select is None
        },
{
    let a = old(lists)@;
    let b = final(lists)@;
    assert(b.files.to_set().contains(p) <==> b.files.contains(p));
    assert(a.files.to_set().contains(p) <==> a.files.contains(p));
    assert(b.files.len() == final(lists).files.len());
}

/// How a step describes itself, and when it is nothing: an add or a clear of no
/// file, and a crop that was there already.
pub proof fn an_image_step_says_what_it_did(step: &ImageStep, text: String, empty: bool)
    requires
        call_ensures(ImageStep::describe, (step,), text),
        call_ensures(ImageStep::is_empty, (step,), empty),
    ensures
        match step {
            ImageStep::AddFiles { paths } => {
                &&& paths.len() == 1 ==> text@ == "adding "@ + "1 file"@
                &&& paths.len() != 1 ==> text@ == "adding "@ + (decimal(paths.len() as nat)
                    + " files"@)
                &&& empty == (paths.len() == 0)
            },
            ImageStep::RemoveFile { path, crop } => text@ == "removing "@ + name_of(path@)
                && !empty,
            ImageStep::ClearList { paths, crops, thumbs } => {
                &&& paths.len() == 1 ==> text@ == "clearing the list ("@ + "1 file"@ + ")"@
                &&& paths.len() != 1 ==> text@ == "clearing the list ("@ + (decimal(
                    paths.len() as nat,
                ) + " files"@) + ")"@
                &&& empty == (paths.len() == 0)
            },
            ImageStep::ApplyCrop { path, before, after } => text@ == "cropping "@ + name_of(path@)
                && empty == (*before == Some(*after)),
        },
{
}

/// No two steps of Images mode ever merge.
pub proof fn no_image_steps_merge(older: &ImageStep, newer: &ImageStep, r: bool)
    requires
        call_ensures(ImageStep::merges_with, (older, newer), r),
    ensures
        !r,
{
}

} // verus!
