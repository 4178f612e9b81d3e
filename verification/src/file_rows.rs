//! The rows of the file list, and how they follow it.

use crate::image_history::{Crop, ThumbData, ThumbModel};
use crate::order::{listed, models, Ordered, Place};
use crate::paths::{name_of, path_before, path_order_is_total, FilePath, PathModel};
use crate::sorted_map::SortedMap;
use vstd::prelude::*;

verus! {

/// A row of the file list.
#[derive(PartialEq, Eq, Debug)]
pub struct FileRow {
    pub name: String,
    pub status: String,
    pub result: String,
    pub thumb: Option<ThumbData>,
    pub dims: String,
    pub cropped: bool,
}

/// What a row of the file list shows.
#[verifier::ext_equal]
pub struct FileRowModel {
    pub name: Seq<char>,
    pub status: Seq<char>,
    pub result: Seq<char>,
    pub thumb: Option<ThumbModel>,
    pub dims: Seq<char>,
    pub cropped: bool,
}

impl View for FileRow {
    type V = FileRowModel;

    open spec fn view(&self) -> FileRowModel {
        FileRowModel {
            name: self.name@,
            status: self.status@,
            result: self.result@,
            thumb: crate::clip::opt_model(self.thumb),
            dims: self.dims@,
            cropped: self.cropped,
        }
    }
}

impl Clone for FileRow {
    fn clone(&self) -> (r: FileRow)
        ensures
            r@ == self@,
    {
        FileRow {
            name: self.name.clone(),
            status: self.status.clone(),
            result: self.result.clone(),
            thumb: match &self.thumb {
                Some(t) => Some(t.clone()),
                None => None,
            },
            dims: self.dims.clone(),
            cropped: self.cropped,
        }
    }
}

/// One edit of the list that the window shows.
#[derive(PartialEq, Eq, Debug)]
pub enum RowEdit {
    Remove(usize),
    Insert(usize, FileRow),
    Replace(usize, FileRow),
}

/// One edit of the list.
pub enum EditModel {
    Remove(int),
    Insert(int, FileRowModel),
    Replace(int, FileRowModel),
}

impl View for RowEdit {
    type V = EditModel;

    open spec fn view(&self) -> EditModel {
        match self {
            RowEdit::Remove(i) => EditModel::Remove(*i as int),
            RowEdit::Insert(i, row) => EditModel::Insert(*i as int, row@),
            RowEdit::Replace(i, row) => EditModel::Replace(*i as int, row@),
        }
    }
}

/// The rows after an edit.
pub open spec fn edited(rows: Seq<FileRowModel>, edit: EditModel) -> Seq<FileRowModel> {
    match edit {
        EditModel::Remove(i) => rows.remove(i),
        EditModel::Insert(i, row) => rows.insert(i, row),
        EditModel::Replace(i, row) => rows.update(i, row),
    }
}

/// The rows after edits, one after the other.
pub open spec fn all_edited(rows: Seq<FileRowModel>, edits: Seq<EditModel>) -> Seq<FileRowModel>
    decreases edits.len(),
{
    if edits.len() == 0 {
        rows
    } else {
        edited(all_edited(rows, edits.drop_last()), edits.last())
    }
}

/// A fresh row for a file: queued, with its thumbnail where that is decoded.
pub open spec fn row_of(
    path: PathModel,
    crops: Map<PathModel, Crop>,
    thumbs: Map<PathModel, ThumbModel>,
) -> FileRowModel {
    FileRowModel {
        name: name_of(path),
        status: "queued"@,
        result: seq![],
        thumb: if thumbs.dom().contains(path) {
            Some(thumbs[path])
        } else {
            None
        },
        dims: if thumbs.dom().contains(path) {
            thumbs[path].dims
        } else {
            seq![]
        },
        cropped: crops.dom().contains(path),
    }
}

/// A fresh row for `path` (thumbnail from the cache when already decoded).
pub fn row_for(
    path: &FilePath,
    crops: &SortedMap<FilePath, Crop>,
    thumbs: &SortedMap<FilePath, ThumbData>,
) -> (r: FileRow)
    requires
        crops.wf(),
        thumbs.wf(),
    ensures
        r@ == row_of(path@, crops@, thumbs@),
{
    let (thumb, dims) = match thumbs.get(path) {
        Some(t) => (Some(t.clone()), t.dims.clone()),
        None => (None, String::new()),
    };
    FileRow {
        name: path.name_or_empty(),
        status: String::from_str("queued"),
        result: String::new(),
        thumb,
        dims,
        cropped: crops.contains_key(path),
    }
}

/// The rows for files, all fresh.
pub fn rows_from(
    files: &Vec<FilePath>,
    crops: &SortedMap<FilePath, Crop>,
    thumbs: &SortedMap<FilePath, ThumbData>,
) -> (r: Vec<FileRow>)
    requires
        crops.wf(),
        thumbs.wf(),
    ensures
        models(r@) == Seq::new(
            files@.len(),
            |i: int| row_of(models(files@)[i], crops@, thumbs@),
        ),
{
    let mut r: Vec<FileRow> = Vec::new();
    let mut i: usize = 0;
    while i < files.len()
        invariant
            i <= files.len(),
            crops.wf(),
            thumbs.wf(),
            r.len() == i,
            forall|j: int|
                0 <= j < i ==> (#[trigger] r@[j])@ == row_of(models(files@)[j], crops@, thumbs@),
        decreases files.len() - i,
    {
        r.push(row_for(&files[i], crops, thumbs));
        i += 1;
    }
    assert(models(r@) =~= Seq::new(
        files@.len(),
        |i: int| row_of(models(files@)[i], crops@, thumbs@),
    ));
    r
}

/// The row of one file of the new list: the one it had, with its crop mark
/// brought up to date, or else a fresh one.
pub open spec fn synced_row(
    rows: Seq<FileRowModel>,
    before: Seq<PathModel>,
    path: PathModel,
    crops: Map<PathModel, Crop>,
    thumbs: Map<PathModel, ThumbModel>,
) -> FileRowModel {
    if before.contains(path) {
        FileRowModel { cropped: crops.dom().contains(path), ..rows[before.index_of(path)] }
    } else {
        row_of(path, crops, thumbs)
    }
}

/// The rows of the new list.
pub open spec fn synced(
    rows: Seq<FileRowModel>,
    before: Seq<PathModel>,
    after: Seq<PathModel>,
    crops: Map<PathModel, Crop>,
    thumbs: Map<PathModel, ThumbModel>,
) -> Seq<FileRowModel> {
    Seq::new(after.len(), |j: int| synced_row(rows, before, after[j], crops, thumbs))
}

proof fn lemma_edit_more(rows: Seq<FileRowModel>, edits: Seq<EditModel>, edit: EditModel)
    ensures
        all_edited(rows, edits.push(edit)) == edited(all_edited(rows, edits), edit),
{
    assert(edits.push(edit).drop_last() =~= edits);
}

/// In a list in order, a path is where it is.
proof fn lemma_place(list: Seq<PathModel>, i: int)
    requires
        listed::<FilePath>(list),
        0 <= i < list.len(),
    ensures
        list.contains(list[i]),
        list.index_of(list[i]) == i,
{
    let j = list.index_of(list[i]);
    assert(list.contains(list[i]));
    assert(0 <= j < list.len() && list[j] == list[i]);
    path_order_is_total(list[i], list[j], list[i]);
}

/// Bring `rows` (which mirror `before`) in line with `after` by inserting and
/// removing only what changed; give the edits that do it, for the window. Both
/// lists are in order. Rows that stay keep their status, thumbnail and
/// dimensions — a rebuild would reset every row to "queued" and replay the
/// fade-in on the whole list.
pub fn sync_rows(
    rows: &mut Vec<FileRow>,
    before: &Vec<FilePath>,
    after: &Vec<FilePath>,
    crops: &SortedMap<FilePath, Crop>,
    thumbs: &SortedMap<FilePath, ThumbData>,
) -> (edits: Vec<RowEdit>)
    requires
        old(rows).len() == before.len(),
        before.len() + after.len() <= usize::MAX,
        listed::<FilePath>(models(before@)),
        listed::<FilePath>(models(after@)),
        crops.wf(),
        thumbs.wf(),
    ensures
        models(final(rows)@) == synced(
            models(old(rows)@),
            models(before@),
            models(after@),
            crops@,
            thumbs@,
        ),
        all_edited(models(old(rows)@), models(edits@)) == models(final(rows)@),
{
    let ghost start = models(rows@);
    let ghost b = models(before@);
    let ghost a = models(after@);
    let ghost goal = synced(start, b, a, crops@, thumbs@);
    let mut edits: Vec<RowEdit> = Vec::new();
    let mut i: usize = 0;
    let mut oi: usize = 0;
    assert(goal.take(0) + start.skip(0) =~= start);
    while i < after.len()
        invariant
            i <= after.len(),
            oi <= before.len(),
            b == models(before@),
            a == models(after@),
            b.len() + a.len() <= usize::MAX,
            start.len() == b.len(),
            listed::<FilePath>(b),
            listed::<FilePath>(a),
            crops.wf(),
            thumbs.wf(),
            goal == synced(start, b, a, crops@, thumbs@),
            models(rows@) == goal.take(i as int) + start.skip(oi as int),
            all_edited(start, models(edits@)) == models(rows@),
            forall|k: int, j: int|
                0 <= k < oi && i <= j < a.len() ==> path_before(#[trigger] b[k], #[trigger] a[j]),
        decreases after.len() - i,
    {
        let p = &after[i];
        assert(a[i as int] == p@);
        while oi < before.len() && before[oi].place(p) == Place::Before
            invariant
                i < after.len(),
                oi <= before.len(),
                b == models(before@),
                a == models(after@),
                p@ == a[i as int],
                start.len() == b.len(),
                goal.len() == a.len(),
                listed::<FilePath>(a),
                models(rows@) == goal.take(i as int) + start.skip(oi as int),
                all_edited(start, models(edits@)) == models(rows@),
                forall|k: int, j: int|
                    0 <= k < oi && i <= j < a.len() ==> path_before(
                        #[trigger] b[k],
                        #[trigger] a[j],
                    ),
            ensures
                oi <= before.len(),
                models(rows@) == goal.take(i as int) + start.skip(oi as int),
                all_edited(start, models(edits@)) == models(rows@),
                forall|k: int, j: int|
                    0 <= k < oi && i <= j < a.len() ==> path_before(
                        #[trigger] b[k],
                        #[trigger] a[j],
                    ),
                oi < before.len() ==> !path_before(b[oi as int], p@),
            decreases before.len() - oi,
        {
            let ghost r0 = models(rows@);
            let ghost e0 = models(edits@);
            assert(b[oi as int] == before[oi as int]@);
            assert(rows.len() == r0.len());
            let _ = rows.remove(i);
            edits.push(RowEdit::Remove(i));
            proof {
                assert(models(rows@) =~= r0.remove(i as int));
                assert(models(edits@) =~= e0.push(EditModel::Remove(i as int)));
                lemma_edit_more(start, e0, EditModel::Remove(i as int));
                assert(goal.take(i as int) + start.skip(oi + 1) =~= r0.remove(i as int));
                assert forall|k: int, j: int| 0 <= k < oi + 1 && i <= j < a.len() implies path_before(
                    #[trigger] b[k],
                    #[trigger] a[j],
                ) by {
                    if k == oi && j > i {
                        path_order_is_total(b[k], a[i as int], a[j]);
                    }
                }
            }
            oi += 1;
        }
        let ghost r0 = models(rows@);
        let ghost e0 = models(edits@);
        let stays = oi < before.len() && before[oi].same(p);
        if stays {
            proof {
                assert(b[oi as int] == before[oi as int]@);
                lemma_place(b, oi as int);
                assert(r0[i as int] == start[oi as int]);
            }
            let cropped = crops.contains_key(p);
            if rows[i].cropped != cropped {
                let mut row = rows[i].clone();
                row.cropped = cropped;
                let shown = row.clone();
                rows.set(i, row);
                edits.push(RowEdit::Replace(i, shown));
                proof {
                    let new_row = FileRowModel { cropped, ..r0[i as int] };
                    assert(models(rows@) =~= r0.update(i as int, new_row));
                    assert(models(edits@) =~= e0.push(EditModel::Replace(i as int, new_row)));
                    lemma_edit_more(start, e0, EditModel::Replace(i as int, new_row));
                }
            }
            proof {
                assert(goal[i as int] == FileRowModel {
                    cropped,
                    ..start[oi as int]
                });
                assert(models(rows@) =~= goal.take(i + 1) + start.skip(oi + 1));
                assert forall|k: int, j: int| 0 <= k < oi + 1 && i + 1 <= j < a.len() implies path_before(
                    #[trigger] b[k],
                    #[trigger] a[j],
                ) by {
                    if k == oi {
                        assert(path_before(a[i as int], a[j]));
                    }
                }
            }
            oi += 1;
        } else {
            proof {
                if b.contains(p@) {
                    let k = b.index_of(p@);
                    assert(b[k] == p@);
                    path_order_is_total(p@, p@, p@);
                    if k < oi {
                        assert(path_before(b[k], a[i as int]));
                    } else if k > oi {
                        assert(path_before(b[oi as int], b[k]));
                    } else {
                        assert(b[oi as int] == before[oi as int]@);
                    }
                }
                assert(!b.contains(p@));
            }
            let row = row_for(p, crops, thumbs);
            let shown = row.clone();
            rows.insert(i, row);
            edits.push(RowEdit::Insert(i, shown));
            proof {
                let new_row = row_of(p@, crops@, thumbs@);
                assert(models(rows@) =~= r0.insert(i as int, new_row));
                assert(models(edits@) =~= e0.push(EditModel::Insert(i as int, new_row)));
                lemma_edit_more(start, e0, EditModel::Insert(i as int, new_row));
                assert(goal[i as int] == new_row);
                assert(models(rows@) =~= goal.take(i + 1) + start.skip(oi as int));
            }
        }
        i += 1;
    }
    while oi < before.len()
        invariant
            i == after.len(),
            i == goal.len(),
            oi <= before.len(),
            start.len() == before.len(),
            models(rows@) == goal.take(i as int) + start.skip(oi as int),
            all_edited(start, models(edits@)) == models(rows@),
        decreases before.len() - oi,
    {
        let ghost r0 = models(rows@);
        let ghost e0 = models(edits@);
        assert(rows.len() == r0.len());
        let _ = rows.remove(i);
        edits.push(RowEdit::Remove(i));
        proof {
            assert(models(rows@) =~= r0.remove(i as int));
            assert(models(edits@) =~= e0.push(EditModel::Remove(i as int)));
            lemma_edit_more(start, e0, EditModel::Remove(i as int));
            assert(goal.take(i as int) + start.skip(oi + 1) =~= r0.remove(i as int));
        }
        oi += 1;
    }
    assert(goal.take(i as int) + start.skip(oi as int) =~= goal);
    edits
}

// ---------------------------------------------------------------------------
// Laws
// ---------------------------------------------------------------------------

/// A file that stays in the list keeps its row: name, status, result,
/// thumbnail and dimensions; only its crop mark follows the crops.
pub proof fn a_file_that_stays_keeps_its_row(
    rows: Seq<FileRowModel>,
    before: Seq<PathModel>,
    after: Seq<PathModel>,
    crops: Map<PathModel, Crop>,
    thumbs: Map<PathModel, ThumbModel>,
    i: int,
    j: int,
)
    requires
        rows.len() == before.len(),
        listed::<FilePath>(before),
        0 <= i < before.len(),
        0 <= j < after.len(),
        before[i] == after[j],
    ensures
        synced(rows, before, after, crops, thumbs)[j] == (FileRowModel {
            cropped: crops.dom().contains(after[j]),
            ..rows[i]
        }),
{
    lemma_place(before, i);
}

/// The rows mirror the list: one per file, in its order, each marked as
/// cropped where its file has a crop.
pub proof fn rows_mirror_the_list(
    rows: Seq<FileRowModel>,
    before: Seq<PathModel>,
    after: Seq<PathModel>,
    crops: Map<PathModel, Crop>,
    thumbs: Map<PathModel, ThumbModel>,
    j: int,
)
    requires
        rows.len() == before.len(),
        forall|i: int| 0 <= i < before.len() ==> (#[trigger] rows[i]).name == name_of(before[i]),
        0 <= j < after.len(),
    ensures
        synced(rows, before, after, crops, thumbs).len() == after.len(),
        synced(rows, before, after, crops, thumbs)[j].name == name_of(after[j]),
        synced(rows, before, after, crops, thumbs)[j].cropped == crops.dom().contains(after[j]),
{
    if before.contains(after[j]) {
        let i = before.index_of(after[j]);
        assert(before[i] == after[j]);
        assert(rows[i].name == name_of(before[i]));
    }
}

/// A fresh row is queued and has no result. It shows the file's name, its thumbnail
/// and dimensions where they are decoded, and whether it has a crop.
pub proof fn a_fresh_row_is_queued(
    path: &FilePath,
    crops: &SortedMap<FilePath, Crop>,
    thumbs: &SortedMap<FilePath, ThumbData>,
    r: FileRow,
)
    requires
        call_ensures(row_for, (path, crops, thumbs), r),
    ensures
        r.name@ == name_of(path@),
        r.status@ == "queued"@,
        r.result@.len() == 0,
        r.cropped == crops@.dom().contains(path@),
        thumbs@.dom().contains(path@) ==> r.thumb is Some && r.thumb->0@ == thumbs@[path@]
            && r.dims@ == thumbs@[path@].dims,
        !thumbs@.dom().contains(path@) ==> r.thumb is None && r.dims@.len() == 0,
{
    assert(r@.name == r.name@ && r@.status == r.status@ && r@.result == r.result@);
    assert(r@.cropped == r.cropped && r@.dims == r.dims@);
    assert(r@.thumb == crate::clip::opt_model(r.thumb));
}

/// Each file has a fresh row at its own place.
pub proof fn each_file_has_its_row(
    files: &Vec<FilePath>,
    crops: &SortedMap<FilePath, Crop>,
    thumbs: &SortedMap<FilePath, ThumbData>,
    r: Vec<FileRow>,
    i: int,
    fresh: FileRow,
)
    requires
        call_ensures(rows_from, (files, crops, thumbs), r),
        0 <= i < files.len(),
        call_ensures(row_for, (&files[i], crops, thumbs), fresh),
    ensures
        r.len() == files.len(),
        r[i]@ == fresh@,
{
    assert(models(r@).len() == r.len());
    assert(models(r@)[i] == r[i]@);
    assert(models(files@)[i] == files[i]@);
}

/// The rows after the list changed: one for each file, in the new order. A file that
/// was there keeps its row but for the crop mark, which follows the crops; one that
/// was not gets a fresh row.
pub proof fn a_row_follows_its_file(
    rows: &mut Vec<FileRow>,
    before: &Vec<FilePath>,
    after: &Vec<FilePath>,
    crops: &SortedMap<FilePath, Crop>,
    thumbs: &SortedMap<FilePath, ThumbData>,
    edits: Vec<RowEdit>,
    fresh: FileRow,
    i: int,
    j: int,
)
    requires
        call_ensures(sync_rows, (rows, before, after, crops, thumbs), edits),
        old(rows).len() == before.len(),
        listed::<FilePath>(models(before@)),
        0 <= j < after.len(),
        call_ensures(row_for, (&after[j], crops, thumbs), fresh),
    ensures
        final(rows).len() == after.len(),
        0 <= i < before.len() && before[i]@ == after[j]@ ==> {
            let was = old(rows)[i];
            let is = final(rows)[j];
            &&& is.name@ == was.name@ && is.status@ == was.status@ && is.result@ == was.result@
            &&& is@.thumb == was@.thumb && is.dims@ == was.dims@
            &&& is.cropped == crops@.dom().contains(after[j]@)
        },
        (forall|k: int| 0 <= k < before.len() ==> (#[trigger] before[k])@ != after[j]@) ==> final(rows)[j]@ == fresh@,
{
    let b = models(before@);
    let a = models(after@);
    assert(models(final(rows)@).len() == final(rows).len());
    assert(models(final(rows)@)[j] == final(rows)[j]@);
    assert(a[j] == after[j]@);
    if 0 <= i < before.len() && before[i]@ == after[j]@ {
        assert(b[i] == before[i]@);
        lemma_place(b, i);
        assert(models(old(rows)@)[i] == old(rows)[i]@);
        let was = old(rows)[i];
        let is = final(rows)[j];
        assert(is@.name == is.name@ && is@.status == is.status@ && is@.result == is.result@);
        assert(is@.dims == is.dims@ && is@.cropped == is.cropped);
    }
    if forall|k: int| 0 <= k < before.len() ==> (#[trigger] before[k])@ != after[j]@ {
        if b.contains(a[j]) {
            let k = b.index_of(a[j]);
            assert(b[k] == before[k]@);
        }
    }
}

/// The edits that go to the window make of the rows it had the rows there are now,
/// edit by edit: each takes a row out, puts one in, or puts one in place of another.
pub proof fn the_edits_lead_to_the_rows(
    rows: &mut Vec<FileRow>,
    before: &Vec<FilePath>,
    after: &Vec<FilePath>,
    crops: &SortedMap<FilePath, Crop>,
    thumbs: &SortedMap<FilePath, ThumbData>,
    edits: Vec<RowEdit>,
    states: Seq<Seq<FileRowModel>>,
)
    requires
        call_ensures(sync_rows, (rows, before, after, crops, thumbs), edits),
        states.len() == edits.len() + 1,
        states[0] == models(old(rows)@),
        forall|k: int|
            0 <= k < edits.len() ==> states[k + 1] == match #[trigger] edits[k] {
                RowEdit::Remove(i) => states[k].remove(i as int),
                RowEdit::Insert(i, row) => states[k].insert(i as int, row@),
                RowEdit::Replace(i, row) => states[k].update(i as int, row@),
            },
    ensures
        states.last() == models(final(rows)@),
{
    lemma_states(models(old(rows)@), edits@, states, edits.len() as nat);
    assert(models(edits@).take(edits.len() as int) =~= models(edits@));
}

proof fn lemma_states(
    rows: Seq<FileRowModel>,
    edits: Seq<RowEdit>,
    states: Seq<Seq<FileRowModel>>,
    n: nat,
)
    requires
        n <= edits.len(),
        states.len() == edits.len() + 1,
        states[0] == rows,
        forall|k: int|
            0 <= k < edits.len() ==> states[k + 1] == match #[trigger] edits[k] {
                RowEdit::Remove(i) => states[k].remove(i as int),
                RowEdit::Insert(i, row) => states[k].insert(i as int, row@),
                RowEdit::Replace(i, row) => states[k].update(i as int, row@),
            },
    ensures
        states[n as int] == all_edited(rows, models(edits).take(n as int)),
    decreases n,
{
    let done = models(edits).take(n as int);
    if n > 0 {
        lemma_states(rows, edits, states, (n - 1) as nat);
        assert(done.drop_last() =~= models(edits).take(n - 1));
        assert(done.last() == edits[n - 1]@);
        let k = n - 1;
        assert(states[k + 1] == match edits[k] {
            RowEdit::Remove(i) => states[k].remove(i as int),
            RowEdit::Insert(i, row) => states[k].insert(i as int, row@),
            RowEdit::Replace(i, row) => states[k].update(i as int, row@),
        });
    }
}

} // verus!
