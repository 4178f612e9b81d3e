//! Images mode: the file queue (add, drop, remove, clear), the viewer with its
//! inline crop editor, thumbnails, and the Convert batch. Decoding, dialogs and
//! the batch itself are the caller's.

use crate::clip::opt_model;
use crate::file_rows::{
    all_edited, rows_from, row_of, sync_rows, synced, EditModel, FileRow, FileRowModel, RowEdit,
};
use crate::image_history::{entry, Crop, Lists, ListsModel, ThumbData, ThumbModel};
use crate::order::{listed, models, search, sort_distinct};
use crate::paths::{name_of, FilePath, PathModel};
use crate::sorted_map::SortedMap;
use crate::text::{decimal, push_decimal};
use vstd::prelude::*;

verus! {

/// The file in the crop editor, and the size of its image.
#[derive(PartialEq, Eq, Debug)]
pub struct CropEdit {
    pub path: FilePath,
    pub width: u32,
    pub height: u32,
}

/// The file in the crop editor.
pub struct CropEditModel {
    pub path: PathModel,
    pub width: u32,
    pub height: u32,
}

impl View for CropEdit {
    type V = CropEditModel;

    open spec fn view(&self) -> CropEditModel {
        CropEditModel { path: self.path@, width: self.width, height: self.height }
    }
}

/// Everything the Images mode owns.
pub struct ImageState {
    /// The queue, sorted and de-duplicated; row `i` of the list is `files[i]`;
    /// the crops and the thumbnails by path.
    pub lists: Lists,
    pub rows: Vec<FileRow>,
    /// The selected row, or -1.
    pub selected: i32,
    pub cropping: bool,
    /// The in-progress crop edit: the file being cropped and its original size.
    pub edit: Option<CropEdit>,
    /// Whether a batch is running.
    pub running: bool,
    /// Counts the selections, so that a slow decode cannot land after the user
    /// has moved on to a different file.
    pub select_gen: u64,
}

/// What Images mode holds.
#[verifier::ext_equal]
pub struct ImageModel {
    pub lists: ListsModel,
    pub rows: Seq<FileRowModel>,
    pub selected: int,
    pub cropping: bool,
    pub edit: Option<CropEditModel>,
    pub running: bool,
    pub select_gen: u64,
}

impl View for ImageState {
    type V = ImageModel;

    open spec fn view(&self) -> ImageModel {
        ImageModel {
            lists: self.lists@,
            rows: models(self.rows@),
            selected: self.selected as int,
            cropping: self.cropping,
            edit: opt_model(self.edit),
            running: self.running,
            select_gen: self.select_gen,
        }
    }
}

/// The most files a list holds.
pub const MAX_FILES: usize = 0x7fff_ffff;

/// Where a path is in the list, or -1.
pub open spec fn place_of(files: Seq<PathModel>, path: PathModel) -> int {
    if files.contains(path) {
        files.index_of(path)
    } else {
        -1
    }
}

/// The rows with the one of `path`, where it has one, changed.
pub open spec fn with_row(
    m: ImageModel,
    path: PathModel,
    change: spec_fn(FileRowModel) -> FileRowModel,
) -> Seq<FileRowModel> {
    let i = place_of(m.lists.files, path);
    if i >= 0 {
        m.rows.update(i, change(m.rows[i]))
    } else {
        m.rows
    }
}

/// The file that is selected, if one is.
pub open spec fn selected_file(m: ImageModel) -> Option<PathModel> {
    if 0 <= m.selected < m.lists.files.len() {
        Some(m.lists.files[m.selected])
    } else {
        None
    }
}

/// What an add leads to.
pub struct Added {
    /// The edits of the rows, for the window.
    pub edits: Vec<RowEdit>,
    /// The files whose thumbnail is not decoded yet.
    pub missing: Vec<FilePath>,
}

/// The files without a thumbnail.
pub open spec fn undecoded(
    files: Seq<PathModel>,
    thumbs: Map<PathModel, ThumbModel>,
) -> Seq<PathModel>
    decreases files.len(),
{
    if files.len() == 0 {
        seq![]
    } else if thumbs.dom().contains(files.last()) {
        undecoded(files.drop_last(), thumbs)
    } else {
        undecoded(files.drop_last(), thumbs).push(files.last())
    }
}

fn without_thumbs(
    files: &Vec<FilePath>,
    thumbs: &SortedMap<FilePath, ThumbData>,
) -> (r: Vec<FilePath>)
    requires
        thumbs.wf(),
    ensures
        models(r@) == undecoded(models(files@), thumbs@),
{
    let ghost m = models(files@);
    let mut r: Vec<FilePath> = Vec::new();
    let mut i: usize = 0;
    assert(models(r@) =~= undecoded(m.take(0), thumbs@));
    while i < files.len()
        invariant
            i <= files.len(),
            m == models(files@),
            thumbs.wf(),
            models(r@) == undecoded(m.take(i as int), thumbs@),
        decreases files.len() - i,
    {
        let ghost r0 = models(r@);
        assert(m[i as int] == files[i as int]@);
        assert(m.take(i + 1).drop_last() =~= m.take(i as int));
        if !thumbs.contains_key(&files[i]) {
            r.push(files[i].clone());
            assert(models(r@) =~= r0.push(files[i as int]@));
        }
        i += 1;
    }
    assert(m.take(i as int) =~= m);
    r
}

/// A list in order holds a path where it is.
proof fn lemma_place(files: Seq<PathModel>, i: int)
    requires
        listed::<FilePath>(files),
        0 <= i < files.len(),
    ensures
        place_of(files, files[i]) == i,
{
    let j = files.index_of(files[i]);
    assert(files.contains(files[i]));
    assert(files[j] == files[i]);
    crate::paths::path_order_is_total(files[i], files[j], files[i]);
}

fn find(files: &Vec<FilePath>, path: &FilePath) -> (r: Option<usize>)
    requires
        listed::<FilePath>(models(files@)),
    ensures
        match r {
            Some(i) => i < files.len() && place_of(models(files@), path@) == i,
            None => place_of(models(files@), path@) == -1,
        },
{
    match search(files, path) {
        Ok(i) => {
            proof {
                assert(models(files@)[i as int] == path@);
                lemma_place(models(files@), i as int);
            }
            Some(i)
        },
        Err(_) => None,
    }
}

/// The number, no more than the other.
pub open spec fn at_most(x: int, limit: int) -> int {
    if x < limit {
        x
    } else {
        limit
    }
}

/// A crop, kept inside an image of that size: it starts on a pixel of the
/// image, ends within it, and is at least a pixel wide and high.
pub open spec fn crop_inside(x: int, y: int, w: int, h: int, width: int, height: int) -> Crop {
    let x2 = at_most(x, if width > 0 { width - 1 } else { 0 });
    let y2 = at_most(y, if height > 0 { height - 1 } else { 0 });
    let w2 = at_most(w, width - x2);
    let h2 = at_most(h, height - y2);
    (
        x2 as u32,
        y2 as u32,
        (if w2 < 1 { 1 } else { w2 }) as u32,
        (if h2 < 1 { 1 } else { h2 }) as u32,
    )
}

/// Clamp a crop so the rectangle stays inside the image.
pub fn clamp_crop(x: u32, y: u32, w: u32, h: u32, width: u32, height: u32) -> (r: Crop)
    ensures
        r == crop_inside(x as int, y as int, w as int, h as int, width as int, height as int),
{
    let last_x: u32 = width.saturating_sub(1);
    let last_y: u32 = height.saturating_sub(1);
    let x2: u32 = if x < last_x {
        x
    } else {
        last_x
    };
    let y2: u32 = if y < last_y {
        y
    } else {
        last_y
    };
    let room_w: u32 = width - x2;
    let room_h: u32 = height - y2;
    let w2: u32 = if w < room_w {
        w
    } else {
        room_w
    };
    let h2: u32 = if h < room_h {
        h
    } else {
        room_h
    };
    let w3: u32 = if w2 < 1 {
        1
    } else {
        w2
    };
    let h3: u32 = if h2 < 1 {
        1
    } else {
        h2
    };
    (x2, y2, w3, h3)
}

/// A crop that was clamped lies inside its image, whatever was drawn.
pub proof fn a_crop_lies_inside_its_image(
    x: u32,
    y: u32,
    w: u32,
    h: u32,
    width: u32,
    height: u32,
)
    requires
        width > 0,
        height > 0,
    ensures
        ({
            let c = crop_inside(
                x as int,
                y as int,
                w as int,
                h as int,
                width as int,
                height as int,
            );
            &&& c.2 >= 1
            &&& c.3 >= 1
            &&& c.0 + c.2 <= width
            &&& c.1 + c.3 <= height
        }),
{
}

/// A crop that lies inside its image already stays as it is.
pub proof fn a_crop_inside_its_image_stays(x: u32, y: u32, w: u32, h: u32, width: u32, height: u32)
    requires
        1 <= w,
        1 <= h,
        x + w <= width,
        y + h <= height,
    ensures
        crop_inside(x as int, y as int, w as int, h as int, width as int, height as int) == (
            x,
            y,
            w,
            h,
        ),
{
}

/// "1920×1080".
pub open spec fn size_text(width: u32, height: u32) -> Seq<char> {
    decimal(width as nat) + "\u{d7}"@ + decimal(height as nat)
}

/// The size of an image as its row shows it.
pub fn dims(width: u32, height: u32) -> (r: String)
    ensures
        r@ == size_text(width, height),
{
    let mut s = String::new();
    push_decimal(&mut s, width as u64);
    s.append("\u{d7}");
    push_decimal(&mut s, height as u64);
    assert(s@ =~= size_text(width, height));
    s
}

impl ImageState {
    /// The list is in order, and has one row per file.
    pub open spec fn wf(&self) -> bool {
        &&& self.lists.wf()
        &&& self.rows.len() == self.lists.files.len()
        &&& self.rows.len() <= MAX_FILES
    }

    /// Seed the queue with the image files the app was launched with.
    pub fn new(files: &Vec<FilePath>) -> (r: ImageState)
        requires
            files.len() <= MAX_FILES,
            listed::<FilePath>(models(files@)),
        ensures
            r.wf(),
            r@ == (ImageModel {
                lists: ListsModel {
                    files: models(files@),
                    crops: Map::empty(),
                    thumbs: Map::empty(),
                },
                rows: Seq::new(
                    files@.len(),
                    |i: int| row_of(models(files@)[i], Map::empty(), Map::empty()),
                ),
                selected: -1,
                cropping: false,
                edit: None,
                running: false,
                select_gen: 0,
            }),
    {
        let mut lists = Lists::new();
        let list = sort_distinct(files);
        proof {
            crate::order::one_sorted_list::<FilePath>(models(list@), models(files@));
            assert(list.len() == models(list@).len());
            assert(files.len() == models(files@).len());
        }
        lists.files = list;
        let rows = rows_from(&lists.files, &lists.crops, &lists.thumbs);
        let r = ImageState {
            lists,
            rows,
            selected: -1,
            cropping: false,
            edit: None,
            running: false,
            select_gen: 0,
        };
        assert(r.rows.len() == models(r.rows@).len());
        assert(r@ =~= ImageModel {
            lists: ListsModel {
                files: models(files@),
                crops: Map::empty(),
                thumbs: Map::empty(),
            },
            rows: Seq::new(
                files@.len(),
                |i: int| row_of(models(files@)[i], Map::empty(), Map::empty()),
            ),
            selected: -1,
            cropping: false,
            edit: None,
            running: false,
            select_gen: 0,
        });
        r
    }

    /// Add the image files `picked` to the queue: merge them with the existing
    /// set, update the rows, and say whose thumbnails to decode. The selection
    /// follows its file across the new order.
    pub fn add_paths(&mut self, picked: &Vec<FilePath>) -> (r: Added)
        requires
            old(self).wf(),
            old(self).lists.files.len() + picked.len() <= MAX_FILES,
        ensures
            final(self).wf(),
            ({
                let m = old(self)@;
                let files = final(self)@.lists.files;
                &&& listed::<FilePath>(files)
                &&& files.to_set() == m.lists.files.to_set().union(models(picked@).to_set())
                &&& final(self)@ == ImageModel {
                    lists: ListsModel { files, ..m.lists },
                    rows: synced(m.rows, m.lists.files, files, m.lists.crops, m.lists.thumbs),
                    selected: match selected_file(m) {
                        Some(path) => place_of(files, path),
                        None => m.selected,
                    },
                    ..m
                }
                &&& all_edited(m.rows, models(r.edits@)) == final(self)@.rows
                &&& models(r.missing@) == undecoded(files, m.lists.thumbs)
            }),
    {
        let ghost m = self@;
        let mut all: Vec<FilePath> = Vec::new();
        let n: usize = self.lists.files.len();
        let mut i: usize = 0;
        while i < n
            invariant
                i <= n,
                n == self.lists.files.len(),
                all.len() == i,
                self@ == m,
                self.wf(),
                models(all@) == m.lists.files.take(i as int),
            decreases n - i,
        {
            let ghost a0 = models(all@);
            all.push(self.lists.files[i].clone());
            assert(models(all@) =~= a0.push(m.lists.files[i as int]));
            assert(models(all@) =~= m.lists.files.take(i + 1));
            i += 1;
        }
        assert(models(all@) =~= m.lists.files);
        let ghost p = models(picked@);
        let mut k: usize = 0;
        assert(models(all@) =~= m.lists.files + p.take(0));
        while k < picked.len()
            invariant
                k <= picked.len(),
                p == models(picked@),
                all.len() == m.lists.files.len() + k,
                models(all@) == m.lists.files + p.take(k as int),
            decreases picked.len() - k,
        {
            let ghost a0 = models(all@);
            all.push(picked[k].clone());
            assert(models(all@) =~= a0.push(p[k as int]));
            assert(models(all@) =~= m.lists.files + p.take(k + 1));
            k += 1;
        }
        assert(p.take(k as int) =~= p);
        let files = sort_distinct(&all);
        proof {
            lemma_add_to_set(m.lists.files, p);
            lemma_no_longer(models(files@), models(all@));
            assert(files.len() == models(files@).len());
            assert(all.len() == models(all@).len());
        }
        let was = if self.selected >= 0 && (self.selected as usize) < self.lists.files.len() {
            Some(self.lists.files[self.selected as usize].clone())
        } else {
            None
        };
        let edits = sync_rows(
            &mut self.rows,
            &self.lists.files,
            &files,
            &self.lists.crops,
            &self.lists.thumbs,
        );
        self.lists.files = files;
        proof {
            assert(self.rows.len() == models(self.rows@).len());
        }
        if let Some(path) = was {
            self.selected = match find(&self.lists.files, &path) {
                Some(at) => at as i32,
                None => -1,
            };
        }
        let missing = without_thumbs(&self.lists.files, &self.lists.thumbs);
        Added { edits, missing }
    }

    /// Empty the list, unless a batch is running over it.
    pub fn clear_files(&mut self) -> (r: Option<Vec<RowEdit>>)
        requires
            old(self).wf(),
        ensures
            final(self).wf(),
            if old(self)@.running {
                r is None && final(self)@ == old(self)@
            } else {
                &&& final(self)@ == (ImageModel {
                    lists: ListsModel { files: seq![], crops: Map::empty(), thumbs: Map::empty() },
                    rows: seq![],
                    selected: -1,
                    cropping: false,
                    edit: None,
                    ..old(self)@
                })
                &&& r matches Some(edits)
                &&& all_edited(old(self)@.rows, models(edits@)) == Seq::<FileRowModel>::empty()
            },
    {
        if self.running {
            return None;
        }
        let ghost m = self@;
        self.lists.crops.clear();
        self.lists.thumbs.clear();
        let empty: Vec<FilePath> = Vec::new();
        assert(models(empty@) =~= Seq::<PathModel>::empty());
        let edits = sync_rows(
            &mut self.rows,
            &self.lists.files,
            &empty,
            &self.lists.crops,
            &self.lists.thumbs,
        );
        self.lists.files = empty;
        self.selected = -1;
        self.cropping = false;
        self.edit = None;
        assert(models(self.rows@) =~= Seq::<FileRowModel>::empty());
        assert(self.rows.len() == models(self.rows@).len());
        Some(edits)
    }

    /// Remove one file from the queue (the × on its row), unless a batch is
    /// running. Selection and the crop state follow the file, not the index.
    pub fn remove_file(&mut self, i: i32) -> (r: Option<Vec<RowEdit>>)
        requires
            old(self).wf(),
        ensures
            final(self).wf(),
            ({
                let m = old(self)@;
                if m.running || i < 0 || i >= m.lists.files.len() {
                    r is None && final(self)@ == m
                } else {
                    let files = m.lists.files.remove(i as int);
                    let crops = m.lists.crops.remove(m.lists.files[i as int]);
                    &&& final(self)@ == (ImageModel {
                        lists: ListsModel { files, crops, ..m.lists },
                        rows: synced(m.rows, m.lists.files, files, crops, m.lists.thumbs),
                        selected: if m.selected == i {
                            -1
                        } else if m.selected > i {
                            m.selected - 1
                        } else {
                            m.selected
                        },
                        cropping: m.cropping && m.selected != i,
                        edit: if m.selected == i {
                            None
                        } else {
                            m.edit
                        },
                        ..m
                    })
                    &&& r matches Some(edits)
                    &&& all_edited(m.rows, models(edits@)) == final(self)@.rows
                }
            }),
    {
        let ghost m = self@;
        if self.running || i < 0 || i as usize >= self.lists.files.len() {
            return None;
        }
        let at: usize = i as usize;
        let mut files = self.lists.files_copy();
        let removed = files.remove(at);
        proof {
            assert(models(files@) =~= m.lists.files.remove(i as int));
            assert(removed@ == m.lists.files[i as int]);
            lemma_listed_without(m.lists.files, i as int);
        }
        self.lists.crops.remove(&removed);
        let edits = sync_rows(
            &mut self.rows,
            &self.lists.files,
            &files,
            &self.lists.crops,
            &self.lists.thumbs,
        );
        self.lists.files = files;
        assert(self.rows.len() == models(self.rows@).len());
        assert(self.lists.files.len() == models(self.lists.files@).len());
        if self.selected == i {
            self.selected = -1;
            self.cropping = false;
            self.edit = None;
        } else if self.selected > i {
            self.selected = self.selected - 1;
        }
        Some(edits)
    }

    /// Select a file: the highlight is instant, and the file's preview is to be
    /// decoded under the generation that this gives.
    pub fn select_file(&mut self, i: i32) -> (r: Option<(FilePath, u64)>)
        requires
            old(self).wf(),
        ensures
            final(self).wf(),
            if 0 <= i < old(self)@.lists.files.len() {
                &&& final(self)@ == (ImageModel {
                    selected: i as int,
                    select_gen: crate::import::next_gen(old(self)@.select_gen),
                    ..old(self)@
                })
                &&& r matches Some((path, gen))
                &&& path@ == old(self)@.lists.files[i as int]
                &&& gen == final(self)@.select_gen
            } else {
                r is None && final(self)@ == old(self)@
            },
    {
        if i < 0 || i as usize >= self.lists.files.len() {
            return None;
        }
        self.selected = i;
        self.select_gen = self.select_gen.wrapping_add(1);
        Some((self.lists.files[i as usize].clone(), self.select_gen))
    }

    /// The preview of a file was decoded; give the crop the file has, if it is
    /// the one still selected, and aim the crop editor at it.
    pub fn preview_ready(
        &mut self,
        generation: u64,
        path: &FilePath,
        width: u32,
        height: u32,
    ) -> (r: Option<Option<Crop>>)
        requires
            old(self).wf(),
        ensures
            final(self).wf(),
            if generation != old(self)@.select_gen {
                r is None && final(self)@ == old(self)@
            } else {
                &&& r == Some(entry(old(self)@.lists.crops, path@))
                &&& final(self)@ == (ImageModel {
                    edit: Some(CropEditModel { path: path@, width, height }),
                    ..old(self)@
                })
            },
    {
        if generation != self.select_gen {
            return None;
        }
        self.edit = Some(CropEdit { path: path.clone(), width, height });
        let crop = match self.lists.crops.get(path) {
            Some(c) => Some(*c),
            None => None,
        };
        Some(crop)
    }

    /// The selected file could not be decoded: the viewer and the crop editor
    /// must not stay aimed at the previous file, and its row says so. Nothing
    /// happens where the user has moved on.
    pub fn preview_unreadable(&mut self, generation: u64, path: &FilePath) -> (r: Option<
        Vec<RowEdit>,
    >)
        requires
            old(self).wf(),
        ensures
            final(self).wf(),
            if generation != old(self)@.select_gen {
                r is None && final(self)@ == old(self)@
            } else {
                &&& final(self)@ == (ImageModel {
                    rows: with_row(
                        old(self)@,
                        path@,
                        |row: FileRowModel| FileRowModel { dims: "unreadable"@, ..row },
                    ),
                    cropping: false,
                    edit: None,
                    ..old(self)@
                })
                &&& r matches Some(edits)
                &&& all_edited(old(self)@.rows, models(edits@)) == final(self)@.rows
            },
    {
        if generation != self.select_gen {
            return None;
        }
        self.cropping = false;
        self.edit = None;
        Some(self.unreadable(path))
    }

    /// A file's thumbnail could not be decoded: its row says so.
    pub fn unreadable(&mut self, path: &FilePath) -> (edits: Vec<RowEdit>)
        requires
            old(self).wf(),
        ensures
            final(self).wf(),
            final(self)@ == (ImageModel {
                rows: with_row(
                    old(self)@,
                    path@,
                    |row: FileRowModel| FileRowModel { dims: "unreadable"@, ..row },
                ),
                ..old(self)@
            }),
            all_edited(old(self)@.rows, models(edits@)) == final(self)@.rows,
    {
        let ghost m = self@;
        let mut edits: Vec<RowEdit> = Vec::new();
        assert(models(edits@) =~= Seq::<EditModel>::empty());
        if let Some(i) = find(&self.lists.files, path) {
            let mut row = self.rows[i].clone();
            row.dims = String::from_str("unreadable");
            self.put_row(i, row, &mut edits);
        }
        edits
    }

    /// A thumbnail was decoded: keep it, and show it in the file's row. A path
    /// that is no longer in the list only fills the cache.
    pub fn thumb_ready(&mut self, path: &FilePath, thumb: &ThumbData) -> (edits: Vec<RowEdit>)
        requires
            old(self).wf(),
        ensures
            final(self).wf(),
            final(self)@ == (ImageModel {
                lists: ListsModel {
                    thumbs: old(self)@.lists.thumbs.insert(path@, thumb@),
                    ..old(self)@.lists
                },
                rows: with_row(
                    old(self)@,
                    path@,
                    |row: FileRowModel|
                        FileRowModel { thumb: Some(thumb@), dims: thumb@.dims, ..row },
                ),
                ..old(self)@
            }),
            all_edited(old(self)@.rows, models(edits@)) == final(self)@.rows,
    {
        let ghost m = self@;
        let mut edits: Vec<RowEdit> = Vec::new();
        assert(models(edits@) =~= Seq::<EditModel>::empty());
        self.lists.thumbs.insert(path.clone(), thumb.clone());
        if let Some(i) = find(&self.lists.files, path) {
            let mut row = self.rows[i].clone();
            row.thumb = Some(thumb.clone());
            row.dims = thumb.dims.clone();
            self.put_row(i, row, &mut edits);
        }
        edits
    }

    /// Apply the crop that was drawn, in pixels: it is kept inside the image,
    /// the file's row is marked, and the crop editor closes.
    pub fn apply_crop(&mut self, x: u32, y: u32, w: u32, h: u32) -> (edits: Vec<RowEdit>)
        requires
            old(self).wf(),
        ensures
            final(self).wf(),
            final(self)@ == match old(self)@.edit {
                None => ImageModel { cropping: false, ..old(self)@ },
                Some(e) => ImageModel {
                    lists: ListsModel {
                        crops: old(self)@.lists.crops.insert(
                            e.path,
                            crop_inside(
                                x as int,
                                y as int,
                                w as int,
                                h as int,
                                e.width as int,
                                e.height as int,
                            ),
                        ),
                        ..old(self)@.lists
                    },
                    rows: with_row(
                        old(self)@,
                        e.path,
                        |row: FileRowModel| FileRowModel { cropped: true, ..row },
                    ),
                    cropping: false,
                    ..old(self)@
                },
            },
            all_edited(old(self)@.rows, models(edits@)) == final(self)@.rows,
    {
        let ghost m = self@;
        let mut edits: Vec<RowEdit> = Vec::new();
        assert(models(edits@) =~= Seq::<EditModel>::empty());
        self.cropping = false;
        let (path, width, height) = match &self.edit {
            None => { return edits },
            Some(e) => (e.path.clone(), e.width, e.height),
        };
        let crop = clamp_crop(x, y, w, h, width, height);
        if let Some(i) = find(&self.lists.files, &path) {
            let mut row = self.rows[i].clone();
            row.cropped = true;
            self.put_row(i, row, &mut edits);
        }
        self.lists.crops.insert(path, crop);
        edits
    }

    /// Show a row, and say so.
    fn put_row(&mut self, i: usize, row: FileRow, edits: &mut Vec<RowEdit>)
        requires
            old(self).wf(),
            i < old(self).rows.len(),
            old(edits)@.len() == 0,
        ensures
            final(self).wf(),
            final(self)@ == (ImageModel {
                rows: old(self)@.rows.update(i as int, row@),
                ..old(self)@
            }),
            all_edited(old(self)@.rows, models(final(edits)@)) == final(self)@.rows,
    {
        let ghost m = self@;
        let ghost r = row@;
        let shown = row.clone();
        self.rows.set(i, row);
        edits.push(RowEdit::Replace(i, shown));
        proof {
            assert(models(self.rows@) =~= m.rows.update(i as int, r));
            let e = models(edits@);
            assert(e.len() == 1);
            assert(e[0] == EditModel::Replace(i as int, r));
            assert(e.drop_last() =~= Seq::<EditModel>::empty());
            assert(all_edited(m.rows, e.drop_last()) == m.rows);
        }
    }

    /// A batch starts: every row goes back to "queued", so that a previous
    /// run's outcome does not linger on rows the new run has not reached.
    /// Nothing starts over an empty list, or while a batch is running.
    pub fn start_run(&mut self) -> (started: bool)
        requires
            old(self).wf(),
        ensures
            final(self).wf(),
            started == (old(self)@.lists.files.len() > 0 && !old(self)@.running),
            final(self)@ == if started {
                ImageModel {
                    running: true,
                    rows: Seq::new(
                        old(self)@.rows.len(),
                        |i: int|
                            FileRowModel {
                                status: "queued"@,
                                result: seq![],
                                ..old(self)@.rows[i]
                            },
                    ),
                    ..old(self)@
                }
            } else {
                old(self)@
            },
    {
        if self.lists.files.len() == 0 || self.running {
            return false;
        }
        let ghost m = self@;
        self.running = true;
        let n: usize = self.rows.len();
        let mut i: usize = 0;
        assert forall|j: int| 0 <= j < n implies (#[trigger] self.rows@[j])@ == m.rows[j] by {}
        while i < n
            invariant
                i <= n,
                n == self.rows.len(),
                n == m.rows.len(),
                self.wf(),
                self@ == (ImageModel { running: true, rows: self@.rows, ..m }),
                forall|j: int|
                    0 <= j < i ==> (#[trigger] self.rows@[j])@ == (FileRowModel {
                        status: "queued"@,
                        result: seq![],
                        ..m.rows[j]
                    }),
                forall|j: int| i <= j < n ==> (#[trigger] self.rows@[j])@ == m.rows[j],
            decreases n - i,
        {
            let mut row = self.rows[i].clone();
            row.status = String::from_str("queued");
            row.result = String::new();
            self.rows.set(i, row);
            i += 1;
        }
        assert(self@.rows =~= Seq::new(
            m.rows.len(),
            |i: int| FileRowModel { status: "queued"@, result: seq![], ..m.rows[i] },
        ));
        true
    }

    /// The batch is over: the list may change again.
    pub fn run_ended(&mut self)
        requires
            old(self).wf(),
        ensures
            final(self).wf(),
            final(self)@ == (ImageModel { running: false, ..old(self)@ }),
    {
        self.running = false;
    }

    /// A file of the batch is finished: `result` is the line for its row, empty
    /// for one that failed.
    pub fn file_done(&mut self, path: &FilePath, ok: bool, result: &String) -> (edits: Vec<RowEdit>)
        requires
            old(self).wf(),
        ensures
            final(self).wf(),
            final(self)@ == (ImageModel {
                rows: with_row(
                    old(self)@,
                    path@,
                    |row: FileRowModel|
                        FileRowModel {
                            status: if ok {
                                "done"@
                            } else {
                                "error"@
                            },
                            result: result@,
                            ..row
                        },
                ),
                ..old(self)@
            }),
            all_edited(old(self)@.rows, models(edits@)) == final(self)@.rows,
    {
        let ghost m = self@;
        let mut edits: Vec<RowEdit> = Vec::new();
        assert(models(edits@) =~= Seq::<EditModel>::empty());
        if let Some(i) = find(&self.lists.files, path) {
            let mut row = self.rows[i].clone();
            row.status = if ok {
                String::from_str("done")
            } else {
                String::from_str("error")
            };
            row.result = result.clone();
            self.put_row(i, row, &mut edits);
        }
        edits
    }
}

impl Lists {
    /// The files once more.
    fn files_copy(&self) -> (r: Vec<FilePath>)
        ensures
            models(r@) == models(self.files@),
    {
        let mut r: Vec<FilePath> = Vec::new();
        let mut i: usize = 0;
        while i < self.files.len()
            invariant
                i <= self.files.len(),
                r.len() == i,
                forall|j: int| 0 <= j < i ==> (#[trigger] r@[j])@ == self.files@[j]@,
            decreases self.files.len() - i,
        {
            r.push(self.files[i].clone());
            i += 1;
        }
        assert(models(r@) =~= models(self.files@));
        r
    }
}

proof fn lemma_add_to_set(a: Seq<PathModel>, b: Seq<PathModel>)
    ensures
        (a + b).to_set() == a.to_set().union(b.to_set()),
{
    assert forall|p: PathModel| (a + b).to_set().contains(p) <==> a.to_set().union(
        b.to_set(),
    ).contains(p) by {
        if a.contains(p) {
            let i = choose|i: int| 0 <= i < a.len() && a[i] == p;
            assert((a + b)[i] == p);
        }
        if b.contains(p) {
            let i = choose|i: int| 0 <= i < b.len() && b[i] == p;
            assert((a + b)[a.len() + i] == p);
        }
        if (a + b).contains(p) {
            let i = choose|i: int| 0 <= i < (a + b).len() && (a + b)[i] == p;
            if i < a.len() {
                assert(a[i] == p);
            } else {
                assert(b[i - a.len()] == p);
            }
        }
    }
    assert((a + b).to_set() =~= a.to_set().union(b.to_set()));
}

/// A list without doubles is no longer than one with the same paths.
proof fn lemma_no_longer(a: Seq<PathModel>, b: Seq<PathModel>)
    requires
        listed::<FilePath>(a),
        a.to_set() == b.to_set(),
    ensures
        a.len() <= b.len(),
{
    assert forall|i: int, j: int| 0 <= i < j < a.len() implies a[i] != a[j] by {
        crate::paths::path_order_is_total(a[i], a[j], a[i]);
        assert(crate::paths::path_before(a[i], a[j]));
    }
    assert(a.no_duplicates());
    a.unique_seq_to_set();
    vstd::seq_lib::seq_to_set_is_finite(b);
    b.lemma_cardinality_of_set();
}

proof fn lemma_listed_without(files: Seq<PathModel>, at: int)
    requires
        listed::<FilePath>(files),
        0 <= at < files.len(),
    ensures
        listed::<FilePath>(files.remove(at)),
{
    let after = files.remove(at);
    assert forall|i: int, j: int| 0 <= i < j < after.len() implies crate::paths::path_before(
        #[trigger] after[i],
        #[trigger] after[j],
    ) by {
        let x = if i < at { i } else { i + 1 };
        let y = if j < at { j } else { j + 1 };
        assert(crate::paths::path_before(files[x], files[y]));
    }
}

// ---------------------------------------------------------------------------
// Laws
// ---------------------------------------------------------------------------

/// A crop keeps its corner where that is in the image, and moves it to the image's
/// last pixel where it is not; it keeps its size as far as the image goes from there,
/// and is a pixel wide and high at the least, even of an image that has none.
pub proof fn a_crop_is_cut_at_the_images_edge(
    x: u32,
    y: u32,
    w: u32,
    h: u32,
    width: u32,
    height: u32,
    r: Crop,
)
    requires
        call_ensures(clamp_crop, (x, y, w, h, width, height), r),
    ensures
        x < width ==> r.0 == x,
        x >= width && width > 0 ==> r.0 == width - 1,
        width == 0 ==> r.0 == 0 && r.2 == 1,
        y < height ==> r.1 == y,
        y >= height && height > 0 ==> r.1 == height - 1,
        height == 0 ==> r.1 == 0 && r.3 == 1,
        w >= 1 && r.0 + w <= width ==> r.2 == w,
        width > 0 && r.0 + w > width ==> r.2 == width - r.0,
        w == 0 ==> r.2 == 1,
        h >= 1 && r.1 + h <= height ==> r.3 == h,
        height > 0 && r.1 + h > height ==> r.3 == height - r.1,
        h == 0 ==> r.3 == 1,
{
}

/// A size is its width, a cross and its height.
pub proof fn a_size_is_its_width_and_height(width: u32, height: u32, r: String)
    requires
        call_ensures(dims, (width, height), r),
    ensures
        r@ == decimal(width as nat) + "\u{d7}"@ + decimal(height as nat),
{
}

/// A path is among those without a thumbnail exactly where it is listed and has none.
proof fn lemma_undecoded(files: Seq<PathModel>, thumbs: Map<PathModel, ThumbModel>, p: PathModel)
    ensures
        undecoded(files, thumbs).contains(p) <==> files.contains(p) && !thumbs.dom().contains(p),
    decreases files.len(),
{
    if files.len() > 0 {
        let less = files.drop_last();
        lemma_undecoded(less, thumbs, p);
        let rest = undecoded(less, thumbs);
        let all = undecoded(files, thumbs);
        assert(files.contains(p) <==> less.contains(p) || files.last() == p) by {
            if files.contains(p) {
                let k = files.index_of(p);
                if k < less.len() {
                    assert(less[k] == p);
                }
            }
            if less.contains(p) {
                let k = less.index_of(p);
                assert(files[k] == p);
            }
            assert(files[files.len() - 1] == files.last());
        }
        if !thumbs.dom().contains(files.last()) {
            assert(all.contains(p) <==> rest.contains(p) || files.last() == p) by {
                if all.contains(p) {
                    let k = all.index_of(p);
                    if k < rest.len() {
                        assert(rest[k] == p);
                    }
                }
                if rest.contains(p) {
                    let k = rest.index_of(p);
                    assert(all[k] == p);
                }
                assert(all[all.len() - 1] == files.last());
            }
        }
    }
}

/// Adding files adds them all and drops none. The file that was selected stays
/// selected, wherever it comes to stand; crops, thumbnails and the crop editor stay as
/// they are; and the thumbnails to decode are those of the files that have none.
pub proof fn adding_files_drops_none(
    state: &mut ImageState,
    picked: &Vec<FilePath>,
    r: Added,
    p: PathModel,
)
    requires
        call_ensures(ImageState::add_paths, (state, picked), r),
    ensures
        final(state)@.lists.files.contains(p) <==> old(state)@.lists.files.contains(p) || models(
            picked@,
        ).contains(p),
        models(r.missing@).contains(p) <==> final(state)@.lists.files.contains(p) && !old(state)@.lists.thumbs.dom().contains(p),
        0 <= old(state)@.selected < old(state)@.lists.files.len() ==> {
            &&& 0 <= final(state)@.selected < final(state)@.lists.files.len()
            &&& final(state)@.lists.files[final(state)@.selected] == old(state)@.lists.files[old(state)@.selected]
        },
        !(0 <= old(state)@.selected < old(state)@.lists.files.len()) ==> final(state)@.selected
            == old(state)@.selected,
        final(state)@.lists.crops == old(state)@.lists.crops,
        final(state)@.lists.thumbs == old(state)@.lists.thumbs,
        final(state)@.cropping == old(state)@.cropping && final(state)@.edit == old(state)@.edit,
        final(state)@.running == old(state)@.running,
{
    let a = old(state)@.lists.files;
    let b = final(state)@.lists.files;
    assert(b.to_set().contains(p) <==> b.contains(p));
    assert(a.to_set().contains(p) <==> a.contains(p));
    assert(models(picked@).to_set().contains(p) <==> models(picked@).contains(p));
    lemma_undecoded(b, old(state)@.lists.thumbs, p);
    let s = old(state)@.selected;
    if 0 <= s < a.len() {
        assert(a.contains(a[s]));
        assert(a.to_set().contains(a[s]));
        assert(b.to_set().contains(a[s]));
        assert(b.contains(a[s]));
    }
}

/// A file that is removed leaves with its crop, and no other file or crop does. The
/// file that was selected stays selected, unless it is the one removed: then none is,
/// and the crop editor closes. Nothing is removed while a batch is running, nor by an
/// index that is no row's.
pub proof fn removing_a_file_removes_it_alone(
    state: &mut ImageState,
    i: i32,
    r: Option<Vec<RowEdit>>,
    p: PathModel,
)
    requires
        call_ensures(ImageState::remove_file, (state, i), r),
        listed::<FilePath>(old(state)@.lists.files),
    ensures
        r is Some <==> !old(state).running && 0 <= i < old(state)@.lists.files.len(),
        r is None ==> final(state)@ == old(state)@,
        r is Some ==> {
            let gone = old(state)@.lists.files[i as int];
            let s = old(state)@.selected;
            &&& final(state)@.lists.files.contains(p) <==> old(state)@.lists.files.contains(p) && p
                != gone
            &&& !final(state)@.lists.crops.dom().contains(gone)
            &&& p != gone ==> entry(final(state)@.lists.crops, p) == entry(
                old(state)@.lists.crops,
                p,
            )
            &&& final(state)@.lists.thumbs == old(state)@.lists.thumbs
            &&& s == i ==> final(state)@.selected == -1 && !final(state)@.cropping && final(state)@.edit is None
            &&& s != i ==> final(state)@.cropping == old(state)@.cropping && final(state)@.edit
                == old(state)@.edit
            &&& s != i && 0 <= s < old(state)@.lists.files.len() ==> final(state)@.lists.files[final(state)@.selected] == old(state)@.lists.files[s]
        },
{
    assert(old(state)@.running == old(state).running);
    if r is Some {
        let a = old(state)@.lists.files;
        let b = final(state)@.lists.files;
        let gone = a[i as int];
        if b.contains(p) {
            let k = b.index_of(p);
            assert(a[if k < i { k } else { k + 1 }] == p);
            if p == gone {
                lemma_place(a, i as int);
                lemma_place(a, if k < i { k } else { k + 1 });
            }
        }
        if a.contains(p) && p != gone {
            let k = a.index_of(p);
            assert(b[if k < i { k } else { k - 1 }] == p);
        }
    }
}

/// Clearing empties the list, the crops and the thumbnails, with nothing selected,
/// unless a batch is running: then nothing changes.
pub proof fn clearing_leaves_nothing(state: &mut ImageState, r: Option<Vec<RowEdit>>)
    requires
        call_ensures(ImageState::clear_files, (state,), r),
    ensures
        r is None <==> old(state).running,
        r is None ==> final(state)@ == old(state)@,
        r is Some ==> {
            &&& final(state)@.lists.files.len() == 0 && final(state)@.rows.len() == 0
            &&& final(state)@.lists.crops.dom() == Set::<PathModel>::empty()
            &&& final(state)@.lists.thumbs.dom() == Set::<PathModel>::empty()
            &&& final(state)@.selected == -1 && !final(state)@.cropping
            &&& final(state)@.edit is None && !final(state)@.running
        },
{
    assert(old(state)@.running == old(state).running);
}

/// Selecting a row selects its file under a new generation. A preview that arrives
/// under another generation changes nothing; under the same one the crop editor is
/// aimed at its file, at the file's size, with the crop that the file has.
pub proof fn a_late_preview_changes_nothing(
    state: &mut ImageState,
    i: i32,
    chosen: Option<(FilePath, u64)>,
    shown: &mut ImageState,
    generation: u64,
    path: &FilePath,
    width: u32,
    height: u32,
    r: Option<Option<Crop>>,
)
    requires
        call_ensures(ImageState::select_file, (state, i), chosen),
        call_ensures(ImageState::preview_ready, (shown, generation, path, width, height), r),
    ensures
        chosen is Some <==> 0 <= i < old(state)@.lists.files.len(),
        chosen is None ==> final(state)@ == old(state)@,
        chosen matches Some((file, gen)) ==> {
            &&& file@ == old(state)@.lists.files[i as int]
            &&& final(state)@.selected == i
            &&& gen == final(state).select_gen && gen != old(state).select_gen
            &&& final(state)@.lists == old(state)@.lists && final(state)@.rows == old(state)@.rows
            &&& final(state)@.edit == old(state)@.edit
        },
        generation != old(shown).select_gen ==> r is None && final(shown)@ == old(shown)@,
        generation == old(shown).select_gen ==> {
            &&& r is Some && r->0 == entry(old(shown)@.lists.crops, path@)
            &&& final(shown)@.edit is Some && final(shown)@.edit->0.path == path@
            &&& final(shown)@.edit->0.width == width && final(shown)@.edit->0.height == height
            &&& final(shown)@.lists == old(shown)@.lists && final(shown)@.rows == old(shown)@.rows
            &&& final(shown)@.selected == old(shown)@.selected
        },
{
    assert(final(state)@.select_gen == final(state).select_gen);
    assert(old(state)@.select_gen == old(state).select_gen);
    assert(old(shown)@.select_gen == old(shown).select_gen);
}

/// Only the row of a path is shown anew.
proof fn lemma_one_row(
    m: ImageModel,
    path: PathModel,
    change: spec_fn(FileRowModel) -> FileRowModel,
    k: int,
)
    requires
        m.rows.len() == m.lists.files.len(),
        listed::<FilePath>(m.lists.files),
        0 <= k < m.rows.len(),
    ensures
        with_row(m, path, change).len() == m.rows.len(),
        m.lists.files[k] == path ==> with_row(m, path, change)[k] == change(m.rows[k]),
        m.lists.files[k] != path ==> with_row(m, path, change)[k] == m.rows[k],
{
    if m.lists.files[k] == path {
        lemma_place(m.lists.files, k);
    } else if m.lists.files.contains(path) {
        assert(m.lists.files[m.lists.files.index_of(path)] == path);
    }
}

/// A thumbnail that arrives is kept under its path, and is shown with its dimensions
/// in the row of its file and in no other.
pub proof fn a_thumbnail_is_shown_in_its_row(
    state: &mut ImageState,
    path: &FilePath,
    thumb: &ThumbData,
    edits: Vec<RowEdit>,
    k: int,
)
    requires
        call_ensures(ImageState::thumb_ready, (state, path, thumb), edits),
        old(state).wf(),
        0 <= k < old(state).rows.len(),
    ensures
        final(state)@.lists.thumbs.dom().contains(path@),
        final(state)@.lists.thumbs[path@] == thumb@,
        final(state)@.lists.files == old(state)@.lists.files,
        final(state)@.lists.crops == old(state)@.lists.crops,
        final(state)@.rows.len() == old(state)@.rows.len(),
        old(state)@.lists.files[k] != path@ ==> final(state)@.rows[k] == old(state)@.rows[k],
        old(state)@.lists.files[k] == path@ ==> {
            let row = final(state)@.rows[k];
            let was = old(state)@.rows[k];
            &&& row.thumb == Some(thumb@) && row.dims == thumb.dims@
            &&& row.name == was.name && row.status == was.status && row.result == was.result
            &&& row.cropped == was.cropped
        },
        final(state)@.selected == old(state)@.selected && final(state)@.edit == old(state)@.edit,
{
    assert(old(state)@.rows.len() == old(state).rows.len());
    lemma_one_row(
        old(state)@,
        path@,
        |row: FileRowModel| FileRowModel { thumb: Some(thumb@), dims: thumb@.dims, ..row },
        k,
    );
}

/// A file that cannot be decoded says so in its row and in no other. Where it is the
/// one being previewed, the crop editor closes; where the user has moved on, nothing
/// happens.
pub proof fn an_unreadable_file_says_so(
    state: &mut ImageState,
    path: &FilePath,
    edits: Vec<RowEdit>,
    shown: &mut ImageState,
    generation: u64,
    r: Option<Vec<RowEdit>>,
    k: int,
)
    requires
        call_ensures(ImageState::unreadable, (state, path), edits),
        old(state).wf(),
        0 <= k < old(state).rows.len(),
        call_ensures(ImageState::preview_unreadable, (shown, generation, path), r),
        old(shown)@ == old(state)@,
    ensures
        final(state)@.lists == old(state)@.lists,
        old(state)@.lists.files[k] == path@ ==> final(state)@.rows[k].dims == "unreadable"@,
        old(state)@.lists.files[k] == path@ ==> final(state)@.rows[k].status == old(state)@.rows[k].status && final(state)@.rows[k].thumb == old(state)@.rows[k].thumb,
        old(state)@.lists.files[k] != path@ ==> final(state)@.rows[k] == old(state)@.rows[k],
        generation != old(shown)@.select_gen ==> r is None && final(shown)@ == old(shown)@,
        generation == old(shown)@.select_gen ==> r is Some && final(shown)@.rows == final(state)@.rows && !final(shown)@.cropping && final(shown)@.edit is None && final(shown)@.lists
            == old(shown)@.lists,
{
    assert(old(state)@.rows.len() == old(state).rows.len());
    let change = |row: FileRowModel| FileRowModel { dims: "unreadable"@, ..row };
    lemma_one_row(old(state)@, path@, change, k);
    assert(with_row(old(shown)@, path@, change) == with_row(old(state)@, path@, change));
}

/// A crop that is applied is kept, cut at the image's edge, under the file that the
/// editor is aimed at; that file's row is marked, no other row or crop changes, and
/// the editor closes.
pub proof fn a_crop_is_kept_for_its_file(
    state: &mut ImageState,
    x: u32,
    y: u32,
    w: u32,
    h: u32,
    edits: Vec<RowEdit>,
    cut: Crop,
    p: PathModel,
    k: int,
)
    requires
        call_ensures(ImageState::apply_crop, (state, x, y, w, h), edits),
        old(state).wf(),
        old(state)@.edit is Some,
        call_ensures(
            clamp_crop,
            (x, y, w, h, old(state)@.edit->0.width, old(state)@.edit->0.height),
            cut,
        ),
        0 <= k < old(state).rows.len(),
    ensures
        entry(final(state)@.lists.crops, old(state)@.edit->0.path) == Some(cut),
        p != old(state)@.edit->0.path ==> entry(final(state)@.lists.crops, p) == entry(
            old(state)@.lists.crops,
            p,
        ),
        final(state)@.lists.files == old(state)@.lists.files,
        final(state)@.lists.thumbs == old(state)@.lists.thumbs,
        !final(state)@.cropping,
        old(state)@.lists.files[k] == old(state)@.edit->0.path ==> final(state)@.rows[k].cropped
            && final(state)@.rows[k].status == old(state)@.rows[k].status && final(state)@.rows[k].thumb == old(state)@.rows[k].thumb,
        old(state)@.lists.files[k] != old(state)@.edit->0.path ==> final(state)@.rows[k] == old(state)@.rows[k],
{
    assert(old(state)@.rows.len() == old(state).rows.len());
    lemma_one_row(
        old(state)@,
        old(state)@.edit->0.path,
        |row: FileRowModel| FileRowModel { cropped: true, ..row },
        k,
    );
}

/// A batch starts over a list that is not empty, unless one is running: every row is
/// queued again, with no result, and shows the same file. When it is over the list
/// may change again, and nothing else does.
pub proof fn a_batch_starts_with_every_row_queued(
    state: &mut ImageState,
    started: bool,
    over: &mut ImageState,
    k: int,
)
    requires
        call_ensures(ImageState::start_run, (state,), started),
        call_ensures(ImageState::run_ended, (over,), ()),
    ensures
        started <==> old(state)@.lists.files.len() > 0 && !old(state).running,
        !started ==> final(state)@ == old(state)@,
        started ==> final(state).running && final(state)@.lists == old(state)@.lists && final(state)@.rows.len() == old(state)@.rows.len(),
        started && 0 <= k < old(state)@.rows.len() ==> {
            let row = final(state)@.rows[k];
            let was = old(state)@.rows[k];
            &&& row.status == "queued"@ && row.result.len() == 0
            &&& row.name == was.name && row.thumb == was.thumb && row.dims == was.dims
            &&& row.cropped == was.cropped
        },
        !final(over).running,
        final(over)@.lists == old(over)@.lists && final(over)@.rows == old(over)@.rows,
        final(over)@.selected == old(over)@.selected,
{
    assert(old(state)@.running == old(state).running);
    assert(final(state)@.running == final(state).running);
    assert(final(over)@.running == final(over).running);
}

/// A file that the batch has finished is done or in error, with its result, in its own
/// row and in no other.
pub proof fn a_finished_file_says_how_it_went(
    state: &mut ImageState,
    path: &FilePath,
    ok: bool,
    result: &String,
    edits: Vec<RowEdit>,
    k: int,
)
    requires
        call_ensures(ImageState::file_done, (state, path, ok, result), edits),
        old(state).wf(),
        0 <= k < old(state).rows.len(),
    ensures
        final(state)@.lists == old(state)@.lists,
        old(state)@.lists.files[k] != path@ ==> final(state)@.rows[k] == old(state)@.rows[k],
        old(state)@.lists.files[k] == path@ ==> {
            let row = final(state)@.rows[k];
            let was = old(state)@.rows[k];
            &&& ok ==> row.status == "done"@
            &&& !ok ==> row.status == "error"@
            &&& row.result == result@
            &&& row.name == was.name && row.thumb == was.thumb && row.dims == was.dims
            &&& row.cropped == was.cropped
        },
{
    assert(old(state)@.rows.len() == old(state).rows.len());
    lemma_one_row(
        old(state)@,
        path@,
        |row: FileRowModel|
            FileRowModel {
                status: if ok {
                    "done"@
                } else {
                    "error"@
                },
                result: result@,
                ..row
            },
        k,
    );
}

/// The queue starts with the files given, each in a fresh row, and nothing selected.
pub proof fn the_queue_starts_with_the_files_given(files: &Vec<FilePath>, r: ImageState, i: int)
    requires
        call_ensures(ImageState::new, (files,), r),
        0 <= i < files.len(),
    ensures
        r.lists.files.len() == files.len() && r.rows.len() == files.len(),
        r.lists.files[i]@ == files[i]@,
        r.rows[i].status@ == "queued"@ && r.rows[i].name@ == name_of(files[i]@),
        !r.rows[i].cropped && r.rows[i].thumb is None,
        r.selected == -1 && !r.cropping && r.edit is None && !r.running,
{
    assert(r@.lists.files == models(r.lists.files@) && r@.rows == models(r.rows@));
    assert(models(r.lists.files@).len() == r.lists.files.len());
    assert(models(r.rows@).len() == r.rows.len());
    assert(models(r.lists.files@)[i] == r.lists.files[i]@);
    assert(models(files@)[i] == files[i]@);
    assert(models(r.rows@)[i] == r.rows[i]@);
    let row = r.rows[i];
    assert(row@.status == row.status@ && row@.name == row.name@ && row@.cropped == row.cropped);
    assert(row@.thumb == opt_model(row.thumb));
    assert(r@.selected == r.selected && r@.edit == opt_model(r.edit));
    assert(r@.cropping == r.cropping && r@.running == r.running);
}

/// The files without a thumbnail come in the order of the list: one more file comes last
/// among them where it has none.
pub proof fn thumbnails_are_decoded_in_order(
    files: Seq<PathModel>,
    thumbs: Map<PathModel, ThumbModel>,
    next: PathModel,
)
    ensures
        undecoded(seq![], thumbs) == Seq::<PathModel>::empty(),
        thumbs.dom().contains(next) ==> undecoded(files.push(next), thumbs) == undecoded(
            files,
            thumbs,
        ),
        !thumbs.dom().contains(next) ==> undecoded(files.push(next), thumbs) == undecoded(
            files,
            thumbs,
        ).push(next),
{
    assert(files.push(next).drop_last() =~= files);
}

} // verus!
