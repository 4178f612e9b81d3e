//! Which image files a selection of files and folders stands for.

use crate::order::{listed, models, sort_distinct};
use crate::paths::{extension_of, path_before, valid_name_of, FilePath, PathModel};
use vstd::prelude::*;

verus! {

/// The attribute of a file that Explorer hides.
pub const HIDDEN: u32 = 2;

/// The attribute of a file of the system's own.
pub const SYSTEM: u32 = 4;

/// An entry of a folder.
pub struct Listed {
    pub path: FilePath,
    pub is_file: bool,
    /// Whether its extension is one that the app reads.
    pub known: bool,
    /// Its attributes, 0 where there are none to read.
    pub attributes: u32,
}

/// An entry of a folder.
pub struct ListedModel {
    pub path: PathModel,
    pub is_file: bool,
    pub known: bool,
    pub attributes: u32,
}

impl View for Listed {
    type V = ListedModel;

    open spec fn view(&self) -> ListedModel {
        ListedModel {
            path: self.path@,
            is_file: self.is_file,
            known: self.known,
            attributes: self.attributes,
        }
    }
}

/// Something that was picked: a folder with its entries, a file, or neither.
pub enum Picked {
    Folder(Vec<Listed>),
    File { path: FilePath, known: bool },
    Neither,
}

/// Something that was picked.
pub enum PickedModel {
    Folder(Seq<ListedModel>),
    File { path: PathModel, known: bool },
    Neither,
}

impl View for Picked {
    type V = PickedModel;

    open spec fn view(&self) -> PickedModel {
        match self {
            Picked::Folder(entries) => PickedModel::Folder(models(entries@)),
            Picked::File { path, known } => PickedModel::File { path: path@, known: *known },
            Picked::Neither => PickedModel::Neither,
        }
    }
}

/// Whether a path is an image's: it has an extension, one that the app reads.
pub open spec fn image(path: PathModel, known: bool) -> bool {
    extension_of(path) is Some && known
}

/// Whether a path is an image's; `known` tells whether the app reads files of
/// its extension.
pub fn is_image(path: &FilePath, known: bool) -> (r: bool)
    ensures
        r == image(path@, known),
{
    path.extension().is_some() && known
}

/// Whether the attributes are those of a hidden or a system file.
pub open spec fn hidden(attributes: u32) -> bool {
    attributes & 6 != 0
}

/// Hidden or system files (Explorer hides them; AppleDouble `._foo.png`
/// sidecars and thumbnail caches are the usual offenders) are skipped when a
/// FOLDER is expanded — never when the user selected the file explicitly.
pub fn is_hidden(attributes: u32) -> (r: bool)
    ensures
        r == hidden(attributes),
        r == (attributes & HIDDEN != 0 || attributes & SYSTEM != 0),
{
    proof {
        assert(attributes & 6 != 0 <==> (attributes & 2 != 0 || attributes & 4 != 0))
            by (bit_vector);
        assert(2u32 | 4u32 == 6u32) by (bit_vector);
    }
    attributes & (HIDDEN | SYSTEM) != 0
}

/// Whether a path's name begins with a full stop.
pub open spec fn dotted(path: PathModel) -> bool {
    &&& valid_name_of(path) matches Some(name)
    &&& name.len() > 0
    &&& name[0] == '.'
}

/// Whether a path's name begins with a full stop.
pub fn is_dotfile(path: &FilePath) -> (r: bool)
    ensures
        r == dotted(path@),
{
    match path.valid_name() {
        Some(name) => {
            let c = crate::text::chars_of(name.as_str());
            c.len() > 0 && c[0] == '.'
        },
        None => false,
    }
}

/// Whether an entry of a folder is taken: a visible image file.
pub open spec fn taken(entry: ListedModel) -> bool {
    &&& entry.is_file
    &&& image(entry.path, entry.known)
    &&& !hidden(entry.attributes)
    &&& !dotted(entry.path)
}

/// The paths of the entries that are taken.
pub open spec fn taken_of(entries: Seq<ListedModel>) -> Seq<PathModel>
    decreases entries.len(),
{
    if entries.len() == 0 {
        seq![]
    } else if taken(entries.last()) {
        taken_of(entries.drop_last()).push(entries.last().path)
    } else {
        taken_of(entries.drop_last())
    }
}

/// The paths that one thing picked stands for.
pub open spec fn stands_for(p: PickedModel) -> Seq<PathModel> {
    match p {
        PickedModel::Folder(entries) => taken_of(entries),
        PickedModel::File { path, known } => if image(path, known) {
            seq![path]
        } else {
            seq![]
        },
        PickedModel::Neither => seq![],
    }
}

/// The paths that a selection stands for, in the order in which they are found.
pub open spec fn found(picked: Seq<PickedModel>) -> Seq<PathModel>
    decreases picked.len(),
{
    if picked.len() == 0 {
        seq![]
    } else {
        found(picked.drop_last()) + stands_for(picked.last())
    }
}

fn add_entries(out: &mut Vec<FilePath>, entries: &Vec<Listed>)
    ensures
        models(final(out)@) == models(old(out)@) + taken_of(models(entries@)),
{
    let ghost before = models(out@);
    let ghost e = models(entries@);
    let mut i: usize = 0;
    assert(models(out@) =~= before + taken_of(e.take(0)));
    while i < entries.len()
        invariant
            i <= entries.len(),
            e == models(entries@),
            models(out@) == before + taken_of(e.take(i as int)),
        decreases entries.len() - i,
    {
        let ghost o = models(out@);
        let entry = &entries[i];
        assert(e[i as int] == entry@);
        assert(e.take(i + 1).drop_last() =~= e.take(i as int));
        if entry.is_file && is_image(&entry.path, entry.known) && !is_hidden(entry.attributes)
            && !is_dotfile(&entry.path) {
            out.push(entry.path.clone());
            assert(models(out@) =~= o.push(entry.path@));
        }
        assert(models(out@) =~= before + taken_of(e.take(i + 1)));
        i += 1;
    }
    assert(e.take(i as int) =~= e);
}

/// Expand a mix of files and folders into a flat, de-duplicated list of image
/// files, in order. Folders are scanned one level deep; hidden, system and
/// dot-files inside them are skipped.
pub fn collect_images(picked: &Vec<Picked>) -> (r: Vec<FilePath>)
    ensures
        listed::<FilePath>(models(r@)),
        models(r@).to_set() == found(models(picked@)).to_set(),
{
    let ghost p = models(picked@);
    let mut out: Vec<FilePath> = Vec::new();
    let mut i: usize = 0;
    assert(models(out@) =~= found(p.take(0)));
    while i < picked.len()
        invariant
            i <= picked.len(),
            p == models(picked@),
            models(out@) == found(p.take(i as int)),
        decreases picked.len() - i,
    {
        let ghost o = models(out@);
        assert(p[i as int] == picked[i as int]@);
        assert(p.take(i + 1).drop_last() =~= p.take(i as int));
        match &picked[i] {
            Picked::Folder(entries) => add_entries(&mut out, entries),
            Picked::File { path, known } => {
                if is_image(path, *known) {
                    out.push(path.clone());
                    assert(models(out@) =~= o + seq![path@]);
                }
            },
            Picked::Neither => {},
        }
        assert(models(out@) =~= found(p.take(i + 1)));
        i += 1;
    }
    assert(p.take(i as int) =~= p);
    sort_distinct(&out)
}

/// An image file that was selected itself is collected, hidden or not.
pub proof fn an_explicit_selection_wins(picked: Seq<PickedModel>, i: int)
    requires
        0 <= i < picked.len(),
        picked[i] is File,
        image(picked[i]->path, picked[i]->known),
    ensures
        found(picked).contains(picked[i]->path),
    decreases picked.len(),
{
    let rest = found(picked.drop_last());
    let path = picked[i]->path;
    if i == picked.len() - 1 {
        assert(found(picked)[rest.len() as int] == path);
    } else {
        assert(picked.drop_last()[i] == picked[i]);
        an_explicit_selection_wins(picked.drop_last(), i);
        let k = choose|k: int| 0 <= k < rest.len() && rest[k] == path;
        assert(found(picked)[k] == path);
    }
}

/// Whether one thing picked stands for a path: a selected image, or a visible
/// image file of a selected folder.
pub open spec fn brings(p: PickedModel, path: PathModel) -> bool {
    match p {
        PickedModel::File { path: q, known } => q == path && image(path, known),
        PickedModel::Folder(entries) => exists|k: int|
            0 <= k < entries.len() && (#[trigger] entries[k]).path == path && taken(entries[k]),
        PickedModel::Neither => false,
    }
}

/// Nothing but images is collected, and of a folder only its visible ones.
pub proof fn only_visible_images_are_collected(picked: Seq<PickedModel>, path: PathModel)
    requires
        found(picked).contains(path),
    ensures
        extension_of(path) is Some,
        exists|i: int| 0 <= i < picked.len() && brings(#[trigger] picked[i], path),
    decreases picked.len(),
{
    let at = choose|at: int| 0 <= at < found(picked).len() && found(picked)[at] == path;
    let rest = found(picked.drop_last());
    if at < rest.len() {
        assert(rest[at] == path);
        only_visible_images_are_collected(picked.drop_last(), path);
        let i = choose|i: int|
            0 <= i < picked.drop_last().len() && brings(#[trigger] picked.drop_last()[i], path);
        assert(brings(picked[i], path));
    } else {
        let last = stands_for(picked.last());
        assert(last[at - rest.len()] == path);
        match picked.last() {
            PickedModel::Folder(entries) => lemma_taken(entries, at - rest.len()),
            _ => {},
        }
        assert(brings(picked[picked.len() - 1], path));
    }
}

proof fn lemma_taken(entries: Seq<ListedModel>, at: int)
    requires
        0 <= at < taken_of(entries).len(),
    ensures
        exists|k: int|
            0 <= k < entries.len() && (#[trigger] entries[k]).path == taken_of(entries)[at]
                && taken(entries[k]),
    decreases entries.len(),
{
    let rest = taken_of(entries.drop_last());
    if at < rest.len() {
        lemma_taken(entries.drop_last(), at);
        let k = choose|k: int|
            0 <= k < entries.drop_last().len() && (#[trigger] entries.drop_last()[k]).path
                == rest[at] && taken(entries.drop_last()[k]);
        assert(entries[k].path == rest[at]);
    } else {
        assert(taken(entries[entries.len() - 1]));
    }
}

/// What one thing picked stands for is found, whatever else is picked.
proof fn lemma_found(picked: Seq<PickedModel>, i: int, path: PathModel)
    requires
        0 <= i < picked.len(),
        stands_for(picked[i]).contains(path),
    ensures
        found(picked).contains(path),
    decreases picked.len(),
{
    let before = found(picked.drop_last());
    let here = stands_for(picked.last());
    if i == picked.len() - 1 {
        let k = here.index_of(path);
        assert(found(picked)[before.len() + k] == path);
    } else {
        lemma_found(picked.drop_last(), i, path);
        let k = before.index_of(path);
        assert(found(picked)[k] == path);
    }
}

/// An entry that is taken is among those of its folder.
proof fn lemma_entry_taken(entries: Seq<ListedModel>, k: int)
    requires
        0 <= k < entries.len(),
        taken(entries[k]),
    ensures
        taken_of(entries).contains(entries[k].path),
    decreases entries.len(),
{
    let rest = taken_of(entries.drop_last());
    if k == entries.len() - 1 {
        assert(taken_of(entries)[rest.len() as int] == entries[k].path);
    } else {
        lemma_entry_taken(entries.drop_last(), k);
        let n = rest.index_of(entries[k].path);
        assert(taken_of(entries)[n] == entries[k].path);
    }
}

/// Neither bit of the two set is neither of them set.
proof fn lemma_visible(attributes: u32)
    ensures
        attributes & 2 == 0 && attributes & 4 == 0 <==> attributes & 6 == 0,
{
    assert(attributes & 2 == 0 && attributes & 4 == 0 <==> attributes & 6 == 0) by (bit_vector);
}

/// Every visible image file that a selected folder holds is collected, whatever
/// else is selected: an entry that is a file, has an extension, one that the app
/// reads, is neither hidden nor the system's, and whose name does not begin with
/// a full stop.
pub proof fn a_folder_brings_all_its_visible_images(
    picked: &Vec<Picked>,
    r: Vec<FilePath>,
    i: int,
    k: int,
)
    requires
        call_ensures(collect_images, (picked,), r),
        0 <= i < picked.len(),
    ensures
        picked[i] matches Picked::Folder(entries) ==> {
            &&& 0 <= k < entries.len()
            &&& entries[k].is_file
            &&& entries[k].known
            &&& extension_of(entries[k].path@) is Some
            &&& entries[k].attributes & 2 == 0
            &&& entries[k].attributes & 4 == 0
            &&& !(valid_name_of(entries[k].path@) matches Some(name) && name.len() > 0 && name[0]
                == '.')
        } ==> exists|n: int| 0 <= n < r.len() && (#[trigger] r[n])@ == entries[k].path@,
{
    if let Picked::Folder(entries) = picked[i] {
        let e = entries[k];
        lemma_visible(e.attributes);
        if 0 <= k < entries.len() && taken(e@) {
            let m = models(entries@);
            assert(m[k] == e@);
            lemma_entry_taken(m, k);
            assert(models(picked@)[i] == picked[i]@);
            lemma_found(models(picked@), i, e.path@);
            assert(found(models(picked@)).to_set().contains(e.path@));
            assert(models(r@).to_set().contains(e.path@));
            let n = models(r@).index_of(e.path@);
            assert(r[n]@ == e.path@);
        }
    }
}

/// A selected file with an extension that the app reads is collected, whatever
/// else is selected, hidden or not.
pub proof fn a_selected_image_is_collected(picked: &Vec<Picked>, r: Vec<FilePath>, i: int)
    requires
        call_ensures(collect_images, (picked,), r),
        0 <= i < picked.len(),
    ensures
        picked[i] matches Picked::File { path, known } ==> known && extension_of(path@) is Some
            ==> exists|n: int| 0 <= n < r.len() && (#[trigger] r[n])@ == path@,
{
    if let Picked::File { path, known } = picked[i] {
        if known && extension_of(path@) is Some {
            assert(models(picked@)[i] == picked[i]@);
            assert(stands_for(picked[i]@)[0] == path@);
            lemma_found(models(picked@), i, path@);
            assert(found(models(picked@)).to_set().contains(path@));
            assert(models(r@).to_set().contains(path@));
            let n = models(r@).index_of(path@);
            assert(r[n]@ == path@);
        }
    }
}

/// Whatever is collected was selected: the path is that of a selected file, or of
/// a file that a selected folder holds, neither hidden nor the system's, whose
/// name does not begin with a full stop. It has an extension, one that the app
/// reads.
pub proof fn whatever_is_collected_was_selected(picked: &Vec<Picked>, r: Vec<FilePath>, n: int)
    requires
        call_ensures(collect_images, (picked,), r),
        0 <= n < r.len(),
    ensures
        extension_of(r[n]@) is Some,
        exists|i: int|
            0 <= i < picked.len() && match #[trigger] picked[i] {
                Picked::File { path, known } => path@ == r[n]@ && known,
                Picked::Folder(entries) => exists|k: int|
                    {
                        &&& 0 <= k < entries.len()
                        &&& (#[trigger] entries[k]).path@ == r[n]@
                        &&& entries[k].is_file && entries[k].known
                        &&& entries[k].attributes & 2 == 0 && entries[k].attributes & 4 == 0
                        &&& !(valid_name_of(r[n]@) matches Some(name) && name.len() > 0 && name[0]
                            == '.')
                    },
                Picked::Neither => false,
            },
{
    let path = r[n]@;
    let all = models(picked@);
    assert(models(r@)[n] == path);
    assert(models(r@).to_set().contains(path));
    assert(found(all).to_set().contains(path));
    only_visible_images_are_collected(all, path);
    let i = choose|i: int| 0 <= i < all.len() && brings(#[trigger] all[i], path);
    assert(all[i] == picked[i]@);
    if let Picked::Folder(entries) = picked[i] {
        let m = models(entries@);
        let k = choose|k: int|
            0 <= k < m.len() && (#[trigger] m[k]).path == path && taken(m[k]);
        assert(m[k] == entries[k]@);
        lemma_visible(entries[k].attributes);
    }
}

/// What is collected comes in order, each path once.
pub proof fn what_is_collected_comes_in_order(
    picked: &Vec<Picked>,
    r: Vec<FilePath>,
    i: int,
    j: int,
)
    requires
        call_ensures(collect_images, (picked,), r),
        0 <= i < j < r.len(),
    ensures
        path_before(r[i]@, r[j]@),
{
    assert(models(r@)[i] == r[i]@ && models(r@)[j] == r[j]@);
}

} // verus!
