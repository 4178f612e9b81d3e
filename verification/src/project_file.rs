//! Reopening a video project: the timeline rows, the tracks and the media bin
//! that come from what the engine holds, and what to say of what was saved or
//! could not be found.

use crate::clip::{
    fresh_row, no_picture, opt_model, Asset, AssetModel, ClipKind, ClipRecord, Picture, RecordModel,
    RowModel, SequenceModel, SequenceSpec, TimelineClip,
};
use crate::dialogs::{name_lines, name_list, show_error, show_info, Dialog, DialogModel};
use crate::order::models;
use crate::paths::{name_of, FilePath, PathModel};
use crate::sorted_map::SortedMap;
use crate::text::{
    after_last, before_first, begins_with, chars_of, concat, decimal, find_from, lowercase,
    first_place, last_place, past_last, push_decimal, starts_with, text_between,
};
use crate::timeline_laws::put_all;
use crate::timeline_rows::{clip_ids, distinct_clips, mirrors, track_rows};
use vstd::prelude::*;

verus! {

/// What the URI of an image sequence begins with.
pub open spec fn sequence_scheme() -> Seq<char> {
    "imagesequence://"@
}

/// The extension of the file that a URI names, in lower case. A query on a
/// plain file URI is no part of the extension: `.png?x=1` is still a PNG.
pub open spec fn extension_of(uri: Seq<char>) -> Seq<char> {
    lowercase(before_first(after_last(uri, '.'), '?'))
}

/// The extension of the file that a URI names, in lower case.
pub fn uri_extension(uri: &str) -> (r: String)
    ensures
        r@ == extension_of(uri@),
{
    let text = chars_of(uri);
    let start: usize = past_last(&text, '.');
    let end: usize = find_from(&text, start, '?');
    let ext = text_between(&text, start, end);
    assert(ext@ =~= before_first(after_last(uri@, '.'), '?'));
    ext.as_str().to_lowercase()
}

/// What a URI says its clip is, where `image` tells whether its extension is
/// one of an image.
pub open spec fn kind_for(uri: Seq<char>, image: bool) -> ClipKind {
    if begins_with(uri, sequence_scheme()) {
        ClipKind::Sequence
    } else if image {
        ClipKind::Image
    } else {
        ClipKind::Video
    }
}

/// What a saved URI is, for the clip's colour on the timeline. `image` tells
/// whether [`uri_extension`] of it is the extension of an image.
pub fn kind_of(uri: &str, image: bool) -> (r: ClipKind)
    ensures
        r == kind_for(uri@, image),
{
    if starts_with(uri, "imagesequence://") {
        ClipKind::Sequence
    } else if image {
        ClipKind::Image
    } else {
        ClipKind::Video
    }
}

/// "cut.kuvatin", for the label above the media bin.
pub fn file_label(path: &FilePath) -> (r: String)
    ensures
        r@ == name_of(path@),
{
    path.name_or_empty()
}

/// A clip of a saved project: its name, the file it comes from where its URI
/// names one, and the sequence it is.
pub struct SavedClip {
    pub name: String,
    pub source: Option<FilePath>,
    pub sequence: Option<SequenceSpec>,
}

/// A clip of a saved project.
pub struct SavedModel {
    pub name: Seq<char>,
    pub source: Option<PathModel>,
    pub sequence: Option<SequenceModel>,
}

impl View for SavedClip {
    type V = SavedModel;

    open spec fn view(&self) -> SavedModel {
        SavedModel {
            name: self.name@,
            source: opt_model(self.source),
            sequence: opt_model(self.sequence),
        }
    }
}

impl SavedModel {
    /// The path of the clip in the media bin: its sequence's first frame, else
    /// its file. A source that is neither cannot be re-added from the bin.
    pub open spec fn bin_path(self) -> Option<PathModel> {
        match self.sequence {
            Some(spec) => Some(spec.first),
            None => self.source,
        }
    }
}

/// An entry of the media bin.
pub struct BinModel {
    pub path: PathModel,
    pub name: Seq<char>,
}

/// The rows of the media bin, with no picture yet.
pub open spec fn bin_rows(bin: Seq<BinModel>) -> Seq<AssetModel> {
    bin.map_values(|b: BinModel| AssetModel { name: b.name, thumb: no_picture() })
}

/// The paths of the media bin.
pub open spec fn bin_paths(bin: Seq<BinModel>) -> Seq<PathModel> {
    bin.map_values(|b: BinModel| b.path)
}

/// The media bin of a project: one row per distinct source, under the name of
/// the first clip from it.
pub open spec fn bin_of(clips: Seq<SavedModel>) -> Seq<BinModel>
    decreases clips.len(),
{
    if clips.len() == 0 {
        seq![]
    } else {
        let rest = bin_of(clips.drop_last());
        match clips.last().bin_path() {
            Some(path) => if bin_paths(rest).contains(path) {
                rest
            } else {
                rest.push(BinModel { path, name: clips.last().name })
            },
            None => rest,
        }
    }
}

/// The sequences of a project, by their first frames.
pub open spec fn sequences_of(clips: Seq<SavedModel>) -> Map<PathModel, SequenceModel>
    decreases clips.len(),
{
    if clips.len() == 0 {
        Map::empty()
    } else {
        match clips.last().sequence {
            Some(spec) => sequences_of(clips.drop_last()).insert(spec.first, spec),
            None => sequences_of(clips.drop_last()),
        }
    }
}

/// The tracks that records need: as many as the deepest clip uses, and never
/// fewer than the two an empty project starts with.
pub open spec fn tracks_needed(records: Seq<(Seq<char>, RecordModel)>) -> nat
    decreases records.len(),
{
    if records.len() == 0 {
        2
    } else {
        let rest = tracks_needed(records.drop_last());
        if records.last().1.track + 1 > rest {
            (records.last().1.track + 1) as nat
        } else {
            rest
        }
    }
}

/// The models of a reopened project.
pub struct Restored {
    pub rows: Vec<TimelineClip>,
    pub tracks: Vec<String>,
    /// The paths of the media bin, and its rows, in lockstep.
    pub bin: Vec<FilePath>,
    pub assets: Vec<Asset>,
    pub sequences: SortedMap<FilePath, SequenceSpec>,
}

/// A fresh row for each record, in the engine's order.
pub open spec fn fresh_rows(records: Seq<(Seq<char>, RecordModel)>) -> Seq<RowModel> {
    records.map_values(|e: (Seq<char>, RecordModel)| fresh_row(e.0, e.1))
}

fn is_in_bin(bin: &Vec<FilePath>, path: &FilePath) -> (r: bool)
    ensures
        r == models(bin@).contains(path@),
{
    let mut i: usize = 0;
    while i < bin.len()
        invariant
            i <= bin.len(),
            forall|j: int| 0 <= j < i ==> (#[trigger] models(bin@)[j]) != path@,
        decreases bin.len() - i,
    {
        assert(models(bin@)[i as int] == bin[i as int]@);
        if bin[i].same(path) {
            return true;
        }
        i += 1;
    }
    false
}

/// Rebuild the timeline rows, the track list and the media bin from a project
/// the engine has just applied: `records` are its clips, `clips` what was
/// saved. Thumbnails arrive afterwards.
pub fn restore_models(records: &Vec<(String, ClipRecord)>, clips: &Vec<SavedClip>) -> (r: Restored)
    requires
        forall|i: int| 0 <= i < records.len() ==> (#[trigger] records[i]).1.track < usize::MAX,
    ensures
        models(r.rows@) == fresh_rows(models(records@)),
        models(r.tracks@) == track_rows(seq![], tracks_needed(models(records@))),
        models(r.bin@) == bin_paths(bin_of(models(clips@))),
        models(r.assets@) == bin_rows(bin_of(models(clips@))),
        r.sequences.wf(),
        r.sequences@ == sequences_of(models(clips@)),
{
    let ghost rs = models(records@);
    // Timeline rows, in the engine's order, and the tracks they need.
    let mut rows: Vec<TimelineClip> = Vec::new();
    let mut needed: usize = 2;
    let mut i: usize = 0;
    while i < records.len()
        invariant
            i <= records.len(),
            rs == models(records@),
            forall|k: int| 0 <= k < records.len() ==> (#[trigger] records[k]).1.track < usize::MAX,
            models(rows@) == fresh_rows(rs.take(i as int)),
            needed == tracks_needed(rs.take(i as int)),
        decreases records.len() - i,
    {
        let ghost r0 = models(rows@);
        let (id, record) = &records[i];
        assert(rs[i as int] == (id@, record@));
        assert(rs.take(i + 1).drop_last() =~= rs.take(i as int));
        rows.push(TimelineClip::fresh(id, record));
        assert(models(rows@) =~= r0.push(fresh_row(id@, record@)));
        assert(models(rows@) =~= fresh_rows(rs.take(i + 1)));
        if record.track + 1 > needed {
            needed = record.track + 1;
        }
        i += 1;
    }
    assert(rs.take(i as int) =~= rs);
    let mut tracks: Vec<String> = Vec::new();
    assert(models(tracks@) =~= Seq::<Seq<char>>::empty());
    crate::timeline_rows::set_track_rows(&mut tracks, needed);

    // Media bin: one row per distinct source, and the sequence specs come back
    // with it so a bin click re-adds the sequence rather than a single still.
    let ghost cs = models(clips@);
    let mut bin: Vec<FilePath> = Vec::new();
    let mut assets: Vec<Asset> = Vec::new();
    let mut sequences: SortedMap<FilePath, SequenceSpec> = SortedMap::new();
    let mut k: usize = 0;
    assert(models(bin@) =~= bin_paths(bin_of(cs.take(0))));
    assert(models(assets@) =~= bin_rows(bin_of(cs.take(0))));
    while k < clips.len()
        invariant
            k <= clips.len(),
            cs == models(clips@),
            models(bin@) == bin_paths(bin_of(cs.take(k as int))),
            models(assets@) == bin_rows(bin_of(cs.take(k as int))),
            sequences.wf(),
            sequences@ == sequences_of(cs.take(k as int)),
        decreases clips.len() - k,
    {
        let ghost b0 = models(bin@);
        let ghost a0 = models(assets@);
        let ghost rest = bin_of(cs.take(k as int));
        let clip = &clips[k];
        assert(cs[k as int] == clip@);
        assert(cs.take(k + 1).drop_last() =~= cs.take(k as int));
        let path = match &clip.sequence {
            Some(spec) => {
                sequences.insert(spec.first.clone(), spec.clone());
                Some(spec.first.clone())
            },
            None => match &clip.source {
                Some(p) => Some(p.clone()),
                None => None,
            },
        };
        if let Some(path) = path {
            if !is_in_bin(&bin, &path) {
                let ghost p = path@;
                bin.push(path);
                assets.push(Asset { name: clip.name.clone(), thumb: Picture { id: 0, width: 0 } });
                assert(models(bin@) =~= b0.push(p));
                let ghost row = AssetModel { name: clip.name@, thumb: no_picture() };
                assert(models(assets@) =~= a0.push(row));
                assert(bin_paths(rest.push(BinModel { path: p, name: clip.name@ }))
                    =~= bin_paths(rest).push(p));
                assert(bin_rows(rest.push(BinModel { path: p, name: clip.name@ }))
                    =~= bin_rows(rest).push(row));
            }
        }
        k += 1;
    }
    assert(cs.take(k as int) =~= cs);
    Restored { rows, tracks, bin, assets, sequences }
}

/// What to say of clips whose source is gone.
pub open spec fn left_out_text(missing: Seq<Seq<char>>) -> Seq<char> {
    if missing.len() == 1 {
        "1 clip left out because its source is missing:\n"@ + name_lines(missing)
    } else {
        decimal(missing.len()) + " clips left out because their sources are missing:\n"@
            + name_lines(missing)
    }
}

/// Clips that a reopened project had to leave out.
pub fn left_out(missing: &Vec<String>) -> (r: Option<Dialog>)
    ensures
        if missing.len() == 0 {
            r is None
        } else {
            r is Some && r->0@ == (DialogModel {
                title: "Some media could not be found"@,
                detail: left_out_text(models(missing@)),
                info: false,
                reveal: seq![],
            })
        },
{
    if missing.len() == 0 {
        return None;
    }
    let names = name_list(missing);
    let mut detail = String::new();
    if missing.len() == 1 {
        detail.append("1 clip left out because its source is missing:\n");
    } else {
        push_decimal(&mut detail, missing.len() as u64);
        detail.append(" clips left out because their sources are missing:\n");
    }
    detail.append(names.as_str());
    assert(detail@ =~= left_out_text(models(missing@)));
    Some(show_error(String::from_str("Some media could not be found"), detail))
}

/// What to say of a saved project.
pub open spec fn saved_text(path: Seq<char>, clips: nat) -> Seq<char> {
    path + "\n\n"@ + decimal(clips) + if clips == 1 {
        " clip on the timeline."@
    } else {
        " clips on the timeline."@
    }
}

/// A project was saved to `path` with that many clips.
pub fn saved(path: &str, clips: usize) -> (r: Dialog)
    ensures
        r@ == (DialogModel {
            title: "Project saved"@,
            detail: saved_text(path@, clips as nat),
            info: true,
            reveal: seq![],
        }),
{
    let mut detail = concat(path, "\n\n");
    push_decimal(&mut detail, clips as u64);
    if clips == 1 {
        detail.append(" clip on the timeline.");
    } else {
        detail.append(" clips on the timeline.");
    }
    show_info(String::from_str("Project saved"), detail)
}

/// What to say where there is nothing to save; none where there is a project.
pub fn nothing_to_save(project: bool) -> (r: Option<Dialog>)
    ensures
        if project {
            r is None
        } else {
            r matches Some(d) && d@ == (DialogModel {
                title: "Nothing to save"@,
                detail: "Add a clip to the timeline first."@,
                info: false,
                reveal: seq![],
            })
        },
{
    if project {
        return None;
    }
    Some(
        show_error(
            String::from_str("Nothing to save"),
            String::from_str("Add a clip to the timeline first."),
        ),
    )
}

/// The file to save to without asking: the one the project was last saved to or
/// opened from, unless the user wants to be asked.
pub fn save_target(current: &Option<FilePath>, ask_where: bool) -> (r: Option<FilePath>)
    ensures
        opt_model(r) == if ask_where {
            None
        } else {
            opt_model(*current)
        },
{
    if ask_where {
        return None;
    }
    match current {
        Some(path) => Some(path.clone()),
        None => None,
    }
}

/// Whether opening a project asks first: it replaces what is on the timeline,
/// so a timeline with anything on it does.
pub fn asks_before_opening(rows: usize) -> (r: bool)
    ensures
        r == (rows > 0),
{
    rows > 0
}

/// A sequence in the bin, and the URI that it is played by.
pub struct KnownSequence {
    pub uri: String,
    pub spec: SequenceSpec,
}

impl View for KnownSequence {
    type V = (Seq<char>, SequenceModel);

    open spec fn view(&self) -> (Seq<char>, SequenceModel) {
        (self.uri@, self.spec@)
    }
}

/// The sequence with that URI, the first of those known.
pub open spec fn known(
    sequences: Seq<(Seq<char>, SequenceModel)>,
    uri: Seq<char>,
) -> Option<SequenceModel>
    decreases sequences.len(),
{
    if sequences.len() == 0 {
        None
    } else if sequences[0].0 == uri {
        Some(sequences[0].1)
    } else {
        known(sequences.drop_first(), uri)
    }
}

/// The sequence of a clip to be saved. A sequence clip's URI puts it back on
/// the timeline, but only the spec can put it back in the media bin, and only
/// this side still has it. A clip that is no sequence keeps what it has.
pub fn sequence_to_save(
    record: &ClipRecord,
    sequences: &Vec<KnownSequence>,
) -> (r: Option<SequenceSpec>)
    ensures
        opt_model(r) == if begins_with(record.uri@, sequence_scheme()) {
            known(models(sequences@), record.uri@)
        } else {
            record@.sequence
        },
{
    if !starts_with(record.uri.as_str(), "imagesequence://") {
        return match &record.sequence {
            Some(s) => Some(s.clone()),
            None => None,
        };
    }
    let ghost m = models(sequences@);
    let mut i: usize = 0;
    assert(m.skip(0) =~= m);
    while i < sequences.len()
        invariant
            i <= sequences.len(),
            m == models(sequences@),
            begins_with(record.uri@, sequence_scheme()),
            known(m, record.uri@) == known(m.skip(i as int), record.uri@),
        decreases sequences.len() - i,
    {
        assert(m[i as int] == (sequences[i as int].uri@, sequences[i as int].spec@));
        assert(m.skip(i as int)[0] == m[i as int]);
        assert(m.skip(i as int).drop_first() =~= m.skip(i + 1));
        if sequences[i].uri == record.uri {
            return Some(sequences[i].spec.clone());
        }
        i += 1;
    }
    assert(m.skip(i as int).len() == 0);
    None
}

// ---------------------------------------------------------------------------
// Laws
// ---------------------------------------------------------------------------

/// The media bin of a reopened project has one row per source: no path twice.
pub proof fn a_source_is_in_the_bin_once(clips: Seq<SavedModel>)
    ensures
        forall|i: int, j: int|
            0 <= i < j < bin_of(clips).len() ==> (#[trigger] bin_of(clips)[i]).path != (
            #[trigger] bin_of(clips)[j]).path,
    decreases clips.len(),
{
    if clips.len() > 0 {
        let rest = bin_of(clips.drop_last());
        let bin = bin_of(clips);
        a_source_is_in_the_bin_once(clips.drop_last());
        assert forall|i: int, j: int| 0 <= i < j < bin.len() implies (#[trigger] bin[i]).path != (
        #[trigger] bin[j]).path by {
            assert(bin[i] == rest[i]);
            if j < rest.len() {
                assert(bin[j] == rest[j]);
                assert(rest[i].path != rest[j].path);
            } else {
                assert(bin_paths(rest)[i] == rest[i].path);
            }
        }
    }
}

/// Every clip of a reopened project lies on a track that is shown, and there
/// are at least two.
pub proof fn every_clip_has_a_track(records: Seq<(Seq<char>, RecordModel)>, i: int)
    requires
        0 <= i < records.len(),
    ensures
        records[i].1.track < tracks_needed(records),
        tracks_needed(records) >= 2,
    decreases records.len(),
{
    if i < records.len() - 1 {
        every_clip_has_a_track(records.drop_last(), i);
        assert(records.drop_last()[i] == records[i]);
    } else {
        lemma_two_tracks(records.drop_last());
    }
}

proof fn lemma_two_tracks(records: Seq<(Seq<char>, RecordModel)>)
    ensures
        tracks_needed(records) >= 2,
    decreases records.len(),
{
    if records.len() > 0 {
        lemma_two_tracks(records.drop_last());
    }
}

/// The rows of a reopened project show what the engine holds.
pub proof fn reopened_rows_mirror_the_engine(records: Seq<(Seq<char>, RecordModel)>)
    requires
        distinct_clips(records),
    ensures
        mirrors(fresh_rows(records), put_all(Map::empty(), records)),
{
    crate::timeline_rows::lemma_engine_map(records);
    let rows = fresh_rows(records);
    let e = put_all(Map::<Seq<char>, RecordModel>::empty(), records);
    assert forall|i: int, j: int| 0 <= i < j < rows.len() implies (#[trigger] rows[i]).id != (
    #[trigger] rows[j]).id by {
        assert(records[i].0 != records[j].0);
    }
    assert forall|i: int| 0 <= i < rows.len() implies e.dom().contains((#[trigger] rows[i]).id)
        && rows[i] == rows[i].placed(rows[i].id, e[rows[i].id]) by {
        assert(rows[i] == fresh_row(records[i].0, records[i].1));
        assert(clip_ids(records)[i] == records[i].0);
        assert(clip_ids(records).contains(records[i].0));
        assert(e[records[i].0] == records[i].1);
    }
    assert forall|id: Seq<char>| #[trigger] e.dom().contains(id) implies exists|i: int|
        0 <= i < rows.len() && (#[trigger] rows[i]).id == id by {
        assert(clip_ids(records).contains(id));
        let i = choose|i: int| 0 <= i < clip_ids(records).len() && clip_ids(records)[i] == id;
        assert(rows[i].id == id);
    }
}

/// The extension of a URI is what stands between its last full stop and the first
/// question mark after it, in lower case; where there is no full stop it is all that
/// stands before the question mark.
pub proof fn an_extension_ends_at_a_question_mark(uri: &str, r: String, i: int, j: int)
    requires
        call_ensures(uri_extension, (uri,), r),
        0 <= i <= j <= uri@.len(),
        i > 0 ==> uri@[i - 1] == '.',
        forall|k: int| i <= k < uri@.len() ==> (#[trigger] uri@[k]) != '.',
        j < uri@.len() ==> uri@[j] == '?',
        forall|k: int| i <= k < j ==> (#[trigger] uri@[k]) != '?',
    ensures
        r@ == lowercase(uri@.subrange(i, j)),
{
    let t = uri@;
    lemma_last_place_is(t, '.', i - 1);
    let rest = t.skip(i);
    assert(after_last(t, '.') == rest);
    assert forall|k: int| 0 <= k < j - i implies (#[trigger] rest[k]) != '?' by {
        assert(rest[k] == t[i + k]);
    }
    if j < t.len() {
        assert(rest[j - i] == t[j]);
    }
    lemma_first_place_is(rest, '?', j - i);
    assert(before_first(rest, '?') =~= t.subrange(i, j));
}

proof fn lemma_last_place_is(text: Seq<char>, c: char, at: int)
    requires
        -1 <= at < text.len(),
        at >= 0 ==> text[at] == c,
        forall|k: int| at < k < text.len() ==> (#[trigger] text[k]) != c,
    ensures
        last_place(text, c) == at,
    decreases text.len(),
{
    if text.len() > 0 && at < text.len() - 1 {
        assert(text[text.len() - 1] != c);
        let less = text.drop_last();
        assert forall|k: int| at < k < less.len() implies (#[trigger] less[k]) != c by {
            assert(less[k] == text[k]);
        }
        lemma_last_place_is(less, c, at);
    }
}

proof fn lemma_first_place_is(text: Seq<char>, c: char, at: int)
    requires
        0 <= at <= text.len(),
        at < text.len() ==> text[at] == c,
        forall|k: int| 0 <= k < at ==> (#[trigger] text[k]) != c,
    ensures
        first_place(text, c) == at,
    decreases text.len(),
{
    if at > 0 {
        assert(text[0] != c);
        let less = text.drop_first();
        assert forall|k: int| 0 <= k < at - 1 implies (#[trigger] less[k]) != c by {
            assert(less[k] == text[k + 1]);
        }
        lemma_first_place_is(less, c, at - 1);
    }
}

/// What begins with the scheme of sequences is a sequence, whatever its extension;
/// of the rest, what has an image's extension is an image, and what has not a video.
pub proof fn a_uri_says_what_its_clip_is(uri: &str, image: bool, r: ClipKind)
    requires
        call_ensures(kind_of, (uri, image), r),
    ensures
        begins_with(uri@, "imagesequence://"@) ==> r is Sequence,
        !begins_with(uri@, "imagesequence://"@) && image ==> r is Image,
        !begins_with(uri@, "imagesequence://"@) && !image ==> r is Video,
{
}

/// A project is labelled with its file's name.
pub proof fn a_project_is_labelled_by_its_name(path: &FilePath, name: String, r: String)
    requires
        call_ensures(FilePath::name_or_empty, (path,), name),
        call_ensures(file_label, (path,), r),
    ensures
        r@ == name@,
{
}

/// Every clip of a reopened project has a row, in the engine's order, where its record
/// puts it. There are tracks for all of them and at least two, named in order, and no
/// more than it takes.
pub proof fn a_reopened_project_shows_every_clip(
    records: &Vec<(String, ClipRecord)>,
    clips: &Vec<SavedClip>,
    r: Restored,
    i: int,
)
    requires
        call_ensures(restore_models, (records, clips), r),
    ensures
        r.rows.len() == records.len(),
        0 <= i < records.len() ==> {
            let row = r.rows[i];
            let record = records[i].1;
            &&& row.id@ == records[i].0@ && row.name@ == record.name@ && row.kind == record.kind
            &&& record.track <= i32::MAX ==> row.track == record.track
            &&& row.start == record.start && row.duration == record.duration
            &&& row.inpoint == record.inpoint && row.rate == record.rate
            &&& !row.selected && row.thumb.width == 0 && row.wave is None
            &&& record.track < r.tracks.len()
        },
        r.tracks.len() >= 2,
        r.tracks.len() == 2 || exists|k: int|
            0 <= k < records.len() && (#[trigger] records[k]).1.track + 1 == r.tracks.len(),
        0 <= i < r.tracks.len() ==> r.tracks[i]@ == "Track "@ + decimal((i + 1) as nat),
{
    let e = models(records@);
    let rows = models(r.rows@);
    assert(e.len() == records.len() && rows.len() == r.rows.len());
    assert(models(r.tracks@).len() == r.tracks.len());
    lemma_two_tracks(e);
    lemma_deepest(e);
    if 0 <= i < records.len() {
        assert(e[i] == records[i]@);
        assert(rows[i] == r.rows[i]@);
        every_clip_has_a_track(e, i);
        let row = r.rows[i];
        assert(row@.id == row.id@ && row@.name == row.name@ && row@.kind == row.kind);
        assert(row@.track == row.track && row@.start == row.start);
        assert(row@.duration == row.duration && row@.inpoint == row.inpoint);
        assert(row@.rate == row.rate && row@.selected == row.selected);
        assert(row@.thumb == row.thumb && row@.wave == row.wave);
    }
    if r.tracks.len() != 2 {
        let k = choose|k: int| 0 <= k < e.len() && (#[trigger] e[k]).1.track + 1 == tracks_needed(e);
        assert(e[k] == records[k]@);
        assert(records[k].1.track + 1 == r.tracks.len());
    }
    if 0 <= i < r.tracks.len() {
        assert(models(r.tracks@)[i] == r.tracks[i]@);
    }
}

proof fn lemma_deepest(records: Seq<(Seq<char>, RecordModel)>)
    ensures
        tracks_needed(records) == 2 || exists|k: int|
            0 <= k < records.len() && (#[trigger] records[k]).1.track + 1 == tracks_needed(records),
    decreases records.len(),
{
    if records.len() > 0 {
        let less = records.drop_last();
        lemma_deepest(less);
        assert(records[records.len() - 1] == records.last());
        if tracks_needed(records) == tracks_needed(less) && tracks_needed(less) != 2 {
            let k = choose|k: int|
                0 <= k < less.len() && (#[trigger] less[k]).1.track + 1 == tracks_needed(less);
            assert(records[k] == less[k]);
        }
    }
}

/// The path by which a saved clip is in the bin: its sequence's first frame, or its
/// file.
pub open spec fn bin_path_of(clip: SavedClip) -> Option<PathModel> {
    if clip.sequence is Some {
        Some(clip.sequence->0.first@)
    } else if clip.source is Some {
        Some(clip.source->0@)
    } else {
        None
    }
}

/// Whether the first clip of a source is at `i`.
pub open spec fn first_of_source(clips: Seq<SavedClip>, path: PathModel, i: int) -> bool {
    &&& 0 <= i < clips.len()
    &&& bin_path_of(clips[i]) == Some(path)
    &&& forall|j: int| 0 <= j < i ==> bin_path_of(#[trigger] clips[j]) != Some(path)
}

/// Whether an entry of the bin is named after the first clip of its source.
spec fn named_after(clips: Seq<SavedClip>, entry: BinModel) -> bool {
    exists|i: int| #[trigger]
        first_of_source(clips, entry.path, i) && entry.name == clips[i].name@
}

proof fn lemma_bin(clips: Seq<SavedClip>)
    ensures
        forall|i: int|
            0 <= i < clips.len() && bin_path_of(#[trigger] clips[i]) is Some ==> bin_paths(
                bin_of(models(clips)),
            ).contains(bin_path_of(clips[i])->0),
        forall|n: int|
            0 <= n < bin_of(models(clips)).len() ==> named_after(
                clips,
                #[trigger] bin_of(models(clips))[n],
            ),
    decreases clips.len(),
{
    if clips.len() > 0 {
        let less = clips.drop_last();
        lemma_bin(less);
        let m = models(clips);
        let bin = bin_of(m);
        let rest = bin_of(models(less));
        assert(m.drop_last() =~= models(less));
        assert(m.last() == clips.last()@);
        assert(m.last().bin_path() == bin_path_of(clips.last()));
        assert forall|i: int| 0 <= i < clips.len() && bin_path_of(
            #[trigger] clips[i],
        ) is Some implies bin_paths(bin).contains(bin_path_of(clips[i])->0) by {
            let p = bin_path_of(clips[i])->0;
            if i < less.len() {
                assert(less[i] == clips[i]);
                let k = bin_paths(rest).index_of(p);
                assert(bin[k] == rest[k]);
                assert(bin_paths(bin)[k] == p);
            } else if bin_paths(rest).contains(p) {
                assert(bin == rest);
            } else {
                assert(bin_paths(bin)[rest.len() as int] == p);
            }
        }
        assert forall|n: int| 0 <= n < bin.len() implies named_after(clips, #[trigger] bin[n]) by {
            let p = bin[n].path;
            if n < rest.len() {
                assert(rest[n] == bin[n]);
                assert(named_after(less, rest[n]));
                let i = choose|i: int| #[trigger]
                    first_of_source(less, rest[n].path, i) && rest[n].name == less[i].name@;
                assert forall|j: int| 0 <= j < i implies bin_path_of(#[trigger] clips[j])
                    != Some(p) by {
                    assert(less[j] == clips[j]);
                }
                assert(less[i] == clips[i]);
                assert(first_of_source(clips, p, i));
            } else {
                let i = clips.len() - 1;
                assert forall|j: int| 0 <= j < i implies bin_path_of(#[trigger] clips[j])
                    != Some(p) by {
                    assert(less[j] == clips[j]);
                    if bin_path_of(less[j]) == Some(p) {
                        assert(bin_paths(rest).contains(p));
                    }
                }
                assert(first_of_source(clips, p, i));
            }
        }
    }
}

/// The media bin of a reopened project holds the source of every clip that has one,
/// and nothing else, each under the name of the first clip from it; its paths and its
/// rows go together.
pub proof fn the_bin_holds_every_source(
    records: &Vec<(String, ClipRecord)>,
    clips: &Vec<SavedClip>,
    r: Restored,
    i: int,
    n: int,
)
    requires
        call_ensures(restore_models, (records, clips), r),
    ensures
        r.bin.len() == r.assets.len(),
        0 <= i < clips.len() && bin_path_of(clips[i]) is Some ==> exists|k: int|
            0 <= k < r.bin.len() && (#[trigger] r.bin[k])@ == bin_path_of(clips[i])->0,
        0 <= n < r.bin.len() ==> exists|k: int|
            #[trigger] first_of_source(clips@, r.bin[n]@, k) && r.assets[n].name@ == clips[k].name@,
        0 <= n < r.bin.len() ==> r.assets[n].thumb.width == 0,
        0 <= i < n < r.bin.len() ==> r.bin[i]@ != r.bin[n]@,
{
    let m = models(clips@);
    let bin = bin_of(m);
    let paths = models(r.bin@);
    assert(paths == bin_paths(bin));
    assert(paths.len() == r.bin.len() && models(r.assets@).len() == r.assets.len());
    lemma_bin(clips@);
    a_source_is_in_the_bin_once(m);
    if 0 <= i < clips.len() && bin_path_of(clips[i]) is Some {
        assert(bin_path_of(clips@[i]) is Some);
        let k = paths.index_of(bin_path_of(clips[i])->0);
        assert(paths[k] == r.bin[k]@);
    }
    if 0 <= n < r.bin.len() {
        assert(paths[n] == r.bin[n]@);
        assert(paths[n] == bin[n].path);
        assert(models(r.assets@)[n] == r.assets[n]@);
        assert(named_after(clips@, bin[n]));
        let k = choose|k: int| #[trigger]
            first_of_source(clips@, bin[n].path, k) && bin[n].name == clips@[k].name@;
        assert(first_of_source(clips@, r.bin[n]@, k));
        let asset = r.assets[n];
        assert(asset@.name == asset.name@ && asset@.thumb == asset.thumb);
        if 0 <= i < n {
            assert(paths[i] == r.bin[i]@ && paths[i] == bin[i].path);
        }
    }
}

/// The sequences of a reopened project are those of its clips, by their first frames.
pub proof fn every_sequence_is_known_by_its_first_frame(
    records: &Vec<(String, ClipRecord)>,
    clips: &Vec<SavedClip>,
    r: Restored,
    path: PathModel,
    i: int,
)
    requires
        call_ensures(restore_models, (records, clips), r),
    ensures
        r.sequences@.dom().contains(path) <==> exists|k: int|
            0 <= k < clips.len() && (#[trigger] clips[k]).sequence is Some
                && clips[k].sequence->0.first@ == path,
        0 <= i < clips.len() && clips[i].sequence is Some && (forall|j: int|
            i < j < clips.len() && (#[trigger] clips[j]).sequence is Some
                ==> clips[j].sequence->0.first@ != clips[i].sequence->0.first@)
            ==> r.sequences@[clips[i].sequence->0.first@] == clips[i].sequence->0@,
{
    lemma_known(clips@, path);
    if 0 <= i < clips.len() && clips[i].sequence is Some && (forall|j: int|
        i < j < clips.len() && (#[trigger] clips[j]).sequence is Some
            ==> clips[j].sequence->0.first@ != clips[i].sequence->0.first@) {
        assert forall|j: int| i < j < clips@.len() && (#[trigger] clips@[j]).sequence is Some implies clips@[j].sequence->0.first@
            != clips@[i].sequence->0.first@ by {
            assert(clips[j].sequence is Some);
        }
        lemma_last_known(clips@, i);
    }
}

proof fn lemma_known(clips: Seq<SavedClip>, path: PathModel)
    ensures
        sequences_of(models(clips)).dom().contains(path) <==> exists|k: int|
            0 <= k < clips.len() && (#[trigger] clips[k]).sequence is Some
                && clips[k].sequence->0.first@ == path,
    decreases clips.len(),
{
    if clips.len() > 0 {
        let less = clips.drop_last();
        lemma_known(less, path);
        assert(models(clips).drop_last() =~= models(less));
        assert(models(clips).last() == clips.last()@);
        assert(clips[clips.len() - 1] == clips.last());
        if exists|k: int|
            0 <= k < clips.len() && (#[trigger] clips[k]).sequence is Some
                && clips[k].sequence->0.first@ == path {
            let k = choose|k: int|
                0 <= k < clips.len() && (#[trigger] clips[k]).sequence is Some
                    && clips[k].sequence->0.first@ == path;
            if k < less.len() {
                assert(less[k] == clips[k]);
            }
        }
        if exists|k: int|
            0 <= k < less.len() && (#[trigger] less[k]).sequence is Some
                && less[k].sequence->0.first@ == path {
            let k = choose|k: int|
                0 <= k < less.len() && (#[trigger] less[k]).sequence is Some
                    && less[k].sequence->0.first@ == path;
            assert(less[k] == clips[k]);
        }
    }
}

proof fn lemma_last_known(clips: Seq<SavedClip>, i: int)
    requires
        0 <= i < clips.len(),
        clips[i].sequence is Some,
        forall|j: int|
            i < j < clips.len() && (#[trigger] clips[j]).sequence is Some
                ==> clips[j].sequence->0.first@ != clips[i].sequence->0.first@,
    ensures
        sequences_of(models(clips))[clips[i].sequence->0.first@] == clips[i].sequence->0@,
    decreases clips.len(),
{
    let less = clips.drop_last();
    assert(models(clips).drop_last() =~= models(less));
    assert(models(clips).last() == clips.last()@);
    if i < clips.len() - 1 {
        assert forall|j: int| i < j < less.len() && (#[trigger] less[j]).sequence is Some implies less[j].sequence->0.first@
            != less[i].sequence->0.first@ by {
            assert(less[j] == clips[j]);
        }
        lemma_last_known(less, i);
        assert(clips[clips.len() - 1] == clips.last());
        lemma_known(less, clips[i].sequence->0.first@);
    }
}

/// Clips that were left out are counted and listed; without any nothing is said.
pub proof fn clips_left_out_are_listed(missing: &Vec<String>, names: String, r: Option<Dialog>)
    requires
        call_ensures(left_out, (missing,), r),
        call_ensures(name_list, (missing,), names),
    ensures
        r is None <==> missing.len() == 0,
        r is Some ==> r->0.title@ == "Some media could not be found"@ && !r->0.info
            && r->0.reveal@.len() == 0,
        missing.len() == 1 ==> r->0.detail@ == "1 clip left out because its source is missing:\n"@
            + names@,
        missing.len() > 1 ==> r->0.detail@ == decimal(missing.len() as nat)
            + " clips left out because their sources are missing:\n"@ + names@,
{
    assert(models(missing@).len() == missing.len());
    if let Some(d) = r {
        assert(d@.title == d.title@ && d@.detail == d.detail@ && d@.info == d.info);
        assert(d@.reveal == d.reveal@);
    }
}

/// A saved project is told with its path and the number of its clips; where there is
/// none, that there is nothing to save.
pub proof fn a_saved_project_is_told(
    path: &str,
    clips: usize,
    r: Dialog,
    project: bool,
    nothing: Option<Dialog>,
)
    requires
        call_ensures(saved, (path, clips), r),
        call_ensures(nothing_to_save, (project,), nothing),
    ensures
        r.title@ == "Project saved"@ && r.info && r.reveal@.len() == 0,
        clips == 1 ==> r.detail@ == path@ + "\n\n"@ + decimal(1) + " clip on the timeline."@,
        clips != 1 ==> r.detail@ == path@ + "\n\n"@ + decimal(clips as nat)
            + " clips on the timeline."@,
        nothing is None <==> project,
        nothing is Some ==> nothing->0.title@ == "Nothing to save"@ && nothing->0.detail@
            == "Add a clip to the timeline first."@ && !nothing->0.info,
{
    assert(r@.title == r.title@ && r@.detail == r.detail@ && r@.info == r.info);
    assert(r@.reveal == r.reveal@);
    if let Some(d) = nothing {
        assert(d@.title == d.title@ && d@.detail == d.detail@ && d@.info == d.info);
    }
}

/// A project is saved to the file it has, unless the user wants to be asked; and
/// opening one asks first exactly where the timeline holds anything.
pub proof fn a_project_is_saved_where_it_was(
    current: &Option<FilePath>,
    ask_where: bool,
    r: Option<FilePath>,
    rows: usize,
    asks: bool,
)
    requires
        call_ensures(save_target, (current, ask_where), r),
        call_ensures(asks_before_opening, (rows,), asks),
    ensures
        r is Some <==> current is Some && !ask_where,
        r is Some ==> r->0@ == current->0@,
        asks <==> rows > 0,
{
}

proof fn lemma_first_known(sequences: Seq<(Seq<char>, SequenceModel)>, uri: Seq<char>, i: int)
    requires
        0 <= i <= sequences.len(),
        i < sequences.len() ==> sequences[i].0 == uri,
        forall|j: int| 0 <= j < i ==> (#[trigger] sequences[j]).0 != uri,
    ensures
        i < sequences.len() ==> known(sequences, uri) == Some(sequences[i].1),
        i == sequences.len() ==> known(sequences, uri) is None,
    decreases sequences.len(),
{
    if i > 0 {
        assert(sequences[0].0 != uri);
        let less = sequences.drop_first();
        assert forall|j: int| 0 <= j < i - 1 implies (#[trigger] less[j]).0 != uri by {
            assert(less[j] == sequences[j + 1]);
        }
        lemma_first_known(less, uri, i - 1);
    }
}

/// A sequence clip is saved with the first sequence known by its URI, or with none; any
/// other clip with the sequence that its record has.
pub proof fn a_sequence_clip_is_saved_with_its_sequence(
    record: &ClipRecord,
    sequences: &Vec<KnownSequence>,
    r: Option<SequenceSpec>,
    i: int,
)
    requires
        call_ensures(sequence_to_save, (record, sequences), r),
        0 <= i <= sequences.len(),
        i < sequences.len() ==> sequences[i].uri@ == record.uri@,
        forall|j: int| 0 <= j < i ==> (#[trigger] sequences[j]).uri@ != record.uri@,
    ensures
        begins_with(record.uri@, "imagesequence://"@) ==> {
            &&& i < sequences.len() ==> r is Some && r->0@ == sequences[i].spec@
            &&& i == sequences.len() ==> r is None
        },
        !begins_with(record.uri@, "imagesequence://"@) ==> {
            &&& r is Some <==> record.sequence is Some
            &&& r is Some ==> r->0@ == record.sequence->0@
        },
{
    let m = models(sequences@);
    assert(m.len() == sequences.len());
    assert forall|j: int| 0 <= j < i implies (#[trigger] m[j]).0 != record.uri@ by {
        assert(m[j] == sequences[j]@);
    }
    if i < sequences.len() {
        assert(m[i] == sequences[i]@);
    }
    lemma_first_known(m, record.uri@, i);
}

} // verus!
