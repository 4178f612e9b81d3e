//! Timeline editing: selection and inspector, slide, trim and move to a track,
//! magnetic snapping, track rows and clip removal.

use crate::clip::{ClipKind, Picture, Real, RowModel, TimelineClip, Wave};
use crate::order::models;
use crate::text::{decimal, push_decimal};
use crate::timeline_rows::track_name;
use vstd::prelude::*;

verus! {

/// The most track rows the timeline grows to, so that its band can't eat the
/// whole viewer.
pub const MAX_TRACKS: usize = 8;

/// What the inspector shows of the selected clip.
#[derive(PartialEq, Debug)]
pub struct Inspector {
    pub name: String,
    pub id: String,
    /// Only real videos carry audio — stills and image sequences don't.
    pub has_audio: bool,
    /// Stills get a free Duration field; real media is trimmed instead.
    pub is_still: bool,
    pub duration: Real,
}

/// What the inspector shows.
pub struct InspectorModel {
    pub name: Seq<char>,
    pub id: Seq<char>,
    pub has_audio: bool,
    pub is_still: bool,
    pub duration: Real,
}

impl View for Inspector {
    type V = InspectorModel;

    open spec fn view(&self) -> InspectorModel {
        InspectorModel {
            name: self.name@,
            id: self.id@,
            has_audio: self.has_audio,
            is_still: self.is_still,
            duration: self.duration,
        }
    }
}

/// What the inspector shows when row `i` is selected; of no row, what an
/// unnamed video without length would show.
pub open spec fn inspected(rows: Seq<RowModel>, i: int) -> InspectorModel {
    if 0 <= i < rows.len() {
        InspectorModel {
            name: rows[i].name,
            id: rows[i].id,
            has_audio: rows[i].kind == ClipKind::Video,
            is_still: rows[i].kind == ClipKind::Image,
            duration: rows[i].duration,
        }
    } else {
        InspectorModel {
            name: seq![],
            id: seq![],
            has_audio: true,
            is_still: false,
            duration: Real { bits: 0 },
        }
    }
}

/// The rows with only row `i` selected.
pub open spec fn with_selected(rows: Seq<RowModel>, i: int) -> Seq<RowModel> {
    Seq::new(rows.len(), |k: int| RowModel { selected: k == i, ..rows[k] })
}

/// Select row `i` (highlight it, and no other), and say what the inspector
/// shows. An index that is no row clears both.
pub fn select(rows: &mut Vec<TimelineClip>, i: i32) -> (r: Inspector)
    requires
        old(rows).len() <= i32::MAX,
    ensures
        models(final(rows)@) == with_selected(models(old(rows)@), i as int),
        r@ == inspected(models(old(rows)@), i as int),
{
    let ghost before = models(rows@);
    let n: usize = rows.len();
    let mut shown = Inspector {
        name: String::new(),
        id: String::new(),
        has_audio: true,
        is_still: false,
        duration: Real { bits: 0 },
    };
    assert forall|j: int| 0 <= j < n implies (#[trigger] rows@[j])@ == before[j] by {}
    let mut k: usize = 0;
    while k < n
        invariant
            k <= n,
            n == rows.len(),
            n == before.len(),
            n <= i32::MAX,
            forall|j: int|
                0 <= j < k ==> (#[trigger] rows@[j])@ == (RowModel { selected: j == i, ..before[j] }),
            forall|j: int| k <= j < n ==> (#[trigger] rows@[j])@ == before[j],
            shown@ == if 0 <= i < k {
                inspected(before, i as int)
            } else {
                inspected(before, -1)
            },
        decreases n - k,
    {
        let mut row = rows[k].clone();
        let here = k as i32 == i;
        row.selected = here;
        if here {
            shown = Inspector {
                name: row.name.clone(),
                id: row.id.clone(),
                has_audio: row.kind == ClipKind::Video,
                is_still: row.kind == ClipKind::Image,
                duration: row.duration,
            };
        }
        rows.set(k, row);
        k += 1;
    }
    assert(models(rows@) =~= with_selected(before, i as int));
    shown
}

/// Where a clip lies after the engine moved or trimmed it.
#[derive(Clone, Copy, PartialEq, Debug)]
pub struct Geometry {
    pub start: Real,
    pub inpoint: Real,
    pub duration: Real,
}

impl RowModel {
    /// The row of a clip that lies there.
    pub open spec fn lying(self, geom: Geometry) -> RowModel {
        RowModel {
            start: geom.start,
            inpoint: geom.inpoint,
            duration: geom.duration,
            ..self
        }
    }
}

/// The engine slid or trimmed the clip of row `i`: show where it lies. Without
/// an answer from the engine the row stays as it is.
pub fn moved(rows: &mut Vec<TimelineClip>, i: usize, geom: Option<Geometry>)
    requires
        i < old(rows).len(),
    ensures
        models(final(rows)@) == match geom {
            Some(g) => models(old(rows)@).update(i as int, models(old(rows)@)[i as int].lying(g)),
            None => models(old(rows)@),
        },
{
    if let Some(g) = geom {
        let ghost before = models(rows@);
        let mut row = rows[i].clone();
        row.start = g.start;
        row.inpoint = g.inpoint;
        row.duration = g.duration;
        rows.set(i, row);
        assert(models(rows@) =~= before.update(i as int, before[i as int].lying(g)));
    }
}

/// The engine set how long the clip of row `i` lasts: show that. Where it lies
/// stays as it is.
pub fn lengthened(rows: &mut Vec<TimelineClip>, i: usize, duration: Real)
    requires
        i < old(rows).len(),
    ensures
        models(final(rows)@) == models(old(rows)@).update(
            i as int,
            (RowModel { duration, ..models(old(rows)@)[i as int] }),
        ),
{
    let ghost before = models(rows@);
    let mut row = rows[i].clone();
    row.duration = duration;
    rows.set(i, row);
    assert(models(rows@) =~= before.update(
        i as int,
        RowModel { duration, ..before[i as int] },
    ));
}

/// The rows with a picture in each that shows the clip.
pub open spec fn with_thumb(rows: Seq<RowModel>, id: Seq<char>, thumb: Picture) -> Seq<RowModel> {
    Seq::new(
        rows.len(),
        |k: int|
            if rows[k].id == id {
                RowModel { thumb, ..rows[k] }
            } else {
                rows[k]
            },
    )
}

/// A picture of a clip was decoded: put it into its row, where that is still
/// there.
pub fn thumb_arrived(rows: &mut Vec<TimelineClip>, id: &String, thumb: Picture)
    ensures
        models(final(rows)@) == with_thumb(models(old(rows)@), id@, thumb),
{
    let ghost before = models(rows@);
    let ghost after = with_thumb(before, id@, thumb);
    let mut i: usize = 0;
    assert forall|k: int| 0 <= k < before.len() implies (#[trigger] rows@[k])@ == before[k] by {
        assert(models(rows@)[k] == rows@[k]@);
    }
    while i < rows.len()
        invariant
            i <= rows.len(),
            rows.len() == before.len(),
            after == with_thumb(before, id@, thumb),
            forall|k: int| 0 <= k < i ==> (#[trigger] rows@[k])@ == after[k],
            forall|k: int| i <= k < before.len() ==> (#[trigger] rows@[k])@ == before[k],
        decreases before.len() - i,
    {
        if rows[i].id == *id {
            let mut row = rows[i].clone();
            row.thumb = thumb;
            rows.set(i, row);
        }
        i += 1;
    }
    assert(models(rows@) =~= after);
}

/// The rows with the sound drawn in each that shows the clip.
pub open spec fn with_wave(rows: Seq<RowModel>, id: Seq<char>, wave: Wave) -> Seq<RowModel> {
    Seq::new(
        rows.len(),
        |k: int|
            if rows[k].id == id {
                RowModel { wave: Some(wave), ..rows[k] }
            } else {
                rows[k]
            },
    )
}

/// Put a waveform into the row of clip `id`, if it is still there.
pub fn set_wave(rows: &mut Vec<TimelineClip>, id: &String, wave: Wave)
    ensures
        models(final(rows)@) == with_wave(models(old(rows)@), id@, wave),
{
    let ghost before = models(rows@);
    let ghost after = with_wave(before, id@, wave);
    let mut i: usize = 0;
    assert forall|k: int| 0 <= k < before.len() implies (#[trigger] rows@[k])@ == before[k] by {
        assert(models(rows@)[k] == rows@[k]@);
    }
    while i < rows.len()
        invariant
            i <= rows.len(),
            rows.len() == before.len(),
            after == with_wave(before, id@, wave),
            forall|k: int| 0 <= k < i ==> (#[trigger] rows@[k])@ == after[k],
            forall|k: int| i <= k < before.len() ==> (#[trigger] rows@[k])@ == before[k],
        decreases before.len() - i,
    {
        if rows[i].id == *id {
            let mut row = rows[i].clone();
            row.wave = Some(wave);
            rows.set(i, row);
        }
        i += 1;
    }
    assert(models(rows@) =~= after);
}

/// The engine put the clip of row `i` on another track.
pub fn on_track(rows: &mut Vec<TimelineClip>, i: usize, track: usize)
    requires
        i < old(rows).len(),
    ensures
        models(final(rows)@) == models(old(rows)@).update(
            i as int,
            (RowModel { track: track as i32, ..models(old(rows)@)[i as int] }),
        ),
{
    let ghost before = models(rows@);
    let mut row = rows[i].clone();
    row.track = track as i32;
    rows.set(i, row);
    assert(models(rows@) =~= before.update(
        i as int,
        RowModel { track: track as i32, ..before[i as int] },
    ));
}

/// The rows, each on the track that the engine names for its clip.
pub open spec fn with_tracks(rows: Seq<RowModel>, tracks: Seq<Option<usize>>) -> Seq<RowModel> {
    Seq::new(
        rows.len(),
        |k: int|
            match tracks[k] {
                Some(t) => RowModel { track: t as i32, ..rows[k] },
                None => rows[k],
            },
    )
}

/// A reorder of tracks shifts several layers' indices: take every clip's track
/// from the engine, which names one for each row or none.
pub fn resync_tracks(rows: &mut Vec<TimelineClip>, tracks: &Vec<Option<usize>>)
    requires
        tracks.len() == old(rows).len(),
    ensures
        models(final(rows)@) == with_tracks(models(old(rows)@), tracks@),
{
    let ghost before = models(rows@);
    let mut k: usize = 0;
    assert forall|j: int| 0 <= j < rows.len() implies (#[trigger] rows@[j])@ == before[j] by {}
    while k < tracks.len()
        invariant
            k <= tracks.len(),
            tracks.len() == rows.len(),
            rows.len() == before.len(),
            forall|j: int| 0 <= j < k ==> (#[trigger] rows@[j])@ == with_tracks(before, tracks@)[j],
            forall|j: int| k <= j < rows.len() ==> (#[trigger] rows@[j])@ == before[j],
        decreases tracks.len() - k,
    {
        if let Some(t) = tracks[k] {
            let mut row = rows[k].clone();
            row.track = t as i32;
            rows.set(k, row);
        }
        k += 1;
    }
    assert(models(rows@) =~= with_tracks(before, tracks@));
}

/// The track that a drop lands on.
pub open spec fn landing(current: int, delta_rows: int, engine_tracks: int, visible_rows: int) -> int {
    let count = if engine_tracks >= visible_rows {
        engine_tracks
    } else {
        visible_rows
    };
    if current + delta_rows < 0 {
        0
    } else if current + delta_rows > count {
        count
    } else {
        current + delta_rows
    }
}

/// The track a clip dropped `delta_rows` rows away from track `current` lands
/// on: clamped to the rows there are, where one past the last means a new
/// track. A row counts whether or not the engine has a track for it yet — a
/// track added with "+ New track" gets its layer only when a clip first lands
/// there, and any in between are created on demand, so a drop onto any
/// visible row lands exactly on it.
pub fn drop_target_track(
    current: i32,
    delta_rows: i32,
    engine_tracks: usize,
    visible_rows: usize,
) -> (r: i32)
    requires
        i32::MIN <= current + delta_rows <= i32::MAX,
        engine_tracks <= i32::MAX,
        visible_rows <= i32::MAX,
    ensures
        r == landing(
            current as int,
            delta_rows as int,
            engine_tracks as int,
            visible_rows as int,
        ),
{
    let count: i32 = if engine_tracks >= visible_rows {
        engine_tracks as i32
    } else {
        visible_rows as i32
    };
    let wanted: i32 = current + delta_rows;
    if wanted < 0 {
        0
    } else if wanted > count {
        count
    } else {
        wanted
    }
}

/// The track to ask the engine for when a clip is dropped: none where the drop
/// stays on its row, or lands on the track that the clip is on already.
pub fn drop_move(
    current: i32,
    delta_rows: i32,
    engine_tracks: usize,
    visible_rows: usize,
) -> (r: Option<i32>)
    requires
        i32::MIN <= current + delta_rows <= i32::MAX,
        engine_tracks <= i32::MAX,
        visible_rows <= i32::MAX,
    ensures
        ({
            let target = landing(
                current as int,
                delta_rows as int,
                engine_tracks as int,
                visible_rows as int,
            );
            if delta_rows == 0 || target == current {
                r is None
            } else {
                r is Some && r->0 == target
            }
        }),
{
    if delta_rows == 0 {
        return None;
    }
    let target: i32 = drop_target_track(current, delta_rows, engine_tracks, visible_rows);
    if target == current {
        None
    } else {
        Some(target)
    }
}

/// The track rows, grown to `count` where they are fewer.
pub open spec fn grown(tracks: Seq<Seq<char>>, count: nat) -> Seq<Seq<char>> {
    Seq::new(
        if tracks.len() >= count {
            tracks.len()
        } else {
            count
        },
        |i: int| if i < tracks.len() { tracks[i] } else { track_name(i) },
    )
}

/// Grow the gutter labels to match any newly created track.
pub fn grow_tracks(tracks: &mut Vec<String>, count: usize)
    ensures
        models(final(tracks)@) == grown(models(old(tracks)@), count as nat),
{
    let ghost before = models(tracks@);
    assert forall|j: int| 0 <= j < tracks.len() implies (#[trigger] tracks@[j])@ == before[j] by {}
    while tracks.len() < count
        invariant
            before.len() <= tracks.len(),
            tracks.len() <= count || tracks.len() == before.len(),
            forall|j: int|
                0 <= j < tracks.len() ==> (#[trigger] tracks@[j])@ == if j < before.len() {
                    before[j]
                } else {
                    track_name(j)
                },
        decreases count - tracks.len(),
    {
        let mut name = String::from_str("Track ");
        push_decimal(&mut name, tracks.len() as u64 + 1);
        tracks.push(name);
    }
    assert(models(tracks@) =~= grown(before, count as nat));
}

/// Click "+ New track": append an empty track row, up to [`MAX_TRACKS`]. The
/// engine's layer is created when a clip first lands there.
pub fn add_track(tracks: &mut Vec<String>)
    ensures
        models(final(tracks)@) == if old(tracks).len() >= MAX_TRACKS {
            models(old(tracks)@)
        } else {
            grown(models(old(tracks)@), (old(tracks).len() + 1) as nat)
        },
{
    if tracks.len() >= MAX_TRACKS {
        return;
    }
    let n: usize = tracks.len() + 1;
    grow_tracks(tracks, n);
}

/// Which row is selected after row `removed` is deleted.
pub open spec fn still_selected(selected: int, removed: int) -> int {
    if selected == removed {
        -1
    } else if selected > removed {
        selected - 1
    } else {
        selected
    }
}

/// Which row is selected after row `removed` is deleted: none if it was the
/// selected one, one fewer if the selection sat after it (those rows move up),
/// otherwise the same.
pub fn selection_after_removal(selected: i32, removed: i32) -> (r: i32)
    ensures
        r == still_selected(selected as int, removed as int),
{
    if selected == removed {
        -1
    } else if selected > removed {
        selected - 1
    } else {
        selected
    }
}

/// What the removal of a row leaves to do: the clip to take from the engine,
/// and the row that is selected afterwards, or -1.
#[derive(PartialEq, Eq, Debug)]
pub struct Removed {
    pub id: String,
    pub select: i32,
}

/// Remove the row at `i`, where there is one; give the clip that is gone, for
/// the engine, and the selection afterwards.
pub fn remove_timeline_clip(
    rows: &mut Vec<TimelineClip>,
    selected: i32,
    i: i32,
) -> (r: Option<Removed>)
    ensures
        if 0 <= i < old(rows).len() {
            &&& models(final(rows)@) == models(old(rows)@).remove(i as int)
            &&& r matches Some(gone)
            &&& gone.id@ == old(rows)[i as int].id@
            &&& gone.select == still_selected(selected as int, i as int)
        } else {
            r is None && final(rows)@ == old(rows)@
        },
{
    if i < 0 || i as usize >= rows.len() {
        return None;
    }
    let ghost before = models(rows@);
    let row = rows.remove(i as usize);
    assert(models(rows@) =~= before.remove(i as int));
    Some(Removed { id: row.id, select: selection_after_removal(selected, i) })
}

/// The place of the smallest distance below `limit`, the first of several.
pub open spec fn is_nearest(distances: Seq<u32>, limit: u32, i: int) -> bool {
    &&& 0 <= i < distances.len()
    &&& distances[i] < limit
    &&& forall|j: int| 0 <= j < distances.len() ==> distances[i] <= #[trigger] distances[j]
    &&& forall|j: int| 0 <= j < i ==> distances[i] < #[trigger] distances[j]
}

/// Whether no distance is below `limit`.
pub open spec fn none_near(distances: Seq<u32>, limit: u32) -> bool {
    forall|j: int| 0 <= j < distances.len() ==> #[trigger] distances[j] >= limit
}

/// Of the distances from a dragged clip's edges to what they could snap to,
/// each by the bits of its float (which order as the distances do), the one
/// needing the smallest nudge below `limit`; on a tie the earlier wins.
pub fn nearest_edge(distances: &Vec<u32>, limit: u32) -> (r: Option<usize>)
    ensures
        match r {
            Some(i) => is_nearest(distances@, limit, i as int),
            None => forall|j: int| 0 <= j < distances.len() ==> #[trigger] distances[j] >= limit,
        },
        r is None <==> none_near(distances@, limit),
{
    let mut best: u32 = limit;
    let mut found: Option<usize> = None;
    let mut i: usize = 0;
    while i < distances.len()
        invariant
            i <= distances.len(),
            best <= limit,
            match found {
                Some(k) => {
                    &&& k < i
                    &&& distances[k as int] == best
                    &&& best < limit
                    &&& forall|j: int| 0 <= j < k ==> best < #[trigger] distances[j]
                },
                None => best == limit,
            },
            forall|j: int| 0 <= j < i ==> best <= #[trigger] distances[j],
        decreases distances.len() - i,
    {
        if distances[i] < best {
            best = distances[i];
            found = Some(i);
        }
        i += 1;
    }
    found
}

// ---------------------------------------------------------------------------
// Laws
// ---------------------------------------------------------------------------

/// Removing a row keeps the same clip selected, unless it was the selected one.
pub proof fn removal_keeps_the_same_clip_selected(
    rows: Seq<RowModel>,
    selected: int,
    removed: int,
)
    requires
        0 <= removed < rows.len(),
        0 <= selected < rows.len(),
    ensures
        ({
            let next = still_selected(selected, removed);
            &&& selected != removed ==> rows.remove(removed)[next] == rows[selected]
            &&& selected == removed ==> next == -1
        }),
{
}

/// A drop lands on a visible row, on a track of the engine, or on one new
/// track just past both: never above the top, never leaving a gap.
pub proof fn a_drop_lands_on_a_row_or_one_new_track(
    current: int,
    delta_rows: int,
    engine_tracks: int,
    visible_rows: int,
)
    requires
        0 <= engine_tracks,
        0 <= visible_rows,
    ensures
        0 <= landing(current, delta_rows, engine_tracks, visible_rows),
        landing(current, delta_rows, engine_tracks, visible_rows) <= engine_tracks || landing(
            current,
            delta_rows,
            engine_tracks,
            visible_rows,
        ) <= visible_rows,
        0 <= current + delta_rows < visible_rows ==> landing(
            current,
            delta_rows,
            engine_tracks,
            visible_rows,
        ) == current + delta_rows,
{
}

/// Selecting a row leaves exactly that row selected.
pub proof fn one_row_is_selected(rows: Seq<RowModel>, i: int, k: int)
    requires
        0 <= k < rows.len(),
    ensures
        with_selected(rows, i)[k].selected <==> k == i,
{
}

/// Whether two rows are the same but for whether they are selected.
pub open spec fn same_but_selection(a: RowModel, b: RowModel) -> bool {
    &&& a.id == b.id && a.track == b.track && a.start == b.start && a.duration == b.duration
    &&& a.inpoint == b.inpoint && a.rate == b.rate && a.name == b.name && a.kind == b.kind
    &&& a.thumb == b.thumb && a.wave == b.wave
}

/// Selecting a row selects it and no other, and changes nothing else. The inspector
/// shows that row's clip: its name, its ID and its length, a volume where it is a
/// video, and a free length where it is a still. An index of no row clears both.
pub proof fn the_inspector_shows_the_selected_row(
    rows: &mut Vec<TimelineClip>,
    i: i32,
    r: Inspector,
    k: int,
)
    requires
        call_ensures(select, (rows, i), r),
        0 <= k < old(rows).len(),
    ensures
        final(rows).len() == old(rows).len(),
        final(rows)[k].selected <==> k == i,
        same_but_selection(final(rows)[k]@, old(rows)[k]@),
        k == i ==> {
            &&& r.name@ == old(rows)[k].name@ && r.id@ == old(rows)[k].id@
            &&& r.duration == old(rows)[k].duration
            &&& r.has_audio == (old(rows)[k].kind is Video)
            &&& r.is_still == (old(rows)[k].kind is Image)
        },
        i < 0 || i >= old(rows).len() ==> {
            &&& r.name@.len() == 0 && r.id@.len() == 0 && r.has_audio && !r.is_still
            &&& r.duration.bits == 0
        },
{
    let a = models(old(rows)@);
    let b = models(final(rows)@);
    assert(a.len() == old(rows).len() && b.len() == final(rows).len());
    assert(a[k] == old(rows)[k]@ && b[k] == final(rows)[k]@);
    assert(b[k].selected == final(rows)[k].selected);
    assert(r@.name == r.name@ && r@.id == r.id@ && r@.has_audio == r.has_audio);
    assert(r@.is_still == r.is_still && r@.duration == r.duration);
}

/// A clip that the engine moved or trimmed is shown where it lies now. Nothing else of
/// its row changes, and no other row does; without an answer none does.
pub proof fn a_moved_clip_is_shown_where_it_lies(
    rows: &mut Vec<TimelineClip>,
    i: usize,
    geom: Option<Geometry>,
    k: int,
)
    requires
        call_ensures(moved, (rows, i, geom), ()),
        i < old(rows).len(),
        0 <= k < old(rows).len(),
    ensures
        final(rows).len() == old(rows).len(),
        k != i || geom is None ==> final(rows)[k]@ == old(rows)[k]@,
        k == i && geom is Some ==> {
            let row = final(rows)[k]@;
            let was = old(rows)[k]@;
            &&& row.start == geom->0.start && row.inpoint == geom->0.inpoint
            &&& row.duration == geom->0.duration
            &&& row.id == was.id && row.track == was.track && row.rate == was.rate
            &&& row.name == was.name && row.kind == was.kind && row.selected == was.selected
            &&& row.thumb == was.thumb && row.wave == was.wave
        },
{
    let a = models(old(rows)@);
    let b = models(final(rows)@);
    assert(a.len() == old(rows).len() && b.len() == final(rows).len());
    assert(a[k] == old(rows)[k]@ && b[k] == final(rows)[k]@);
}

/// A clip that lasts longer, or lies on another track, differs in that alone; no other
/// row changes.
pub proof fn one_setting_of_one_row_changes(
    rows: &mut Vec<TimelineClip>,
    i: usize,
    duration: Real,
    others: &mut Vec<TimelineClip>,
    track: usize,
    k: int,
)
    requires
        call_ensures(lengthened, (rows, i, duration), ()),
        i < old(rows).len(),
        0 <= k < old(rows).len(),
        call_ensures(on_track, (others, i, track), ()),
        old(others)@ == old(rows)@,
        track <= i32::MAX,
    ensures
        final(rows).len() == old(rows).len() && final(others).len() == old(rows).len(),
        k != i ==> final(rows)[k]@ == old(rows)[k]@ && final(others)[k]@ == old(rows)[k]@,
        k == i ==> {
            let row = final(rows)[k]@;
            let other = final(others)[k]@;
            let was = old(rows)[k]@;
            &&& row.duration == duration && row.track == was.track
            &&& other.track == track && other.duration == was.duration
            &&& row.start == was.start && row.inpoint == was.inpoint && row.id == was.id
            &&& other.start == was.start && other.inpoint == was.inpoint && other.id == was.id
            &&& row.name == was.name && row.selected == was.selected && row.thumb == was.thumb
            &&& other.name == was.name && other.selected == was.selected && other.thumb == was.thumb
        },
{
    let a = models(old(rows)@);
    let b = models(final(rows)@);
    let c = models(final(others)@);
    assert(a.len() == old(rows).len() && b.len() == final(rows).len());
    assert(c.len() == final(others).len());
    assert(a[k] == old(rows)[k]@ && b[k] == final(rows)[k]@ && c[k] == final(others)[k]@);
}

/// A picture, or a waveform, that arrives goes into every row of its clip and into no
/// other, and nothing else of a row changes.
pub proof fn what_arrives_goes_to_its_clip(
    rows: &mut Vec<TimelineClip>,
    id: &String,
    thumb: Picture,
    others: &mut Vec<TimelineClip>,
    wave: Wave,
    k: int,
)
    requires
        call_ensures(thumb_arrived, (rows, id, thumb), ()),
        call_ensures(set_wave, (others, id, wave), ()),
        old(others)@ == old(rows)@,
        0 <= k < old(rows).len(),
    ensures
        final(rows).len() == old(rows).len() && final(others).len() == old(rows).len(),
        old(rows)[k].id@ != id@ ==> final(rows)[k]@ == old(rows)[k]@ && final(others)[k]@ == old(rows)[k]@,
        old(rows)[k].id@ == id@ ==> {
            let row = final(rows)[k]@;
            let other = final(others)[k]@;
            let was = old(rows)[k]@;
            &&& row.thumb == thumb && row.wave == was.wave
            &&& other.wave == Some(wave) && other.thumb == was.thumb
            &&& row.id == was.id && row.track == was.track && row.start == was.start
            &&& row.duration == was.duration && row.name == was.name
            &&& other.id == was.id && other.track == was.track && other.start == was.start
            &&& other.duration == was.duration && other.name == was.name
            &&& row.selected == was.selected && other.selected == was.selected
        },
{
    let a = models(old(rows)@);
    let b = models(final(rows)@);
    let c = models(final(others)@);
    assert(a.len() == old(rows).len() && b.len() == final(rows).len());
    assert(c.len() == final(others).len());
    assert(a[k] == old(rows)[k]@ && b[k] == final(rows)[k]@ && c[k] == final(others)[k]@);
}

/// After a reorder each row is on the track that the engine names for it, or where it
/// was where the engine names none; nothing else of it changes.
pub proof fn each_row_takes_its_track_from_the_engine(
    rows: &mut Vec<TimelineClip>,
    tracks: &Vec<Option<usize>>,
    k: int,
)
    requires
        call_ensures(resync_tracks, (rows, tracks), ()),
        tracks.len() == old(rows).len(),
        0 <= k < old(rows).len(),
    ensures
        final(rows).len() == old(rows).len(),
        tracks[k] is None ==> final(rows)[k]@ == old(rows)[k]@,
        tracks[k] is Some && tracks[k]->0 <= i32::MAX ==> final(rows)[k].track == tracks[k]->0,
        final(rows)[k]@.id == old(rows)[k]@.id && final(rows)[k]@.start == old(rows)[k]@.start,
        final(rows)[k]@.duration == old(rows)[k]@.duration,
        final(rows)[k]@.name == old(rows)[k]@.name,
        final(rows)[k]@.selected == old(rows)[k]@.selected,
{
    let a = models(old(rows)@);
    let b = models(final(rows)@);
    assert(a.len() == old(rows).len() && b.len() == final(rows).len());
    assert(a[k] == old(rows)[k]@ && b[k] == final(rows)[k]@);
    assert(b[k].track == final(rows)[k].track);
}

/// A drop lands as many rows away as it was dragged, as long as that is a row that the
/// window shows, a track of the engine, or the one past both; beyond that it lands on
/// the nearest. It asks for a move only where it lands on another track.
pub proof fn a_drop_lands_where_it_was_dragged(
    current: i32,
    delta_rows: i32,
    engine_tracks: usize,
    visible_rows: usize,
    r: i32,
    asked: Option<i32>,
)
    requires
        call_ensures(drop_target_track, (current, delta_rows, engine_tracks, visible_rows), r),
        call_ensures(drop_move, (current, delta_rows, engine_tracks, visible_rows), asked),
    ensures
        0 <= current + delta_rows <= engine_tracks || 0 <= current + delta_rows <= visible_rows
            ==> r == current + delta_rows,
        current + delta_rows < 0 ==> r == 0,
        current + delta_rows > engine_tracks && current + delta_rows > visible_rows ==> r
            == engine_tracks || r == visible_rows,
        current + delta_rows > engine_tracks && current + delta_rows > visible_rows ==> r
            >= engine_tracks && r >= visible_rows,
        delta_rows == 0 || r == current ==> asked is None,
        delta_rows != 0 && r != current ==> asked == Some(r),
{
}

/// The track rows grow to the number given and never shrink; those there keep their
/// names, and each new one is named after its place, counted from one. The button adds
/// one, up to eight.
pub proof fn tracks_grow_by_name(
    tracks: &mut Vec<String>,
    count: usize,
    more: &mut Vec<String>,
    i: int,
)
    requires
        call_ensures(grow_tracks, (tracks, count), ()),
        call_ensures(add_track, (more,), ()),
    ensures
        old(tracks).len() >= count ==> final(tracks).len() == old(tracks).len(),
        old(tracks).len() < count ==> final(tracks).len() == count,
        0 <= i < old(tracks).len() ==> final(tracks)[i]@ == old(tracks)[i]@,
        old(tracks).len() <= i < final(tracks).len() ==> final(tracks)[i]@ == "Track "@ + decimal(
            (i + 1) as nat,
        ),
        old(more).len() >= 8 ==> final(more).len() == old(more).len(),
        old(more).len() < 8 ==> final(more).len() == old(more).len() + 1 && final(more)@.last()@
            == "Track "@ + decimal((old(more).len() + 1) as nat),
        0 <= i < old(more).len() ==> final(more)[i]@ == old(more)[i]@,
{
    let a = models(old(tracks)@);
    let b = models(final(tracks)@);
    let c = models(old(more)@);
    let d = models(final(more)@);
    assert(a.len() == old(tracks).len() && b.len() == final(tracks).len());
    assert(c.len() == old(more).len() && d.len() == final(more).len());
    if 0 <= i < old(tracks).len() {
        assert(a[i] == old(tracks)[i]@ && b[i] == final(tracks)[i]@);
    }
    if old(tracks).len() <= i < final(tracks).len() {
        assert(b[i] == final(tracks)[i]@);
    }
    if 0 <= i < old(more).len() {
        assert(c[i] == old(more)[i]@ && d[i] == final(more)[i]@);
    }
    if old(more).len() < 8 {
        assert(d.last() == final(more)@.last()@);
    }
}

/// Removing a row takes that row out and no other, gives the clip it showed, and keeps
/// the same clip selected, unless it was that one. An index of no row removes none.
pub proof fn removing_a_row_removes_it_alone(
    rows: &mut Vec<TimelineClip>,
    selected: i32,
    i: i32,
    r: Option<Removed>,
    next: i32,
)
    requires
        call_ensures(remove_timeline_clip, (rows, selected, i), r),
        call_ensures(selection_after_removal, (selected, i), next),
    ensures
        r is Some <==> 0 <= i < old(rows).len(),
        r is None ==> final(rows)@ == old(rows)@,
        r is Some ==> {
            &&& r->0.id@ == old(rows)[i as int].id@ && r->0.select == next
            &&& final(rows).len() == old(rows).len() - 1
            &&& forall|k: int| 0 <= k < i ==> (#[trigger] final(rows)[k])@ == old(rows)[k]@
            &&& forall|k: int|
                i <= k < final(rows).len() ==> (#[trigger] final(rows)[k])@ == old(rows)[k + 1]@
        },
        selected == i ==> next == -1,
        selected > i ==> next == selected - 1,
        selected < i ==> next == selected,
{
    let a = models(old(rows)@);
    let b = models(final(rows)@);
    assert(a.len() == old(rows).len() && b.len() == final(rows).len());
    if r is Some {
        assert forall|k: int| 0 <= k < i implies (#[trigger] final(rows)[k])@ == old(rows)[k]@ by {
            assert(a[k] == old(rows)[k]@ && b[k] == final(rows)[k]@);
        }
        assert forall|k: int| i <= k < final(rows).len() implies (#[trigger] final(rows)[k])@ == old(rows)[k + 1]@ by {
            assert(a[k + 1] == old(rows)[k + 1]@ && b[k] == final(rows)[k]@);
        }
    }
}

/// The edge that is snapped to is nearer than the limit and no farther than any other;
/// of several that are equally near it is the first. None is where none is near
/// enough.
pub proof fn the_nearest_edge_wins(distances: &Vec<u32>, limit: u32, r: Option<usize>, j: int)
    requires
        call_ensures(nearest_edge, (distances, limit), r),
        0 <= j < distances.len(),
    ensures
        r is None ==> distances[j] >= limit,
        r is Some ==> r->0 < distances.len() && distances[r->0 as int] < limit
            && distances[r->0 as int] <= distances[j],
        r is Some && distances[j] == distances[r->0 as int] ==> r->0 <= j,
{
    match r {
        Some(i) => {
            assert(distances@[i as int] <= distances@[j]);
            if j < i {
                assert(distances@[i as int] < distances@[j]);
            }
        },
        None => {
            assert(none_near(distances@, limit));
            assert(distances@[j] >= limit);
        },
    }
}

} // verus!
