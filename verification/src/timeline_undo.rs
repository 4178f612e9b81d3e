//! Undo and redo for the timeline. A step is what an edit changed, clip by
//! clip: each affected clip's record before and after, read from the engine
//! around the edit. Undo writes the old records back exactly, so a clip returns
//! where it was with its transform, under the same ID where the engine allows
//! it, and a clip that comes back gets the row it had, name and thumbnail
//! included.

use crate::assoc::{map_of, Assoc};
use crate::clip::{
    clone_option, equal_records, opt_model, same_option, ClipRecord, RecordModel, RowModel, TimelineClip,
};
use crate::history::Step;
use crate::order::{insert_sorted, listed, models};
use crate::sorted_map::SortedMap;
use crate::text::concat;
use vstd::prelude::*;

verus! {

/// What kind of edit a step is. The kind decides whether consecutive steps
/// merge and how the step describes itself.
#[derive(Clone, Copy, PartialEq, Eq, Structural, Debug)]
pub enum StepKind {
    Move,
    Trim,
    Transform,
    Duration,
    Add,
    Delete,
    ReorderTracks,
    AddTrack,
    Split,
}

impl StepKind {
    /// The kinds a continuous gesture produces.
    pub open spec fn continuous(self) -> bool {
        self is Move || self is Trim || self is Transform || self is Duration
    }

    /// The kinds a continuous gesture produces. Only these merge.
    fn merges(self) -> (r: bool)
        ensures
            r == self.continuous(),
    {
        match self {
            StepKind::Move | StepKind::Trim | StepKind::Transform | StepKind::Duration => true,
            _ => false,
        }
    }
}

/// The records of clips, by ID.
pub type Records = Map<Seq<char>, RecordModel>;

/// Every clip's record, by ID, and the number of track rows, at one moment.
pub struct Capture {
    pub records: SortedMap<String, ClipRecord>,
    pub tracks: usize,
}

/// What the timeline was at one moment.
pub struct CaptureModel {
    pub records: Records,
    pub tracks: usize,
}

impl View for Capture {
    type V = CaptureModel;

    open spec fn view(&self) -> CaptureModel {
        CaptureModel { records: self.records@, tracks: self.tracks }
    }
}

/// The records of a list of clips, the later of two with one ID.
pub open spec fn records_of(clips: Seq<(String, ClipRecord)>) -> Records
    decreases clips.len(),
{
    if clips.len() == 0 {
        Map::empty()
    } else {
        records_of(clips.drop_last()).insert(clips.last().0@, clips.last().1@)
    }
}

impl Capture {
    pub open spec fn wf(&self) -> bool {
        self.records.wf()
    }

    /// The timeline with the clips that the engine lists. No project yet means
    /// no clips.
    pub fn of(clips: &Vec<(String, ClipRecord)>, tracks: usize) -> (r: Capture)
        ensures
            r.wf(),
            r@ == (CaptureModel { records: records_of(clips@), tracks }),
    {
        let mut records: SortedMap<String, ClipRecord> = SortedMap::new();
        let mut i: usize = 0;
        while i < clips.len()
            invariant
                i <= clips.len(),
                records.wf(),
                records@ == records_of(clips@.take(i as int)),
            decreases clips.len() - i,
        {
            records.insert(clips[i].0.clone(), clips[i].1.clone());
            assert(clips@.take(i + 1).drop_last() =~= clips@.take(i as int));
            i += 1;
        }
        assert(clips@.take(i as int) =~= clips@);
        Capture { records, tracks }
    }
}

/// The value of a key, where the map has one.
pub open spec fn entry<K, V>(map: Map<K, V>, key: K) -> Option<V> {
    if map.dom().contains(key) {
        Some(map[key])
    } else {
        None
    }
}

/// One clip's record on each side of a step. `None` means the clip did not
/// exist on that side.
#[derive(PartialEq, Debug)]
pub struct ClipChange {
    pub id: String,
    pub before: Option<ClipRecord>,
    pub after: Option<ClipRecord>,
}

/// A change of one clip.
pub struct ChangeModel {
    pub id: Seq<char>,
    pub before: Option<RecordModel>,
    pub after: Option<RecordModel>,
}

impl View for ClipChange {
    type V = ChangeModel;

    open spec fn view(&self) -> ChangeModel {
        ChangeModel {
            id: self.id@,
            before: opt_model(self.before),
            after: opt_model(self.after),
        }
    }
}

impl Clone for ClipChange {
    fn clone(&self) -> (r: ClipChange)
        ensures
            r@ == self@,
    {
        ClipChange {
            id: self.id.clone(),
            before: clone_option(&self.before),
            after: clone_option(&self.after),
        }
    }
}

/// The IDs of changes.
pub open spec fn ids_of(changes: Seq<ChangeModel>) -> Seq<Seq<char>> {
    changes.map_values(|c: ChangeModel| c.id)
}

/// Whether `changes` are the clips whose record differs between two captures,
/// in ID order, with the record of each on both sides.
pub open spec fn is_diff(before: Records, after: Records, changes: Seq<ChangeModel>) -> bool {
    &&& listed::<String>(ids_of(changes))
    &&& forall|id: Seq<char>| #[trigger]
        ids_of(changes).contains(id) <==> !equal_records(entry(before, id), entry(after, id))
    &&& forall|i: int|
        0 <= i < changes.len() ==> (#[trigger] changes[i]).before == entry(before, changes[i].id)
            && changes[i].after == entry(after, changes[i].id)
}

/// The clips whose record differs between two captures, in ID order. Records
/// compare exactly: reading an untouched clip twice gives identical values.
pub fn diff(before: &Capture, after: &Capture) -> (r: Vec<ClipChange>)
    requires
        before.wf(),
        after.wf(),
    ensures
        is_diff(before@.records, after@.records, models(r@)),
{
    let ghost b = before@.records;
    let ghost a = after@.records;
    let ids = all_ids(before, after);
    let ghost m = models(ids@);
    let mut r: Vec<ClipChange> = Vec::new();
    let mut i: usize = 0;
    while i < ids.len()
        invariant
            i <= ids.len(),
            before.wf(),
            after.wf(),
            b == before@.records,
            a == after@.records,
            m == models(ids@),
            listed::<String>(m),
            listed::<String>(ids_of(models(r@))),
            forall|j: int, k: int|
                0 <= j < r.len() && i <= k < m.len() ==> crate::text::text_before(
                    #[trigger] ids_of(models(r@))[j],
                    #[trigger] m[k],
                ),
            forall|j: int|
                0 <= j < r.len() ==> (#[trigger] models(r@)[j]).before == entry(b, models(r@)[j].id)
                    && models(r@)[j].after == entry(a, models(r@)[j].id) && !equal_records(
                    entry(b, models(r@)[j].id),
                    entry(a, models(r@)[j].id),
                ),
            forall|k: int|
                0 <= k < i && !equal_records(entry(b, #[trigger] m[k]), entry(a, m[k])) ==> ids_of(
                    models(r@),
                ).contains(m[k]),
        decreases ids.len() - i,
    {
        let id = &ids[i];
        let was = match before.records.get(id) {
            Some(x) => Some(x.clone()),
            None => None,
        };
        let is = match after.records.get(id) {
            Some(x) => Some(x.clone()),
            None => None,
        };
        let ghost r0 = models(r@);
        assert(m[i as int] == id@);
        if !same_option(&was, &is) {
            r.push(ClipChange { id: id.clone(), before: was, after: is });
            proof {
                let r1 = models(r@);
                assert(r1 =~= r0.push(r@.last()@));
                assert(ids_of(r1) =~= ids_of(r0).push(id@));
                assert(ids_of(r1)[r0.len() as int] == id@);
                assert forall|k: int|
                    0 <= k < i + 1 && !equal_records(
                        entry(b, #[trigger] m[k]),
                        entry(a, m[k]),
                    ) implies ids_of(r1).contains(m[k]) by {
                    if k < i {
                        let j = choose|j: int| 0 <= j < ids_of(r0).len() && ids_of(r0)[j] == m[k];
                        assert(ids_of(r1)[j] == m[k]);
                    }
                }
            }
        }
        i += 1;
    }
    proof {
        let r1 = models(r@);
        assert forall|id: Seq<char>| #[trigger]
            ids_of(r1).contains(id) <==> !equal_records(entry(b, id), entry(a, id)) by {
            if !equal_records(entry(b, id), entry(a, id)) {
                assert(m.contains(id));
                let k = choose|k: int| 0 <= k < m.len() && m[k] == id;
                assert(!equal_records(entry(b, m[k]), entry(a, m[k])));
            }
            if ids_of(r1).contains(id) {
                let j = choose|j: int| 0 <= j < ids_of(r1).len() && ids_of(r1)[j] == id;
                assert(r1[j].id == id);
            }
        }
    }
    r
}

/// The IDs of all the clips of two captures, in order.
fn all_ids(before: &Capture, after: &Capture) -> (r: Vec<String>)
    requires
        before.wf(),
        after.wf(),
    ensures
        listed::<String>(models(r@)),
        forall|id: Seq<char>| #[trigger]
            models(r@).contains(id) <==> before@.records.dom().contains(id)
                || after@.records.dom().contains(id),
{
    let mut r: Vec<String> = Vec::new();
    proof {
        before.records.keys_in_order();
        after.records.keys_in_order();
    }
    let ghost bo = before.records.order();
    let ghost ao = after.records.order();
    let mut i: usize = 0;
    assert(models(r@).to_set() =~= bo.take(0).to_set());
    while i < before.records.len()
        invariant
            before.wf(),
            bo == before.records.order(),
            i <= bo.len(),
            listed::<String>(models(r@)),
            models(r@).to_set() == bo.take(i as int).to_set(),
        decreases bo.len() - i,
    {
        insert_sorted(&mut r, before.records.key_at(i).clone());
        proof {
            assert(bo.take(i + 1) =~= bo.take(i as int).push(bo[i as int]));
            crate::order::lemma_push_to_set(bo.take(i as int), bo[i as int]);
        }
        i += 1;
    }
    let mut k: usize = 0;
    assert(bo.take(i as int) =~= bo);
    assert(models(r@).to_set() =~= bo.to_set().union(ao.take(0).to_set()));
    while k < after.records.len()
        invariant
            after.wf(),
            ao == after.records.order(),
            k <= ao.len(),
            listed::<String>(models(r@)),
            models(r@).to_set() == bo.to_set().union(ao.take(k as int).to_set()),
        decreases ao.len() - k,
    {
        insert_sorted(&mut r, after.records.key_at(k).clone());
        proof {
            assert(ao.take(k + 1) =~= ao.take(k as int).push(ao[k as int]));
            crate::order::lemma_push_to_set(ao.take(k as int), ao[k as int]);
            assert(models(r@).to_set() =~= bo.to_set().union(ao.take(k + 1).to_set()));
        }
        k += 1;
    }
    assert(ao.take(k as int) =~= ao);
    proof {
        assert forall|id: Seq<char>| #[trigger]
            models(r@).contains(id) <==> before@.records.dom().contains(id)
            || after@.records.dom().contains(id) by {
            assert(models(r@).to_set().contains(id) == models(r@).contains(id));
        }
    }
    r
}

/// What one timeline edit changed.
pub struct TimelineStep {
    pub kind: StepKind,
    /// The clip the step is about, when it is about one.
    pub subject: Option<String>,
    /// That clip's display name, for the hint.
    pub name: String,
    pub changes: Vec<ClipChange>,
    /// The timeline rows of the clips that exist on only one side, by ID, so a
    /// clip that comes back gets its row as it was: its name (the engine's
    /// record spells one from the URI), kind and thumbnail, without decoding.
    pub kept_rows: Assoc<TimelineClip>,
    pub tracks_before: usize,
    pub tracks_after: usize,
}

/// What a step holds.
#[verifier::ext_equal]
pub struct TimelineModel {
    pub kind: StepKind,
    pub subject: Option<Seq<char>>,
    pub name: Seq<char>,
    pub changes: Seq<ChangeModel>,
    pub kept: Map<Seq<char>, RowModel>,
    pub tracks_before: usize,
    pub tracks_after: usize,
}

impl View for TimelineStep {
    type V = TimelineModel;

    open spec fn view(&self) -> TimelineModel {
        TimelineModel {
            kind: self.kind,
            subject: opt_model(self.subject),
            name: self.name@,
            changes: models(self.changes@),
            kept: self.kept_rows@,
            tracks_before: self.tracks_before,
            tracks_after: self.tracks_after,
        }
    }
}

/// Whether a clip exists on only one side of a change.
pub open spec fn one_sided(change: ChangeModel) -> bool {
    change.before is None != change.after is None
}

/// The IDs of the clips that exist on only one side.
pub open spec fn comes_or_goes(changes: Seq<ChangeModel>, id: Seq<char>) -> bool {
    exists|i: int| 0 <= i < changes.len() && (#[trigger] changes[i]).id == id && one_sided(changes[i])
}

/// The ID that a clip has after `old` became `new`.
pub open spec fn renamed(id: Seq<char>, old: Seq<char>, new: Seq<char>) -> Seq<char> {
    if id == old {
        new
    } else {
        id
    }
}

impl TimelineModel {
    /// The step with `new` for `old` everywhere.
    pub open spec fn with_rename(self, old: Seq<char>, new: Seq<char>) -> TimelineModel {
        TimelineModel {
            subject: match self.subject {
                Some(s) => Some(renamed(s, old, new)),
                None => None,
            },
            changes: self.changes.map_values(
                |c: ChangeModel| ChangeModel { id: renamed(c.id, old, new), ..c },
            ),
            kept: if self.kept.dom().contains(old) {
                self.kept.remove(old).insert(new, self.kept[old])
            } else {
                self.kept
            },
            ..self
        }
    }
}

impl TimelineStep {
    /// `rows` are the timeline's rows by ID when the edit is recorded; only
    /// those of clips that come or go are kept.
    pub fn new(
        kind: StepKind,
        subject: Option<&String>,
        name: &String,
        before: &Capture,
        after: &Capture,
        rows: &Assoc<TimelineClip>,
    ) -> (r: TimelineStep)
        requires
            before.wf(),
            after.wf(),
        ensures
            r.kind == kind,
            r@.subject == match subject {
                Some(s) => Some(s@),
                None => None,
            },
            r@.name == name@,
            is_diff(before@.records, after@.records, r@.changes),
            r@.kept == rows@.restrict(
                Set::new(|id: Seq<char>| comes_or_goes(r@.changes, id)),
            ),
            r.tracks_before == before.tracks,
            r.tracks_after == after.tracks,
    {
        let changes = diff(before, after);
        let ghost goes = Set::new(|id: Seq<char>| comes_or_goes(models(changes@), id));
        let mut kept: Assoc<TimelineClip> = Assoc::new();
        let mut i: usize = 0;
        assert(kept@ =~= map_of(rows.entries@.take(0)).restrict(goes));
        while i < rows.entries.len()
            invariant
                i <= rows.entries.len(),
                goes == Set::new(|id: Seq<char>| comes_or_goes(models(changes@), id)),
                kept@ == map_of(rows.entries@.take(i as int)).restrict(goes),
            decreases rows.entries.len() - i,
        {
            assert(rows.entries@.take(i + 1).drop_last() =~= rows.entries@.take(i as int));
            if is_one_sided(&changes, &rows.entries[i].0) {
                kept.insert(rows.entries[i].0.clone(), rows.entries[i].1.clone());
            }
            assert(kept@ =~= map_of(rows.entries@.take(i + 1)).restrict(goes));
            i += 1;
        }
        assert(rows.entries@.take(i as int) =~= rows.entries@);
        TimelineStep {
            kind,
            subject: match subject {
                Some(s) => Some(s.clone()),
                None => None,
            },
            name: name.clone(),
            changes,
            kept_rows: kept,
            tracks_before: before.tracks,
            tracks_after: after.tracks,
        }
    }

    /// Replace a clip's ID everywhere in the step: the engine restored it
    /// under a new one.
    pub fn rename_clip(&mut self, old_id: &String, new_id: &String)
        ensures
            final(self)@ == old(self)@.with_rename(old_id@, new_id@),
    {
        let ghost before = self@;
        if let Some(s) = &self.subject {
            if *s == *old_id {
                self.subject = Some(new_id.clone());
            }
        }
        let ghost subject = opt_model(self.subject);
        let mut i: usize = 0;
        assert forall|j: int| 0 <= j < before.changes.len() implies (#[trigger] self.changes@[j])@
            == before.changes[j] by {
            assert(models(self.changes@)[j] == self.changes@[j]@);
        }
        while i < self.changes.len()
            invariant
                i <= self.changes.len(),
                self.changes.len() == before.changes.len(),
                opt_model(self.subject) == subject,
                self@ == (TimelineModel { subject, changes: self@.changes, ..before }),
                forall|j: int|
                    0 <= j < i ==> (#[trigger] self.changes@[j])@ == (ChangeModel {
                        id: renamed(before.changes[j].id, old_id@, new_id@),
                        ..before.changes[j]
                    }),
                forall|j: int|
                    i <= j < before.changes.len() ==> (#[trigger] self.changes@[j])@
                        == before.changes[j],
            decreases before.changes.len() - i,
        {
            if self.changes[i].id == *old_id {
                let changed = ClipChange {
                    id: new_id.clone(),
                    before: clone_option(&self.changes[i].before),
                    after: clone_option(&self.changes[i].after),
                };
                self.changes.set(i, changed);
            }
            i += 1;
        }
        let kept = match self.kept_rows.get(old_id) {
            Some(row) => Some(row.clone()),
            None => None,
        };
        if let Some(row) = kept {
            self.kept_rows.remove(old_id);
            self.kept_rows.insert(new_id.clone(), row);
        }
        assert(self@.changes =~= before.with_rename(old_id@, new_id@).changes);
        assert(self@ =~= before.with_rename(old_id@, new_id@));
    }
}

/// Whether the clip exists on only one side of its change.
fn is_one_sided(changes: &Vec<ClipChange>, id: &String) -> (r: bool)
    ensures
        r == comes_or_goes(models(changes@), id@),
{
    let mut i: usize = 0;
    while i < changes.len()
        invariant
            i <= changes.len(),
            forall|j: int|
                0 <= j < i ==> !((#[trigger] models(changes@)[j]).id == id@ && one_sided(
                    models(changes@)[j],
                )),
        decreases changes.len() - i,
    {
        assert(models(changes@)[i as int] == changes[i as int]@);
        if changes[i].id == *id && changes[i].before.is_none() != changes[i].after.is_none() {
            return true;
        }
        i += 1;
    }
    false
}

// ---------------------------------------------------------------------------
// Merging
// ---------------------------------------------------------------------------

/// Where the first change of a clip is.
pub open spec fn change_at(changes: Seq<ChangeModel>, id: Seq<char>, i: int) -> bool {
    &&& 0 <= i < changes.len()
    &&& changes[i].id == id
    &&& forall|j: int| 0 <= j < i ==> (#[trigger] changes[j]).id != id
}

/// The changes with one more folded in: the clip's first "before", its last
/// "after".
pub open spec fn fold_one(changes: Seq<ChangeModel>, newer: ChangeModel) -> Seq<ChangeModel> {
    if exists|i: int| change_at(changes, newer.id, i) {
        let i = choose|i: int| change_at(changes, newer.id, i);
        changes.update(i, ChangeModel { after: newer.after, ..changes[i] })
    } else {
        changes.push(newer)
    }
}

/// The changes with newer ones folded in, one after the other.
pub open spec fn fold_all(changes: Seq<ChangeModel>, newer: Seq<ChangeModel>) -> Seq<ChangeModel>
    decreases newer.len(),
{
    if newer.len() == 0 {
        changes
    } else {
        fold_one(fold_all(changes, newer.drop_last()), newer.last())
    }
}

/// Those of the changes that are changes.
pub open spec fn real_changes(changes: Seq<ChangeModel>) -> Seq<ChangeModel>
    decreases changes.len(),
{
    if changes.len() == 0 {
        seq![]
    } else if !equal_records(changes.last().before, changes.last().after) {
        real_changes(changes.drop_last()).push(changes.last())
    } else {
        real_changes(changes.drop_last())
    }
}

impl TimelineModel {
    /// The step with a newer one folded in.
    pub open spec fn absorbed(self, newer: TimelineModel) -> TimelineModel {
        TimelineModel {
            changes: real_changes(fold_all(self.changes, newer.changes)),
            kept: self.kept.union_prefer_right(newer.kept),
            tracks_after: newer.tracks_after,
            ..self
        }
    }
}

/// Fold one newer change in.
fn fold_change(changes: &mut Vec<ClipChange>, newer: &ClipChange)
    ensures
        models(final(changes)@) == fold_one(models(old(changes)@), newer@),
{
    let ghost m = models(changes@);
    let mut i: usize = 0;
    while i < changes.len()
        invariant
            i <= changes.len(),
            changes@ == old(changes)@,
            m == models(changes@),
            m == models(old(changes)@),
            forall|j: int| 0 <= j < i ==> (#[trigger] m[j]).id != newer@.id,
        decreases changes.len() - i,
    {
        assert(m[i as int] == changes[i as int]@);
        if changes[i].id == newer.id {
            let all = ClipChange {
                id: changes[i].id.clone(),
                before: clone_option(&changes[i].before),
                after: clone_option(&newer.after),
            };
            changes.set(i, all);
            proof {
                assert(change_at(m, newer@.id, i as int));
                let k = choose|k: int| change_at(m, newer@.id, k);
                assert(k == i) by {
                    if k < i {
                        assert(m[k].id != newer@.id);
                    }
                    if i < k {
                        assert(m[i as int].id != newer@.id);
                    }
                }
                assert(models(changes@) =~= fold_one(m, newer@));
            }
            return;
        }
        i += 1;
    }
    changes.push(newer.clone());
    proof {
        assert(!(exists|k: int| change_at(m, newer@.id, k)));
        assert(models(changes@) =~= m.push(newer@));
    }
}

impl Step for TimelineStep {
    open spec fn phrase(&self) -> Seq<char> {
        match self.kind {
            StepKind::Move => "moving "@ + self.name@,
            StepKind::Trim => "trimming "@ + self.name@,
            StepKind::Transform => "transforming "@ + self.name@,
            StepKind::Duration => "changing the duration of "@ + self.name@,
            StepKind::Add => "adding "@ + self.name@,
            StepKind::Delete => "deleting "@ + self.name@,
            StepKind::ReorderTracks => "reordering tracks"@,
            StepKind::AddTrack => "adding a track"@,
            StepKind::Split => "splitting "@ + self.name@,
        }
    }

    open spec fn continued_by(&self, newer: &Self) -> bool {
        &&& self@.kind == newer@.kind
        &&& self@.kind.continuous()
        &&& self@.subject is Some
        &&& self@.subject == newer@.subject
    }

    open spec fn folds(&self, newer: &Self, all: &Self) -> bool {
        all@ == self@.absorbed(newer@)
    }

    open spec fn changed_nothing(&self) -> bool {
        self@.changes.len() == 0 && self@.tracks_before == self@.tracks_after
    }

    fn describe(&self) -> (r: String) {
        let name = self.name.as_str();
        match self.kind {
            StepKind::Move => concat("moving ", name),
            StepKind::Trim => concat("trimming ", name),
            StepKind::Transform => concat("transforming ", name),
            StepKind::Duration => concat("changing the duration of ", name),
            StepKind::Add => concat("adding ", name),
            StepKind::Delete => concat("deleting ", name),
            StepKind::ReorderTracks => String::from_str("reordering tracks"),
            StepKind::AddTrack => String::from_str("adding a track"),
            StepKind::Split => concat("splitting ", name),
        }
    }

    fn merges_with(&self, newer: &Self) -> (r: bool) {
        let same = match (&self.subject, &newer.subject) {
            (Some(a), Some(b)) => *a == *b,
            _ => false,
        };
        self.kind == newer.kind && self.kind.merges() && same
    }

    fn absorb(&mut self, newer: Self) {
        let ghost before = self@;
        let ghost n = newer@;
        let mut all: Vec<ClipChange> = Vec::new();
        core::mem::swap(&mut all, &mut self.changes);
        let mut i: usize = 0;
        while i < newer.changes.len()
            invariant
                i <= newer.changes.len(),
                n == newer@,
                models(all@) == fold_all(before.changes, n.changes.take(i as int)),
            decreases newer.changes.len() - i,
        {
            assert(n.changes[i as int] == newer.changes[i as int]@);
            fold_change(&mut all, &newer.changes[i]);
            assert(n.changes.take(i + 1).drop_last() =~= n.changes.take(i as int));
            i += 1;
        }
        assert(n.changes.take(i as int) =~= n.changes);
        // A clip dragged back to where it started is no longer a change.
        let mut kept: Vec<ClipChange> = Vec::new();
        let mut k: usize = 0;
        assert(models(kept@) =~= real_changes(models(all@).take(0)));
        while k < all.len()
            invariant
                k <= all.len(),
                models(kept@) == real_changes(models(all@).take(k as int)),
            decreases all.len() - k,
        {
            let ghost r0 = models(kept@);
            assert(models(all@)[k as int] == all[k as int]@);
            assert(models(all@).take(k + 1).drop_last() =~= models(all@).take(k as int));
            if !same_option(&all[k].before, &all[k].after) {
                kept.push(all[k].clone());
                assert(models(kept@) =~= r0.push(all[k as int]@));
            }
            k += 1;
        }
        assert(models(all@).take(k as int) =~= models(all@));
        self.changes = kept;
        self.kept_rows.extend(newer.kept_rows);
        self.tracks_after = newer.tracks_after;
        assert(self@ =~= before.absorbed(n));
    }

    fn is_empty(&self) -> (r: bool) {
        self.changes.len() == 0 && self.tracks_before == self.tracks_after
    }
}

// ---------------------------------------------------------------------------
// Plans
// ---------------------------------------------------------------------------

/// Which way a step is being applied.
#[derive(Clone, Copy, PartialEq, Eq, Structural, Debug)]
pub enum Direction {
    Undo,
    Redo,
}

/// The engine operations that take the timeline to one side of a step, by the
/// IDs the step holds. They run in field order: removals, then writes, then
/// restores. Removing first frees the places and names the restored clips come
/// back into; writing next moves every remaining clip to where that side has
/// it, so a restored clip never lands on one that has yet to move away. The
/// writes run as one batch, because the engine refuses a clip on top of another
/// even for a moment.
#[derive(PartialEq, Debug)]
pub struct Plan {
    /// Clips that must not exist.
    pub removes: Vec<String>,
    /// Clips that exist and take these records.
    pub writes: Vec<(String, ClipRecord)>,
    /// Clips that are gone and come back with these records.
    pub restores: Vec<(String, ClipRecord)>,
}

/// What a plan says.
#[verifier::ext_equal]
pub struct PlanModel {
    pub removes: Seq<Seq<char>>,
    pub writes: Seq<(Seq<char>, RecordModel)>,
    pub restores: Seq<(Seq<char>, RecordModel)>,
}

impl View for Plan {
    type V = PlanModel;

    open spec fn view(&self) -> PlanModel {
        PlanModel {
            removes: models(self.removes@),
            writes: models(self.writes@),
            restores: models(self.restores@),
        }
    }
}

impl ChangeModel {
    /// What the clip is on the side the step leaves.
    pub open spec fn from_side(self, dir: Direction) -> Option<RecordModel> {
        match dir {
            Direction::Undo => self.after,
            Direction::Redo => self.before,
        }
    }

    /// What the clip is on the side the step goes to.
    pub open spec fn to_side(self, dir: Direction) -> Option<RecordModel> {
        match dir {
            Direction::Undo => self.before,
            Direction::Redo => self.after,
        }
    }
}

/// What it takes to bring the timeline to the `dir` side of changes.
pub open spec fn plan_of(changes: Seq<ChangeModel>, dir: Direction) -> PlanModel
    decreases changes.len(),
{
    if changes.len() == 0 {
        PlanModel { removes: seq![], writes: seq![], restores: seq![] }
    } else {
        let rest = plan_of(changes.drop_last(), dir);
        let c = changes.last();
        match (c.from_side(dir), c.to_side(dir)) {
            (Some(_), None) => PlanModel { removes: rest.removes.push(c.id), ..rest },
            (None, Some(record)) => PlanModel {
                restores: rest.restores.push((c.id, record)),
                ..rest
            },
            (Some(_), Some(record)) => PlanModel { writes: rest.writes.push((c.id, record)), ..rest },
            (None, None) => rest,
        }
    }
}

/// What it takes to bring the timeline to the `dir` side of `step`.
pub fn plan(step: &TimelineStep, dir: Direction) -> (r: Plan)
    ensures
        r@ == plan_of(step@.changes, dir),
{
    let mut out = Plan { removes: Vec::new(), writes: Vec::new(), restores: Vec::new() };
    let ghost m = step@.changes;
    assert(out@ =~= plan_of(m.take(0), dir));
    let mut i: usize = 0;
    while i < step.changes.len()
        invariant
            i <= step.changes.len(),
            m == models(step.changes@),
            out@ == plan_of(m.take(i as int), dir),
        decreases step.changes.len() - i,
    {
        let ghost p0 = out@;
        let change = &step.changes[i];
        assert(m[i as int] == change@);
        assert(m.take(i + 1).drop_last() =~= m.take(i as int));
        let (from, to) = match dir {
            Direction::Undo => (&change.after, &change.before),
            Direction::Redo => (&change.before, &change.after),
        };
        match (from, to) {
            (Some(_), None) => {
                out.removes.push(change.id.clone());
                assert(out@ =~= PlanModel { removes: p0.removes.push(change.id@), ..p0 });
            },
            (None, Some(record)) => {
                out.restores.push((change.id.clone(), record.clone()));
                assert(out@ =~= PlanModel {
                    restores: p0.restores.push((change.id@, record@)),
                    ..p0
                });
            },
            (Some(_), Some(record)) => {
                out.writes.push((change.id.clone(), record.clone()));
                assert(out@ =~= PlanModel {
                    writes: p0.writes.push((change.id@, record@)),
                    ..p0
                });
            },
            (None, None) => {},
        }
        i += 1;
    }
    assert(m.take(i as int) =~= m);
    out
}

/// How many track rows the timeline shows on the `dir` side of `step`.
pub fn target_tracks(step: &TimelineStep, dir: Direction) -> (r: usize)
    ensures
        r == match dir {
            Direction::Undo => step@.tracks_before,
            Direction::Redo => step@.tracks_after,
        },
{
    match dir {
        Direction::Undo => step.tracks_before,
        Direction::Redo => step.tracks_after,
    }
}

} // verus!
