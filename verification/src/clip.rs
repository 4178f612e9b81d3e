//! The clips of a timeline: what the engine holds of one, and the row that
//! shows it.

use crate::order::Duplicate;
use crate::paths::{FilePath, PathModel};
use vstd::prelude::*;

verus! {

/// A number with a fraction, by the bits of its double. Such numbers are carried
/// and compared here, never computed with.
#[derive(Clone, Copy, Debug)]
pub struct Real {
    pub bits: u64,
}

/// The bit of the sign.
pub const SIGN: u64 = 0x8000_0000_0000_0000;

/// The bits of infinity; above them, but for the sign, is what is no number.
pub const INFINITE: u64 = 0x7ff0_0000_0000_0000;

impl Real {
    /// The bits without the sign.
    pub open spec fn size(self) -> u64 {
        self.bits % SIGN
    }

    /// Whether both are the same number. What is no number is the same as nothing,
    /// itself included; the two zeros are the same.
    pub open spec fn equals(self, other: Real) -> bool {
        &&& self.size() <= INFINITE
        &&& other.size() <= INFINITE
        &&& self.bits == other.bits || self.size() == 0 && other.size() == 0
    }
}

impl vstd::std_specs::cmp::PartialEqSpecImpl for Real {
    open spec fn obeys_eq_spec() -> bool {
        true
    }

    open spec fn eq_spec(&self, other: &Real) -> bool {
        self.equals(*other)
    }
}

impl PartialEq for Real {
    fn eq(&self, other: &Real) -> (r: bool) {
        let a: u64 = self.bits % SIGN;
        let b: u64 = other.bits % SIGN;
        a <= INFINITE && b <= INFINITE && (self.bits == other.bits || a == 0 && b == 0)
    }
}

/// A picture, by the number the window knows it by. One of no width is none.
#[derive(Clone, Copy, PartialEq, Eq, Structural, Debug)]
pub struct Picture {
    pub id: u64,
    pub width: u32,
}

/// One source's waveform and the seconds of source it spans.
#[derive(Clone, Copy, PartialEq, Debug)]
pub struct Wave {
    pub picture: Picture,
    pub secs: Real,
}

/// What a clip is, for its colour on the timeline.
#[derive(Clone, Copy, PartialEq, Eq, Structural, Debug)]
pub enum ClipKind {
    Video,
    Image,
    Sequence,
}

/// Where a clip lies on the canvas, and how it looks and sounds.
#[derive(Clone, Copy, PartialEq, Debug)]
pub struct LayoutRecord {
    pub posx: i32,
    pub posy: i32,
    pub scale: Real,
    pub alpha: Real,
    pub volume: Real,
}

impl LayoutRecord {
    /// Whether both layouts are the same, number by number.
    pub open spec fn equals(self, other: LayoutRecord) -> bool {
        &&& self.posx == other.posx
        &&& self.posy == other.posy
        &&& self.scale.equals(other.scale)
        &&& self.alpha.equals(other.alpha)
        &&& self.volume.equals(other.volume)
    }

    pub fn same(&self, other: &LayoutRecord) -> (r: bool)
        ensures
            r == self.equals(*other),
    {
        self.posx == other.posx && self.posy == other.posy && self.scale == other.scale
            && self.alpha == other.alpha && self.volume == other.volume
    }
}

/// A run of numbered frames.
#[derive(PartialEq, Eq, Debug)]
pub struct SequenceSpec {
    pub dir: FilePath,
    /// What the frames' names begin with, before the number.
    pub prefix: String,
    /// The name of the whole run: `frame_%04d.png`.
    pub pattern: String,
    /// The file of the first frame.
    pub first: FilePath,
    pub start: u64,
    pub count: u64,
    pub fps: u32,
}

/// What a run of frames is.
pub struct SequenceModel {
    pub dir: PathModel,
    pub prefix: Seq<char>,
    pub pattern: Seq<char>,
    pub first: PathModel,
    pub start: u64,
    pub count: u64,
    pub fps: u32,
}

impl View for SequenceSpec {
    type V = SequenceModel;

    open spec fn view(&self) -> SequenceModel {
        SequenceModel {
            dir: self.dir@,
            prefix: self.prefix@,
            pattern: self.pattern@,
            first: self.first@,
            start: self.start,
            count: self.count,
            fps: self.fps,
        }
    }
}

impl Clone for SequenceSpec {
    fn clone(&self) -> (r: SequenceSpec)
        ensures
            r@ == self@,
    {
        SequenceSpec {
            dir: self.dir.clone(),
            prefix: self.prefix.clone(),
            pattern: self.pattern.clone(),
            first: self.first.clone(),
            start: self.start,
            count: self.count,
            fps: self.fps,
        }
    }
}

impl SequenceSpec {
    pub fn same(&self, other: &SequenceSpec) -> (r: bool)
        ensures
            r == (self@ == other@),
    {
        self.dir.same(&other.dir) && self.prefix == other.prefix && self.pattern == other.pattern
            && self.first.same(&other.first) && self.start == other.start && self.count
            == other.count && self.fps == other.fps
    }
}

/// Everything the engine holds of a clip.
#[derive(PartialEq, Debug)]
pub struct ClipRecord {
    pub uri: String,
    pub name: String,
    /// What the URI says the clip is.
    pub kind: ClipKind,
    pub track: usize,
    pub start: Real,
    pub inpoint: Real,
    pub duration: Real,
    pub rate: Real,
    pub layout: LayoutRecord,
    pub sequence: Option<SequenceSpec>,
}

/// What the engine holds of a clip.
pub struct RecordModel {
    pub uri: Seq<char>,
    pub name: Seq<char>,
    pub kind: ClipKind,
    pub track: usize,
    pub start: Real,
    pub inpoint: Real,
    pub duration: Real,
    pub rate: Real,
    pub layout: LayoutRecord,
    pub sequence: Option<SequenceModel>,
}

impl RecordModel {
    /// Whether both records hold the same, number by number.
    pub open spec fn equals(self, other: RecordModel) -> bool {
        &&& self.uri == other.uri
        &&& self.name == other.name
        &&& self.kind == other.kind
        &&& self.track == other.track
        &&& self.start.equals(other.start)
        &&& self.inpoint.equals(other.inpoint)
        &&& self.duration.equals(other.duration)
        &&& self.rate.equals(other.rate)
        &&& self.layout.equals(other.layout)
        &&& self.sequence == other.sequence
    }
}

/// Whether both are records that hold the same, or both none.
pub open spec fn equal_records(a: Option<RecordModel>, b: Option<RecordModel>) -> bool {
    match (a, b) {
        (Some(x), Some(y)) => x.equals(y),
        (None, None) => true,
        _ => false,
    }
}

/// What an optional value is.
pub open spec fn opt_model<T: View>(o: Option<T>) -> Option<T::V> {
    match o {
        Some(x) => Some(x@),
        None => None,
    }
}

impl View for ClipRecord {
    type V = RecordModel;

    open spec fn view(&self) -> RecordModel {
        RecordModel {
            uri: self.uri@,
            name: self.name@,
            kind: self.kind,
            track: self.track,
            start: self.start,
            inpoint: self.inpoint,
            duration: self.duration,
            rate: self.rate,
            layout: self.layout,
            sequence: opt_model(self.sequence),
        }
    }
}

impl Clone for ClipRecord {
    fn clone(&self) -> (r: ClipRecord)
        ensures
            r@ == self@,
    {
        ClipRecord {
            uri: self.uri.clone(),
            name: self.name.clone(),
            kind: self.kind,
            track: self.track,
            start: self.start,
            inpoint: self.inpoint,
            duration: self.duration,
            rate: self.rate,
            layout: self.layout,
            sequence: match &self.sequence {
                Some(s) => Some(s.clone()),
                None => None,
            },
        }
    }
}

impl ClipRecord {
    /// Whether both records hold the same. Records compare exactly: reading an
    /// untouched clip twice gives identical values.
    pub fn same(&self, other: &ClipRecord) -> (r: bool)
        ensures
            r == self@.equals(other@),
    {
        let sequences = match (&self.sequence, &other.sequence) {
            (Some(a), Some(b)) => a.same(b),
            (None, None) => true,
            _ => false,
        };
        sequences && self.uri == other.uri && self.name == other.name && self.kind == other.kind
            && self.track == other.track && self.start == other.start && self.inpoint
            == other.inpoint && self.duration == other.duration && self.rate == other.rate
            && self.layout.same(&other.layout)
    }
}

/// Whether both are records that hold the same, or both none.
pub fn same_option(a: &Option<ClipRecord>, b: &Option<ClipRecord>) -> (r: bool)
    ensures
        r == equal_records(opt_model(*a), opt_model(*b)),
{
    match (a, b) {
        (Some(x), Some(y)) => x.same(y),
        (None, None) => true,
        _ => false,
    }
}

/// The same record once more, or none.
pub fn clone_option(a: &Option<ClipRecord>) -> (r: Option<ClipRecord>)
    ensures
        opt_model(r) == opt_model(*a),
{
    match a {
        Some(x) => Some(x.clone()),
        None => None,
    }
}

/// The row that shows a clip.
#[derive(PartialEq, Debug)]
pub struct TimelineClip {
    pub id: String,
    pub track: i32,
    pub start: Real,
    pub duration: Real,
    pub inpoint: Real,
    pub rate: Real,
    pub name: String,
    pub kind: ClipKind,
    pub selected: bool,
    pub thumb: Picture,
    /// The sound, once it is drawn.
    pub wave: Option<Wave>,
}

/// What a row shows.
pub struct RowModel {
    pub id: Seq<char>,
    pub track: i32,
    pub start: Real,
    pub duration: Real,
    pub inpoint: Real,
    pub rate: Real,
    pub name: Seq<char>,
    pub kind: ClipKind,
    pub selected: bool,
    pub thumb: Picture,
    /// The sound, once it is drawn.
    pub wave: Option<Wave>,
}

impl View for TimelineClip {
    type V = RowModel;

    open spec fn view(&self) -> RowModel {
        RowModel {
            id: self.id@,
            track: self.track,
            start: self.start,
            duration: self.duration,
            inpoint: self.inpoint,
            rate: self.rate,
            name: self.name@,
            kind: self.kind,
            selected: self.selected,
            thumb: self.thumb,
            wave: self.wave,
        }
    }
}

impl Clone for TimelineClip {
    fn clone(&self) -> (r: TimelineClip)
        ensures
            r@ == self@,
    {
        TimelineClip {
            id: self.id.clone(),
            track: self.track,
            start: self.start,
            duration: self.duration,
            inpoint: self.inpoint,
            rate: self.rate,
            name: self.name.clone(),
            kind: self.kind,
            selected: self.selected,
            thumb: self.thumb,
            wave: self.wave,
        }
    }
}

impl Duplicate for TimelineClip {
    fn duplicate(&self) -> (r: TimelineClip) {
        self.clone()
    }
}

/// No picture yet.
pub open spec fn no_picture() -> Picture {
    Picture { id: 0, width: 0 }
}

impl RowModel {
    /// The row where `record` places its clip, under the ID the clip has now.
    pub open spec fn placed(self, id: Seq<char>, record: RecordModel) -> RowModel {
        RowModel {
            id,
            track: record.track as i32,
            start: record.start,
            duration: record.duration,
            inpoint: record.inpoint,
            rate: record.rate,
            ..self
        }
    }
}

/// A row built from a record alone.
pub open spec fn fresh_row(id: Seq<char>, record: RecordModel) -> RowModel {
    RowModel {
        id,
        track: record.track as i32,
        start: record.start,
        duration: record.duration,
        inpoint: record.inpoint,
        rate: record.rate,
        name: record.name,
        kind: record.kind,
        selected: false,
        thumb: no_picture(),
        wave: None,
    }
}

impl TimelineClip {
    /// A row built from a record alone: no picture yet, not selected.
    pub fn fresh(id: &String, record: &ClipRecord) -> (r: TimelineClip)
        ensures
            r@ == fresh_row(id@, record@),
    {
        TimelineClip {
            id: id.clone(),
            track: record.track as i32,
            start: record.start,
            duration: record.duration,
            inpoint: record.inpoint,
            rate: record.rate,
            name: record.name.clone(),
            kind: record.kind,
            selected: false,
            thumb: Picture { id: 0, width: 0 },
            wave: None,
        }
    }

    /// Put the row where `record` places its clip, under the ID the clip has
    /// now.
    pub fn place(&mut self, id: &String, record: &ClipRecord)
        ensures
            final(self)@ == old(self)@.placed(id@, record@),
    {
        self.id = id.clone();
        self.track = record.track as i32;
        self.start = record.start;
        self.duration = record.duration;
        self.inpoint = record.inpoint;
        self.rate = record.rate;
    }
}

/// A row of the media bin.
#[derive(PartialEq, Eq, Debug)]
pub struct Asset {
    pub name: String,
    pub thumb: Picture,
}

/// What a row of the media bin shows.
pub struct AssetModel {
    pub name: Seq<char>,
    pub thumb: Picture,
}

impl View for Asset {
    type V = AssetModel;

    open spec fn view(&self) -> AssetModel {
        AssetModel { name: self.name@, thumb: self.thumb }
    }
}

// ---------------------------------------------------------------------------
// Laws
// ---------------------------------------------------------------------------

/// Whether the bits are those of no number.
pub open spec fn is_nan(x: Real) -> bool {
    x.bits % 0x8000_0000_0000_0000 > 0x7ff0_0000_0000_0000
}

/// Whether two numbers have the same bits but for the sign of a zero.
pub open spec fn alike(x: Real, y: Real) -> bool {
    ||| x.bits == y.bits
    ||| x.bits == 0 && y.bits == 0x8000_0000_0000_0000
    ||| x.bits == 0x8000_0000_0000_0000 && y.bits == 0
}

/// Two numbers are equal exactly where neither is no number, and their bits are
/// the same but for the sign of a zero.
pub proof fn numbers_are_equal_by_their_bits(x: Real, y: Real)
    ensures
        x.equals(y) <==> !is_nan(x) && !is_nan(y) && alike(x, y),
{
}

/// Whether two runs of frames are the same, field by field.
pub open spec fn sequences_alike(a: Option<SequenceSpec>, b: Option<SequenceSpec>) -> bool {
    match (a, b) {
        (Some(x), Some(y)) => {
            &&& x.dir@ == y.dir@
            &&& x.prefix@ == y.prefix@
            &&& x.pattern@ == y.pattern@
            &&& x.first@ == y.first@
            &&& x.start == y.start
            &&& x.count == y.count
            &&& x.fps == y.fps
        },
        (None, None) => true,
        _ => false,
    }
}

/// Whether a record holds something that is no number.
pub open spec fn holds_nan(a: ClipRecord) -> bool {
    ||| is_nan(a.start) || is_nan(a.inpoint) || is_nan(a.duration) || is_nan(a.rate)
    ||| is_nan(a.layout.scale) || is_nan(a.layout.alpha) || is_nan(a.layout.volume)
}

/// Records that compare equal have the same fields but for the sign of a zero, and
/// hold no NaN: those that differ in their URI, name, kind, track, place on the canvas
/// or run of frames are never equal, and a record that holds a NaN is equal to none.
pub proof fn equal_records_agree_in_every_field(a: &ClipRecord, b: &ClipRecord, r: bool)
    requires
        call_ensures(ClipRecord::same, (a, b), r),
        r,
    ensures
        a.uri@ == b.uri@,
        a.name@ == b.name@,
        a.kind == b.kind,
        a.track == b.track,
        a.layout.posx == b.layout.posx && a.layout.posy == b.layout.posy,
        sequences_alike(a.sequence, b.sequence),
        alike(a.start, b.start) && alike(a.inpoint, b.inpoint),
        alike(a.duration, b.duration) && alike(a.rate, b.rate),
        alike(a.layout.scale, b.layout.scale) && alike(a.layout.alpha, b.layout.alpha),
        alike(a.layout.volume, b.layout.volume),
        !holds_nan(*a) && !holds_nan(*b),
{
    assert(a@.equals(b@));
    numbers_are_equal_by_their_bits(a.start, b.start);
    numbers_are_equal_by_their_bits(a.inpoint, b.inpoint);
    numbers_are_equal_by_their_bits(a.duration, b.duration);
    numbers_are_equal_by_their_bits(a.rate, b.rate);
    numbers_are_equal_by_their_bits(a.layout.scale, b.layout.scale);
    numbers_are_equal_by_their_bits(a.layout.alpha, b.layout.alpha);
    numbers_are_equal_by_their_bits(a.layout.volume, b.layout.volume);
    if let (Some(x), Some(y)) = (a.sequence, b.sequence) {
        assert(a@.sequence == Some(x@) && b@.sequence == Some(y@));
        lemma_sequences(x, y);
    }
}

/// Two records that hold no NaN, and whose fields are all the same but for the sign of
/// a zero, compare equal.
pub proof fn records_that_agree_are_equal(a: &ClipRecord, b: &ClipRecord, r: bool)
    requires
        call_ensures(ClipRecord::same, (a, b), r),
        !holds_nan(*a) && !holds_nan(*b),
        a.uri@ == b.uri@ && a.name@ == b.name@ && a.kind == b.kind && a.track == b.track,
        alike(a.start, b.start) && alike(a.inpoint, b.inpoint),
        alike(a.duration, b.duration) && alike(a.rate, b.rate),
        a.layout.posx == b.layout.posx && a.layout.posy == b.layout.posy,
        alike(a.layout.scale, b.layout.scale) && alike(a.layout.alpha, b.layout.alpha),
        alike(a.layout.volume, b.layout.volume),
        sequences_alike(a.sequence, b.sequence),
    ensures
        r,
{
    assert(a.start.equals(b.start)) by {
        numbers_are_equal_by_their_bits(a.start, b.start);
    }
    assert(a.inpoint.equals(b.inpoint)) by {
        numbers_are_equal_by_their_bits(a.inpoint, b.inpoint);
    }
    assert(a.duration.equals(b.duration)) by {
        numbers_are_equal_by_their_bits(a.duration, b.duration);
    }
    assert(a.rate.equals(b.rate)) by {
        numbers_are_equal_by_their_bits(a.rate, b.rate);
    }
    assert(a.layout.scale.equals(b.layout.scale)) by {
        numbers_are_equal_by_their_bits(a.layout.scale, b.layout.scale);
    }
    assert(a.layout.alpha.equals(b.layout.alpha)) by {
        numbers_are_equal_by_their_bits(a.layout.alpha, b.layout.alpha);
    }
    assert(a.layout.volume.equals(b.layout.volume)) by {
        numbers_are_equal_by_their_bits(a.layout.volume, b.layout.volume);
    }
    assert(a@.sequence == b@.sequence) by {
        if let (Some(x), Some(y)) = (a.sequence, b.sequence) {
            assert(a@.sequence == Some(x@) && b@.sequence == Some(y@));
            lemma_sequences(x, y);
        }
    }
    assert(a@.equals(b@));
}

proof fn lemma_sequences(x: SequenceSpec, y: SequenceSpec)
    ensures
        x@ == y@ <==> sequences_alike(Some(x), Some(y)),
{
    if x@ == y@ {
        assert(x@.dir == y@.dir && x@.prefix == y@.prefix && x@.pattern == y@.pattern);
        assert(x@.first == y@.first && x@.start == y@.start && x@.count == y@.count);
        assert(x@.fps == y@.fps);
    }
}

/// Two layouts that hold no NaN compare equal exactly where the clip lies at the
/// same place of the canvas and looks and sounds the same.
pub proof fn layouts_compare_field_by_field(a: &LayoutRecord, b: &LayoutRecord, r: bool)
    requires
        call_ensures(LayoutRecord::same, (a, b), r),
    ensures
        r ==> a.posx == b.posx && a.posy == b.posy,
        r ==> alike(a.scale, b.scale) && !is_nan(a.scale) && !is_nan(b.scale),
        r ==> alike(a.alpha, b.alpha) && !is_nan(a.alpha) && !is_nan(b.alpha),
        r ==> alike(a.volume, b.volume) && !is_nan(a.volume) && !is_nan(b.volume),
        !r ==> {
            ||| a.posx != b.posx || a.posy != b.posy
            ||| !alike(a.scale, b.scale) || is_nan(a.scale) || is_nan(b.scale)
            ||| !alike(a.alpha, b.alpha) || is_nan(a.alpha) || is_nan(b.alpha)
            ||| !alike(a.volume, b.volume) || is_nan(a.volume) || is_nan(b.volume)
        },
{
    if r {
        assert(a.equals(*b));
        numbers_are_equal_by_their_bits(a.scale, b.scale);
        numbers_are_equal_by_their_bits(a.alpha, b.alpha);
        numbers_are_equal_by_their_bits(a.volume, b.volume);
    } else if !a.scale.equals(b.scale) {
        numbers_are_equal_by_their_bits(a.scale, b.scale);
    } else if !a.alpha.equals(b.alpha) {
        numbers_are_equal_by_their_bits(a.alpha, b.alpha);
    } else if !a.volume.equals(b.volume) {
        numbers_are_equal_by_their_bits(a.volume, b.volume);
    } else {
        assert(a.posx != b.posx || a.posy != b.posy);
    }
}

/// Two runs of frames are the same exactly where all their fields are.
pub proof fn runs_of_frames_compare_field_by_field(a: &SequenceSpec, b: &SequenceSpec, r: bool)
    requires
        call_ensures(SequenceSpec::same, (a, b), r),
    ensures
        r <==> sequences_alike(Some(*a), Some(*b)),
{
    lemma_sequences(*a, *b);
}

/// A record is the same as another, or none as none, and never a record as none.
pub proof fn a_record_is_never_none(a: &Option<ClipRecord>, b: &Option<ClipRecord>, r: bool)
    requires
        call_ensures(same_option, (a, b), r),
    ensures
        a is None && b is None ==> r,
        a is Some && b is None ==> !r,
        a is None && b is Some ==> !r,
        a is Some && b is Some && r ==> a->0.track == b->0.track && a->0.uri@ == b->0.uri@,
{
}

/// A row lies where the record puts its clip, under the ID given. A fresh row has
/// the record's name and kind, and neither picture, sound nor selection; one that
/// was there keeps those it had.
pub proof fn a_row_lies_where_its_record_says(id: &String, record: &ClipRecord, r: TimelineClip)
    requires
        call_ensures(TimelineClip::fresh, (id, record), r),
    ensures
        r.id@ == id@ && r.name@ == record.name@ && r.kind == record.kind,
        record.track <= i32::MAX ==> r.track == record.track,
        r.start == record.start && r.duration == record.duration,
        r.inpoint == record.inpoint && r.rate == record.rate,
        !r.selected && r.thumb.id == 0 && r.thumb.width == 0 && r.wave is None,
{
    assert(r@ == fresh_row(id@, record@));
    assert(r@.id == r.id@ && r@.name == r.name@ && r@.kind == r.kind && r@.track == r.track);
    assert(r@.start == r.start && r@.duration == r.duration && r@.inpoint == r.inpoint);
    assert(r@.rate == r.rate && r@.selected == r.selected && r@.thumb == r.thumb);
    assert(r@.wave == r.wave);
}

/// A row that is placed anew moves to where the record puts its clip, and keeps
/// its name, kind, selection, picture and sound.
pub proof fn a_placed_row_keeps_its_looks(row: &mut TimelineClip, id: &String, record: &ClipRecord)
    requires
        call_ensures(TimelineClip::place, (row, id, record), ()),
    ensures
        final(row).id@ == id@,
        record.track <= i32::MAX ==> final(row).track == record.track,
        final(row).start == record.start && final(row).duration == record.duration,
        final(row).inpoint == record.inpoint && final(row).rate == record.rate,
        final(row).name@ == old(row).name@ && final(row).kind == old(row).kind,
        final(row).selected == old(row).selected && final(row).thumb == old(row).thumb,
        final(row).wave == old(row).wave,
{
    let r = *final(row);
    assert(r@.id == r.id@ && r@.name == r.name@ && r@.kind == r.kind && r@.track == r.track);
    assert(r@.start == r.start && r@.duration == r.duration && r@.inpoint == r.inpoint);
    assert(r@.rate == r.rate && r@.selected == r.selected && r@.thumb == r.thumb);
    assert(r@.wave == r.wave);
}

} // verus!
