//! Media import: files and folders dropped or opened are discovered on a
//! worker thread and drained onto the bin and the timeline by a timer; image
//! sequences take a confirm dialog and an optional conversion first. Also the
//! media bin's add and remove. The workers, the timer and the dialogs are the
//! caller's; this keeps the books and decides what each event leads to.

use crate::clip::{opt_model, Asset, AssetModel, Picture, SequenceModel, SequenceSpec};
use crate::dialogs::{name_lines, name_list, show_error, Dialog, DialogModel};
use crate::order::{
    contains, insert_sorted, lemma_push_to_set, listed, models, remove_sorted, sort_distinct,
};
use crate::paths::{name_of, FilePath, PathModel};
use crate::sorted_map::SortedMap;
use crate::text::{concat, decimal, push_decimal};
use vstd::prelude::*;

verus! {

/// Paths already queued or in the media bin, by their canonical form, so that
/// two spellings of one file are one file.
pub struct SeenSet {
    keys: Vec<FilePath>,
}

impl View for SeenSet {
    type V = Set<PathModel>;

    closed spec fn view(&self) -> Set<PathModel> {
        models(self.keys@).to_set()
    }
}

impl SeenSet {
    /// The keys are in order.
    pub closed spec fn wf(&self) -> bool {
        listed::<FilePath>(models(self.keys@))
    }

    pub fn new() -> (r: SeenSet)
        ensures
            r.wf(),
            r@ == Set::<PathModel>::empty(),
    {
        let r = SeenSet { keys: Vec::new() };
        assert(r@ =~= Set::<PathModel>::empty());
        r
    }

    /// Put `key` in; whether it was new.
    pub fn insert(&mut self, key: &FilePath) -> (r: bool)
        requires
            old(self).wf(),
        ensures
            final(self).wf(),
            final(self)@ == old(self)@.insert(key@),
            r == !old(self)@.contains(key@),
    {
        let known = contains(&self.keys, key);
        insert_sorted(&mut self.keys, key.clone());
        !known
    }

    pub fn contains(&self, key: &FilePath) -> (r: bool)
        requires
            self.wf(),
        ensures
            r == self@.contains(key@),
    {
        contains(&self.keys, key)
    }

    pub fn remove(&mut self, key: &FilePath)
        requires
            old(self).wf(),
        ensures
            final(self).wf(),
            final(self)@ == old(self)@.remove(key@),
    {
        remove_sorted(&mut self.keys, key);
    }

    /// Forget everything but `keep`.
    pub fn reseed(&mut self, keep: &Vec<FilePath>)
        ensures
            final(self).wf(),
            final(self)@ == models(keep@).to_set(),
    {
        self.keys = sort_distinct(keep);
    }
}

/// What a scan of dropped paths found: the media, and the frames that import
/// only as a sequence.
pub struct Scan {
    pub media: Vec<FilePath>,
    pub frames_only: Vec<FilePath>,
}

/// Folder expansions running off the interface thread, and the results waiting
/// for it. The drain sleeps while nothing is in flight, so [`Self::busy`] must
/// stay true from the moment a scan starts until its result has been collected.
pub struct Expansions {
    in_flight: u64,
    done: Vec<Scan>,
}

/// The scans that run, and the results that wait.
#[verifier::ext_equal]
pub struct ExpansionsModel {
    pub in_flight: nat,
    pub done: Seq<Scan>,
}

impl ExpansionsModel {
    /// Nothing runs and nothing waits.
    pub open spec fn idle() -> ExpansionsModel {
        ExpansionsModel { in_flight: 0, done: seq![] }
    }

    /// A scan starts.
    pub open spec fn started(self) -> ExpansionsModel {
        ExpansionsModel { in_flight: self.in_flight + 1, ..self }
    }

    /// A scan ends, and its result waits.
    pub open spec fn finished(self, result: Scan) -> ExpansionsModel {
        ExpansionsModel {
            in_flight: (self.in_flight - 1) as nat,
            done: self.done.push(result),
        }
    }

    /// The results are collected.
    pub open spec fn collected(self) -> ExpansionsModel {
        ExpansionsModel { done: seq![], ..self }
    }

    /// Something runs or waits.
    pub open spec fn is_busy(self) -> bool {
        self.in_flight > 0 || self.done.len() > 0
    }
}

impl View for Expansions {
    type V = ExpansionsModel;

    closed spec fn view(&self) -> ExpansionsModel {
        ExpansionsModel { in_flight: self.in_flight as nat, done: self.done@ }
    }
}

impl Expansions {
    pub fn new() -> (r: Expansions)
        ensures
            r@ == ExpansionsModel::idle(),
    {
        Expansions { in_flight: 0, done: Vec::new() }
    }

    /// A scan starts.
    pub fn start(&mut self)
        requires
            old(self)@.in_flight < u64::MAX,
        ensures
            final(self)@ == old(self)@.started(),
    {
        self.in_flight = self.in_flight + 1;
    }

    /// A scan that was started is done.
    pub fn finish(&mut self, result: Scan)
        requires
            old(self)@.in_flight > 0,
        ensures
            final(self)@ == old(self)@.finished(result),
    {
        self.done.push(result);
        self.in_flight = self.in_flight - 1;
    }

    /// Whether a scan is running or its result is waiting to be collected.
    pub fn busy(&self) -> (r: bool)
        ensures
            r == self@.is_busy(),
    {
        self.in_flight > 0 || self.done.len() > 0
    }

    /// The results that wait, which then wait no more.
    pub fn take(&mut self) -> (r: Vec<Scan>)
        ensures
            r@ == old(self)@.done,
            final(self)@ == old(self)@.collected(),
    {
        let mut taken: Vec<Scan> = Vec::new();
        core::mem::swap(&mut taken, &mut self.done);
        taken
    }
}

/// A media file that a scan found, and its canonical form.
pub struct Found {
    pub path: FilePath,
    pub key: FilePath,
}

/// A media file that a scan found, and its canonical form.
pub struct FoundModel {
    pub path: PathModel,
    pub key: PathModel,
}

impl View for Found {
    type V = FoundModel;

    open spec fn view(&self) -> FoundModel {
        FoundModel { path: self.path@, key: self.key@ }
    }
}

/// The keys of what was found.
pub open spec fn keys_of(media: Seq<FoundModel>) -> Seq<PathModel> {
    media.map_values(|f: FoundModel| f.key)
}

/// Those of the found files that are neither seen nor found before.
pub open spec fn fresh(seen: Set<PathModel>, media: Seq<FoundModel>) -> Seq<FoundModel>
    decreases media.len(),
{
    if media.len() == 0 {
        seq![]
    } else {
        let rest = media.drop_last();
        if seen.union(keys_of(rest).to_set()).contains(media.last().key) {
            fresh(seen, rest)
        } else {
            fresh(seen, rest).push(media.last())
        }
    }
}

/// A file for the worker, stamped with the generation it was queued in.
pub struct Stamped {
    pub gen: u64,
    pub path: FilePath,
}

/// What queueing leads to.
pub struct Queued {
    /// The files to hand to the worker.
    pub items: Vec<Stamped>,
    /// Whether to open the progress dialog, with the new total.
    pub show: bool,
    /// A pointer at "Import sequence…" for frames that were skipped.
    pub dialog: Option<Dialog>,
}

/// What to say of frames that import only as a sequence.
pub open spec fn frames_dialog(count: nat) -> DialogModel {
    DialogModel {
        title: "EXR frames import as a sequence"@,
        detail: decimal(count)
            + " EXR file(s) were skipped. Use Import sequence\u{2026} and pick the first frame of the run."@,
        info: false,
        reveal: seq![],
    }
}

/// The media import queue. Every batch is stamped with `gen`, and a cancel
/// bumps it, so the worker and the drain discard anything queued before — no
/// cancelled stragglers revived by the next drop, no double-counted files.
pub struct ImportQueue {
    /// Files in the current import (drives the progress dialog); 0 is idle.
    pub total: usize,
    pub done: usize,
    pub gen: u64,
    pub seen: SeenSet,
    /// Whether an image sequence is being imported; at most one is.
    pub seq_active: bool,
    /// Names of files that failed discovery this import, for one summary.
    pub failures: Vec<String>,
}

/// What the queue holds.
#[verifier::ext_equal]
pub struct QueueModel {
    pub total: nat,
    pub done: nat,
    pub gen: u64,
    pub seen: Set<PathModel>,
    pub seq_active: bool,
    pub failures: Seq<Seq<char>>,
}

impl View for ImportQueue {
    type V = QueueModel;

    open spec fn view(&self) -> QueueModel {
        QueueModel {
            total: self.total as nat,
            done: self.done as nat,
            gen: self.gen,
            seen: self.seen@,
            seq_active: self.seq_active,
            failures: models(self.failures@),
        }
    }
}

/// What became of a file that the worker handed back.
#[derive(Clone, Copy, PartialEq, Eq, Structural, Debug)]
pub enum Arrival {
    /// Of a cancelled batch: neither counted nor added.
    Stale,
    /// Unreadable: no dead bin entry for it.
    Failed,
    /// Into the bin; and onto the timeline, where that is empty.
    Added { on_timeline: bool },
}

/// How a confirmed sequence import starts.
pub enum SeqStart {
    /// No sequence is pending.
    Nothing,
    /// It is refused, and this says why.
    Refused(Dialog),
    /// It runs, under these names in the bin and on the timeline.
    Go { spec: SequenceSpec, bin_name: String, clip_name: String },
}

/// What became of a sequence import.
pub enum SeqEnd {
    /// The user cancelled: forget it silently, allow another import.
    Forgotten,
    /// Into the bin and onto the timeline.
    Added,
    Failed(Dialog),
}

/// What the progress dialog does at the end of a drain.
pub struct DrainEnd {
    /// Close the progress dialog.
    pub close: bool,
    /// The progress to show, done and total, where it changed.
    pub progress: Option<(i32, i32)>,
    /// A summary of the files that failed.
    pub dialog: Option<Dialog>,
}

/// The frame rate that was asked for, within what a sequence can have.
pub open spec fn frame_rate(asked: int) -> int {
    if asked < 1 {
        1
    } else if asked > 240 {
        240
    } else {
        asked
    }
}

/// The label of a sequence in the media bin: its pattern and frame count.
pub open spec fn bin_label(spec: SequenceModel) -> Seq<char> {
    spec.pattern + " \u{b7} "@ + decimal(spec.count as nat) + "f"@
}

/// What to say of files that could not be imported.
pub open spec fn unread_dialog(failures: Seq<Seq<char>>) -> DialogModel {
    DialogModel {
        title: "Some files could not be imported"@,
        detail: decimal(failures.len()) + " file(s) couldn't be read as media:\n"@ + name_lines(
            failures,
        ),
        info: false,
        reveal: seq![],
    }
}

impl ImportQueue {
    pub open spec fn wf(&self) -> bool {
        self.seen.wf()
    }

    pub fn new() -> (r: ImportQueue)
        ensures
            r.wf(),
            r@ == (QueueModel {
                total: 0,
                done: 0,
                gen: 0,
                seen: Set::empty(),
                seq_active: false,
                failures: seq![],
            }),
    {
        let r = ImportQueue {
            total: 0,
            done: 0,
            gen: 0,
            seen: SeenSet::new(),
            seq_active: false,
            failures: Vec::new(),
        };
        assert(models(r.failures@) =~= Seq::<Seq<char>>::empty());
        r
    }

    pub fn current_gen(&self) -> (r: u64)
        ensures
            r == self@.gen,
    {
        self.gen
    }

    /// Whether the drain has nothing to do: no file import, no sequence import,
    /// no scan.
    pub fn idle(&self, scanning: bool) -> (r: bool)
        ensures
            r == (self@.total == 0 && !self@.seq_active && !scanning),
    {
        self.total == 0 && !self.seq_active && !scanning
    }

    /// Queue what a scan found and open the progress dialog. Explicitly dropped
    /// EXR frames get a pointer at "Import sequence…".
    pub fn queue_collected(&mut self, media: &Vec<Found>, frames_only: usize) -> (r: Queued)
        requires
            old(self).wf(),
            old(self).total + media.len() <= i32::MAX,
        ensures
            final(self).wf(),
            ({
                let new = fresh(old(self)@.seen, models(media@));
                &&& final(self)@ == QueueModel {
                    total: old(self)@.total + new.len(),
                    seen: old(self)@.seen.union(keys_of(models(media@)).to_set()),
                    ..old(self)@
                }
                &&& r.items.len() == new.len()
                &&& forall|i: int|
                    0 <= i < new.len() ==> (#[trigger] r.items[i]).gen == old(self)@.gen
                        && r.items[i].path@ == new[i].path
                &&& r.show == (new.len() > 0)
            }),
            if frames_only > 0 {
                r.dialog is Some && r.dialog->0@ == frames_dialog(frames_only as nat)
            } else {
                r.dialog is None
            },
    {
        let ghost before = self@;
        let ghost m = models(media@);
        let mut items: Vec<Stamped> = Vec::new();
        let mut i: usize = 0;
        assert(self.seen@ =~= before.seen.union(keys_of(m.take(0)).to_set()));
        while i < media.len()
            invariant
                i <= media.len(),
                self.wf(),
                m == models(media@),
                before.total + media.len() <= i32::MAX,
                items.len() == fresh(before.seen, m.take(i as int)).len(),
                items.len() <= i,
                forall|j: int|
                    0 <= j < items.len() ==> (#[trigger] items[j]).gen == before.gen
                        && items[j].path@ == fresh(before.seen, m.take(i as int))[j].path,
                self@ == (QueueModel {
                    total: before.total + items@.len(),
                    seen: before.seen.union(keys_of(m.take(i as int)).to_set()),
                    ..before
                }),
            decreases media.len() - i,
        {
            let ghost items0 = items@;
            proof {
                assert(m[i as int] == media[i as int]@);
                assert(m.take(i + 1).drop_last() =~= m.take(i as int));
                assert(keys_of(m.take(i + 1)) =~= keys_of(m.take(i as int)).push(m[i as int].key));
                lemma_push_to_set(keys_of(m.take(i as int)), m[i as int].key);
                assert(before.seen.union(keys_of(m.take(i + 1)).to_set()) =~= before.seen.union(
                    keys_of(m.take(i as int)).to_set(),
                ).insert(m[i as int].key));
            }
            if self.seen.insert(&media[i].key) {
                items.push(Stamped { gen: self.gen, path: media[i].path.clone() });
                self.total = self.total + 1;
                assert forall|j: int| 0 <= j < items.len() implies (#[trigger] items[j]).gen
                    == before.gen && items[j].path@ == fresh(
                    before.seen,
                    m.take(i + 1),
                )[j].path by {
                    if j < items0.len() {
                        assert(items[j] == items0[j]);
                    }
                }
            }
            i += 1;
        }
        assert(m.take(i as int) =~= m);
        let show = items.len() > 0;
        let dialog = if frames_only > 0 {
            let mut detail = String::new();
            push_decimal(&mut detail, frames_only as u64);
            detail.append(
                " EXR file(s) were skipped. Use Import sequence\u{2026} and pick the first frame of the run.",
            );
            let d = show_error(String::from_str("EXR frames import as a sequence"), detail);
            assert(d@ =~= frames_dialog(frames_only as nat));
            Some(d)
        } else {
            None
        };
        Queued { items, show, dialog }
    }

    /// A file came back from the worker: `failed` tells whether it could not be
    /// read as media, `clips` how many clips are on the timeline.
    pub fn arrived(
        &mut self,
        item_gen: u64,
        key: &FilePath,
        name: &String,
        failed: bool,
        clips: usize,
    ) -> (r: Arrival)
        requires
            old(self).wf(),
            old(self).done < usize::MAX,
        ensures
            final(self).wf(),
            if item_gen != old(self)@.gen {
                r == Arrival::Stale && final(self)@ == old(self)@
            } else if failed {
                r == Arrival::Failed && final(self)@ == (QueueModel {
                    done: old(self)@.done + 1,
                    seen: old(self)@.seen.remove(key@),
                    failures: old(self)@.failures.push(name@),
                    ..old(self)@
                })
            } else {
                r == (Arrival::Added { on_timeline: clips == 0 }) && final(self)@ == (QueueModel {
                    done: old(self)@.done + 1,
                    ..old(self)@
                })
            },
    {
        if item_gen != self.gen {
            return Arrival::Stale;
        }
        self.done = self.done + 1;
        if failed {
            let ghost f0 = models(self.failures@);
            self.seen.remove(key);
            self.failures.push(name.clone());
            assert(models(self.failures@) =~= f0.push(name@));
            return Arrival::Failed;
        }
        Arrival::Added { on_timeline: clips == 0 }
    }

    /// The dialog of a detected sequence was confirmed, with a frame rate. One
    /// import runs at a time, and a sequence in the bin is not imported again.
    /// `key` is the canonical form of the sequence's first frame.
    pub fn confirm_sequence(
        &mut self,
        pending: Option<SequenceSpec>,
        key: &FilePath,
        fps: i32,
    ) -> (r: SeqStart)
        requires
            old(self).wf(),
        ensures
            final(self).wf(),
            match opt_model(pending) {
                None => r is Nothing && final(self)@ == old(self)@,
                Some(spec) => if old(self)@.seq_active {
                    &&& final(self)@ == old(self)@
                    &&& r matches SeqStart::Refused(d)
                    &&& d@ == (DialogModel {
                        title: "A sequence is already being converted"@,
                        detail: "Wait for the current import to finish, or cancel it, then import this one."@,
                        info: false,
                        reveal: seq![],
                    })
                } else if old(self)@.seen.contains(key@) {
                    &&& final(self)@ == old(self)@
                    &&& r matches SeqStart::Refused(d)
                    &&& d@ == (DialogModel {
                        title: "Already imported"@,
                        detail: "That sequence is already in the media bin."@,
                        info: false,
                        reveal: seq![],
                    })
                } else {
                    &&& final(self)@ == (QueueModel {
                        seen: old(self)@.seen.insert(key@),
                        seq_active: true,
                        ..old(self)@
                    })
                    &&& r matches SeqStart::Go { spec: run, bin_name, clip_name }
                    &&& run@ == (SequenceModel { fps: frame_rate(fps as int) as u32, ..spec })
                    &&& bin_name@ == bin_label(spec)
                    &&& clip_name@ == spec.pattern
                },
            },
    {
        match pending {
            None => SeqStart::Nothing,
            Some(spec) => {
                if self.seq_active {
                    return SeqStart::Refused(
                        show_error(
                            String::from_str("A sequence is already being converted"),
                            String::from_str(
                                "Wait for the current import to finish, or cancel it, then import this one.",
                            ),
                        ),
                    );
                }
                if !self.seen.insert(key) {
                    assert(self@.seen =~= old(self)@.seen);
                    return SeqStart::Refused(
                        show_error(
                            String::from_str("Already imported"),
                            String::from_str("That sequence is already in the media bin."),
                        ),
                    );
                }
                self.seq_active = true;
                let mut bin_name = concat(spec.pattern.as_str(), " \u{b7} ");
                push_decimal(&mut bin_name, spec.count);
                bin_name.append("f");
                let clip_name = spec.pattern.clone();
                let mut run = spec;
                run.fps = if fps < 1 {
                    1
                } else if fps > 240 {
                    240
                } else {
                    fps as u32
                };
                SeqStart::Go { spec: run, bin_name, clip_name }
            },
        }
    }

    /// A sequence import came back: `ready` tells whether it can be added.
    /// `key` is the canonical form of its first frame.
    pub fn sequence_done(
        &mut self,
        key: &FilePath,
        ready: bool,
        error: Option<String>,
        cancelled: bool,
    ) -> (r: SeqEnd)
        requires
            old(self).wf(),
        ensures
            final(self).wf(),
            if cancelled {
                r is Forgotten && final(self)@ == (QueueModel {
                    seq_active: false,
                    seen: old(self)@.seen.remove(key@),
                    ..old(self)@
                })
            } else if ready && error is None {
                r is Added && final(self)@ == (QueueModel { seq_active: false, ..old(self)@ })
            } else {
                &&& final(self)@ == (QueueModel {
                    seq_active: false,
                    seen: old(self)@.seen.remove(key@),
                    ..old(self)@
                })
                &&& r matches SeqEnd::Failed(d)
                &&& d@ == (DialogModel {
                    title: "Could not import sequence"@,
                    detail: match error {
                        Some(e) => e@,
                        None => "unknown error"@,
                    },
                    info: false,
                    reveal: seq![],
                })
            },
    {
        self.seq_active = false;
        if cancelled {
            self.seen.remove(key);
            return SeqEnd::Forgotten;
        }
        if ready && error.is_none() {
            return SeqEnd::Added;
        }
        self.seen.remove(key);
        let detail = match error {
            Some(e) => e,
            None => String::from_str("unknown error"),
        };
        SeqEnd::Failed(show_error(String::from_str("Could not import sequence"), detail))
    }

    /// Whether a sequence that just came back closes the progress dialog: only
    /// where no file import still drives it.
    pub fn sequence_closes(&self) -> (r: bool)
        ensures
            r == (self@.total == 0),
    {
        self.total == 0
    }

    /// The end of a drain: mirror the progress, and once every file came back
    /// close the dialog (unless a sequence import keeps it) and sum up what
    /// failed. While only a sequence is imported, its own progress shows.
    pub fn end_of_drain(&mut self, converted: u32, frames: u32) -> (r: DrainEnd)
        requires
            old(self).wf(),
            old(self).done <= i32::MAX,
            old(self).total <= i32::MAX,
            converted <= i32::MAX,
            frames <= i32::MAX,
        ensures
            final(self).wf(),
            if old(self)@.total > 0 && old(self)@.done >= old(self)@.total {
                &&& final(self)@ == (QueueModel {
                    total: 0,
                    done: 0,
                    failures: seq![],
                    ..old(self)@
                })
                &&& r.close == !old(self)@.seq_active
                &&& r.progress == Some((old(self).done as i32, old(self).total as i32))
                &&& if old(self)@.failures.len() > 0 {
                    r.dialog is Some && r.dialog->0@ == unread_dialog(old(self)@.failures)
                } else {
                    r.dialog is None
                }
            } else {
                &&& final(self)@ == old(self)@
                &&& !r.close
                &&& r.dialog is None
                &&& r.progress == if old(self)@.total > 0 {
                    Some((old(self).done as i32, old(self).total as i32))
                } else if old(self)@.seq_active && frames > 0 {
                    Some((converted as i32, frames as i32))
                } else {
                    None
                }
            },
    {
        if self.total > 0 {
            let progress = Some((self.done as i32, self.total as i32));
            if self.done >= self.total {
                self.total = 0;
                self.done = 0;
                let dialog = if self.failures.len() > 0 {
                    let ghost f = models(self.failures@);
                    let mut detail = String::new();
                    push_decimal(&mut detail, self.failures.len() as u64);
                    detail.append(" file(s) couldn't be read as media:\n");
                    detail.append(name_list(&self.failures).as_str());
                    let d = show_error(
                        String::from_str("Some files could not be imported"),
                        detail,
                    );
                    assert(d@ =~= unread_dialog(f));
                    Some(d)
                } else {
                    None
                };
                self.failures.clear();
                assert(models(self.failures@) =~= Seq::<Seq<char>>::empty());
                return DrainEnd { close: !self.seq_active, progress, dialog };
            }
            return DrainEnd { close: false, progress, dialog: None };
        }
        if self.seq_active && frames > 0 {
            return DrainEnd {
                close: false,
                progress: Some((converted as i32, frames as i32)),
                dialog: None,
            };
        }
        DrainEnd { close: false, progress: None, dialog: None }
    }

    /// Forget what has been imported and start again from `in_bin` — what a
    /// reopened project put there. Without this, a source the new project uses
    /// would be refused as "already imported" from the project before it.
    pub fn reseed(&mut self, in_bin: &Vec<FilePath>)
        ensures
            final(self).wf(),
            final(self)@ == (QueueModel { seen: models(in_bin@).to_set(), ..old(self)@ }),
    {
        self.seen.reseed(in_bin);
    }

    /// Abandon everything queued: later arrivals of the old generation are
    /// dropped, and "seen" is re-seeded from what actually reached the bin so
    /// the discarded files can be imported again. A sequence import goes too.
    pub fn cancel(&mut self, in_bin: &Vec<FilePath>)
        ensures
            final(self).wf(),
            final(self)@ == (QueueModel {
                total: 0,
                done: 0,
                gen: next_gen(old(self)@.gen),
                seen: models(in_bin@).to_set(),
                seq_active: false,
                ..old(self)@
            }),
    {
        self.gen = self.gen.wrapping_add(1);
        self.total = 0;
        self.done = 0;
        self.seq_active = false;
        self.seen.reseed(in_bin);
    }

    /// An entry left the bin: its file can be imported again.
    pub fn forget(&mut self, key: &FilePath)
        requires
            old(self).wf(),
        ensures
            final(self).wf(),
            final(self)@ == (QueueModel { seen: old(self)@.seen.remove(key@), ..old(self)@ }),
    {
        self.seen.remove(key);
    }
}

/// The generation after this one; after the last comes the first again.
pub open spec fn next_gen(gen: u64) -> u64 {
    if gen == u64::MAX {
        0
    } else {
        (gen + 1) as u64
    }
}

/// Put a media file into the bin's rows, under its file name.
pub fn add_to_bin(assets: &mut Vec<Asset>, path: &FilePath, thumb: Picture)
    ensures
        models(final(assets)@) == models(old(assets)@).push(
            (AssetModel { name: name_of(path@), thumb }),
        ),
{
    let ghost before = models(assets@);
    assets.push(Asset { name: path.name_or_empty(), thumb });
    assert(models(assets@) =~= before.push(AssetModel { name: name_of(path@), thumb }));
}

/// The bin's rows with a picture in each that has the name.
pub open spec fn with_bin_thumb(
    assets: Seq<AssetModel>,
    name: Seq<char>,
    thumb: Picture,
) -> Seq<AssetModel> {
    Seq::new(
        assets.len(),
        |k: int|
            if assets[k].name == name {
                AssetModel { thumb, ..assets[k] }
            } else {
                assets[k]
            },
    )
}

/// A picture of a source was decoded: put it into the bin's rows of that name.
pub fn bin_thumb_arrived(assets: &mut Vec<Asset>, name: &String, thumb: Picture)
    ensures
        models(final(assets)@) == with_bin_thumb(models(old(assets)@), name@, thumb),
{
    let ghost before = models(assets@);
    let ghost after = with_bin_thumb(before, name@, thumb);
    let mut i: usize = 0;
    assert forall|k: int| 0 <= k < before.len() implies (#[trigger] assets@[k])@ == before[k] by {
        assert(models(assets@)[k] == assets@[k]@);
    }
    while i < assets.len()
        invariant
            i <= assets.len(),
            assets.len() == before.len(),
            after == with_bin_thumb(before, name@, thumb),
            forall|k: int| 0 <= k < i ==> (#[trigger] assets@[k])@ == after[k],
            forall|k: int| i <= k < before.len() ==> (#[trigger] assets@[k])@ == before[k],
        decreases before.len() - i,
    {
        if assets[i].name == *name {
            assets.set(i, Asset { name: name.clone(), thumb });
        }
        i += 1;
    }
    assert(models(assets@) =~= after);
}

/// What "add" on a media-bin entry puts onto the timeline.
#[derive(PartialEq, Eq, Debug)]
pub enum BinAdd {
    /// There is no such entry.
    Nothing,
    /// The file.
    File(FilePath),
    /// The whole sequence that the entry stands for, not the file of its first
    /// frame alone, under this name.
    Sequence { spec: SequenceSpec, name: String },
}

/// What an entry puts onto the timeline.
pub enum BinAddModel {
    Nothing,
    File(PathModel),
    Sequence { spec: SequenceModel, name: Seq<char> },
}

impl View for BinAdd {
    type V = BinAddModel;

    open spec fn view(&self) -> BinAddModel {
        match self {
            BinAdd::Nothing => BinAddModel::Nothing,
            BinAdd::File(path) => BinAddModel::File(path@),
            BinAdd::Sequence { spec, name } => BinAddModel::Sequence { spec: spec@, name: name@ },
        }
    }
}

/// "Add" on a media-bin entry: the sequence that it is known to stand for, or
/// else its file.
pub fn add_from_bin(
    bin: &Vec<FilePath>,
    sequences: &SortedMap<FilePath, SequenceSpec>,
    i: i32,
) -> (r: BinAdd)
    requires
        sequences.wf(),
    ensures
        r@ == if !(0 <= i < bin.len()) {
            BinAddModel::Nothing
        } else if sequences@.dom().contains(bin[i as int]@) {
            BinAddModel::Sequence {
                spec: sequences@[bin[i as int]@],
                name: sequences@[bin[i as int]@].pattern,
            }
        } else {
            BinAddModel::File(bin[i as int]@)
        },
{
    if i < 0 || i as usize >= bin.len() {
        return BinAdd::Nothing;
    }
    let path = &bin[i as usize];
    match sequences.get(path) {
        Some(spec) => BinAdd::Sequence { spec: spec.clone(), name: spec.pattern.clone() },
        None => BinAdd::File(path.clone()),
    }
}

/// What the removal of a bin row leaves to do.
pub struct BinRemoval {
    /// Whether the row goes.
    pub row: bool,
    /// The file that is gone from the bin.
    pub path: Option<FilePath>,
}

/// Remove a media-bin entry: its row and its path, each where there is one.
pub fn remove_from_bin(bin: &mut Vec<FilePath>, rows: usize, i: i32) -> (r: BinRemoval)
    ensures
        r.row == (0 <= i < rows),
        if 0 <= i < old(bin).len() {
            &&& models(final(bin)@) == models(old(bin)@).remove(i as int)
            &&& r.path matches Some(p)
            &&& p@ == old(bin)[i as int]@
        } else {
            r.path is None && final(bin)@ == old(bin)@
        },
{
    if i < 0 {
        return BinRemoval { row: false, path: None };
    }
    let row = (i as usize) < rows;
    if (i as usize) < bin.len() {
        let ghost before = models(bin@);
        let gone = bin.remove(i as usize);
        assert(models(bin@) =~= before.remove(i as int));
        BinRemoval { row, path: Some(gone) }
    } else {
        BinRemoval { row, path: None }
    }
}

// ---------------------------------------------------------------------------
// Laws
// ---------------------------------------------------------------------------

proof fn lemma_fresh(seen: Set<PathModel>, media: Seq<FoundModel>)
    ensures
        forall|i: int|
            0 <= i < fresh(seen, media).len() ==> !seen.contains(
                (#[trigger] fresh(seen, media)[i]).key,
            ) && keys_of(media).contains(fresh(seen, media)[i].key),
        forall|i: int, j: int|
            0 <= i < j < fresh(seen, media).len() ==> (#[trigger] fresh(seen, media)[i]).key != (
            #[trigger] fresh(seen, media)[j]).key,
        forall|k: int|
            0 <= k < media.len() && !seen.contains((#[trigger] media[k]).key) ==> exists|i: int|
                0 <= i < fresh(seen, media).len() && (#[trigger] fresh(seen, media)[i]).key
                    == media[k].key,
    decreases media.len(),
{
    if media.len() > 0 {
        let rest = media.drop_last();
        lemma_fresh(seen, rest);
        let g = fresh(seen, rest);
        let f = fresh(seen, media);
        let last = media.last();
        let n = media.len() - 1;
        assert(keys_of(media) =~= keys_of(rest).push(last.key));
        assert forall|i: int| 0 <= i < f.len() implies !seen.contains((#[trigger] f[i]).key)
            && keys_of(media).contains(f[i].key) by {
            if i < g.len() {
                assert(f[i] == g[i]);
                let k = choose|k: int| 0 <= k < keys_of(rest).len() && keys_of(rest)[k] == g[i].key;
                assert(keys_of(media)[k] == f[i].key);
            } else {
                assert(keys_of(media)[n] == f[i].key);
            }
        }
        assert forall|i: int, j: int| 0 <= i < j < f.len() implies (#[trigger] f[i]).key != (
        #[trigger] f[j]).key by {
            assert(f[i] == g[i]);
            if j < g.len() {
                assert(f[j] == g[j]);
                assert(g[i].key != g[j].key);
            } else {
                assert(keys_of(rest).contains(g[i].key));
                assert(keys_of(rest).to_set().contains(g[i].key));
            }
        }
        assert forall|k: int| 0 <= k < media.len() && !seen.contains((#[trigger] media[k]).key) implies exists|
            i: int,
        |
            0 <= i < f.len() && (#[trigger] f[i]).key == media[k].key by {
            if k < rest.len() {
                assert(rest[k] == media[k]);
                let i = choose|i: int| 0 <= i < g.len() && (#[trigger] g[i]).key == rest[k].key;
                assert(f[i] == g[i]);
            } else if keys_of(rest).to_set().contains(last.key) {
                let m = choose|m: int|
                    0 <= m < keys_of(rest).len() && keys_of(rest)[m] == last.key;
                assert(rest[m].key == last.key);
                assert(!seen.contains(rest[m].key));
                let i = choose|i: int| 0 <= i < g.len() && (#[trigger] g[i]).key == rest[m].key;
                assert(f[i] == g[i]);
            } else {
                assert(f[g.len() as int] == last);
            }
        }
    }
}

/// A file is imported once, however often it is dropped and however it is
/// spelled: what is queued was not seen before, no two of it are one file, and
/// every new file is among it.
pub proof fn every_new_file_is_queued_once(seen: Set<PathModel>, media: Seq<FoundModel>)
    ensures
        forall|i: int|
            0 <= i < fresh(seen, media).len() ==> !seen.contains(
                (#[trigger] fresh(seen, media)[i]).key,
            ),
        forall|i: int, j: int|
            0 <= i < j < fresh(seen, media).len() ==> (#[trigger] fresh(seen, media)[i]).key != (
            #[trigger] fresh(seen, media)[j]).key,
        forall|k: int|
            0 <= k < media.len() && !seen.contains((#[trigger] media[k]).key) ==> exists|i: int|
                0 <= i < fresh(seen, media).len() && (#[trigger] fresh(seen, media)[i]).key
                    == media[k].key,
{
    lemma_fresh(seen, media);
}

/// Dropping the same files again queues nothing.
pub proof fn a_second_drop_queues_nothing(seen: Set<PathModel>, media: Seq<FoundModel>)
    ensures
        fresh(seen.union(keys_of(media).to_set()), media).len() == 0,
{
    let all = seen.union(keys_of(media).to_set());
    lemma_fresh(all, media);
    if fresh(all, media).len() > 0 {
        let f = fresh(all, media)[0];
        assert(keys_of(media).contains(f.key));
        assert(keys_of(media).to_set().contains(f.key));
    }
}

/// What was queued before a cancel never counts after it: its stamp is no
/// longer the queue's generation.
pub proof fn a_cancel_outdates_what_was_queued(gen: u64, stamp: u64)
    requires
        stamp <= gen,
        gen < u64::MAX,
    ensures
        stamp != next_gen(gen),
{
}

/// What happens to the scans.
pub enum ScanEvent {
    Start,
    Finish(Scan),
    Take,
}

/// The scans after a run of events, from none.
pub open spec fn scans_after(events: Seq<ScanEvent>) -> ExpansionsModel
    decreases events.len(),
{
    if events.len() == 0 {
        ExpansionsModel::idle()
    } else {
        let e = scans_after(events.drop_last());
        match events.last() {
            ScanEvent::Start => e.started(),
            ScanEvent::Finish(result) => e.finished(result),
            ScanEvent::Take => e.collected(),
        }
    }
}

/// Only a scan that runs ends.
pub open spec fn in_order(events: Seq<ScanEvent>) -> bool
    decreases events.len(),
{
    events.len() > 0 ==> {
        &&& in_order(events.drop_last())
        &&& events.last() is Finish ==> scans_after(events.drop_last()).in_flight > 0
    }
}

/// How many scans started.
pub open spec fn starts(events: Seq<ScanEvent>) -> nat
    decreases events.len(),
{
    if events.len() == 0 {
        0
    } else {
        starts(events.drop_last()) + if events.last() is Start {
            1nat
        } else {
            0
        }
    }
}

/// The results of the scans that ended, in the order they did.
pub open spec fn results(events: Seq<ScanEvent>) -> Seq<Scan>
    decreases events.len(),
{
    if events.len() == 0 {
        seq![]
    } else {
        match events.last() {
            ScanEvent::Finish(result) => results(events.drop_last()).push(result),
            _ => results(events.drop_last()),
        }
    }
}

/// The results that were handed over, in the order they were.
pub open spec fn handed_over(events: Seq<ScanEvent>) -> Seq<Scan>
    decreases events.len(),
{
    if events.len() == 0 {
        seq![]
    } else {
        let before = handed_over(events.drop_last());
        match events.last() {
            ScanEvent::Take => before + scans_after(events.drop_last()).done,
            _ => before,
        }
    }
}

/// Results are handed over exactly once, in the order the scans ended: what was
/// handed over and what still waits make up every result there was.
pub proof fn results_are_handed_over_once(events: Seq<ScanEvent>)
    ensures
        results(events) == handed_over(events) + scans_after(events).done,
    decreases events.len(),
{
    if events.len() > 0 {
        results_are_handed_over_once(events.drop_last());
    }
    assert(results(events) =~= handed_over(events) + scans_after(events).done);
}

/// The drain stays awake from the start of a scan until its result has been
/// collected: it is busy exactly while fewer results were handed over than
/// scans started.
pub proof fn a_scan_keeps_the_drain_awake(events: Seq<ScanEvent>)
    requires
        in_order(events),
    ensures
        handed_over(events).len() <= starts(events),
        scans_after(events).is_busy() <==> handed_over(events).len() < starts(events),
{
    lemma_scans_are_counted(events);
}

proof fn lemma_scans_are_counted(events: Seq<ScanEvent>)
    requires
        in_order(events),
    ensures
        starts(events) == scans_after(events).in_flight + scans_after(events).done.len()
            + handed_over(events).len(),
    decreases events.len(),
{
    if events.len() > 0 {
        lemma_scans_are_counted(events.drop_last());
    }
}

// ---------------------------------------------------------------------------
// What each event leads to
// ---------------------------------------------------------------------------

/// Whether a file is the first that was found under its key.
pub open spec fn first_found(media: Seq<Found>, k: int) -> bool {
    &&& 0 <= k < media.len()
    &&& forall|j: int| 0 <= j < k ==> (#[trigger] media[j]).key@ != media[k].key@
}

proof fn lemma_fresh_holds(seen: Set<PathModel>, media: Seq<Found>, k: int)
    requires
        first_found(media, k),
        !seen.contains(media[k].key@),
    ensures
        fresh(seen, models(media)).contains(media[k]@),
    decreases media.len(),
{
    let less = media.drop_last();
    let m = models(media);
    assert(m.drop_last() =~= models(less));
    assert(m.last() == media.last()@);
    let rest = fresh(seen, models(less));
    let all = fresh(seen, m);
    if k < less.len() {
        assert forall|j: int| 0 <= j < k implies (#[trigger] less[j]).key@ != less[k].key@ by {
            assert(less[j] == media[j]);
        }
        lemma_fresh_holds(seen, less, k);
        let n = rest.index_of(media[k]@);
        assert(all[n] == media[k]@);
    } else {
        let keys = keys_of(models(less));
        if keys.to_set().contains(media[k].key@) {
            let j = keys.index_of(media[k].key@);
            assert(models(less)[j] == less[j]@);
            assert(media[j].key@ == media[k].key@);
        }
        assert(all[rest.len() as int] == media[k]@);
    }
}

proof fn lemma_fresh_origin(seen: Set<PathModel>, media: Seq<Found>, n: int) -> (k: int)
    requires
        0 <= n < fresh(seen, models(media)).len(),
    ensures
        first_found(media, k),
        !seen.contains(media[k].key@),
        fresh(seen, models(media))[n] == media[k]@,
    decreases media.len(),
{
    if media.len() == 0 {
        0
    } else {
        let less = media.drop_last();
        let m = models(media);
        assert(m.drop_last() =~= models(less));
        assert(m.last() == media.last()@);
        let rest = fresh(seen, models(less));
        if n < rest.len() {
            let k = lemma_fresh_origin(seen, less, n);
            assert forall|j: int| 0 <= j < k implies (#[trigger] media[j]).key@
                != media[k].key@ by {
                assert(less[j] == media[j]);
            }
            k
        } else {
            let k = media.len() - 1;
            assert forall|j: int| 0 <= j < k implies (#[trigger] media[j]).key@
                != media[k].key@ by {
                let keys = keys_of(models(less));
                assert(models(less)[j] == less[j]@);
                assert(keys[j] == media[j].key@);
                if media[j].key@ == media[k].key@ {
                    assert(keys.contains(media[k].key@));
                    assert(keys.to_set().contains(media[k].key@));
                }
            }
            k
        }
    }
}

/// Of the files that a scan found, those are handed to the worker that are the first
/// under their key and were not seen before, all of them and no others, stamped with
/// the current generation. All that were found count as seen from then on, and the
/// total grows by those handed over.
pub proof fn new_files_are_handed_to_the_worker(
    q: &mut ImportQueue,
    media: &Vec<Found>,
    frames_only: usize,
    r: Queued,
    k: int,
    n: int,
)
    requires
        call_ensures(ImportQueue::queue_collected, (q, media, frames_only), r),
    ensures
        first_found(media@, k) && !old(q)@.seen.contains(media[k].key@) ==> exists|i: int|
            0 <= i < r.items.len() && (#[trigger] r.items[i]).path@ == media[k].path@,
        0 <= n < r.items.len() ==> r.items[n].gen == old(q).gen && exists|i: int| #[trigger]
            first_found(media@, i) && !old(q)@.seen.contains(media[i].key@) && media[i].path@
                == r.items[n].path@,
        final(q).total == old(q).total + r.items.len(),
        r.show <==> r.items.len() > 0,
        0 <= k < media.len() ==> final(q)@.seen.contains(media[k].key@),
        final(q).done == old(q).done && final(q).gen == old(q).gen && final(q).seq_active == old(q).seq_active,
        frames_only == 0 <==> r.dialog is None,
        r.dialog is Some ==> r.dialog->0.title@ == "EXR frames import as a sequence"@
            && r.dialog->0.detail@ == decimal(frames_only as nat)
            + " EXR file(s) were skipped. Use Import sequence\u{2026} and pick the first frame of the run."@,
{
    let m = models(media@);
    let new = fresh(old(q)@.seen, m);
    assert(final(q)@.total == final(q).total && final(q)@.done == final(q).done);
    if first_found(media@, k) && !old(q)@.seen.contains(media[k].key@) {
        lemma_fresh_holds(old(q)@.seen, media@, k);
        let i = new.index_of(media[k]@);
        assert(r.items[i].path@ == new[i].path);
    }
    if 0 <= n < r.items.len() {
        let i = lemma_fresh_origin(old(q)@.seen, media@, n);
        assert(r.items[n].path@ == new[n].path);
        assert(first_found(media@, i));
    }
    if 0 <= k < media.len() {
        assert(m[k] == media[k]@);
        assert(keys_of(m)[k] == media[k].key@);
        assert(keys_of(m).contains(media[k].key@));
        assert(keys_of(m).to_set().contains(media[k].key@));
    }
    if let Some(d) = r.dialog {
        assert(d@.title == d.title@ && d@.detail == d.detail@);
    }
}

/// A file of another generation changes nothing. One that came back is counted; one
/// that could not be read is named among the failures and can be imported again; one
/// that could goes into the bin, and onto the timeline where that is empty.
pub proof fn a_file_that_comes_back_is_counted(
    q: &mut ImportQueue,
    item_gen: u64,
    key: &FilePath,
    name: &String,
    failed: bool,
    clips: usize,
    r: Arrival,
)
    requires
        call_ensures(ImportQueue::arrived, (q, item_gen, key, name, failed, clips), r),
    ensures
        r is Stale <==> item_gen != old(q).gen,
        r is Stale ==> final(q)@ == old(q)@,
        item_gen == old(q).gen ==> final(q).done == old(q).done + 1 && final(q).total == old(q).total && final(q).gen == old(q).gen,
        item_gen == old(q).gen && failed ==> r is Failed && models(final(q).failures@) == models(
            old(q).failures@,
        ).push(name@) && !final(q)@.seen.contains(key@),
        item_gen == old(q).gen && !failed ==> r == (Arrival::Added { on_timeline: clips == 0 })
            && models(final(q).failures@) == models(old(q).failures@) && final(q)@.seen == old(q)@.seen,
{
    assert(final(q)@.done == final(q).done && final(q)@.total == final(q).total);
    assert(final(q)@.failures == models(final(q).failures@));
}

/// A sequence import starts where one is pending, none is running and it is not in the
/// bin; it then runs at the frame rate asked for, within 1 to 240, under its pattern,
/// and under its pattern and frame count in the bin. Otherwise nothing changes.
pub proof fn a_sequence_import_runs_alone(
    q: &mut ImportQueue,
    pending: Option<SequenceSpec>,
    key: &FilePath,
    fps: i32,
    r: SeqStart,
)
    requires
        call_ensures(ImportQueue::confirm_sequence, (q, pending, key, fps), r),
    ensures
        r is Nothing <==> pending is None,
        r is Go <==> pending is Some && !old(q).seq_active && !old(q)@.seen.contains(key@),
        !(r is Go) ==> final(q)@ == old(q)@,
        r is Go ==> final(q).seq_active && final(q)@.seen.contains(key@) && final(q).total == old(q).total,
        r matches SeqStart::Refused(d) ==> {
            &&& !d.info
            &&& old(q).seq_active ==> d.title@ == "A sequence is already being converted"@
            &&& !old(q).seq_active ==> d.title@ == "Already imported"@
        },
        r matches SeqStart::Go { spec, bin_name, clip_name } ==> {
            let asked = pending->0;
            &&& 1 <= fps <= 240 ==> spec.fps == fps
            &&& fps < 1 ==> spec.fps == 1
            &&& fps > 240 ==> spec.fps == 240
            &&& spec.dir@ == asked.dir@ && spec.prefix@ == asked.prefix@
            &&& spec.pattern@ == asked.pattern@ && spec.first@ == asked.first@
            &&& spec.start == asked.start && spec.count == asked.count
            &&& clip_name@ == asked.pattern@
            &&& bin_name@ == asked.pattern@ + " \u{b7} "@ + decimal(asked.count as nat) + "f"@
        },
{
    assert(final(q)@.seq_active == final(q).seq_active && final(q)@.total == final(q).total);
    if let SeqStart::Refused(d) = r {
        assert(d@.title == d.title@ && d@.info == d.info);
    }
    if let SeqStart::Go { spec, bin_name, clip_name } = r {
        let asked = pending->0;
        assert(spec@.fps == spec.fps && spec@.dir == spec.dir@ && spec@.prefix == spec.prefix@);
        assert(spec@.pattern == spec.pattern@ && spec@.first == spec.first@);
        assert(spec@.start == spec.start && spec@.count == spec.count);
    }
}

/// A sequence import that is over leaves room for another. One that was cancelled, or
/// failed, can be imported again; only one that is ready without an error is added.
pub proof fn a_sequence_import_that_is_over_leaves_room(
    q: &mut ImportQueue,
    key: &FilePath,
    ready: bool,
    error: Option<String>,
    cancelled: bool,
    r: SeqEnd,
)
    requires
        call_ensures(ImportQueue::sequence_done, (q, key, ready, error, cancelled), r),
    ensures
        !final(q).seq_active,
        r is Forgotten <==> cancelled,
        r is Added <==> !cancelled && ready && error is None,
        r is Added ==> final(q)@.seen == old(q)@.seen,
        !(r is Added) ==> !final(q)@.seen.contains(key@),
        r matches SeqEnd::Failed(d) ==> {
            &&& d.title@ == "Could not import sequence"@ && !d.info
            &&& error is Some ==> d.detail@ == error->0@
            &&& error is None ==> d.detail@ == "unknown error"@
        },
        final(q).total == old(q).total && final(q).done == old(q).done && final(q).gen == old(q).gen,
{
    assert(final(q)@.seq_active == final(q).seq_active && final(q)@.total == final(q).total);
    assert(final(q)@.done == final(q).done);
    if let SeqEnd::Failed(d) = r {
        assert(d@.title == d.title@ && d@.detail == d.detail@ && d@.info == d.info);
    }
}

/// Once every file came back the import is over: its counts go, the dialog closes unless
/// a sequence keeps it, and the files that failed are counted and listed. Until then the
/// progress is that of the files, or, where there are none, of the sequence.
pub proof fn an_import_is_over_when_every_file_is_back(
    q: &mut ImportQueue,
    converted: u32,
    frames: u32,
    r: DrainEnd,
)
    requires
        call_ensures(ImportQueue::end_of_drain, (q, converted, frames), r),
    ensures
        ({
            let over = old(q).total > 0 && old(q).done >= old(q).total;
            &&& over ==> final(q).total == 0 && final(q).done == 0 && final(q).failures.len() == 0
            &&& !over ==> final(q)@ == old(q)@
            &&& r.close <==> over && !old(q).seq_active
            &&& r.dialog is Some <==> over && old(q).failures.len() > 0
            &&& old(q).total > 0 ==> r.progress == Some((old(q).done as i32, old(q).total as i32))
            &&& old(q).total == 0 && old(q).seq_active && frames > 0 ==> r.progress == Some(
                (converted as i32, frames as i32),
            )
            &&& old(q).total == 0 && !(old(q).seq_active && frames > 0) ==> r.progress is None
            &&& final(q).gen == old(q).gen && final(q)@.seen == old(q)@.seen
            &&& final(q).seq_active == old(q).seq_active
        }),
        r.dialog is Some ==> r.dialog->0.title@ == "Some files could not be imported"@
            && !r.dialog->0.info && r.dialog->0.detail@ == decimal(old(q).failures.len() as nat)
            + " file(s) couldn't be read as media:\n"@ + name_lines(models(old(q).failures@)),
{
    assert(final(q)@.total == final(q).total && final(q)@.done == final(q).done);
    assert(final(q)@.failures.len() == final(q).failures.len());
    assert(old(q)@.failures.len() == old(q).failures.len());
    assert(final(q)@.seq_active == final(q).seq_active);
    if let Some(d) = r.dialog {
        assert(d@.title == d.title@ && d@.detail == d.detail@ && d@.info == d.info);
    }
}

/// A cancel ends everything under way and begins another generation; what reached the
/// bin stays seen, and nothing else. To start from another bin changes what is seen
/// alone, and to forget an entry changes that of this entry alone.
pub proof fn a_cancel_begins_another_generation(
    q: &mut ImportQueue,
    in_bin: &Vec<FilePath>,
    reseeded: &mut ImportQueue,
    forgot: &mut ImportQueue,
    key: &FilePath,
    p: PathModel,
)
    requires
        call_ensures(ImportQueue::cancel, (q, in_bin), ()),
        call_ensures(ImportQueue::reseed, (reseeded, in_bin), ()),
        call_ensures(ImportQueue::forget, (forgot, key), ()),
    ensures
        final(q).total == 0 && final(q).done == 0 && !final(q).seq_active,
        final(q).gen != old(q).gen,
        old(q).gen < u64::MAX ==> final(q).gen == old(q).gen + 1,
        final(q)@.seen.contains(p) <==> models(in_bin@).contains(p),
        final(reseeded)@.seen.contains(p) <==> models(in_bin@).contains(p),
        final(reseeded).total == old(reseeded).total && final(reseeded).gen == old(reseeded).gen,
        final(forgot)@.seen.contains(p) <==> old(forgot)@.seen.contains(p) && p != key@,
        final(forgot).total == old(forgot).total && final(forgot).gen == old(forgot).gen,
{
    assert(final(q)@.total == final(q).total && final(q)@.done == final(q).done);
    assert(final(q)@.seq_active == final(q).seq_active);
    assert(final(reseeded)@.total == final(reseeded).total);
    assert(final(forgot)@.total == final(forgot).total);
    assert(models(in_bin@).to_set().contains(p) <==> models(in_bin@).contains(p));
}

/// The drain sleeps exactly while no file, no sequence and no scan is under way; a
/// sequence closes the dialog exactly where no file import drives it.
pub proof fn the_drain_sleeps_while_nothing_is_under_way(
    q: &ImportQueue,
    scanning: bool,
    idle: bool,
    closes: bool,
    gen: u64,
)
    requires
        call_ensures(ImportQueue::idle, (q, scanning), idle),
        call_ensures(ImportQueue::sequence_closes, (q,), closes),
        call_ensures(ImportQueue::current_gen, (q,), gen),
    ensures
        idle <==> q.total == 0 && !q.seq_active && !scanning,
        closes <==> q.total == 0,
        gen == q.gen,
{
}

/// A file goes to the end of the bin under its own name. A picture goes to every entry
/// of its name and to no other.
pub proof fn the_bin_grows_at_its_end(
    assets: &mut Vec<Asset>,
    path: &FilePath,
    thumb: Picture,
    shown: &mut Vec<Asset>,
    name: &String,
    k: int,
)
    requires
        call_ensures(add_to_bin, (assets, path, thumb), ()),
        call_ensures(bin_thumb_arrived, (shown, name, thumb), ()),
    ensures
        final(assets).len() == old(assets).len() + 1,
        final(assets)@.last().name@ == name_of(path@) && final(assets)@.last().thumb == thumb,
        0 <= k < old(assets).len() ==> final(assets)[k]@ == old(assets)[k]@,
        final(shown).len() == old(shown).len(),
        0 <= k < old(shown).len() ==> final(shown)[k].name@ == old(shown)[k].name@,
        0 <= k < old(shown).len() && old(shown)[k].name@ == name@ ==> final(shown)[k].thumb == thumb,
        0 <= k < old(shown).len() && old(shown)[k].name@ != name@ ==> final(shown)[k].thumb == old(shown)[k].thumb,
{
    let a = models(old(assets)@);
    let b = models(final(assets)@);
    let c = models(old(shown)@);
    let d = models(final(shown)@);
    assert(a.len() == old(assets).len() && b.len() == final(assets).len());
    assert(c.len() == old(shown).len() && d.len() == final(shown).len());
    assert(b.last() == final(assets)@.last()@);
    let last = final(assets)@.last();
    assert(last@.name == last.name@ && last@.thumb == last.thumb);
    if 0 <= k < old(assets).len() {
        assert(a[k] == old(assets)[k]@ && b[k] == final(assets)[k]@);
    }
    if 0 <= k < old(shown).len() {
        assert(c[k] == old(shown)[k]@ && d[k] == final(shown)[k]@);
        let row = final(shown)[k];
        assert(row@.name == row.name@ && row@.thumb == row.thumb);
    }
}

/// An entry of the bin adds its own file, or the whole sequence that it stands for under
/// its pattern; an index of no entry adds nothing. Removing one takes its path out and
/// no other.
pub proof fn an_entry_of_the_bin_adds_its_own(
    bin: &Vec<FilePath>,
    sequences: &SortedMap<FilePath, SequenceSpec>,
    i: i32,
    r: BinAdd,
    paths: &mut Vec<FilePath>,
    rows: usize,
    gone: BinRemoval,
)
    requires
        call_ensures(add_from_bin, (bin, sequences, i), r),
        call_ensures(remove_from_bin, (paths, rows, i), gone),
    ensures
        r is Nothing <==> i < 0 || i >= bin.len(),
        0 <= i < bin.len() && !sequences@.dom().contains(bin[i as int]@) ==> (
        r matches BinAdd::File(path) && path@ == bin[i as int]@),
        0 <= i < bin.len() && sequences@.dom().contains(bin[i as int]@) ==> (
        r matches BinAdd::Sequence { spec, name } && spec@ == sequences@[bin[i as int]@] && name@
            == spec@.pattern),
        gone.row <==> 0 <= i < rows,
        gone.path is Some <==> 0 <= i < old(paths).len(),
        gone.path is None ==> final(paths)@ == old(paths)@,
        gone.path is Some ==> gone.path->0@ == old(paths)[i as int]@ && final(paths).len() == old(paths).len() - 1,
        gone.path is Some ==> forall|k: int|
            0 <= k < i ==> (#[trigger] final(paths)[k])@ == old(paths)[k]@,
        gone.path is Some ==> forall|k: int|
            i <= k < final(paths).len() ==> (#[trigger] final(paths)[k])@ == old(paths)[k + 1]@,
{
    let a = models(old(paths)@);
    let b = models(final(paths)@);
    assert(a.len() == old(paths).len() && b.len() == final(paths).len());
    if gone.path is Some {
        assert forall|k: int| 0 <= k < i implies (#[trigger] final(paths)[k])@ == old(paths)[k]@ by {
            assert(a[k] == old(paths)[k]@ && b[k] == final(paths)[k]@);
        }
        assert forall|k: int| i <= k < final(paths).len() implies (#[trigger] final(paths)[k])@
            == old(paths)[k + 1]@ by {
            assert(a[k + 1] == old(paths)[k + 1]@ && b[k] == final(paths)[k]@);
        }
    }
}

/// A scan that starts is under way until it ends, and its result waits until it is
/// collected; the drain is busy while either is so.
pub proof fn a_scan_is_under_way_until_it_is_collected(
    started: &mut Expansions,
    ended: &mut Expansions,
    result: Scan,
    taken: &mut Expansions,
    r: Vec<Scan>,
    e: &Expansions,
    busy: bool,
)
    requires
        call_ensures(Expansions::start, (started,), ()),
        call_ensures(Expansions::finish, (ended, result), ()),
        old(ended)@.in_flight > 0,
        call_ensures(Expansions::take, (taken,), r),
        call_ensures(Expansions::busy, (e,), busy),
    ensures
        final(started)@.in_flight == old(started)@.in_flight + 1,
        final(started)@.done == old(started)@.done,
        final(ended)@.in_flight == old(ended)@.in_flight - 1,
        final(ended)@.done == old(ended)@.done.push(result),
        r@ == old(taken)@.done && final(taken)@.done.len() == 0,
        final(taken)@.in_flight == old(taken)@.in_flight,
        busy <==> e@.in_flight > 0 || e@.done.len() > 0,
{
}

/// New files are queued in the order in which they were found.
pub proof fn new_files_are_queued_in_order(
    seen: Set<PathModel>,
    media: Seq<FoundModel>,
    next: FoundModel,
)
    ensures
        fresh(seen, seq![]) == Seq::<FoundModel>::empty(),
        seen.contains(next.key) || (exists|k: int|
            0 <= k < media.len() && (#[trigger] media[k]).key == next.key) ==> fresh(
            seen,
            media.push(next),
        ) == fresh(seen, media),
        !seen.contains(next.key) && (forall|k: int|
            0 <= k < media.len() ==> (#[trigger] media[k]).key != next.key) ==> fresh(
            seen,
            media.push(next),
        ) == fresh(seen, media).push(next),
{
    assert(media.push(next).drop_last() =~= media);
    let keys = keys_of(media);
    if exists|k: int| 0 <= k < media.len() && (#[trigger] media[k]).key == next.key {
        let k = choose|k: int| 0 <= k < media.len() && (#[trigger] media[k]).key == next.key;
        assert(keys[k] == next.key);
        assert(keys.contains(next.key));
        assert(keys.to_set().contains(next.key));
    } else if keys.to_set().contains(next.key) {
        let k = keys.index_of(next.key);
        assert(media[k].key == next.key);
    }
}

} // verus!
