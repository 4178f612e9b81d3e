//! "Render image sequence to MP4": resolve a selection — numbered frames and/or
//! folders of them — into distinct sequences, then render each next to its
//! frames. Reading the disk and rendering are the caller's.

use crate::dialogs::{join, joined};
use crate::order::{models, Ordered, Place};
use crate::paths::{path_before, path_order_is_total, valid_name_of, FilePath, PathModel};
use crate::text::{concat, decimal, push_decimal, trim_end_of, trimmed_of};
use vstd::prelude::*;

verus! {

/// Outcome of a sequence render over a selection.
pub struct SequenceReport {
    /// The MP4s written.
    pub rendered: Vec<FilePath>,
    /// `(selected path or first frame, error)` for everything that didn't render.
    pub failures: Vec<(FilePath, String)>,
    /// The user cancelled; `rendered` holds what finished before that.
    pub cancelled: bool,
}

/// A path and what is wrong with it.
pub type FailureOf = (PathModel, Seq<char>);

/// Outcome of a sequence render.
#[verifier::ext_equal]
pub struct SequenceReportModel {
    pub rendered: Seq<PathModel>,
    pub failures: Seq<FailureOf>,
    pub cancelled: bool,
}

impl View for SequenceReport {
    type V = SequenceReportModel;

    open spec fn view(&self) -> SequenceReportModel {
        SequenceReportModel {
            rendered: models(self.rendered@),
            failures: models(self.failures@),
            cancelled: self.cancelled,
        }
    }
}

/// A numbered frame: the run it belongs to, and its number in it.
pub struct Frame {
    /// Two frames belong to one run where this is the same.
    pub run: String,
    pub number: u64,
    /// Its own path.
    pub path: FilePath,
}

/// A numbered frame.
pub struct FrameModel {
    pub run: Seq<char>,
    pub number: u64,
    pub path: PathModel,
}

impl View for Frame {
    type V = FrameModel;

    open spec fn view(&self) -> FrameModel {
        FrameModel { run: self.run@, number: self.number, path: self.path@ }
    }
}

impl Clone for Frame {
    fn clone(&self) -> (r: Frame)
        ensures
            r@ == self@,
    {
        Frame { run: self.run.clone(), number: self.number, path: self.path.clone() }
    }
}

/// Something that was selected.
pub enum Selected {
    /// A folder, with the numbered frames in it.
    Folder { path: FilePath, frames: Vec<Frame> },
    /// A file of no frame format.
    NoFrame(FilePath),
    /// A frame, with its number.
    Numbered(Frame),
    /// A frame whose number could not be read.
    Unnumbered { path: FilePath, error: String },
}

/// Something that was selected.
pub enum SelectedModel {
    Folder { path: PathModel, frames: Seq<FrameModel> },
    NoFrame(PathModel),
    Numbered(FrameModel),
    Unnumbered { path: PathModel, error: Seq<char> },
}

impl View for Selected {
    type V = SelectedModel;

    open spec fn view(&self) -> SelectedModel {
        match self {
            Selected::Folder { path, frames } => SelectedModel::Folder {
                path: path@,
                frames: models(frames@),
            },
            Selected::NoFrame(path) => SelectedModel::NoFrame(path@),
            Selected::Numbered(frame) => SelectedModel::Numbered(frame@),
            Selected::Unnumbered { path, error } => SelectedModel::Unnumbered {
                path: path@,
                error: error@,
            },
        }
    }
}

/// The frames of a selection.
pub open spec fn frames_of(selected: Seq<SelectedModel>) -> Seq<FrameModel>
    decreases selected.len(),
{
    if selected.len() == 0 {
        seq![]
    } else {
        frames_of(selected.drop_last()) + match selected.last() {
            SelectedModel::Folder { frames, .. } => frames,
            SelectedModel::Numbered(frame) => seq![frame],
            _ => seq![],
        }
    }
}

/// What is wrong with a file of no frame format.
pub open spec fn no_frame_text(formats: Seq<Seq<char>>) -> Seq<char> {
    "not a sequence frame format ("@ + joined(formats, ", "@) + ")"@
}

/// What of a selection is no frame: reported, not silently skipped.
pub open spec fn rejects_of(selected: Seq<SelectedModel>, formats: Seq<Seq<char>>) -> Seq<
    FailureOf,
>
    decreases selected.len(),
{
    if selected.len() == 0 {
        seq![]
    } else {
        let rest = rejects_of(selected.drop_last(), formats);
        match selected.last() {
            SelectedModel::Folder { path, frames } => if frames.len() == 0 {
                rest.push((path, "no numbered image frames in this folder"@))
            } else {
                rest
            },
            SelectedModel::NoFrame(path) => rest.push((path, no_frame_text(formats))),
            SelectedModel::Numbered(_) => rest,
            SelectedModel::Unnumbered { path, error } => rest.push((path, error)),
        }
    }
}

/// The place of a run, or -1.
pub open spec fn run_place(runs: Seq<FrameModel>, run: Seq<char>) -> int
    decreases runs.len(),
{
    if runs.len() == 0 {
        -1
    } else if runs.last().run == run {
        runs.len() - 1
    } else {
        run_place(runs.drop_last(), run)
    }
}

/// One entry per run, keeping the lowest start seen.
pub open spec fn merged(frames: Seq<FrameModel>) -> Seq<FrameModel>
    decreases frames.len(),
{
    if frames.len() == 0 {
        seq![]
    } else {
        let runs = merged(frames.drop_last());
        let frame = frames.last();
        let at = run_place(runs, frame.run);
        if at < 0 {
            runs.push(frame)
        } else if frame.number < runs[at].number {
            runs.update(at, frame)
        } else {
            runs
        }
    }
}

proof fn lemma_place(runs: Seq<FrameModel>, run: Seq<char>)
    ensures
        -1 <= run_place(runs, run) < runs.len(),
        run_place(runs, run) >= 0 ==> runs[run_place(runs, run)].run == run,
        run_place(runs, run) < 0 ==> forall|i: int|
            0 <= i < runs.len() ==> (#[trigger] runs[i]).run != run,
    decreases runs.len(),
{
    if runs.len() > 0 && runs.last().run != run {
        let rest = runs.drop_last();
        lemma_place(rest, run);
        if run_place(rest, run) < 0 {
            assert forall|i: int| 0 <= i < runs.len() implies (#[trigger] runs[i]).run != run by {
                if i < rest.len() {
                    assert(rest[i] == runs[i]);
                }
            }
        }
    }
}

fn place_of(runs: &Vec<Frame>, run: &String) -> (r: Option<usize>)
    ensures
        match r {
            Some(i) => i < runs.len() && run_place(models(runs@), run@) == i,
            None => run_place(models(runs@), run@) == -1,
        },
{
    let ghost m = models(runs@);
    let mut n: usize = runs.len();
    assert(m.take(n as int) =~= m);
    while n > 0
        invariant
            n <= runs.len(),
            m == models(runs@),
            run_place(m, run@) == run_place(m.take(n as int), run@),
        decreases n,
    {
        assert(m.take(n as int).last() == runs[n - 1]@);
        assert(m.take(n as int).drop_last() =~= m.take(n - 1));
        if runs[n - 1].run == *run {
            return Some(n - 1);
        }
        n -= 1;
    }
    None
}

/// What a selection comes down to: the first frame of each distinct run, and
/// what is no frame.
pub struct Resolved {
    pub firsts: Vec<Frame>,
    pub failures: Vec<(FilePath, String)>,
}

fn add_frame(runs: &mut Vec<Frame>, frame: &Frame, Ghost(frames): Ghost<Seq<FrameModel>>)
    requires
        models(old(runs)@) == merged(frames),
    ensures
        models(final(runs)@) == merged(frames.push(frame@)),
{
    let ghost m = models(runs@);
    assert(frames.push(frame@).drop_last() =~= frames);
    proof {
        lemma_place(m, frame@.run);
    }
    match place_of(runs, &frame.run) {
        Some(i) => {
            assert(m[i as int] == runs[i as int]@);
            if frame.number < runs[i].number {
                runs.set(i, frame.clone());
                assert(models(runs@) =~= m.update(i as int, frame@));
            }
        },
        None => {
            runs.push(frame.clone());
            assert(models(runs@) =~= m.push(frame@));
        },
    }
}

/// Resolve a selection into distinct runs. A selected frame contributes the run
/// it belongs to; a folder contributes every numbered run inside it. When
/// several selected frames belong to one run, the LOWEST picked frame is the
/// start (select all 240 frames → one sequence from the first). `formats` are the
/// formats that frames can have.
pub fn resolve_sequences(selected: &Vec<Selected>, formats: &Vec<String>) -> (r: Resolved)
    ensures
        models(r.firsts@) == merged(frames_of(models(selected@))),
        models(r.failures@) == rejects_of(models(selected@), models(formats@)),
{
    let ghost m = models(selected@);
    let ghost f = models(formats@);
    let mut firsts: Vec<Frame> = Vec::new();
    let mut failures: Vec<(FilePath, String)> = Vec::new();
    let mut i: usize = 0;
    assert(models(firsts@) =~= merged(frames_of(m.take(0))));
    assert(models(failures@) =~= rejects_of(m.take(0), f));
    while i < selected.len()
        invariant
            i <= selected.len(),
            m == models(selected@),
            f == models(formats@),
            models(firsts@) == merged(frames_of(m.take(i as int))),
            models(failures@) == rejects_of(m.take(i as int), f),
        decreases selected.len() - i,
    {
        let ghost frames = frames_of(m.take(i as int));
        let ghost fails = models(failures@);
        assert(m[i as int] == selected[i as int]@);
        assert(m.take(i + 1).drop_last() =~= m.take(i as int));
        match &selected[i] {
            Selected::Folder { path, frames: inside } => {
                let mut k: usize = 0;
                let ghost fs = models(inside@);
                assert(frames + fs.take(0) =~= frames);
                while k < inside.len()
                    invariant
                        k <= inside.len(),
                        fs == models(inside@),
                        models(firsts@) == merged(frames + fs.take(k as int)),
                    decreases inside.len() - k,
                {
                    assert(fs[k as int] == inside[k as int]@);
                    assert((frames + fs.take(k as int)).push(fs[k as int]) =~= frames + fs.take(
                        k + 1,
                    ));
                    add_frame(&mut firsts, &inside[k], Ghost(frames + fs.take(k as int)));
                    k += 1;
                }
                assert(fs.take(k as int) =~= fs);
                assert(inside.len() == fs.len());
                if inside.len() == 0 {
                    failures.push(
                        (path.clone(), String::from_str("no numbered image frames in this folder")),
                    );
                    assert(models(failures@) =~= fails.push(
                        (path@, "no numbered image frames in this folder"@),
                    ));
                }
            },
            Selected::NoFrame(path) => {
                let mut text = String::from_str("not a sequence frame format (");
                text.append(join(formats, ", ").as_str());
                text.append(")");
                assert(text@ =~= no_frame_text(f));
                failures.push((path.clone(), text));
                assert(models(failures@) =~= fails.push((path@, no_frame_text(f))));
                assert(frames + seq![] =~= frames);
            },
            Selected::Numbered(frame) => {
                assert(frames.push(frame@) =~= frames + seq![frame@]);
                add_frame(&mut firsts, frame, Ghost(frames));
            },
            Selected::Unnumbered { path, error } => {
                failures.push((path.clone(), error.clone()));
                assert(models(failures@) =~= fails.push((path@, error@)));
                assert(frames + seq![] =~= frames);
            },
        }
        i += 1;
    }
    assert(m.take(i as int) =~= m);
    Resolved { firsts, failures }
}

/// What the disk holds of a run that was resolved.
pub enum Detected {
    /// So many frames, and the path of the first.
    Frames { count: u64, first: FilePath },
    Unreadable(String),
}

/// What the disk holds of a run.
pub enum DetectedModel {
    Frames { count: u64, first: PathModel },
    Unreadable(Seq<char>),
}

impl View for Detected {
    type V = DetectedModel;

    open spec fn view(&self) -> DetectedModel {
        match self {
            Detected::Frames { count, first } => DetectedModel::Frames {
                count: *count,
                first: first@,
            },
            Detected::Unreadable(error) => DetectedModel::Unreadable(error@),
        }
    }
}

/// Whether a run can be animated: it has at least two frames.
pub open spec fn animates(d: DetectedModel) -> bool {
    d matches DetectedModel::Frames { count, .. } && count >= 2
}

/// What is wrong with the runs that cannot be rendered.
pub open spec fn lone_of(firsts: Seq<FrameModel>, detected: Seq<DetectedModel>) -> Seq<FailureOf>
    decreases firsts.len(),
{
    if firsts.len() == 0 {
        seq![]
    } else {
        let rest = lone_of(firsts.drop_last(), detected.drop_last());
        if animates(detected.last()) {
            rest
        } else {
            rest.push(
                (
                    firsts.last().path,
                    match detected.last() {
                        DetectedModel::Unreadable(error) => error,
                        _ => "only one frame \u{2014} not a sequence"@,
                    },
                ),
            )
        }
    }
}

/// The places of the runs that can be rendered, in the order of their first
/// frames.
pub open spec fn in_render_order(order: Seq<usize>, detected: Seq<DetectedModel>) -> bool {
    &&& forall|i: int|
        0 <= i < order.len() ==> (#[trigger] order[i]) < detected.len() && animates(
            detected[order[i] as int],
        )
    &&& forall|k: int|
        0 <= k < detected.len() && animates(#[trigger] detected[k]) ==> order.contains(k as usize)
    &&& forall|i: int, j: int|
        0 <= i < j < order.len() ==> before_or_stable(detected, order[i], order[j])
}

/// Whether the run at `a` is rendered before the one at `b`: its first frame
/// comes first, or is the same and the run was found first.
pub open spec fn before_or_stable(detected: Seq<DetectedModel>, a: usize, b: usize) -> bool {
    let x = detected[a as int]->first;
    let y = detected[b as int]->first;
    path_before(x, y) || (x == y && a < b)
}

/// The runs to render, by their places, and what cannot be rendered.
pub struct Settled {
    pub order: Vec<usize>,
    pub failures: Vec<(FilePath, String)>,
}

/// Whether the first frame at `a` comes strictly before the one at `b`.
fn comes_first(detected: &Vec<Detected>, a: usize, b: usize) -> (r: bool)
    requires
        a < detected.len(),
        b < detected.len(),
        animates(detected@[a as int]@),
        animates(detected@[b as int]@),
    ensures
        r == path_before(detected@[a as int]@->first, detected@[b as int]@->first),
{
    match (&detected[a], &detected[b]) {
        (Detected::Frames { first: x, .. }, Detected::Frames { first: y, .. }) => {
            proof {
                path_order_is_total(x@, y@, x@);
            }
            match x.place(y) {
                Place::Before => true,
                _ => false,
            }
        },
        _ => false,
    }
}

/// Put a run that was found last where it belongs.
fn put_in_order(order: &mut Vec<usize>, detected: &Vec<Detected>, at: usize)
    requires
        at < detected.len(),
        animates(detected@[at as int]@),
        in_render_order(old(order)@, models(detected@).take(at as int)),
    ensures
        in_render_order(final(order)@, models(detected@).take(at + 1)),
{
    let ghost m = models(detected@);
    let ghost o = order@;
    let mut n: usize = order.len();
    proof {
        assert forall|i: int| 0 <= i < o.len() implies (#[trigger] o[i]) < at && animates(
            m[o[i] as int],
        ) by {
            assert(m.take(at as int)[o[i] as int] == m[o[i] as int]);
        }
    }
    while n > 0 && comes_first(detected, at, order[n - 1])
        invariant
            n <= order.len(),
            order@ == o,
            m == models(detected@),
            at < detected.len(),
            animates(m[at as int]),
            forall|i: int|
                0 <= i < o.len() ==> (#[trigger] o[i]) < at && animates(m[o[i] as int]),
            forall|i: int|
                n <= i < o.len() ==> path_before(
                    m[at as int]->first,
                    m[(#[trigger] o[i]) as int]->first,
                ),
        ensures
            n <= order.len(),
            forall|i: int|
                n <= i < o.len() ==> path_before(
                    m[at as int]->first,
                    m[(#[trigger] o[i]) as int]->first,
                ),
            n > 0 ==> !path_before(m[at as int]->first, m[o[n - 1] as int]->first),
        decreases n,
    {
        n -= 1;
    }
    order.insert(n, at);
    proof {
        lemma_inserted(o, m, at, n as int);
    }
}

proof fn lemma_inserted(o: Seq<usize>, m: Seq<DetectedModel>, at: usize, n: int)
    requires
        at < m.len(),
        animates(m[at as int]),
        in_render_order(o, m.take(at as int)),
        0 <= n <= o.len(),
        forall|i: int|
            n <= i < o.len() ==> path_before(
                m[at as int]->first,
                m[(#[trigger] o[i]) as int]->first,
            ),
        n > 0 ==> !path_before(m[at as int]->first, m[o[n - 1] as int]->first),
    ensures
        in_render_order(o.insert(n, at), m.take(at + 1)),
{
    let was = m.take(at as int);
    let now = m.take(at + 1);
    let all = o.insert(n, at);
    assert forall|i: int| 0 <= i < o.len() implies (#[trigger] o[i]) < at && now[o[i] as int]
        == was[o[i] as int] && now[o[i] as int] == m[o[i] as int] by {}
    assert forall|i: int| 0 <= i < all.len() implies (#[trigger] all[i]) < now.len() && animates(
        now[all[i] as int],
    ) by {
        if i < n {
            assert(all[i] == o[i]);
        } else if i > n {
            assert(all[i] == o[i - 1]);
        }
    }
    assert forall|k: int| 0 <= k < now.len() && animates(#[trigger] now[k]) implies all.contains(
        k as usize,
    ) by {
        if k == at {
            assert(all[n] == k as usize);
        } else {
            assert(was[k] == now[k]);
            assert(o.contains(k as usize));
            let i = choose|i: int| 0 <= i < o.len() && o[i] == k as usize;
            if i < n {
                assert(all[i] == k as usize);
            } else {
                assert(all[i + 1] == k as usize);
            }
        }
    }
    let x = m[at as int]->first;
    assert forall|i: int, j: int| 0 <= i < j < all.len() implies before_or_stable(
        now,
        all[i],
        all[j],
    ) by {
        let p = if i < n { i } else { i - 1 };
        let q = if j < n { j } else { j - 1 };
        if i != n && j != n {
            assert(all[i] == o[p] && all[j] == o[q]);
            assert(before_or_stable(was, o[p], o[q]));
        } else if j == n {
            assert(all[i] == o[i]);
            let y = m[o[i] as int]->first;
            let z = m[o[n - 1] as int]->first;
            path_order_is_total(y, z, x);
            path_order_is_total(z, x, z);
            if i < n - 1 {
                assert(before_or_stable(was, o[i], o[n - 1]));
            }
        } else {
            assert(all[j] == o[q]);
            assert(path_before(x, m[o[q] as int]->first));
        }
    }
}

/// Settle which of the runs are rendered, and in which order. Lone frames are
/// rejected — there is nothing to animate.
pub fn settle(firsts: &Vec<Frame>, detected: &Vec<Detected>) -> (r: Settled)
    requires
        firsts.len() == detected.len(),
    ensures
        in_render_order(r.order@, models(detected@)),
        models(r.failures@) == lone_of(models(firsts@), models(detected@)),
{
    let ghost f = models(firsts@);
    let ghost m = models(detected@);
    let mut order: Vec<usize> = Vec::new();
    let mut failures: Vec<(FilePath, String)> = Vec::new();
    let mut i: usize = 0;
    assert(models(failures@) =~= lone_of(f.take(0), m.take(0)));
    while i < firsts.len()
        invariant
            i <= firsts.len(),
            firsts.len() == detected.len(),
            f == models(firsts@),
            m == models(detected@),
            in_render_order(order@, m.take(i as int)),
            models(failures@) == lone_of(f.take(i as int), m.take(i as int)),
        decreases firsts.len() - i,
    {
        let ghost fails = models(failures@);
        assert(m[i as int] == detected[i as int]@);
        assert(f[i as int] == firsts[i as int]@);
        assert(m.take(i + 1).drop_last() =~= m.take(i as int));
        assert(f.take(i + 1).drop_last() =~= f.take(i as int));
        let error = match &detected[i] {
            Detected::Frames { count, .. } => {
                if *count >= 2 {
                    None
                } else {
                    Some(String::from_str("only one frame \u{2014} not a sequence"))
                }
            },
            Detected::Unreadable(error) => Some(error.clone()),
        };
        match error {
            None => {
                put_in_order(&mut order, detected, i);
            },
            Some(text) => {
                proof {
                    lemma_no_more(order@, m, i as int);
                }
                let ghost said = text@;
                failures.push((firsts[i].path.clone(), text));
                assert(models(failures@) =~= fails.push((firsts[i as int].path@, said)));
            },
        }
        i += 1;
    }
    assert(m.take(i as int) =~= m);
    assert(f.take(i as int) =~= f);
    Settled { order, failures }
}

proof fn lemma_no_more(o: Seq<usize>, m: Seq<DetectedModel>, at: int)
    requires
        0 <= at < m.len(),
        !animates(m[at]),
        in_render_order(o, m.take(at)),
    ensures
        in_render_order(o, m.take(at + 1)),
{
    let was = m.take(at);
    let now = m.take(at + 1);
    assert forall|i: int| 0 <= i < o.len() implies (#[trigger] o[i]) < now.len() && animates(
        now[o[i] as int],
    ) by {
        assert(was[o[i] as int] == now[o[i] as int]);
    }
    assert forall|k: int| 0 <= k < now.len() && animates(#[trigger] now[k]) implies o.contains(
        k as usize,
    ) by {
        assert(was[k] == now[k]);
    }
    assert forall|i: int, j: int| 0 <= i < j < o.len() implies before_or_stable(
        now,
        o[i],
        o[j],
    ) by {
        assert(o[i] < was.len() && o[j] < was.len());
        assert(before_or_stable(was, o[i], o[j]));
        assert(was[o[i] as int] == now[o[i] as int] && was[o[j] as int] == now[o[j] as int]);
    }
}

// ---------------------------------------------------------------------------
// The render
// ---------------------------------------------------------------------------

/// The stem of a run's output: its prefix less a separator at the end, or the
/// name of its folder, or "sequence".
pub open spec fn output_stem(prefix: Seq<char>, folder: PathModel) -> Seq<char> {
    let stem = trimmed_of(prefix, "_-. "@);
    if stem.len() > 0 {
        stem
    } else {
        match valid_name_of(folder) {
            Some(name) => name,
            None => "sequence"@,
        }
    }
}

/// `<prefix>.mp4` with the trailing separator trimmed (`frame_` → `frame.mp4`);
/// a bare-number run takes its folder's name.
pub fn output_name(prefix: &str, folder: &FilePath) -> (r: String)
    ensures
        r@ == output_stem(prefix@, folder@) + ".mp4"@,
{
    let stem = trim_end_of(prefix, "_-. ");
    if !stem.as_str().is_empty() {
        return concat(stem.as_str(), ".mp4");
    }
    match folder.valid_name() {
        Some(name) => concat(name.as_str(), ".mp4"),
        None => concat("sequence", ".mp4"),
    }
}

/// How a run is called while it is rendered.
pub open spec fn label_of(pattern: Seq<char>, i: nat, n: nat) -> Seq<char> {
    if n > 1 {
        pattern + " ("@ + decimal(i + 1) + " of "@ + decimal(n) + ")"@
    } else {
        pattern
    }
}

/// How the run at `i` of `n` is called while it is rendered.
pub fn label(pattern: &str, i: usize, n: usize) -> (r: String)
    requires
        i < n,
    ensures
        r@ == label_of(pattern@, i as nat, n as nat),
{
    let mut s = String::from_str(pattern);
    if n > 1 {
        s.append(" (");
        push_decimal(&mut s, i as u64 + 1);
        s.append(" of ");
        push_decimal(&mut s, n as u64);
        s.append(")");
    }
    s
}

/// The status line while frames are converted.
pub fn converting(label: &str, done: usize, total: usize) -> (r: String)
    ensures
        r@ == label@ + "  \u{b7}  converting EXR "@ + decimal(done as nat) + " / "@ + decimal(
            total as nat,
        ),
{
    let mut s = String::from_str(label);
    s.append("  \u{b7}  converting EXR ");
    push_decimal(&mut s, done as u64);
    s.append(" / ");
    push_decimal(&mut s, total as u64);
    s
}

/// How one render ended.
pub enum Rendered {
    Written(FilePath),
    /// The user cancelled.
    Cancelled,
    /// It failed: the run's first frame, and why.
    Failed { first: FilePath, error: String },
}

/// How one render ended.
pub enum RenderedModel {
    Written(PathModel),
    Cancelled,
    Failed { first: PathModel, error: Seq<char> },
}

impl View for Rendered {
    type V = RenderedModel;

    open spec fn view(&self) -> RenderedModel {
        match self {
            Rendered::Written(path) => RenderedModel::Written(path@),
            Rendered::Cancelled => RenderedModel::Cancelled,
            Rendered::Failed { first, error } => RenderedModel::Failed {
                first: first@,
                error: error@,
            },
        }
    }
}

/// The report after one more render.
pub open spec fn with_render(r: SequenceReportModel, ended: RenderedModel) -> SequenceReportModel {
    match ended {
        RenderedModel::Written(path) => SequenceReportModel { rendered: r.rendered.push(path), ..r },
        RenderedModel::Cancelled => SequenceReportModel { cancelled: true, ..r },
        RenderedModel::Failed { first, error } => SequenceReportModel {
            failures: r.failures.push((first, error)),
            ..r
        },
    }
}

impl SequenceReport {
    /// Begin to render, with what could not be resolved. An error where there
    /// was nothing to resolve at all.
    pub fn begin(runs: usize, failures: Vec<(FilePath, String)>) -> (r: Result<
        SequenceReport,
        &'static str,
    >)
        ensures
            match r {
                Ok(report) => {
                    &&& runs > 0 || failures.len() > 0
                    &&& report@ == (SequenceReportModel {
                        rendered: seq![],
                        failures: models(failures@),
                        cancelled: false,
                    })
                },
                Err(e) => {
                    &&& runs == 0 && failures.len() == 0
                    &&& e@ == "no image sequence in selection"@
                },
            },
    {
        if runs == 0 && failures.len() == 0 {
            return Err("no image sequence in selection");
        }
        let report = SequenceReport { rendered: Vec::new(), failures, cancelled: false };
        assert(report@.rendered =~= Seq::<PathModel>::empty());
        Ok(report)
    }

    /// A render has ended: whether to go on with the next. A cancel stops them
    /// all, and keeps what finished before.
    pub fn ended(&mut self, ended: Rendered) -> (go_on: bool)
        ensures
            final(self)@ == with_render(old(self)@, ended@),
            go_on == !(ended@ is Cancelled),
    {
        let ghost r = self@;
        match ended {
            Rendered::Written(path) => {
                let ghost p = path@;
                self.rendered.push(path);
                assert(self@.rendered =~= r.rendered.push(p));
                true
            },
            Rendered::Cancelled => {
                self.cancelled = true;
                false
            },
            Rendered::Failed { first, error } => {
                let ghost f = (first@, error@);
                self.failures.push((first, error));
                assert(self@.failures =~= r.failures.push(f));
                true
            },
        }
    }
}

// ---------------------------------------------------------------------------
// Laws
// ---------------------------------------------------------------------------

/// Whether no two entries are of one run.
pub open spec fn runs_apart(runs: Seq<FrameModel>) -> bool {
    forall|i: int, j: int|
        0 <= i < j < runs.len() ==> (#[trigger] runs[i]).run != (#[trigger] runs[j]).run
}

/// A run is rendered once, however many of its frames are selected.
pub proof fn a_run_is_resolved_once(frames: Seq<FrameModel>)
    ensures
        runs_apart(merged(frames)),
    decreases frames.len(),
{
    if frames.len() > 0 {
        let rest = frames.drop_last();
        a_run_is_resolved_once(rest);
        let runs = merged(rest);
        let frame = frames.last();
        lemma_place(runs, frame.run);
        let after = merged(frames);
        assert forall|i: int, j: int| 0 <= i < j < after.len() implies (#[trigger] after[i]).run
            != (#[trigger] after[j]).run by {
            let at = run_place(runs, frame.run);
            if at < 0 {
                assert(after[i] == runs[i]);
                if j < runs.len() {
                    assert(after[j] == runs[j]);
                }
            } else {
                assert(after[i].run == runs[i].run);
                assert(after[j].run == runs[j].run);
            }
        }
    }
}

/// Whether a run starts no later than a frame of it.
pub open spec fn starts_by(run: FrameModel, frame: FrameModel) -> bool {
    run.run == frame.run && run.number <= frame.number
}

/// Every frame of the selection is covered: its run is resolved, and starts at
/// that frame or at a lower one.
pub proof fn a_run_starts_at_its_lowest_frame(frames: Seq<FrameModel>, k: int)
    requires
        0 <= k < frames.len(),
    ensures
        exists|i: int|
            0 <= i < merged(frames).len() && #[trigger] starts_by(merged(frames)[i], frames[k]),
    decreases frames.len(),
{
    let rest = frames.drop_last();
    let runs = merged(rest);
    let frame = frames.last();
    let after = merged(frames);
    let at = run_place(runs, frame.run);
    lemma_place(runs, frame.run);
    if k < rest.len() {
        a_run_starts_at_its_lowest_frame(rest, k);
        let i = choose|i: int| 0 <= i < runs.len() && #[trigger] starts_by(runs[i], rest[k]);
        assert(starts_by(after[i], frames[k]));
    } else if at < 0 {
        assert(starts_by(after[runs.len() as int], frames[k]));
    } else {
        assert(starts_by(after[at], frames[k]));
    }
}

/// A run starts at a frame that was selected.
pub proof fn a_run_starts_at_a_selected_frame(frames: Seq<FrameModel>, i: int)
    requires
        0 <= i < merged(frames).len(),
    ensures
        frames.contains(merged(frames)[i]),
    decreases frames.len(),
{
    let rest = frames.drop_last();
    let runs = merged(rest);
    let after = merged(frames);
    lemma_place(runs, frames.last().run);
    if i < runs.len() && after[i] == runs[i] {
        a_run_starts_at_a_selected_frame(rest, i);
        let k = choose|k: int| 0 <= k < rest.len() && rest[k] == runs[i];
        assert(frames[k] == after[i]);
    } else {
        assert(frames[frames.len() - 1] == after[i]);
    }
}

/// The frames of one thing selected are among those of the selection.
proof fn lemma_frames(selected: Seq<SelectedModel>, i: int, frame: FrameModel)
    requires
        0 <= i < selected.len(),
        match selected[i] {
            SelectedModel::Folder { frames, .. } => frames.contains(frame),
            SelectedModel::Numbered(f) => f == frame,
            _ => false,
        },
    ensures
        frames_of(selected).contains(frame),
    decreases selected.len(),
{
    let rest = frames_of(selected.drop_last());
    if i == selected.len() - 1 {
        match selected[i] {
            SelectedModel::Folder { frames, .. } => {
                let k = frames.index_of(frame);
                assert(frames_of(selected)[rest.len() + k] == frame);
            },
            _ => {
                assert(frames_of(selected)[rest.len() as int] == frame);
            },
        }
    } else {
        lemma_frames(selected.drop_last(), i, frame);
        let k = rest.index_of(frame);
        assert(frames_of(selected)[k] == frame);
    }
}

/// A frame of the selection is one of something selected.
proof fn lemma_frame_origin(selected: Seq<SelectedModel>, frame: FrameModel) -> (i: int)
    requires
        frames_of(selected).contains(frame),
    ensures
        0 <= i < selected.len(),
        match selected[i] {
            SelectedModel::Folder { frames, .. } => frames.contains(frame),
            SelectedModel::Numbered(f) => f == frame,
            _ => false,
        },
    decreases selected.len(),
{
    let all = frames_of(selected);
    let k = all.index_of(frame);
    if selected.len() == 0 {
        0
    } else {
        let rest = frames_of(selected.drop_last());
        if k < rest.len() {
            assert(rest[k] == frame);
            lemma_frame_origin(selected.drop_last(), frame)
        } else {
            match selected.last() {
                SelectedModel::Folder { frames, .. } => {
                    assert(frames[k - rest.len()] == frame);
                },
                _ => {},
            }
            selected.len() - 1
        }
    }
}

/// A frame of the selection is covered by a run that was resolved.
proof fn lemma_covered(selected: &Vec<Selected>, formats: &Vec<String>, r: Resolved, frame: Frame)
    requires
        call_ensures(resolve_sequences, (selected, formats), r),
        frames_of(models(selected@)).contains(frame@),
    ensures
        exists|n: int|
            0 <= n < r.firsts.len() && (#[trigger] r.firsts[n]).run@ == frame.run@
                && r.firsts[n].number <= frame.number,
{
    let all = frames_of(models(selected@));
    let k = all.index_of(frame@);
    a_run_starts_at_its_lowest_frame(all, k);
    let runs = merged(all);
    let n = choose|n: int| 0 <= n < runs.len() && #[trigger] starts_by(runs[n], all[k]);
    assert(models(r.firsts@)[n] == r.firsts[n]@);
    assert(r.firsts[n].run@ == frame.run@);
}

/// Every numbered frame inside a selected folder, whatever else is selected before
/// or after it, belongs to a run that was resolved, one that starts at that frame
/// or at a lower one.
pub proof fn every_frame_of_a_folder_is_covered(
    selected: &Vec<Selected>,
    formats: &Vec<String>,
    r: Resolved,
    i: int,
    k: int,
)
    requires
        call_ensures(resolve_sequences, (selected, formats), r),
        0 <= i < selected.len(),
    ensures
        selected[i] matches Selected::Folder { path, frames } ==> 0 <= k < frames.len()
            ==> exists|n: int|
            0 <= n < r.firsts.len() && (#[trigger] r.firsts[n]).run@ == frames[k].run@
                && r.firsts[n].number <= frames[k].number,
{
    if let Selected::Folder { path, frames } = selected[i] {
        if 0 <= k < frames.len() {
            assert(models(selected@)[i] == selected[i]@);
            assert(models(frames@)[k] == frames[k]@);
            lemma_frames(models(selected@), i, frames[k]@);
            lemma_covered(selected, formats, r, frames[k]);
        }
    }
}

/// Every selected numbered frame, whatever else is selected before or after it,
/// belongs to a run that was resolved, one that starts at that frame or at a
/// lower one.
pub proof fn every_selected_frame_is_covered(
    selected: &Vec<Selected>,
    formats: &Vec<String>,
    r: Resolved,
    i: int,
)
    requires
        call_ensures(resolve_sequences, (selected, formats), r),
        0 <= i < selected.len(),
    ensures
        selected[i] matches Selected::Numbered(frame) ==> exists|n: int|
            0 <= n < r.firsts.len() && (#[trigger] r.firsts[n]).run@ == frame.run@
                && r.firsts[n].number <= frame.number,
{
    if let Selected::Numbered(frame) = selected[i] {
        assert(models(selected@)[i] == selected[i]@);
        lemma_frames(models(selected@), i, frame@);
        lemma_covered(selected, formats, r, frame);
    }
}

/// Every run that was resolved starts at a frame that was selected, itself or
/// inside a folder.
pub proof fn every_run_starts_at_a_frame_of_the_selection(
    selected: &Vec<Selected>,
    formats: &Vec<String>,
    r: Resolved,
    n: int,
)
    requires
        call_ensures(resolve_sequences, (selected, formats), r),
        0 <= n < r.firsts.len(),
    ensures
        exists|i: int|
            0 <= i < selected.len() && match #[trigger] selected[i] {
                Selected::Numbered(frame) => frame.run@ == r.firsts[n].run@ && frame.number
                    == r.firsts[n].number && frame.path@ == r.firsts[n].path@,
                Selected::Folder { path, frames } => exists|k: int|
                    {
                        &&& 0 <= k < frames.len()
                        &&& (#[trigger] frames[k]).run@ == r.firsts[n].run@
                        &&& frames[k].number == r.firsts[n].number
                        &&& frames[k].path@ == r.firsts[n].path@
                    },
                _ => false,
            },
{
    let all = models(selected@);
    let first = r.firsts[n]@;
    assert(models(r.firsts@)[n] == first);
    a_run_starts_at_a_selected_frame(frames_of(all), n);
    let i = lemma_frame_origin(all, first);
    assert(all[i] == selected[i]@);
    if let Selected::Folder { path, frames } = selected[i] {
        let k = models(frames@).index_of(first);
        assert(models(frames@)[k] == frames[k]@);
        assert(frames[k].run@ == r.firsts[n].run@);
    }
}

/// No two runs that were resolved are the same run.
pub proof fn no_run_is_resolved_twice(
    selected: &Vec<Selected>,
    formats: &Vec<String>,
    r: Resolved,
    i: int,
    j: int,
)
    requires
        call_ensures(resolve_sequences, (selected, formats), r),
        0 <= i < j < r.firsts.len(),
    ensures
        r.firsts[i].run@ != r.firsts[j].run@,
{
    let runs = models(r.firsts@);
    a_run_is_resolved_once(frames_of(models(selected@)));
    assert(runs[i] == r.firsts[i]@ && runs[j] == r.firsts[j]@);
}

/// What is reported of one more thing selected comes behind what was reported
/// before: the path of a folder without frames, of a file of no frame format or of
/// a frame without a number, and what is wrong with it. Of anything else nothing
/// is reported.
pub proof fn what_is_no_frame_is_reported(
    selected: &Vec<Selected>,
    more: &Vec<Selected>,
    formats: &Vec<String>,
    r: Resolved,
    s: Resolved,
)
    requires
        call_ensures(resolve_sequences, (selected, formats), r),
        call_ensures(resolve_sequences, (more, formats), s),
        more.len() == selected.len() + 1,
        forall|i: int| 0 <= i < selected.len() ==> (#[trigger] more[i]) == selected[i],
    ensures
        match more[selected.len() as int] {
            Selected::Folder { path, frames } => if frames.len() == 0 {
                models(s.failures@) == models(r.failures@).push(
                    (path@, "no numbered image frames in this folder"@),
                )
            } else {
                models(s.failures@) == models(r.failures@)
            },
            Selected::NoFrame(path) => models(s.failures@) == models(r.failures@).push(
                (
                    path@,
                    "not a sequence frame format ("@ + joined(models(formats@), ", "@) + ")"@,
                ),
            ),
            Selected::Numbered(frame) => models(s.failures@) == models(r.failures@),
            Selected::Unnumbered { path, error } => models(s.failures@) == models(
                r.failures@,
            ).push((path@, error@)),
        },
{
    let all = models(more@);
    assert(all.drop_last() =~= models(selected@));
    assert(all.last() == more[selected.len() as int]@);
}

/// Of nothing selected nothing is reported, and no run is resolved.
pub proof fn nothing_comes_of_nothing(selected: &Vec<Selected>, formats: &Vec<String>, r: Resolved)
    requires
        call_ensures(resolve_sequences, (selected, formats), r),
        selected.len() == 0,
    ensures
        r.firsts.len() == 0,
        r.failures.len() == 0,
{
    assert(models(r.firsts@).len() == r.firsts.len());
    assert(models(r.failures@).len() == r.failures.len());
}

/// Exactly the runs of two frames or more are rendered, each of them once.
pub proof fn runs_of_two_frames_are_rendered(
    firsts: &Vec<Frame>,
    detected: &Vec<Detected>,
    r: Settled,
    k: int,
)
    requires
        call_ensures(settle, (firsts, detected), r),
        firsts.len() == detected.len(),
        0 <= k < detected.len(),
    ensures
        (exists|i: int| 0 <= i < r.order.len() && (#[trigger] r.order[i]) == k) <==> (
        detected[k] matches Detected::Frames { count, first } && count >= 2),
        forall|i: int, j: int|
            0 <= i < j < r.order.len() ==> (#[trigger] r.order[i]) != (#[trigger] r.order[j]),
{
    let m = models(detected@);
    assert(m[k] == detected[k]@);
    assert(m.len() == detected.len());
    if animates(m[k]) {
        assert(r.order@.contains(k as usize));
        let i = r.order@.index_of(k as usize);
        assert(r.order[i] == k);
    }
    assert forall|i: int, j: int| 0 <= i < j < r.order.len() implies (#[trigger] r.order[i]) != (
    #[trigger] r.order[j]) by {
        assert(before_or_stable(m, r.order@[i], r.order@[j]));
        path_order_is_total(
            m[r.order[i] as int]->first,
            m[r.order[j] as int]->first,
            m[r.order[i] as int]->first,
        );
    }
}

/// Of two runs that are rendered the one whose first frame's path comes first is
/// rendered first.
pub proof fn runs_are_rendered_in_order(
    firsts: &Vec<Frame>,
    detected: &Vec<Detected>,
    r: Settled,
    i: int,
    j: int,
)
    requires
        call_ensures(settle, (firsts, detected), r),
        firsts.len() == detected.len(),
        0 <= i < j < r.order.len(),
    ensures
        detected[r.order[i] as int] matches Detected::Frames { count: n, first: x } ==> (
        detected[r.order[j] as int] matches Detected::Frames { count: m, first: y } ==> path_before(
            x@,
            y@,
        ) || (x@ == y@ && r.order[i] < r.order[j])),
{
    let m = models(detected@);
    assert(m.len() == detected.len());
    assert(r.order@[i] < m.len() && r.order@[j] < m.len());
    assert(m[r.order[i] as int] == detected[r.order[i] as int]@);
    assert(m[r.order[j] as int] == detected[r.order[j] as int]@);
    assert(before_or_stable(m, r.order@[i], r.order@[j]));
}

/// What is reported of one more run comes behind what was reported before: its
/// first frame, with the error where the run could not be read, or that it is one
/// frame only. Of a run of two frames or more nothing is reported.
pub proof fn a_lone_frame_is_reported(
    firsts: &Vec<Frame>,
    detected: &Vec<Detected>,
    more: &Vec<Frame>,
    found: &Vec<Detected>,
    r: Settled,
    s: Settled,
)
    requires
        call_ensures(settle, (firsts, detected), r),
        call_ensures(settle, (more, found), s),
        firsts.len() == detected.len(),
        more.len() == firsts.len() + 1,
        found.len() == detected.len() + 1,
        forall|i: int| 0 <= i < firsts.len() ==> (#[trigger] more[i]) == firsts[i],
        forall|i: int| 0 <= i < detected.len() ==> (#[trigger] found[i]) == detected[i],
    ensures
        match found[detected.len() as int] {
            Detected::Unreadable(error) => models(s.failures@) == models(r.failures@).push(
                (more[firsts.len() as int].path@, error@),
            ),
            Detected::Frames { count, first } => if count >= 2 {
                models(s.failures@) == models(r.failures@)
            } else {
                models(s.failures@) == models(r.failures@).push(
                    (
                        more[firsts.len() as int].path@,
                        "only one frame \u{2014} not a sequence"@,
                    ),
                )
            },
        },
        firsts.len() == 0 ==> r.failures.len() == 0,
{
    assert(models(more@).drop_last() =~= models(firsts@));
    assert(models(found@).drop_last() =~= models(detected@));
    assert(models(more@).last() == more[firsts.len() as int]@);
    assert(models(found@).last() == found[detected.len() as int]@);
    assert(models(r.failures@).len() == r.failures.len());
}

/// A render that was written is added to those written, one that failed to the
/// failures with its first frame and its error; a cancel adds nothing, marks the
/// report and stops. Nothing that was reported before is lost.
pub proof fn a_render_is_added_to_the_report(
    report: &mut SequenceReport,
    ended: Rendered,
    go_on: bool,
)
    requires
        call_ensures(SequenceReport::ended, (report, ended), go_on),
    ensures
        match ended {
            Rendered::Written(path) => {
                &&& go_on
                &&& models(final(report).rendered@) == models(old(report).rendered@).push(path@)
                &&& models(final(report).failures@) == models(old(report).failures@)
                &&& final(report).cancelled == old(report).cancelled
            },
            Rendered::Cancelled => {
                &&& !go_on
                &&& models(final(report).rendered@) == models(old(report).rendered@)
                &&& models(final(report).failures@) == models(old(report).failures@)
                &&& final(report).cancelled
            },
            Rendered::Failed { first, error } => {
                &&& go_on
                &&& models(final(report).rendered@) == models(old(report).rendered@)
                &&& models(final(report).failures@) == models(old(report).failures@).push(
                    (first@, error@),
                )
                &&& final(report).cancelled == old(report).cancelled
            },
        },
{
    assert(final(report)@.rendered == models(final(report).rendered@));
    assert(final(report)@.failures == models(final(report).failures@));
    assert(final(report)@.cancelled == final(report).cancelled);
}

/// A render begins unless there is nothing to render and nothing to report; it
/// begins with nothing written.
pub proof fn a_render_begins_where_there_is_anything(
    runs: usize,
    failures: Vec<(FilePath, String)>,
    r: Result<SequenceReport, &'static str>,
)
    requires
        call_ensures(SequenceReport::begin, (runs, failures), r),
    ensures
        r is Err <==> runs == 0 && failures.len() == 0,
        r is Err ==> r->Err_0@ == "no image sequence in selection"@,
        r is Ok ==> r->Ok_0.rendered.len() == 0 && !r->Ok_0.cancelled && models(
            r->Ok_0.failures@,
        ) == models(failures@),
{
    if let Ok(report) = r {
        assert(report@.rendered == models(report.rendered@));
        assert(models(report.rendered@).len() == report.rendered.len());
        assert(report@.failures == models(report.failures@));
        assert(report@.cancelled == report.cancelled);
    }
}

/// An output is an MP4 named after the run's prefix less the underscores, hyphens, full
/// stops and blanks that it ends in; where nothing is left of it, after the folder, and
/// "sequence" where that has no readable name.
pub proof fn an_output_is_named_after_its_run(
    prefix: &str,
    folder: &FilePath,
    r: String,
    stem: String,
    name: Option<String>,
)
    requires
        call_ensures(output_name, (prefix, folder), r),
        call_ensures(trim_end_of, (prefix, "_-. "), stem),
        call_ensures(FilePath::valid_name, (folder,), name),
    ensures
        stem@.len() > 0 ==> r@ == stem@ + ".mp4"@,
        stem@.len() == 0 && name is Some ==> r@ == name->0@ + ".mp4"@,
        stem@.len() == 0 && name is None ==> r@ == "sequence"@ + ".mp4"@,
{
}

/// While it is rendered a run is called by its pattern, and where there are several also
/// by its place among them, counted from one. Frames that are converted are counted
/// behind that.
pub proof fn a_run_is_called_by_its_pattern(
    pattern: &str,
    i: usize,
    n: usize,
    r: String,
    done: usize,
    total: usize,
    line: String,
)
    requires
        call_ensures(label, (pattern, i, n), r),
        call_ensures(converting, (pattern, done, total), line),
    ensures
        n <= 1 ==> r@ == pattern@,
        n > 1 ==> r@ == pattern@ + " ("@ + decimal((i + 1) as nat) + " of "@ + decimal(n as nat)
            + ")"@,
        line@ == pattern@ + "  \u{b7}  converting EXR "@ + decimal(done as nat) + " / "@ + decimal(
            total as nat,
        ),
{
}

/// What one more selected frame does to the runs. Where its run is there already and
/// starts no later, nothing; where it starts later, it starts at this frame from then
/// on, in its place; and a new run comes last.
pub proof fn one_more_frame_touches_its_run_alone(
    selected: &Vec<Selected>,
    more: &Vec<Selected>,
    formats: &Vec<String>,
    r: Resolved,
    s: Resolved,
    i: int,
)
    requires
        call_ensures(resolve_sequences, (selected, formats), r),
        call_ensures(resolve_sequences, (more, formats), s),
        more.len() == selected.len() + 1,
        forall|k: int| 0 <= k < selected.len() ==> (#[trigger] more[k]) == selected[k],
    ensures
        more[selected.len() as int] matches Selected::Numbered(frame) ==> {
            &&& 0 <= i < r.firsts.len() && r.firsts[i].run@ == frame.run@ && frame.number
                >= r.firsts[i].number ==> models(s.firsts@) == models(r.firsts@)
            &&& 0 <= i < r.firsts.len() && r.firsts[i].run@ == frame.run@ && frame.number
                < r.firsts[i].number ==> models(s.firsts@) == models(r.firsts@).update(i, frame@)
            &&& (forall|k: int|
                0 <= k < r.firsts.len() ==> (#[trigger] r.firsts[k]).run@ != frame.run@) ==> models(
                s.firsts@,
            ) == models(r.firsts@).push(frame@)
        },
        more[selected.len() as int] is NoFrame || more[selected.len() as int] is Unnumbered
            ==> models(s.firsts@) == models(r.firsts@),
{
    let all = models(more@);
    let before = models(selected@);
    assert(all.drop_last() =~= before);
    assert(all.last() == more[selected.len() as int]@);
    let frames = frames_of(before);
    let runs = models(r.firsts@);
    assert(runs == merged(frames));
    assert(frames + Seq::<FrameModel>::empty() =~= frames);
    if let Selected::Numbered(frame) = more[selected.len() as int] {
        assert(frames_of(all) =~= frames.push(frame@));
        assert(frames.push(frame@).drop_last() =~= frames);
        lemma_place(runs, frame.run@);
        a_run_is_resolved_once(frames);
        let at = run_place(runs, frame.run@);
        if 0 <= i < r.firsts.len() && r.firsts[i].run@ == frame.run@ {
            assert(runs[i] == r.firsts[i]@);
            assert(at >= 0);
            if at < i {
                assert(runs[at].run != runs[i].run);
            }
            if i < at {
                assert(runs[i].run != runs[at].run);
            }
        }
        if forall|k: int| 0 <= k < r.firsts.len() ==> (#[trigger] r.firsts[k]).run@ != frame.run@ {
            if at >= 0 {
                assert(runs[at] == r.firsts[at]@);
            }
        }
    }
}

/// A folder is as good as its frames selected one by one, in their order.
pub proof fn a_folder_stands_for_its_frames(
    selected: &Vec<Selected>,
    with_folder: &Vec<Selected>,
    with_frames: &Vec<Selected>,
    formats: &Vec<String>,
    r: Resolved,
    s: Resolved,
)
    requires
        call_ensures(resolve_sequences, (with_folder, formats), r),
        call_ensures(resolve_sequences, (with_frames, formats), s),
        with_folder.len() == selected.len() + 1,
        forall|k: int| 0 <= k < selected.len() ==> (#[trigger] with_folder[k]) == selected[k],
        with_folder[selected.len() as int] matches Selected::Folder { path, frames } && {
            &&& with_frames.len() == selected.len() + frames.len()
            &&& forall|k: int| 0 <= k < selected.len() ==> (#[trigger] with_frames[k]) == selected[k]
            &&& forall|k: int|
                0 <= k < frames.len() ==> with_frames[selected.len() + k] == Selected::Numbered(
                    #[trigger] frames[k],
                )
        },
    ensures
        models(r.firsts@) == models(s.firsts@),
{
    if let Selected::Folder { path, frames } = with_folder[selected.len() as int] {
        let base = models(selected@);
        let a = models(with_folder@);
        let b = models(with_frames@);
        let fs = models(frames@);
        assert(a.drop_last() =~= base);
        assert(a.last() == with_folder[selected.len() as int]@);
        assert(b =~= base + Seq::new(fs.len(), |k: int| SelectedModel::Numbered(fs[k]))) by {
            assert forall|k: int| 0 <= k < b.len() implies b[k] == (base + Seq::new(
                fs.len(),
                |k: int| SelectedModel::Numbered(fs[k]),
            ))[k] by {
                if k < base.len() {
                    assert(with_frames[k] == selected[k]);
                } else {
                    let n = k - base.len();
                    assert(frames[n]@ == fs[n]);
                    assert(with_frames[selected.len() + n] == Selected::Numbered(frames[n]));
                }
            }
        }
        lemma_one_by_one(base, fs, fs.len());
        assert(fs.take(fs.len() as int) =~= fs);
        assert(Seq::new(fs.len(), |k: int| SelectedModel::Numbered(fs[k])) =~= Seq::new(
            fs.len(),
            |k: int| SelectedModel::Numbered(fs[k]),
        ));
    }
}

proof fn lemma_one_by_one(base: Seq<SelectedModel>, fs: Seq<FrameModel>, n: nat)
    requires
        n <= fs.len(),
    ensures
        frames_of(base + Seq::new(n, |k: int| SelectedModel::Numbered(fs[k]))) == frames_of(base)
            + fs.take(n as int),
    decreases n,
{
    let all = base + Seq::new(n, |k: int| SelectedModel::Numbered(fs[k]));
    if n == 0 {
        assert(all =~= base);
        assert(frames_of(base) + fs.take(0) =~= frames_of(base));
    } else {
        let m = (n - 1) as nat;
        lemma_one_by_one(base, fs, m);
        assert(all.drop_last() =~= base + Seq::new(m, |k: int| SelectedModel::Numbered(fs[k])));
        assert(all.last() == SelectedModel::Numbered(fs[m as int]));
        assert(frames_of(all) =~= frames_of(base) + fs.take(n as int));
    }
}

} // verus!
