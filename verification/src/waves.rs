//! The sound drawn in each clip block. A view, not an edit: decoded once per
//! source on a worker, kept by URI for the session, never saved, never
//! recorded, and always safe to throw away and decode again. Only video
//! files are listened to: a still or an image sequence has no sound.

use crate::assoc::Assoc;
use crate::clip::{ClipKind, Wave};
use crate::order::{models, Duplicate};
use vstd::prelude::*;

verus! {

/// A decoded source: its waveform, or none for a source with no sound.
#[derive(Clone, Copy, PartialEq, Debug)]
pub struct Sound {
    pub wave: Option<Wave>,
}

impl View for Sound {
    type V = Option<Wave>;

    open spec fn view(&self) -> Option<Wave> {
        self.wave
    }
}

impl Duplicate for Sound {
    fn duplicate(&self) -> (r: Sound) {
        *self
    }
}

/// The clips waiting for a source, in the order they asked.
pub struct Waiting {
    pub ids: Vec<String>,
}

impl View for Waiting {
    type V = Seq<Seq<char>>;

    open spec fn view(&self) -> Seq<Seq<char>> {
        models(self.ids@)
    }
}

impl Duplicate for Waiting {
    fn duplicate(&self) -> (r: Waiting) {
        Waiting { ids: clone_texts(&self.ids) }
    }
}

/// The same texts once more.
pub fn clone_texts(texts: &Vec<String>) -> (r: Vec<String>)
    ensures
        models(r@) == models(texts@),
{
    let mut r: Vec<String> = Vec::new();
    let mut i: usize = 0;
    while i < texts.len()
        invariant
            i <= texts.len(),
            r.len() == i,
            forall|j: int| 0 <= j < i ==> (#[trigger] r@[j])@ == texts@[j]@,
        decreases texts.len() - i,
    {
        r.push(texts[i].clone());
        i += 1;
    }
    assert(models(r@) =~= models(texts@));
    r
}

/// A clip that asks for the waveform of its source.
#[derive(PartialEq, Eq, Debug)]
pub struct WaveClip {
    pub id: String,
    pub uri: String,
    pub kind: ClipKind,
}

/// A clip that asks for the waveform of its source.
pub struct WaveClipModel {
    pub id: Seq<char>,
    pub uri: Seq<char>,
    pub kind: ClipKind,
}

impl View for WaveClip {
    type V = WaveClipModel;

    open spec fn view(&self) -> WaveClipModel {
        WaveClipModel { id: self.id@, uri: self.uri@, kind: self.kind }
    }
}

/// A clip whose waveform is known.
#[derive(PartialEq, Debug)]
pub struct ReadyWave {
    pub id: String,
    pub wave: Wave,
}

impl View for ReadyWave {
    type V = (Seq<char>, Wave);

    open spec fn view(&self) -> (Seq<char>, Wave) {
        (self.id@, self.wave)
    }
}

/// The waveform cache.
pub struct Waves {
    /// Decoded sources by URI; one with no sound is kept too, so it is not
    /// decoded again.
    pub done: Assoc<Sound>,
    /// Sources being decoded, each with the clips waiting for it.
    pub waiting: Assoc<Waiting>,
}

/// What the cache holds.
#[verifier::ext_equal]
pub struct WavesModel {
    pub done: Map<Seq<char>, Option<Wave>>,
    pub waiting: Map<Seq<char>, Seq<Seq<char>>>,
}

impl View for Waves {
    type V = WavesModel;

    open spec fn view(&self) -> WavesModel {
        WavesModel { done: self.done@, waiting: self.waiting@ }
    }
}

/// What a request for waveforms leads to.
pub struct Request {
    pub ready: Vec<ReadyWave>,
    pub decode: Vec<String>,
}

/// A request half answered.
#[verifier::ext_equal]
pub struct Answer {
    pub waves: WavesModel,
    pub ready: Seq<(Seq<char>, Wave)>,
    pub decode: Seq<Seq<char>>,
}

/// The clips that wait for a source.
pub open spec fn waiters(waves: WavesModel, uri: Seq<char>) -> Seq<Seq<char>> {
    if waves.waiting.dom().contains(uri) {
        waves.waiting[uri]
    } else {
        seq![]
    }
}

/// The answer to one more clip: nothing for a clip that is no video or has no
/// sound; its waveform where it is known; else it waits, and its source is to
/// be decoded where no clip waited for it before.
pub open spec fn answer_one(a: Answer, clip: WaveClipModel) -> Answer {
    if clip.kind != ClipKind::Video {
        a
    } else if a.waves.done.dom().contains(clip.uri) {
        match a.waves.done[clip.uri] {
            Some(wave) => Answer { ready: a.ready.push((clip.id, wave)), ..a },
            None => a,
        }
    } else {
        let before = waiters(a.waves, clip.uri);
        Answer {
            waves: WavesModel {
                waiting: a.waves.waiting.insert(clip.uri, before.push(clip.id)),
                ..a.waves
            },
            decode: if before.len() == 0 {
                a.decode.push(clip.uri)
            } else {
                a.decode
            },
            ..a
        }
    }
}

/// The answer to a request.
pub open spec fn answer(waves: WavesModel, clips: Seq<WaveClipModel>) -> Answer
    decreases clips.len(),
{
    if clips.len() == 0 {
        Answer { waves, ready: seq![], decode: seq![] }
    } else {
        answer_one(answer(waves, clips.drop_last()), clips.last())
    }
}

impl Waves {
    pub fn new() -> (r: Waves)
        ensures
            r@ == (WavesModel { done: Map::empty(), waiting: Map::empty() }),
    {
        Waves { done: Assoc::new(), waiting: Assoc::new() }
    }

    /// Sort `clips` into those whose waveform is known and the sources to
    /// decode, each once however many clips wait on it. A clip that is not a
    /// video, or whose source has no sound, gets nothing.
    pub fn request(&mut self, clips: &Vec<WaveClip>) -> (r: Request)
        ensures
            final(self)@ == answer(old(self)@, models(clips@)).waves,
            models(r.ready@) == answer(old(self)@, models(clips@)).ready,
            models(r.decode@) == answer(old(self)@, models(clips@)).decode,
    {
        let ghost before = self@;
        let ghost m = models(clips@);
        let mut ready: Vec<ReadyWave> = Vec::new();
        let mut decode: Vec<String> = Vec::new();
        let mut i: usize = 0;
        assert(models(ready@) =~= answer(before, m.take(0)).ready);
        assert(models(decode@) =~= answer(before, m.take(0)).decode);
        while i < clips.len()
            invariant
                i <= clips.len(),
                m == models(clips@),
                self@ == answer(before, m.take(i as int)).waves,
                models(ready@) == answer(before, m.take(i as int)).ready,
                models(decode@) == answer(before, m.take(i as int)).decode,
            decreases clips.len() - i,
        {
            let clip = &clips[i];
            let ghost r0 = models(ready@);
            let ghost d0 = models(decode@);
            assert(m[i as int] == clip@);
            assert(m.take(i + 1).drop_last() =~= m.take(i as int));
            if clip.kind == ClipKind::Video {
                match self.done.get(&clip.uri) {
                    Some(sound) => {
                        if let Some(wave) = sound.wave {
                            ready.push(ReadyWave { id: clip.id.clone(), wave });
                            assert(models(ready@) =~= r0.push((clip.id@, wave)));
                        }
                    },
                    None => {
                        let mut waiting = match self.waiting.get(&clip.uri) {
                            Some(w) => w.duplicate(),
                            None => Waiting { ids: Vec::new() },
                        };
                        assert(waiting@ =~= waiters(self@, clip.uri@));
                        let ghost w0 = waiting@;
                        if waiting.ids.len() == 0 {
                            decode.push(clip.uri.clone());
                            assert(models(decode@) =~= d0.push(clip.uri@));
                        }
                        waiting.ids.push(clip.id.clone());
                        assert(waiting@ =~= w0.push(clip.id@));
                        self.waiting.insert(clip.uri.clone(), waiting);
                    },
                }
            }
            i += 1;
        }
        assert(m.take(i as int) =~= m);
        Request { ready, decode }
    }

    /// A source finished decoding: keep it, and hand back the clips that
    /// were waiting for it.
    pub fn finish(&mut self, uri: &String, wave: Option<Wave>) -> (r: Vec<String>)
        ensures
            models(r@) == waiters(old(self)@, uri@),
            final(self)@ == (WavesModel {
                done: old(self)@.done.insert(uri@, wave),
                waiting: old(self)@.waiting.remove(uri@),
            }),
    {
        let ids = match self.waiting.get(uri) {
            Some(w) => clone_texts(&w.ids),
            None => Vec::new(),
        };
        assert(models(ids@) =~= waiters(self@, uri@));
        self.done.insert(uri.clone(), Sound { wave });
        self.waiting.remove(uri);
        ids
    }
}

// ---------------------------------------------------------------------------
// Laws
// ---------------------------------------------------------------------------

/// A cache in order: a source is waited for only while it is not decoded, and
/// then by some clip.
pub open spec fn in_order(waves: WavesModel) -> bool {
    forall|uri: Seq<char>| #[trigger]
        waves.waiting.dom().contains(uri) ==> waves.waiting[uri].len() > 0
            && !waves.done.dom().contains(uri)
}

proof fn lemma_answer(waves: WavesModel, clips: Seq<WaveClipModel>)
    requires
        in_order(waves),
    ensures
        ({
            let a = answer(waves, clips);
            &&& in_order(a.waves)
            &&& a.waves.done == waves.done
            &&& forall|uri: Seq<char>| #[trigger]
                a.waves.waiting.dom().contains(uri) <==> waves.waiting.dom().contains(uri)
                    || a.decode.contains(uri)
            &&& forall|i: int|
                0 <= i < a.decode.len() ==> !waves.waiting.dom().contains(#[trigger] a.decode[i])
                    && !waves.done.dom().contains(a.decode[i])
            &&& forall|i: int, j: int|
                0 <= i < j < a.decode.len() ==> #[trigger] a.decode[i] != #[trigger] a.decode[j]
        }),
    decreases clips.len(),
{
    if clips.len() > 0 {
        let rest = clips.drop_last();
        lemma_answer(waves, rest);
        let b = answer(waves, rest);
        let a = answer(waves, clips);
        let clip = clips.last();
        if clip.kind == ClipKind::Video && !b.waves.done.dom().contains(clip.uri) {
            if b.waves.waiting.dom().contains(clip.uri) {
                assert(waiters(b.waves, clip.uri).len() > 0);
                assert forall|uri: Seq<char>| #[trigger] a.waves.waiting.dom().contains(uri)
                    <==> waves.waiting.dom().contains(uri) || a.decode.contains(uri) by {
                    assert(b.waves.waiting.dom().contains(uri) == a.waves.waiting.dom().contains(uri));
                }
            } else {
                assert(waiters(b.waves, clip.uri).len() == 0);
                assert(a.decode == b.decode.push(clip.uri));
                assert forall|uri: Seq<char>| #[trigger] a.waves.waiting.dom().contains(uri)
                    <==> waves.waiting.dom().contains(uri) || a.decode.contains(uri) by {
                    if b.decode.contains(uri) {
                        let k = choose|k: int| 0 <= k < b.decode.len() && b.decode[k] == uri;
                        assert(a.decode[k] == uri);
                    }
                    if uri == clip.uri {
                        assert(a.decode[b.decode.len() as int] == uri);
                    } else {
                        assert(b.waves.waiting.dom().contains(uri)
                            == a.waves.waiting.dom().contains(uri));
                        if a.decode.contains(uri) {
                            let k = choose|k: int| 0 <= k < a.decode.len() && a.decode[k] == uri;
                            assert(b.decode[k] == uri);
                        }
                    }
                }
                assert forall|i: int, j: int| 0 <= i < j < a.decode.len() implies #[trigger] a.decode[i]
                    != #[trigger] a.decode[j] by {
                    assert(a.decode[i] == b.decode[i]);
                    if j == b.decode.len() {
                        assert(b.decode.contains(b.decode[i]));
                        assert(b.waves.waiting.dom().contains(b.decode[i]));
                    } else {
                        assert(a.decode[j] == b.decode[j]);
                    }
                }
            }
            assert forall|uri: Seq<char>| #[trigger] a.waves.waiting.dom().contains(uri) implies a.waves.waiting[uri].len()
                > 0 && !a.waves.done.dom().contains(uri) by {
                if uri != clip.uri {
                    assert(b.waves.waiting.dom().contains(uri));
                }
            }
        }
    }
}

/// A source is decoded once, however many clips wait for it: a request asks
/// for none that is decoded or being decoded, and for none twice, and the
/// cache stays in order.
pub proof fn a_source_is_decoded_once(waves: WavesModel, clips: Seq<WaveClipModel>)
    requires
        in_order(waves),
    ensures
        ({
            let a = answer(waves, clips);
            &&& in_order(a.waves)
            &&& forall|i: int|
                0 <= i < a.decode.len() ==> !waves.waiting.dom().contains(#[trigger] a.decode[i])
                    && !waves.done.dom().contains(a.decode[i])
            &&& forall|i: int, j: int|
                0 <= i < j < a.decode.len() ==> #[trigger] a.decode[i] != #[trigger] a.decode[j]
        }),
{
    lemma_answer(waves, clips);
}

/// Once a source is decoded, no request asks for it again.
pub proof fn a_decoded_source_is_not_asked_for_again(
    waves: WavesModel,
    uri: Seq<char>,
    wave: Option<Wave>,
    clips: Seq<WaveClipModel>,
)
    requires
        in_order(waves),
    ensures
        ({
            let after = WavesModel {
                done: waves.done.insert(uri, wave),
                waiting: waves.waiting.remove(uri),
            };
            &&& in_order(after)
            &&& !answer(after, clips).decode.contains(uri)
        }),
{
    let after = WavesModel {
        done: waves.done.insert(uri, wave),
        waiting: waves.waiting.remove(uri),
    };
    assert forall|u: Seq<char>| #[trigger] after.waiting.dom().contains(u) implies after.waiting[u].len()
        > 0 && !after.done.dom().contains(u) by {
        assert(waves.waiting.dom().contains(u));
    }
    lemma_answer(after, clips);
}

/// One more clip adds its own to the answer. One that is no video adds nothing, nor
/// does one whose source has no sound; one whose waveform is known is ready with it;
/// any other waits, and its source is decoded where no clip waited for it yet.
pub proof fn each_clip_gets_its_own_answer(
    waves: &mut Waves,
    same: &mut Waves,
    clips: &Vec<WaveClip>,
    more: &Vec<WaveClip>,
    r: Request,
    s: Request,
)
    requires
        call_ensures(Waves::request, (waves, clips), r),
        call_ensures(Waves::request, (same, more), s),
        old(waves)@ == old(same)@,
        more.len() == clips.len() + 1,
        forall|i: int| 0 <= i < clips.len() ==> (#[trigger] more[i])@ == clips[i]@,
    ensures
        clips.len() == 0 ==> r.ready.len() == 0 && r.decode.len() == 0 && final(waves)@ == old(waves)@,
        final(same).done@ == final(waves).done@,
        ({
            let c = more[clips.len() as int];
            let known = final(waves).done@.dom().contains(c.uri@);
            let waited = final(waves).waiting@.dom().contains(c.uri@) && final(waves).waiting@[c.uri@].len() > 0;
            &&& !(c.kind is Video) || known && final(waves).done@[c.uri@] is None ==> models(
                s.ready@,
            ) == models(r.ready@) && models(s.decode@) == models(r.decode@) && final(same).waiting@
                == final(waves).waiting@
            &&& c.kind is Video && known && final(waves).done@[c.uri@] is Some ==> models(s.ready@)
                == models(r.ready@).push((c.id@, final(waves).done@[c.uri@]->0)) && models(s.decode@)
                == models(r.decode@) && final(same).waiting@ == final(waves).waiting@
            &&& c.kind is Video && !known ==> {
                &&& models(s.ready@) == models(r.ready@)
                &&& waited ==> models(s.decode@) == models(r.decode@)
                &&& !waited ==> models(s.decode@) == models(r.decode@).push(c.uri@)
                &&& final(same).waiting@.dom().contains(c.uri@)
                &&& final(same).waiting@[c.uri@].len() > 0
                &&& final(same).waiting@[c.uri@].last() == c.id@
                &&& waited ==> final(same).waiting@[c.uri@].drop_last() == final(waves).waiting@[c.uri@]
                &&& !waited ==> final(same).waiting@[c.uri@].len() == 1
                &&& forall|uri: Seq<char>|
                    uri != c.uri@ && final(waves).waiting@.dom().contains(uri) ==> final(same).waiting@.dom().contains(uri) && #[trigger] final(same).waiting@[uri]
                        == final(waves).waiting@[uri]
            }
        }),
{
    let m = models(more@);
    let a = answer(old(waves)@, models(clips@));
    assert(m.drop_last() =~= models(clips@));
    assert(m.last() == more[clips.len() as int]@);
    assert(final(waves)@ == a.waves);
    assert(final(same)@ == answer_one(a, m.last()).waves);
    assert(models(r.ready@).len() == r.ready.len() && models(r.decode@).len() == r.decode.len());
    let c = more[clips.len() as int];
    if c.kind is Video && !final(waves).done@.dom().contains(c.uri@) {
        assert(final(same).waiting@[c.uri@] =~= waiters(a.waves, c.uri@).push(c.id@));
        assert(final(same).waiting@[c.uri@].drop_last() =~= waiters(a.waves, c.uri@));
    }
}

/// A source that is decoded hands back the clips that waited for it, in the order in
/// which they asked, and nobody waits for it any more; what was known of other
/// sources stays.
pub proof fn a_decoded_source_frees_its_clips(
    waves: &mut Waves,
    uri: &String,
    wave: Option<Wave>,
    r: Vec<String>,
    other: Seq<char>,
)
    requires
        call_ensures(Waves::finish, (waves, uri, wave), r),
    ensures
        old(waves).waiting@.dom().contains(uri@) ==> models(r@) == old(waves).waiting@[uri@],
        !old(waves).waiting@.dom().contains(uri@) ==> r.len() == 0,
        final(waves).done@.dom().contains(uri@) && final(waves).done@[uri@] == wave,
        !final(waves).waiting@.dom().contains(uri@),
        other != uri@ ==> {
            &&& final(waves).done@.dom().contains(other) <==> old(waves).done@.dom().contains(other)
            &&& old(waves).done@.dom().contains(other) ==> final(waves).done@[other] == old(waves).done@[other]
            &&& final(waves).waiting@.dom().contains(other) <==> old(waves).waiting@.dom().contains(other)
            &&& old(waves).waiting@.dom().contains(other) ==> final(waves).waiting@[other] == old(waves).waiting@[other]
        },
{
    assert(models(r@).len() == r.len());
    assert(final(waves)@.done == final(waves).done@ && final(waves)@.waiting == final(waves).waiting@);
}

} // verus!
