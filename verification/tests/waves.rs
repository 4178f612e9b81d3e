use kuvatin::clip::{ClipKind, Picture, Real, Wave};
use kuvatin::waves::{WaveClip, Waves};

const CLIP: &str = "file:///C:/media/intro.mp4";

fn wave() -> Wave {
    Wave {
        picture: Picture { id: 1, width: 4 },
        secs: Real {
            bits: 2.0f64.to_bits(),
        },
    }
}

fn clip(id: &str, uri: &str, kind: ClipKind) -> WaveClip {
    WaveClip {
        id: id.into(),
        uri: uri.into(),
        kind,
    }
}

fn video(id: &str) -> WaveClip {
    clip(id, CLIP, ClipKind::Video)
}

#[test]
fn a_source_is_decoded_once_however_many_clips_wait_for_it() {
    let mut inner = Waves::new();
    let first = inner.request(&vec![video("a"), video("b")]);
    assert!(first.ready.is_empty());
    assert_eq!(first.decode, vec![CLIP.to_string()]);
    let again = inner.request(&vec![video("c")]);
    assert!(again.decode.is_empty(), "already being decoded");
    assert_eq!(
        inner.finish(&CLIP.to_string(), Some(wave())),
        vec!["a", "b", "c"]
    );
    let cached = inner.request(&vec![video("d")]);
    let got: Vec<&str> = cached.ready.iter().map(|r| r.id.as_str()).collect();
    assert_eq!(got, vec!["d"], "from the cache");
    assert_eq!(cached.ready[0].wave, wave());
    assert!(cached.decode.is_empty());
}

#[test]
fn a_source_with_no_sound_is_not_decoded_again() {
    let mut inner = Waves::new();
    let _ = inner.request(&vec![video("a")]);
    inner.finish(&CLIP.to_string(), None);
    let r = inner.request(&vec![video("b")]);
    assert!(r.ready.is_empty() && r.decode.is_empty());
}

#[test]
fn stills_and_sequences_are_not_listened_to() {
    let mut inner = Waves::new();
    let r = inner.request(&vec![
        clip("a", "file:///C:/media/logo.png", ClipKind::Image),
        clip(
            "b",
            "imagesequence://C:/r/f_%04d.png?start-index=1&framerate=24/1",
            ClipKind::Sequence,
        ),
    ]);
    assert!(r.ready.is_empty() && r.decode.is_empty());
}

#[test]
fn a_source_nobody_waits_for_wakes_nobody() {
    let mut inner = Waves::new();
    assert!(inner.finish(&CLIP.to_string(), Some(wave())).is_empty());
    let r = inner.request(&vec![video("a"), clip("b", "file:///b.mp4", ClipKind::Video)]);
    assert_eq!(r.ready.len(), 1);
    assert_eq!(r.decode, vec!["file:///b.mp4".to_string()]);
}
