use codecophony::mixer::{PortaudioThread, PlaybackNote, MessageToPortaudioThread};
use codecophony::units::EngineConfig;

fn cfg() -> EngineConfig {
    EngineConfig { sample_hz: 44100, frames_per_buffer: 256 }
}

fn plain_note(first_sample_time: i64, frames: Vec<i64>) -> PlaybackNote {
    PlaybackNote { frames, first_sample_time, fadein_start: None, fadeout_end: None }
}

#[test]
fn a_note_is_mixed_at_its_scheduled_frames() {
    let mut mixer = PortaudioThread::new();
    let messages = vec![MessageToPortaudioThread::AddNote(plain_note(2, vec![100, 200, 300]))];
    let (buffer, reached) = mixer.call(&cfg(), messages);
    assert_eq!(reached, 256);
    assert_eq!(buffer.len(), 256);
    assert_eq!(&buffer[0..6], &[0, 0, 100, 200, 300, 0]);
    // The note ended inside this buffer, so it was retired.
    assert_eq!(mixer.notes.len(), 0);
}

#[test]
fn playback_continues_across_buffers() {
    let mut mixer = PortaudioThread::new();
    let note = plain_note(0, vec![7; 600]);
    let (first, _) = mixer.call(&cfg(), vec![MessageToPortaudioThread::AddNote(note)]);
    assert!(first.iter().all(|s| *s == 7));
    assert_eq!(mixer.notes.len(), 1);
    let (second, reached) = mixer.call(&cfg(), Vec::new());
    assert!(second.iter().all(|s| *s == 7));
    assert_eq!(reached, 512);
    let (third, _) = mixer.call(&cfg(), Vec::new());
    assert!(third[0..88].iter().all(|s| *s == 7));
    assert!(third[88..].iter().all(|s| *s == 0));
    assert_eq!(mixer.notes.len(), 0);
}

#[test]
fn two_identical_notes_double_every_shared_frame() {
    // Superposition: two notes with the same start and end give exactly
    // twice one note's amplitude at every frame.
    let mut doubled = PortaudioThread::new();
    let (pair, _) = doubled.call(&cfg(), vec![
        MessageToPortaudioThread::AddNote(plain_note(0, vec![123; 300])),
        MessageToPortaudioThread::AddNote(plain_note(0, vec![123; 300])),
    ]);
    let mut alone = PortaudioThread::new();
    let (single, _) = alone.call(&cfg(), vec![
        MessageToPortaudioThread::AddNote(plain_note(0, vec![123; 300])),
    ]);
    for j in 0..256 {
        assert_eq!(pair[j], 2 * single[j]);
    }
}

#[test]
fn fade_in_rises_from_silence_and_never_decreases() {
    let mut mixer = PortaudioThread::new();
    let note = PlaybackNote {
        frames: vec![1000; 600],
        first_sample_time: 0,
        fadein_start: Some(0),
        fadeout_end: None,
    };
    let (buffer, _) = mixer.call(&cfg(), vec![MessageToPortaudioThread::AddNote(note)]);
    assert_eq!(buffer[0], 0);
    assert_eq!(buffer[1], 1000 / 441);
    for j in 1..256 {
        assert!(buffer[j] >= buffer[j - 1]);
        assert!(buffer[j] >= 0 && buffer[j] <= 1000);
    }
}

#[test]
fn stop_fades_a_sounding_note_out() {
    let mut mixer = PortaudioThread::new();
    let (_, _) = mixer.call(&cfg(), vec![
        MessageToPortaudioThread::AddNote(plain_note(0, vec![1000; 50_000])),
    ]);
    // The note has been sounding for one buffer; a stop schedules its
    // fade-out end one fade-out window past the current frame.
    let (buffer, _) = mixer.call(&cfg(), vec![MessageToPortaudioThread::Stop]);
    assert_eq!(buffer[0], 1000);
    for j in 1..256 {
        assert!(buffer[j] <= buffer[j - 1]);
        assert!(buffer[j] > 0);
    }
}

#[test]
fn stop_discards_notes_that_have_not_started() {
    let mut mixer = PortaudioThread::new();
    let (buffer, _) = mixer.call(&cfg(), vec![
        MessageToPortaudioThread::AddNote(plain_note(10_000, vec![1000; 100])),
        MessageToPortaudioThread::Stop,
    ]);
    assert!(buffer.iter().all(|s| *s == 0));
    assert_eq!(mixer.notes.len(), 0);
}

#[test]
fn faded_out_notes_stop_sounding_at_the_fade_end() {
    let mut mixer = PortaudioThread::new();
    let note = PlaybackNote {
        frames: vec![1000; 600],
        first_sample_time: 0,
        fadein_start: None,
        fadeout_end: Some(100),
    };
    let (buffer, _) = mixer.call(&cfg(), vec![MessageToPortaudioThread::AddNote(note)]);
    // Audible at the start of the fade, silent from the fade end on.
    assert!(buffer[0] > 0);
    assert!(buffer[100..].iter().all(|s| *s == 0));
    // Its audible window is over: the note is retired.
    assert_eq!(mixer.notes.len(), 0);
}
