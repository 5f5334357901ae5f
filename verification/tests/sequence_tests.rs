use codecophony::sequence::{PositionedSequence, Renderable, merge, enforce_maximum};
use codecophony::note::{Windowed, SineWave};
use codecophony::synth::{apply_tone_envelope, chunk_is_silent, capture_decision, CaptureDecision};

fn seq(start: i64, sample_hz: u32, frames: Vec<i64>) -> PositionedSequence {
    PositionedSequence { start, sample_hz, frames }
}

#[test]
fn render_at_own_rate_copies_samples() {
    let s = seq(2, 100, vec![10, 20, 30]);
    let mut buffer = vec![0i64; 6];
    s.render(&mut buffer, 0, 100);
    assert_eq!(buffer, vec![0, 0, 10, 20, 30, 0]);
}

#[test]
fn render_adds_instead_of_overwriting() {
    let s = seq(0, 100, vec![5, 5]);
    let mut buffer = vec![100i64, -100];
    s.render(&mut buffer, 0, 100);
    assert_eq!(buffer, vec![105, -95]);
}

#[test]
fn resampling_to_own_rate_is_identity() {
    let s = seq(3, 44100, vec![-7, 0, 42, 9]);
    for t in 0..10 {
        let direct = if t >= 3 && t < 7 { s.frames[(t - 3) as usize] } else { 0 };
        assert_eq!(s.interpolate_sample(t, 44100), direct);
    }
}

#[test]
fn resampling_interpolates_linearly() {
    // Doubling the rate lands every odd output frame halfway between two
    // stored samples.
    let s = seq(0, 100, vec![0, 100]);
    let mut buffer = vec![0i64; 4];
    s.render(&mut buffer, 0, 200);
    assert_eq!(buffer, vec![0, 50, 100, 50]);
}

#[test]
fn collections_render_additively() {
    // Superposition: rendering two notes into one buffer equals the sum
    // of rendering them separately and then adding the buffers.
    let a = seq(0, 100, vec![10, 20, 30]);
    let b = seq(2, 100, vec![5, 5, 5]);
    let both = vec![seq(0, 100, vec![10, 20, 30]), seq(2, 100, vec![5, 5, 5])];

    let mut together = vec![0i64; 6];
    both.render(&mut together, 0, 100);

    let mut first = vec![0i64; 6];
    a.render(&mut first, 0, 100);
    let mut second = vec![0i64; 6];
    b.render(&mut second, 0, 100);
    let summed: Vec<i64> = first.iter().zip(second.iter()).map(|(x, y)| x + y).collect();

    assert_eq!(together, summed);
    assert_eq!(together, vec![10, 20, 35, 5, 5, 0]);
}

#[test]
fn merge_superimposes_overlapping_spans() {
    let parts = vec![seq(0, 100, vec![10, 20]), seq(1, 100, vec![5])];
    let merged = merge(&parts);
    assert_eq!(merged.start, 0);
    assert_eq!(merged.sample_hz, 100);
    assert_eq!(merged.frames, vec![10, 25]);
}

#[test]
fn merge_of_disjoint_notes_keeps_silence_between() {
    let parts = vec![seq(0, 100, vec![10, 20]), seq(5, 100, vec![7])];
    let merged = merge(&parts);
    assert_eq!(merged.start, 0);
    assert_eq!(merged.frames, vec![10, 20, 0, 0, 0, 7]);
}

#[test]
fn windowed_collection_takes_min_and_max() {
    let waves = vec![
        SineWave { start: 1_000_000, duration: 500_000, frequency: 440_000, amplitude: 10 },
        SineWave { start: 200_000, duration: 100_000, frequency: 550_000, amplitude: 10 },
    ];
    assert_eq!(waves.start(), 200_000);
    assert_eq!(waves.end(), 1_500_000);
}

#[test]
fn empty_collection_has_the_degenerate_window() {
    let waves: Vec<SineWave> = Vec::new();
    assert_eq!(waves.start(), 1_000_000);
    assert_eq!(waves.end(), 0);
}

#[test]
fn rendered_from_covers_the_whole_window() {
    // A sequence of 101 frames at 100 Hz spans exactly one second, so
    // re-rendering it at its own rate reproduces it.
    let mut frames = vec![0i64; 101];
    frames[0] = 11;
    frames[100] = 22;
    let source = seq(0, 100, frames.clone());
    let rendered = PositionedSequence::rendered_from(&source, 100);
    assert_eq!(rendered.start, 0);
    assert_eq!(rendered.sample_hz, 100);
    assert_eq!(rendered.frames, frames);
}

#[test]
fn enforce_maximum_leaves_quiet_audio_alone() {
    let mut samples = vec![0i64, 50, -99];
    enforce_maximum(&mut samples, 100);
    assert_eq!(samples, vec![0, 50, -99]);
}

#[test]
fn enforce_maximum_scales_loud_audio_down() {
    let mut samples = vec![0i64, 500, -1000, 999];
    enforce_maximum(&mut samples, 100);
    assert_eq!(samples, vec![0, 50, -100, 100]);
    assert!(samples.iter().all(|s| s.abs() <= 100));
}

#[test]
fn tone_envelope_ramps_at_both_ends() {
    // 200 frames at 100 Hz: the envelope is 5 frames on each side.
    let raw = vec![1000i64; 200];
    let shaped = apply_tone_envelope(&raw, 100);
    assert_eq!(shaped.len(), 200);
    assert_eq!(shaped[0], 0);
    assert_eq!(shaped[1], 200);
    assert_eq!(shaped[4], 800);
    assert_eq!(shaped[5], 1000);
    assert_eq!(shaped[100], 1000);
    assert_eq!(shaped[195], 1000);
    assert_eq!(shaped[196], 800);
    assert_eq!(shaped[199], 200);
    // The attack never decreases and the release never increases.
    for i in 1..6 {
        assert!(shaped[i] >= shaped[i - 1]);
    }
    for i in 196..200 {
        assert!(shaped[i] <= shaped[i - 1]);
    }
}

#[test]
fn silence_detection() {
    assert!(chunk_is_silent(&vec![0, 10, -10, 4294]));
    assert!(!chunk_is_silent(&vec![0, 4295]));
    assert!(!chunk_is_silent(&vec![-5000]));
    assert!(chunk_is_silent(&Vec::new()));
}

#[test]
fn capture_stops_on_silence_and_gives_up_after_the_budget() {
    assert!(matches!(capture_decision(0, true), CaptureDecision::Done));
    assert!(matches!(capture_decision(899, false), CaptureDecision::Extend));
    assert!(matches!(capture_decision(900, false), CaptureDecision::GiveUp));
}
