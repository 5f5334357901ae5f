use codecophony::note::{FluidsynthDirectlyRenderableMIDIInstrument, MIDIPitchedNote,
    MIDIPercussionNote, SineWave, NoteDescriptor, Windowed, Nudgable, Transposable, Pitched,
    Dilatable, PitchShiftable, midi_pitch_to_frequency, frequency_to_nearest_midi_pitch};

#[test]
fn pitched_instrument_offsets_the_program() {
    let instrument = FluidsynthDirectlyRenderableMIDIInstrument::pitched(1);
    assert_eq!(instrument.preset, 0);
    assert_eq!(instrument.bank, 0);
    assert_eq!(instrument.channel, 0);
    assert!(!instrument.is_percussion());
}

#[test]
fn percussion_instrument_uses_the_percussion_channel() {
    let instrument = FluidsynthDirectlyRenderableMIDIInstrument::percussion();
    assert_eq!(instrument.channel, 9);
    assert!(instrument.is_percussion());
}

#[test]
fn pitched_note_construction() {
    let note = MIDIPitchedNote::new(1_000_000, 500_000, 60, 100, 1);
    assert_eq!(note.start, 1_000_000);
    assert_eq!(note.raw.duration, 500_000);
    assert_eq!(note.raw.pitch, 60);
    assert_eq!(note.raw.velocity, 100);
    assert!(!note.raw.instrument.is_percussion());
    // A synthesized note rings five seconds past its nominal duration.
    assert_eq!(note.start(), 1_000_000);
    assert_eq!(note.end(), 1_000_000 + 500_000 + 5_000_000);
}

#[test]
fn percussion_note_construction() {
    let note = MIDIPercussionNote::new(0, 250_000, 90, 35);
    assert_eq!(note.raw.pitch, 35);
    assert!(note.raw.instrument.is_percussion());
    assert_eq!(note.end(), 250_000 + 5_000_000);
}

#[test]
fn nudge_moves_a_note_in_time() {
    let mut note = MIDIPitchedNote::new(0, 100_000, 60, 80, 1);
    note.nudge(250_000);
    assert_eq!(note.start, 250_000);
    note.nudge(-50_000);
    assert_eq!(note.start, 200_000);
}

#[test]
fn transpose_moves_the_pitch() {
    let mut note = MIDIPitchedNote::new(0, 100_000, 60, 80, 1);
    note.transpose(7);
    assert_eq!(note.raw.pitch, 67);
    note.transpose(-12);
    assert_eq!(note.raw.pitch, 55);
}

#[test]
fn sine_wave_window_and_descriptor() {
    let wave = SineWave { start: 100_000, duration: 400_000, frequency: 440_000, amplitude: 1000 };
    assert_eq!(wave.start(), 100_000);
    assert_eq!(wave.end(), 500_000);
    assert_eq!(wave.frequency(), 440_000);
    let descriptor = wave.to_descriptor();
    assert_eq!(descriptor, NoteDescriptor::Tone {
        frequency: 440_000,
        amplitude: 1000,
        duration: 400_000,
    });
}

#[test]
fn sine_wave_nudge() {
    let mut wave = SineWave { start: 0, duration: 400_000, frequency: 440_000, amplitude: 1000 };
    wave.nudge(123);
    assert_eq!(wave.start, 123);
    assert_eq!(wave.duration, 400_000);
}

#[test]
fn concert_pitch_is_the_reference() {
    assert_eq!(midi_pitch_to_frequency(69), 440_000);
}

#[test]
fn semitone_steps_in_millihertz() {
    assert_eq!(midi_pitch_to_frequency(70), 466_164);
    assert_eq!(midi_pitch_to_frequency(68), 415_305);
    assert_eq!(midi_pitch_to_frequency(81), 879_999);
    assert_eq!(midi_pitch_to_frequency(0), 8_176);
    assert_eq!(midi_pitch_to_frequency(127), 12_543_840);
}

#[test]
fn nearest_pitch_round_trip() {
    assert_eq!(frequency_to_nearest_midi_pitch(440_000), 69);
    assert_eq!(frequency_to_nearest_midi_pitch(452_000), 69);
    assert_eq!(frequency_to_nearest_midi_pitch(460_000), 70);
    assert_eq!(frequency_to_nearest_midi_pitch(1), 0);
    assert_eq!(frequency_to_nearest_midi_pitch(1_000_000_000), 127);
}

#[test]
fn dilate_stretches_about_the_origin() {
    let mut wave = SineWave { start: 100_000, duration: 200_000, frequency: 440_000, amplitude: 10 };
    wave.dilate(1, 2, 0);
    assert_eq!(wave.start, 50_000);
    assert_eq!(wave.duration, 100_000);
    let mut note = MIDIPitchedNote::new(100_000, 200_000, 60, 80, 1);
    note.dilate(2, 1, 100_000);
    assert_eq!(note.start, 100_000);
    assert_eq!(note.raw.duration, 400_000);
}

#[test]
fn pitch_shift_scales_the_frequency() {
    let mut wave = SineWave { start: 0, duration: 200_000, frequency: 440_000, amplitude: 10 };
    wave.pitch_shift(3, 2);
    assert_eq!(wave.frequency, 660_000);
}

#[test]
fn a_pitched_midi_note_reports_its_frequency() {
    let note = MIDIPitchedNote::new(0, 100_000, 69, 80, 1);
    assert_eq!(note.frequency(), 440_000);
}
