//! Note content: instruments, descriptors and the windowed-entity traits.
//!
//! A descriptor addresses a note's sound independently of when it plays;
//! two equal descriptors always render to identical frames, which is what
//! makes the render cache sound.  Frequencies are kept in millihertz.

use vstd::prelude::*;
use core::marker::PhantomData;
use crate::units::{Micros, Sample, MAX_SCRIPT_MICROS, round_div, scale_by_ratio};

verus! {

pub type Semitones = i32;

/// The MIDI channel reserved for percussion.
pub const PERCUSSION_CHANNEL: i32 = 9;

/// How long a synthesized note may keep sounding past its nominal
/// duration (release tail), in microseconds.
pub const SYNTH_RELEASE_MICROS: i64 = 5_000_000;

/// An instrument choice the synthesis backend can render directly.
#[derive(Clone, Copy, PartialEq, Eq, Hash, Debug, Structural)]
pub struct FluidsynthDirectlyRenderableMIDIInstrument {
    pub channel: i32,
    pub bank: u32,
    pub preset: u32,
}

impl FluidsynthDirectlyRenderableMIDIInstrument {
    /// A melodic instrument.  General MIDI numbers programs from one,
    /// the stored preset from zero.
    pub fn pitched(program: u32) -> (r: Self)
        requires
            1 <= program,
        ensures
            r == (FluidsynthDirectlyRenderableMIDIInstrument {
                channel: 0,
                bank: 0,
                preset: (program - 1) as u32,
            }),
    {
        FluidsynthDirectlyRenderableMIDIInstrument { bank: 0, preset: program - 1, channel: 0 }
    }

    pub fn percussion() -> (r: Self)
        ensures
            r == (FluidsynthDirectlyRenderableMIDIInstrument {
                channel: PERCUSSION_CHANNEL,
                bank: 0,
                preset: 0,
            }),
    {
        FluidsynthDirectlyRenderableMIDIInstrument { bank: 0, preset: 0, channel: PERCUSSION_CHANNEL }
    }

    pub fn is_percussion(&self) -> (r: bool)
        ensures
            r == (self.channel == PERCUSSION_CHANNEL),
    {
        self.channel == PERCUSSION_CHANNEL
    }
}

/// The content of one synthesized note: the render cache's key for
/// MIDI-style notes.
#[derive(Clone, Copy, PartialEq, Eq, Hash, Debug, Structural)]
pub struct FluidsynthDirectlyRenderableMIDINote {
    pub duration: Micros,
    pub pitch: i32,
    pub velocity: i32,
    pub instrument: FluidsynthDirectlyRenderableMIDIInstrument,
}

/// The content of one note, independent of when it plays.  Equal
/// descriptors always render to identical frames.
#[derive(Clone, Copy, PartialEq, Eq, Hash, Debug, Structural)]
pub enum NoteDescriptor {
    /// A plain tone: frequency in millihertz, peak amplitude in sample
    /// units, duration in microseconds.
    Tone { frequency: i64, amplitude: Sample, duration: Micros },
    /// A note for the synthesis backend.
    Midi(FluidsynthDirectlyRenderableMIDINote),
}

/// Marker for the melodic flavour of `MIDINote`.
#[derive(Clone, Copy, Debug)]
pub struct MIDIPitched;

/// Marker for the percussive flavour of `MIDINote`.
#[derive(Clone, Copy, Debug)]
pub struct MIDIPercussion;

/// A positioned MIDI-style note.
#[derive(Debug)]
pub struct MIDINote<PitchedOrPercussion> {
    pub start: Micros,
    pub raw: FluidsynthDirectlyRenderableMIDINote,
    pub marker: PhantomData<PitchedOrPercussion>,
}

pub type MIDIPitchedNote = MIDINote<MIDIPitched>;

pub type MIDIPercussionNote = MIDINote<MIDIPercussion>;

impl MIDINote<MIDIPitched> {
    pub fn new(start: Micros, duration: Micros, pitch: i32, velocity: i32, instrument: u32) -> (r: Self)
        requires
            1 <= instrument,
        ensures
            r.start == start,
            r.raw.duration == duration,
            r.raw.pitch == pitch,
            r.raw.velocity == velocity,
            r.raw.instrument == FluidsynthDirectlyRenderableMIDIInstrument::pitched_spec(instrument as int),
    {
        MIDINote {
            start,
            raw: FluidsynthDirectlyRenderableMIDINote {
                duration,
                pitch,
                velocity,
                instrument: FluidsynthDirectlyRenderableMIDIInstrument::pitched(instrument),
            },
            marker: PhantomData,
        }
    }
}

impl MIDINote<MIDIPercussion> {
    pub fn new(start: Micros, duration: Micros, velocity: i32, instrument: i32) -> (r: Self)
        ensures
            r.start == start,
            r.raw.duration == duration,
            r.raw.pitch == instrument,
            r.raw.velocity == velocity,
            r.raw.instrument == (FluidsynthDirectlyRenderableMIDIInstrument {
                channel: PERCUSSION_CHANNEL,
                bank: 0,
                preset: 0,
            }),
    {
        MIDINote {
            start,
            raw: FluidsynthDirectlyRenderableMIDINote {
                duration,
                pitch: instrument,
                velocity,
                instrument: FluidsynthDirectlyRenderableMIDIInstrument::percussion(),
            },
            marker: PhantomData,
        }
    }
}

impl FluidsynthDirectlyRenderableMIDIInstrument {
    /// The value `pitched` constructs, for use in contracts.
    pub open spec fn pitched_spec(program: int) -> Self {
        FluidsynthDirectlyRenderableMIDIInstrument {
            channel: 0,
            bank: 0,
            preset: (program - 1) as u32,
        }
    }
}

/// Numerator and denominator of the equal-tempered semitone ratio, as
/// the rest of the project fixes it.
pub const SEMITONE_RATIO_NUM: i64 = 10_594_631;

pub const SEMITONE_RATIO_DEN: i64 = 10_000_000;

/// Cap keeping the frequency ladder inside fixed-point range; far above
/// any frequency a MIDI pitch reaches.
pub const FREQUENCY_LIMIT_MILLIHZ: i64 = 100_000_000;

pub open spec fn clamp_frequency(f: int) -> int {
    vstd::math::min(vstd::math::max(f, 1), FREQUENCY_LIMIT_MILLIHZ as int)
}

/// The frequency of a MIDI pitch in millihertz: 440 Hz at pitch 69, one
/// semitone ratio per step up or down, each step rounded to the nearest
/// millihertz and clamped into fixed-point range (the clamp never binds
/// on the MIDI range itself).
pub open spec fn spec_midi_pitch_frequency(pitch: int) -> int
    decreases vstd::math::abs(pitch - 69),
{
    if pitch == 69 {
        440_000
    } else if pitch > 69 {
        clamp_frequency(round_div(
            spec_midi_pitch_frequency(pitch - 1) * SEMITONE_RATIO_NUM, SEMITONE_RATIO_DEN as int))
    } else {
        clamp_frequency(round_div(
            spec_midi_pitch_frequency(pitch + 1) * SEMITONE_RATIO_DEN, SEMITONE_RATIO_NUM as int))
    }
}

pub fn midi_pitch_to_frequency(pitch: i32) -> (r: i64)
    requires
        -1_000 <= pitch <= 1_000,
    ensures
        r == spec_midi_pitch_frequency(pitch as int),
        1 <= r <= FREQUENCY_LIMIT_MILLIHZ,
{
    let mut f: i64 = 440_000;
    if pitch >= 69 {
        let mut p: i32 = 69;
        while p < pitch
            invariant
                69 <= p <= if pitch >= 69 { pitch } else { 69 },
                pitch <= 1_000,
                f == spec_midi_pitch_frequency(p as int),
                1 <= f <= FREQUENCY_LIMIT_MILLIHZ,
            decreases pitch - p,
        {
            assert(0 <= f as int * SEMITONE_RATIO_NUM as int <= 1_100_000_000_000_000) by (nonlinear_arith)
                requires 0 <= f as int <= 100_000_000;
            proof {
                crate::units::lemma_round_div_bound(f as int * SEMITONE_RATIO_NUM as int,
                    SEMITONE_RATIO_DEN as int, 110_000_000);
            }
            let stepped = (f * SEMITONE_RATIO_NUM + SEMITONE_RATIO_DEN / 2) / SEMITONE_RATIO_DEN;
            f = if stepped < 1 {
                1
            } else if stepped > FREQUENCY_LIMIT_MILLIHZ {
                FREQUENCY_LIMIT_MILLIHZ
            } else {
                stepped
            };
            p += 1;
        }
    } else {
        let mut p: i32 = 69;
        while p > pitch
            invariant
                (if pitch < 69 { pitch } else { 69 }) <= p <= 69,
                pitch >= -1_000,
                f == spec_midi_pitch_frequency(p as int),
                1 <= f <= FREQUENCY_LIMIT_MILLIHZ,
            decreases p - pitch,
        {
            assert(0 <= f as int * SEMITONE_RATIO_DEN as int <= 1_000_000_000_000_000) by (nonlinear_arith)
                requires 0 <= f as int <= 100_000_000;
            proof {
                crate::units::lemma_round_div_bound(f as int * SEMITONE_RATIO_DEN as int,
                    SEMITONE_RATIO_NUM as int, 100_000_000);
            }
            let stepped = (f * SEMITONE_RATIO_DEN + SEMITONE_RATIO_NUM / 2) / SEMITONE_RATIO_NUM;
            f = if stepped < 1 {
                1
            } else if stepped > FREQUENCY_LIMIT_MILLIHZ {
                FREQUENCY_LIMIT_MILLIHZ
            } else {
                stepped
            };
            p -= 1;
        }
    }
    f
}

/// The first pitch from `p` up whose rung the frequency does not clear:
/// the pitch nearest to `f` on the logarithmic scale, found by comparing
/// the square of `f` with the product of neighbouring rung frequencies
/// (their geometric mean marks the halfway point between two pitches).
pub open spec fn spec_nearest_pitch_from(f: int, p: int) -> int
    decreases 127 - p,
{
    if p >= 127 {
        127
    } else if f * f < spec_midi_pitch_frequency(p) * spec_midi_pitch_frequency(p + 1) {
        p
    } else {
        spec_nearest_pitch_from(f, p + 1)
    }
}

#[verifier::loop_isolation(false)]
pub fn frequency_to_nearest_midi_pitch(frequency: i64) -> (r: i32)
    requires
        1 <= frequency <= 1_000_000_000,
    ensures
        r == spec_nearest_pitch_from(frequency as int, 0),
        0 <= r <= 127,
{
    let mut p: i32 = 0;
    while p < 127
        invariant
            0 <= p <= 127,
            spec_nearest_pitch_from(frequency as int, 0)
                == spec_nearest_pitch_from(frequency as int, p as int),
        decreases 127 - p,
    {
        let here = midi_pitch_to_frequency(p);
        let next = midi_pitch_to_frequency(p + 1);
        assert(0 <= frequency as int * frequency as int <= 1_000_000_000_000_000_000)
            by (nonlinear_arith)
            requires 1 <= frequency as int <= 1_000_000_000;
        assert(0 <= here as int * next as int <= 10_000_000_000_000_000) by (nonlinear_arith)
            requires 1 <= here as int <= 100_000_000, 1 <= next as int <= 100_000_000;
        if frequency * frequency < here * next {
            return p;
        }
        p += 1;
    }
    127
}

/// Any renderable entity occupies a half-open window of script time.
pub trait Windowed {
    spec fn windowed_wf(&self) -> bool;

    spec fn spec_start(&self) -> int;

    spec fn spec_end(&self) -> int;

    /// The first instant at which the entity sounds.
    fn start(&self) -> (r: Micros)
        requires
            self.windowed_wf(),
        ensures
            r == self.spec_start(),
    ;

    /// The first instant after which the entity is silent.
    fn end(&self) -> (r: Micros)
        requires
            self.windowed_wf(),
        ensures
            r == self.spec_end(),
    ;
}

/// An entity that can be moved in time.
pub trait Nudgable: Sized {
    spec fn nudge_ok(&self, distance: int) -> bool;

    spec fn spec_nudged(&self, distance: int) -> Self;

    fn nudge(&mut self, distance: Micros)
        requires
            old(self).nudge_ok(distance as int),
        ensures
            *final(self) == old(self).spec_nudged(distance as int),
    ;
}

/// An entity with a definite fundamental frequency, in millihertz.
pub trait Pitched {
    spec fn pitched_wf(&self) -> bool;

    spec fn spec_frequency(&self) -> int;

    fn frequency(&self) -> (r: i64)
        requires
            self.pitched_wf(),
        ensures
            r == self.spec_frequency(),
    ;
}

/// An entity that can be stretched in time about an origin by a
/// rational factor.
pub trait Dilatable: Sized {
    spec fn dilate_ok(&self, num: int, den: int, origin: int) -> bool;

    spec fn spec_dilated(&self, num: int, den: int, origin: int) -> Self;

    fn dilate(&mut self, amount_num: i64, amount_den: i64, origin: Micros)
        requires
            old(self).dilate_ok(amount_num as int, amount_den as int, origin as int),
        ensures
            *final(self) == old(self).spec_dilated(
                amount_num as int, amount_den as int, origin as int),
    ;
}

/// An entity whose pitch can be scaled by a rational frequency ratio.
pub trait PitchShiftable: Sized {
    spec fn pitch_shift_ok(&self, num: int, den: int) -> bool;

    spec fn spec_pitch_shifted(&self, num: int, den: int) -> Self;

    fn pitch_shift(&mut self, ratio_num: i64, ratio_den: i64)
        requires
            old(self).pitch_shift_ok(ratio_num as int, ratio_den as int),
        ensures
            *final(self) == old(self).spec_pitch_shifted(ratio_num as int, ratio_den as int),
    ;
}

/// An entity that can be moved by a whole number of semitones.
pub trait Transposable: Sized {
    spec fn transpose_ok(&self, amount: int) -> bool;

    spec fn spec_transposed(&self, amount: int) -> Self;

    fn transpose(&mut self, amount: Semitones)
        requires
            old(self).transpose_ok(amount as int),
        ensures
            *final(self) == old(self).spec_transposed(amount as int),
    ;
}

impl Windowed for MIDINote<MIDIPitched> {
    open spec fn windowed_wf(&self) -> bool {
        &&& -MAX_SCRIPT_MICROS <= self.start <= MAX_SCRIPT_MICROS
        &&& 0 <= self.raw.duration <= MAX_SCRIPT_MICROS
    }

    open spec fn spec_start(&self) -> int {
        self.start as int
    }

    /// A synthesized note rings past its nominal duration while the
    /// backend's release tail decays.
    open spec fn spec_end(&self) -> int {
        self.start + self.raw.duration + SYNTH_RELEASE_MICROS
    }

    fn start(&self) -> (r: Micros) {
        self.start
    }

    fn end(&self) -> (r: Micros) {
        self.start + self.raw.duration + SYNTH_RELEASE_MICROS
    }
}

impl Windowed for MIDINote<MIDIPercussion> {
    open spec fn windowed_wf(&self) -> bool {
        &&& -MAX_SCRIPT_MICROS <= self.start <= MAX_SCRIPT_MICROS
        &&& 0 <= self.raw.duration <= MAX_SCRIPT_MICROS
    }

    open spec fn spec_start(&self) -> int {
        self.start as int
    }

    open spec fn spec_end(&self) -> int {
        self.start + self.raw.duration + SYNTH_RELEASE_MICROS
    }

    fn start(&self) -> (r: Micros) {
        self.start
    }

    fn end(&self) -> (r: Micros) {
        self.start + self.raw.duration + SYNTH_RELEASE_MICROS
    }
}

impl<PitchedOrPercussion> Nudgable for MIDINote<PitchedOrPercussion> {
    open spec fn nudge_ok(&self, distance: int) -> bool {
        i64::MIN <= self.start + distance <= i64::MAX
    }

    open spec fn spec_nudged(&self, distance: int) -> Self {
        MIDINote { start: (self.start + distance) as i64, ..*self }
    }

    fn nudge(&mut self, distance: Micros) {
        self.start = self.start + distance;
    }
}

impl Transposable for MIDINote<MIDIPitched> {
    open spec fn transpose_ok(&self, amount: int) -> bool {
        i32::MIN <= self.raw.pitch + amount <= i32::MAX
    }

    open spec fn spec_transposed(&self, amount: int) -> Self {
        MIDINote {
            raw: FluidsynthDirectlyRenderableMIDINote {
                pitch: (self.raw.pitch + amount) as i32,
                ..self.raw
            },
            ..*self
        }
    }

    fn transpose(&mut self, amount: Semitones) {
        self.raw.pitch = self.raw.pitch + amount;
    }
}

/// A plain tone with an attack/release envelope, computed directly
/// rather than through the synthesis backend.
#[derive(Clone, Copy, Debug)]
pub struct SineWave {
    pub start: Micros,
    pub duration: Micros,
    /// Frequency in millihertz.
    pub frequency: i64,
    /// Peak amplitude in sample units.
    pub amplitude: Sample,
}

impl SineWave {
    pub open spec fn descriptor(self) -> NoteDescriptor {
        NoteDescriptor::Tone {
            frequency: self.frequency,
            amplitude: self.amplitude,
            duration: self.duration,
        }
    }

    /// The content of this tone, independent of its position.
    pub fn to_descriptor(&self) -> (r: NoteDescriptor)
        ensures
            r == self.descriptor(),
    {
        NoteDescriptor::Tone {
            frequency: self.frequency,
            amplitude: self.amplitude,
            duration: self.duration,
        }
    }
}

impl Windowed for SineWave {
    open spec fn windowed_wf(&self) -> bool {
        &&& -MAX_SCRIPT_MICROS <= self.start <= MAX_SCRIPT_MICROS
        &&& 0 <= self.duration <= MAX_SCRIPT_MICROS
    }

    open spec fn spec_start(&self) -> int {
        self.start as int
    }

    open spec fn spec_end(&self) -> int {
        self.start + self.duration
    }

    fn start(&self) -> (r: Micros) {
        self.start
    }

    fn end(&self) -> (r: Micros) {
        self.start + self.duration
    }
}

impl Nudgable for SineWave {
    open spec fn nudge_ok(&self, distance: int) -> bool {
        i64::MIN <= self.start + distance <= i64::MAX
    }

    open spec fn spec_nudged(&self, distance: int) -> Self {
        SineWave { start: (self.start + distance) as i64, ..*self }
    }

    fn nudge(&mut self, distance: Micros) {
        self.start = self.start + distance;
    }
}

impl Pitched for SineWave {
    open spec fn pitched_wf(&self) -> bool {
        true
    }

    open spec fn spec_frequency(&self) -> int {
        self.frequency as int
    }

    fn frequency(&self) -> (r: i64) {
        self.frequency
    }
}

impl Pitched for MIDINote<MIDIPitched> {
    open spec fn pitched_wf(&self) -> bool {
        -1_000 <= self.raw.pitch <= 1_000
    }

    open spec fn spec_frequency(&self) -> int {
        spec_midi_pitch_frequency(self.raw.pitch as int)
    }

    fn frequency(&self) -> (r: i64) {
        midi_pitch_to_frequency(self.raw.pitch)
    }
}

impl Dilatable for SineWave {
    open spec fn dilate_ok(&self, num: int, den: int, origin: int) -> bool {
        &&& -MAX_SCRIPT_MICROS <= self.start <= MAX_SCRIPT_MICROS
        &&& 0 <= self.duration <= MAX_SCRIPT_MICROS
        &&& -MAX_SCRIPT_MICROS <= origin <= MAX_SCRIPT_MICROS
        &&& 0 <= num <= 1_000_000
        &&& 1 <= den <= 1_000_000
    }

    open spec fn spec_dilated(&self, num: int, den: int, origin: int) -> Self {
        SineWave {
            start: (origin + round_div((self.start - origin) * num, den)) as i64,
            duration: round_div(self.duration * num, den) as i64,
            ..*self
        }
    }

    fn dilate(&mut self, amount_num: i64, amount_den: i64, origin: Micros) {
        let shifted = scale_by_ratio(self.start - origin, amount_num, amount_den);
        self.start = origin + shifted;
        self.duration = scale_by_ratio(self.duration, amount_num, amount_den);
    }
}

impl PitchShiftable for SineWave {
    open spec fn pitch_shift_ok(&self, num: int, den: int) -> bool {
        &&& 0 <= self.frequency <= 2_000_000_000_000
        &&& 0 <= num <= 1_000_000
        &&& 1 <= den <= 1_000_000
    }

    open spec fn spec_pitch_shifted(&self, num: int, den: int) -> Self {
        SineWave { frequency: round_div(self.frequency * num, den) as i64, ..*self }
    }

    fn pitch_shift(&mut self, ratio_num: i64, ratio_den: i64) {
        self.frequency = scale_by_ratio(self.frequency, ratio_num, ratio_den);
    }
}

impl<PitchedOrPercussion> Dilatable for MIDINote<PitchedOrPercussion> {
    open spec fn dilate_ok(&self, num: int, den: int, origin: int) -> bool {
        &&& -MAX_SCRIPT_MICROS <= self.start <= MAX_SCRIPT_MICROS
        &&& 0 <= self.raw.duration <= MAX_SCRIPT_MICROS
        &&& -MAX_SCRIPT_MICROS <= origin <= MAX_SCRIPT_MICROS
        &&& 0 <= num <= 1_000_000
        &&& 1 <= den <= 1_000_000
    }

    open spec fn spec_dilated(&self, num: int, den: int, origin: int) -> Self {
        MIDINote {
            start: (origin + round_div((self.start - origin) * num, den)) as i64,
            raw: FluidsynthDirectlyRenderableMIDINote {
                duration: round_div(self.raw.duration * num, den) as i64,
                ..self.raw
            },
            ..*self
        }
    }

    fn dilate(&mut self, amount_num: i64, amount_den: i64, origin: Micros) {
        let shifted = scale_by_ratio(self.start - origin, amount_num, amount_den);
        self.start = origin + shifted;
        self.raw.duration = scale_by_ratio(self.raw.duration, amount_num, amount_den);
    }
}

} // verus!
