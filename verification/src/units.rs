//! Integer units used throughout the engine.
//!
//! Script time is measured in microseconds, device positions in frames
//! (sample instants at the device sample rate), and audio amplitudes as
//! fixed-point signed integers.  Conversions between script time and frame
//! positions round to the nearest frame, halves away from zero.

use vstd::prelude::*;

verus! {

/// A position on the audio device's clock, counted in frames.
pub type FrameTime = i64;

/// A script time or duration, counted in microseconds.
pub type Micros = i64;

/// A fixed-point audio sample value.
pub type Sample = i64;

pub const MICROS_PER_SECOND: i64 = 1_000_000;

/// Largest magnitude of a script time accepted by the engine, in
/// microseconds (about eleven days).
pub const MAX_SCRIPT_MICROS: i64 = 1_000_000_000_000;

/// Largest magnitude of a device frame position handled by the engine.
pub const MAX_FRAME_TIME: i64 = 1_000_000_000_000;

/// Largest device sample rate, in frames per second.
pub const MAX_SAMPLE_HZ: u32 = 1_000_000;

/// Bound on the magnitude of every sample of a rendered note.
pub const NOTE_SAMPLE_LIMIT: i64 = 4_294_967_296;

/// Bound on the number of notes the mixer keeps active at once; far beyond
/// musical use, it only serves to keep mixed sums inside a machine word.
pub const MAX_ACTIVE_NOTES: usize = 536_870_912;

/// Bound on a note's frame positions on the audio side.  Wider than the
/// device clock bound: a seek can schedule a note's first sample well
/// before or after the committed start frame.
pub const NOTE_TIME_LIMIT: i64 = 8_000_000_000_000;

/// Largest magnitude of a script-time offset that is converted to frames.
pub const MICROS_CONVERT_LIMIT: i64 = 4_000_000_000_000;

/// Bounds on the stall time the preparation thread keeps.  The lower one
/// covers a seek to the earliest accepted script time less the small lead
/// the committed start carries; the upper one caps how far the logical
/// clock can run past the end of any accepted script.
pub const STALL_MIN_MICROS: i64 = -2_000_000_000_000;

pub const STALL_MAX_MICROS: i64 = 20_000_000_000_000_000;

/// Division by a positive divisor, rounding half away from zero.
pub open spec fn round_div(a: int, d: int) -> int {
    if a >= 0 {
        (a + d / 2) / d
    } else {
        -((-a + d / 2) / d)
    }
}

/// Division by a positive divisor, rounding towards minus infinity.
pub open spec fn floor_div(a: int, d: int) -> int {
    if a >= 0 {
        a / d
    } else {
        -((-a + d - 1) / d)
    }
}

/// Division by a positive divisor, rounding towards plus infinity.
pub open spec fn ceil_div(a: int, d: int) -> int {
    if a >= 0 {
        (a + d - 1) / d
    } else {
        -((-a) / d)
    }
}

/// The frame position nearest to script time `t` on a device running at
/// `sample_hz` frames per second.
pub open spec fn spec_micros_to_frames(t: int, sample_hz: int) -> int {
    round_div(t * sample_hz, MICROS_PER_SECOND as int)
}

/// The script time nearest to a span of `f` frames at `sample_hz`.
pub open spec fn spec_frames_to_micros(f: int, sample_hz: int) -> int {
    round_div(f * (MICROS_PER_SECOND as int), sample_hz)
}

pub fn micros_to_frames(t: Micros, sample_hz: u32) -> (r: FrameTime)
    requires
        -MICROS_CONVERT_LIMIT <= t <= MICROS_CONVERT_LIMIT,
        1 <= sample_hz <= MAX_SAMPLE_HZ,
    ensures
        r == spec_micros_to_frames(t as int, sample_hz as int),
        -MICROS_CONVERT_LIMIT <= r <= MICROS_CONVERT_LIMIT,
{
    let hz = sample_hz as i64;
    if t >= 0 {
        assert(0 <= t as int * hz as int <= 4_000_000_000_000_000_000) by (nonlinear_arith)
            requires
                0 <= t as int <= 4_000_000_000_000,
                1 <= hz as int <= 1_000_000,
        ;
        proof {
            lemma_round_div_bound(t as int * hz as int, MICROS_PER_SECOND as int, MICROS_CONVERT_LIMIT as int);
        }
        let r = (t * hz + MICROS_PER_SECOND / 2) / MICROS_PER_SECOND;
        r
    } else {
        assert((-t) as int * hz as int == -(t as int * hz as int)) by (nonlinear_arith);
        assert(0 <= (-t) as int * hz as int <= 4_000_000_000_000_000_000) by (nonlinear_arith)
            requires
                0 <= (-t) as int <= 4_000_000_000_000,
                1 <= hz as int <= 1_000_000,
        ;
        proof {
            lemma_round_div_bound((-t) as int * hz as int, MICROS_PER_SECOND as int, MICROS_CONVERT_LIMIT as int);
        }
        let r = ((-t) * hz + MICROS_PER_SECOND / 2) / MICROS_PER_SECOND;
        -r
    }
}

/// The script time spanned by `f` frames at `sample_hz`, to the nearest
/// microsecond.
pub fn frames_to_micros(f: FrameTime, sample_hz: u32) -> (r: Micros)
    requires
        -2 * MAX_FRAME_TIME <= f <= 2 * MAX_FRAME_TIME,
        1 <= sample_hz <= MAX_SAMPLE_HZ,
    ensures
        r == spec_frames_to_micros(f as int, sample_hz as int),
        -2 * MAX_FRAME_TIME * MICROS_PER_SECOND <= r <= 2 * MAX_FRAME_TIME * MICROS_PER_SECOND,
{
    let hz = sample_hz as i64;
    if f >= 0 {
        assert(f as int * MICROS_PER_SECOND as int <= 2 * MAX_FRAME_TIME as int * MICROS_PER_SECOND as int * hz as int)
            by (nonlinear_arith)
            requires
                0 <= f as int <= 2 * MAX_FRAME_TIME as int,
                1 <= hz as int,
        ;
        proof {
            lemma_round_div_bound(f as int * MICROS_PER_SECOND as int, hz as int,
                2 * MAX_FRAME_TIME as int * MICROS_PER_SECOND as int);
        }
        let r = (f * MICROS_PER_SECOND + hz / 2) / hz;
        r
    } else {
        assert((-f) as int * MICROS_PER_SECOND as int == -(f as int * MICROS_PER_SECOND as int))
            by (nonlinear_arith);
        assert((-f) as int * MICROS_PER_SECOND as int <= 2 * MAX_FRAME_TIME as int * MICROS_PER_SECOND as int * hz as int)
            by (nonlinear_arith)
            requires
                0 <= (-f) as int <= 2 * MAX_FRAME_TIME as int,
                1 <= hz as int,
        ;
        proof {
            lemma_round_div_bound((-f) as int * MICROS_PER_SECOND as int, hz as int,
                2 * MAX_FRAME_TIME as int * MICROS_PER_SECOND as int);
        }
        let r = ((-f) * MICROS_PER_SECOND + hz / 2) / hz;
        -r
    }
}

/// Bound on the magnitude a mixed buffer value may reach: enough headroom
/// for the largest active-note count at full amplitude.
pub const MIX_VALUE_LIMIT: i64 = 4_611_686_018_427_387_904;

/// The first frame at or after script time `t` at `sample_hz`.
pub open spec fn spec_micros_to_frames_ceil(t: int, sample_hz: int) -> int {
    ceil_div(t * sample_hz, MICROS_PER_SECOND as int)
}

/// The last frame at or before script time `t` at `sample_hz`.
pub open spec fn spec_micros_to_frames_floor(t: int, sample_hz: int) -> int {
    floor_div(t * sample_hz, MICROS_PER_SECOND as int)
}

/// For a numerator between 0 and `b * d`, ceiling division by `d` yields
/// a quotient between 0 and `b`, and floor division likewise.
pub proof fn lemma_ceil_floor_div_bound(a: int, d: int, b: int)
    requires
        0 <= a,
        a <= b * d,
        1 <= d,
        0 <= b,
    ensures
        0 <= (a + d - 1) / d <= b,
        0 <= a / d <= b,
{
    assert(0 <= (a + d - 1) / d) by {
        vstd::arithmetic::div_mod::lemma_div_pos_is_pos(a + d - 1, d);
    }
    assert(0 <= a / d) by {
        vstd::arithmetic::div_mod::lemma_div_pos_is_pos(a, d);
    }
    assert((b * d + d - 1) / d == b) by {
        vstd::arithmetic::div_mod::lemma_fundamental_div_mod_converse_div(
            b * d + d - 1, d, b, d - 1);
    }
    assert((a + d - 1) / d <= (b * d + d - 1) / d) by {
        vstd::arithmetic::div_mod::lemma_div_is_ordered(a + d - 1, b * d + d - 1, d);
    }
    assert(a / d <= (b * d + d - 1) / d) by {
        vstd::arithmetic::div_mod::lemma_div_is_ordered(a, b * d + d - 1, d);
    }
}

pub fn micros_to_frames_ceil(t: Micros, sample_hz: u32) -> (r: FrameTime)
    requires
        -MICROS_CONVERT_LIMIT <= t <= MICROS_CONVERT_LIMIT,
        1 <= sample_hz <= MAX_SAMPLE_HZ,
    ensures
        r == spec_micros_to_frames_ceil(t as int, sample_hz as int),
        -MICROS_CONVERT_LIMIT <= r <= MICROS_CONVERT_LIMIT,
{
    let hz = sample_hz as i64;
    if t >= 0 {
        assert(0 <= t as int * hz as int <= 4_000_000_000_000_000_000) by (nonlinear_arith)
            requires
                0 <= t as int <= 4_000_000_000_000,
                1 <= hz as int <= 1_000_000,
        ;
        proof {
            lemma_ceil_floor_div_bound(t as int * hz as int, MICROS_PER_SECOND as int,
                MICROS_CONVERT_LIMIT as int);
        }
        (t * hz + MICROS_PER_SECOND - 1) / MICROS_PER_SECOND
    } else {
        assert((-t) as int * hz as int == -(t as int * hz as int)) by (nonlinear_arith);
        assert(0 <= (-t) as int * hz as int <= 4_000_000_000_000_000_000) by (nonlinear_arith)
            requires
                0 <= (-t) as int <= 4_000_000_000_000,
                1 <= hz as int <= 1_000_000,
        ;
        proof {
            lemma_ceil_floor_div_bound((-t) as int * hz as int, MICROS_PER_SECOND as int,
                MICROS_CONVERT_LIMIT as int);
        }
        -(((-t) * hz) / MICROS_PER_SECOND)
    }
}

pub fn micros_to_frames_floor(t: Micros, sample_hz: u32) -> (r: FrameTime)
    requires
        -MICROS_CONVERT_LIMIT <= t <= MICROS_CONVERT_LIMIT,
        1 <= sample_hz <= MAX_SAMPLE_HZ,
    ensures
        r == spec_micros_to_frames_floor(t as int, sample_hz as int),
        -MICROS_CONVERT_LIMIT <= r <= MICROS_CONVERT_LIMIT,
{
    let hz = sample_hz as i64;
    if t >= 0 {
        assert(0 <= t as int * hz as int <= 4_000_000_000_000_000_000) by (nonlinear_arith)
            requires
                0 <= t as int <= 4_000_000_000_000,
                1 <= hz as int <= 1_000_000,
        ;
        proof {
            lemma_ceil_floor_div_bound(t as int * hz as int, MICROS_PER_SECOND as int,
                MICROS_CONVERT_LIMIT as int);
        }
        (t * hz) / MICROS_PER_SECOND
    } else {
        assert((-t) as int * hz as int == -(t as int * hz as int)) by (nonlinear_arith);
        assert(0 <= (-t) as int * hz as int <= 4_000_000_000_000_000_000) by (nonlinear_arith)
            requires
                0 <= (-t) as int <= 4_000_000_000_000,
                1 <= hz as int <= 1_000_000,
        ;
        proof {
            lemma_ceil_floor_div_bound((-t) as int * hz as int, MICROS_PER_SECOND as int,
                MICROS_CONVERT_LIMIT as int);
        }
        -(((-t) * hz + MICROS_PER_SECOND - 1) / MICROS_PER_SECOND)
    }
}

/// Multiplies a bounded value by the fraction `num / den`, rounding to
/// the nearest integer, halves away from zero.
pub fn scale_by_ratio(a: i64, num: i64, den: i64) -> (r: i64)
    requires
        -2_000_000_000_000 <= a <= 2_000_000_000_000,
        0 <= num <= 1_000_000,
        1 <= den <= 1_000_000,
    ensures
        r == round_div(a * num, den as int),
        -2_000_000_000_000_000_000 <= r <= 2_000_000_000_000_000_000,
{
    if a >= 0 {
        assert(0 <= a as int * num as int <= 2_000_000_000_000_000_000) by (nonlinear_arith)
            requires
                0 <= a as int <= 2_000_000_000_000,
                0 <= num as int <= 1_000_000,
        ;
        assert(a as int * num as int <= 2_000_000_000_000_000_000 * den as int) by (nonlinear_arith)
            requires
                0 <= a as int * num as int <= 2_000_000_000_000_000_000,
                1 <= den as int,
        ;
        proof {
            lemma_round_div_bound(a as int * num as int, den as int, 2_000_000_000_000_000_000);
        }
        (a * num + den / 2) / den
    } else {
        assert((-a) as int * num as int == -(a as int * num as int)) by (nonlinear_arith);
        assert(0 <= (-a) as int * num as int <= 2_000_000_000_000_000_000) by (nonlinear_arith)
            requires
                0 <= (-a) as int <= 2_000_000_000_000,
                0 <= num as int <= 1_000_000,
        ;
        assert((-a) as int * num as int <= 2_000_000_000_000_000_000 * den as int) by (nonlinear_arith)
            requires
                0 <= (-a) as int * num as int <= 2_000_000_000_000_000_000,
                1 <= den as int,
        ;
        proof {
            lemma_round_div_bound((-a) as int * num as int, den as int, 2_000_000_000_000_000_000);
            vstd::arithmetic::div_mod::lemma_basic_div(den as int / 2, den as int);
        }
        -(((-a) * num + den / 2) / den)
    }
}

/// Length of the fade applied when playback starts in the middle of a note.
pub const FADEIN_MICROS: i64 = 10_000;

/// Length of the fade applied when playback stops while notes are sounding.
/// Longer than the fade-in: truncating a waveform away from a zero crossing
/// clicks audibly unless smoothed over a longer span.
pub const FADEOUT_MICROS: i64 = 250_000;

/// Parameters of one playback engine instance: the device sample rate and
/// the number of frames the device consumes per callback.
#[derive(Clone, Copy, PartialEq, Eq, Structural, Debug)]
pub struct EngineConfig {
    pub sample_hz: u32,
    pub frames_per_buffer: u32,
}

impl EngineConfig {
    pub open spec fn wf(self) -> bool {
        &&& 100 <= self.sample_hz <= MAX_SAMPLE_HZ
        &&& 1 <= self.frames_per_buffer <= 1_000_000
    }

    pub open spec fn spec_fadein_frames(self) -> int {
        spec_micros_to_frames(FADEIN_MICROS as int, self.sample_hz as int)
    }

    pub open spec fn spec_fadeout_frames(self) -> int {
        spec_micros_to_frames(FADEOUT_MICROS as int, self.sample_hz as int)
    }

    /// Frames over which a fade-in ramps from silence to full amplitude.
    pub fn fadein_frames(&self) -> (r: i64)
        requires
            self.wf(),
        ensures
            r == self.spec_fadein_frames(),
            1 <= r <= 10_000,
    {
        proof {
            lemma_round_div_bound(FADEIN_MICROS as int * self.sample_hz as int,
                MICROS_PER_SECOND as int, 10_000);
            vstd::arithmetic::div_mod::lemma_div_is_ordered(
                1_500_000,
                FADEIN_MICROS as int * self.sample_hz as int + 500_000,
                MICROS_PER_SECOND as int);
        }
        (FADEIN_MICROS * (self.sample_hz as i64) + MICROS_PER_SECOND / 2) / MICROS_PER_SECOND
    }

    /// Frames over which a fade-out ramps from full amplitude to silence.
    pub fn fadeout_frames(&self) -> (r: i64)
        requires
            self.wf(),
        ensures
            r == self.spec_fadeout_frames(),
            1 <= r <= 250_000,
    {
        proof {
            lemma_round_div_bound(FADEOUT_MICROS as int * self.sample_hz as int,
                MICROS_PER_SECOND as int, 250_000);
            vstd::arithmetic::div_mod::lemma_div_is_ordered(
                25_500_000,
                FADEOUT_MICROS as int * self.sample_hz as int + 500_000,
                MICROS_PER_SECOND as int);
        }
        (FADEOUT_MICROS * (self.sample_hz as i64) + MICROS_PER_SECOND / 2) / MICROS_PER_SECOND
    }
}

/// For a numerator between 0 and `b * d`, half-up rounding division by `d`
/// yields a quotient between 0 and `b`.
pub proof fn lemma_round_div_bound(a: int, d: int, b: int)
    requires
        0 <= a,
        a <= b * d,
        1 <= d,
        0 <= b,
    ensures
        0 <= (a + d / 2) / d <= b,
{
    assert(0 <= (a + d / 2) / d) by {
        vstd::arithmetic::div_mod::lemma_div_pos_is_pos(a + d / 2, d);
    }
    assert((b * d + d / 2) / d == b) by {
        vstd::arithmetic::div_mod::lemma_fundamental_div_mod_converse_div(
            b * d + d / 2, d, b, d / 2);
    }
    assert((a + d / 2) / d <= (b * d + d / 2) / d) by {
        vstd::arithmetic::div_mod::lemma_div_is_ordered(a + d / 2, b * d + d / 2, d);
    }
}

} // verus!
