//! Support for the synthesis step of the preparation thread.
//!
//! The waveforms themselves come from outside this crate: a tone's raw
//! oscillator samples and the backend's synthesized chunks are handed in
//! as plain values.  What lives here is the logic around them — the
//! attack/release envelope that keeps a plain tone from clicking at its
//! own boundaries, and the decisions of the capture loop that records a
//! synthesized note until its release tail has decayed to silence.

use vstd::prelude::*;
use crate::units::{Sample, MAX_SAMPLE_HZ, MAX_FRAME_TIME, NOTE_SAMPLE_LIMIT};
use crate::mixer::{spec_scale_sample, scale_sample};

verus! {

/// Magnitude below which a sample counts as silence when looking for the
/// end of a synthesized note's release tail: one millionth of the
/// nominal full scale.
pub const SILENCE_THRESHOLD: i64 = 4_295;

/// How many times the capture of one note may be extended while waiting
/// for silence before the backend is declared stuck on that note.
pub const MAX_RENDER_EXTENSIONS: u32 = 900;

/// The length of a tone's attack and release ramps, in frames: a
/// twentieth of the tone (of one second, for longer tones), and at
/// least one frame so the ramp is well defined.
pub open spec fn spec_envelope_frames(len: int, sample_hz: int) -> int {
    let base = if len < sample_hz { len } else { sample_hz };
    let e = base * 5 / 100;
    if e < 1 { 1 } else { e }
}

/// Numerator of the envelope factor at frame `i` of a tone of `len`
/// frames, over the denominator `spec_envelope_frames(len, hz)`: ramping
/// up over the attack, down over the release, full in between.
pub open spec fn spec_envelope_num(len: int, sample_hz: int, i: int) -> int {
    let e = spec_envelope_frames(len, sample_hz);
    if i < e {
        i
    } else if i > len - e {
        len - i
    } else {
        e
    }
}

/// The enveloped tone: each raw oscillator sample scaled by the
/// attack/release factor at its frame.
pub open spec fn spec_enveloped(raw: Seq<Sample>, sample_hz: int, i: int) -> int {
    spec_scale_sample(raw[i] as int, spec_envelope_num(raw.len() as int, sample_hz, i),
        spec_envelope_frames(raw.len() as int, sample_hz))
}

/// The envelope factor is a fraction in [0, 1] at every frame of the
/// tone.
pub proof fn lemma_envelope_bounds(len: int, sample_hz: int, i: int)
    requires
        0 <= i < len,
        1 <= sample_hz,
    ensures
        1 <= spec_envelope_frames(len, sample_hz),
        0 <= spec_envelope_num(len, sample_hz, i) <= spec_envelope_frames(len, sample_hz),
{
    let base = if len < sample_hz { len } else { sample_hz };
    assert(0 <= base * 5 / 100) by {
        vstd::arithmetic::div_mod::lemma_div_pos_is_pos(base * 5, 100);
    }
    let e = spec_envelope_frames(len, sample_hz);
    assert(base * 5 <= len * 5) by (nonlinear_arith)
        requires base <= len;
    assert(base * 5 / 100 <= len * 5 / 100) by {
        vstd::arithmetic::div_mod::lemma_div_is_ordered(base * 5, len * 5, 100);
    }
    assert(len * 5 / 100 <= len * 5 / 5) by {
        vstd::arithmetic::div_mod::lemma_div_is_ordered_by_denominator(len * 5, 5, 100);
    }
    assert(len * 5 / 5 == len) by {
        vstd::arithmetic::div_mod::lemma_fundamental_div_mod_converse_div(len * 5, 5, len, 0);
    }
}

/// Applies the attack/release envelope to a tone's raw oscillator
/// samples.  The raw samples come from outside; the envelope is what
/// keeps the tone from clicking at its own boundaries.
#[verifier::loop_isolation(false)]
pub fn apply_tone_envelope(raw: &Vec<Sample>, sample_hz: u32) -> (r: Vec<Sample>)
    requires
        1 <= sample_hz <= MAX_SAMPLE_HZ,
        raw@.len() <= MAX_FRAME_TIME,
        forall|i: int| 0 <= i < raw@.len()
            ==> -NOTE_SAMPLE_LIMIT <= #[trigger] raw@[i] <= NOTE_SAMPLE_LIMIT,
    ensures
        r@.len() == raw@.len(),
        forall|i: int| 0 <= i < r@.len()
            ==> #[trigger] r@[i] == spec_enveloped(raw@, sample_hz as int, i),
        forall|i: int| 0 <= i < r@.len()
            ==> -NOTE_SAMPLE_LIMIT <= #[trigger] r@[i] <= NOTE_SAMPLE_LIMIT,
{
    let n = raw.len();
    let len = n as i64;
    let hz = sample_hz as i64;
    let base = if len < hz { len } else { hz };
    assert(0 <= base as int * 5 <= 5_000_000) by (nonlinear_arith)
        requires 0 <= base as int <= 1_000_000;
    let e0 = base * 5 / 100;
    let e = if e0 < 1 { 1 } else { e0 };
    proof {
        if n > 0 {
            lemma_envelope_bounds(len as int, hz as int, 0);
        }
    }
    let mut out: Vec<Sample> = Vec::new();
    let mut i: usize = 0;
    while i < n
        invariant
            i <= n,
            out@.len() == i,
            e == spec_envelope_frames(len as int, hz as int),
            1 <= e <= 50_000,
            forall|j: int| 0 <= j < i
                ==> #[trigger] out@[j] == spec_enveloped(raw@, sample_hz as int, j)
                    && -NOTE_SAMPLE_LIMIT <= out@[j] <= NOTE_SAMPLE_LIMIT,
        decreases n - i,
    {
        let fi = i as i64;
        let num = if fi < e {
            fi
        } else if fi > len - e {
            len - fi
        } else {
            e
        };
        proof {
            lemma_envelope_bounds(len as int, hz as int, i as int);
        }
        let v = scale_sample(raw[i], num, e);
        out.push(v);
        i += 1;
    }
    out
}

/// Whether a captured chunk has decayed to silence.
#[verifier::loop_isolation(false)]
pub fn chunk_is_silent(chunk: &Vec<Sample>) -> (r: bool)
    ensures
        r == forall|i: int| 0 <= i < chunk@.len()
            ==> -SILENCE_THRESHOLD < #[trigger] chunk@[i] < SILENCE_THRESHOLD,
{
    let n = chunk.len();
    let mut i: usize = 0;
    while i < n
        invariant
            i <= n,
            forall|j: int| 0 <= j < i
                ==> -SILENCE_THRESHOLD < #[trigger] chunk@[j] < SILENCE_THRESHOLD,
        decreases n - i,
    {
        let s = chunk[i];
        if s <= -SILENCE_THRESHOLD || s >= SILENCE_THRESHOLD {
            return false;
        }
        i += 1;
    }
    true
}

/// What the capture loop does after recording one more chunk of a
/// synthesized note's tail.
pub enum CaptureDecision {
    /// The tail has decayed: the note's rendering is complete.
    Done,
    /// Still sounding: record another chunk.
    Extend,
    /// The note never went silent within the extension budget: treat the
    /// rendering as failed and the note as silent.
    GiveUp,
}

/// Decides whether the capture of a synthesized note is finished, needs
/// another extension, or has exhausted its budget.
pub fn capture_decision(extensions: u32, last_chunk_silent: bool) -> (r: CaptureDecision)
    ensures
        last_chunk_silent ==> r is Done,
        !last_chunk_silent && extensions < MAX_RENDER_EXTENSIONS ==> r is Extend,
        !last_chunk_silent && extensions >= MAX_RENDER_EXTENSIONS ==> r is GiveUp,
{
    if last_chunk_silent {
        CaptureDecision::Done
    } else if extensions < MAX_RENDER_EXTENSIONS {
        CaptureDecision::Extend
    } else {
        CaptureDecision::GiveUp
    }
}

} // verus!
