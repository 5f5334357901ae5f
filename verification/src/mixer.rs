//! The audio-callback side of the engine.
//!
//! Each device callback mixes every active note into a fresh output buffer,
//! applies fade envelopes, retires finished notes and advances the frame
//! counter.  The routine is pure with respect to its inputs: the caller
//! drains the control channel and hands the pending messages in, and ships
//! the returned buffer and frame position out.

use vstd::prelude::*;
use crate::units::{Sample, FrameTime, MAX_FRAME_TIME, NOTE_TIME_LIMIT, NOTE_SAMPLE_LIMIT,
    MAX_ACTIVE_NOTES, EngineConfig};

verus! {

/// A rendered note owned by the audio callback.
///
/// `frames` is the note's rendered audio, `first_sample_time` the device
/// frame at which its first sample is due.  A fade-in is applied when
/// playback begins in the middle of the note; a fade-out is set when
/// playback is stopped while the note sounds.
pub struct PlaybackNote {
    pub frames: Vec<Sample>,
    pub first_sample_time: FrameTime,
    pub fadein_start: Option<FrameTime>,
    pub fadeout_end: Option<FrameTime>,
}

impl PlaybackNote {
    pub open spec fn wf(self) -> bool {
        &&& -NOTE_TIME_LIMIT <= self.first_sample_time <= NOTE_TIME_LIMIT
        &&& self.frames.len() <= MAX_FRAME_TIME
        &&& forall|i: int| 0 <= i < self.frames.len()
                ==> -NOTE_SAMPLE_LIMIT <= #[trigger] self.frames[i] <= NOTE_SAMPLE_LIMIT
        &&& match self.fadein_start {
                Some(f) => -NOTE_TIME_LIMIT <= f <= NOTE_TIME_LIMIT,
                None => true,
            }
        &&& match self.fadeout_end {
                Some(f) => -NOTE_TIME_LIMIT <= f <= NOTE_TIME_LIMIT,
                None => true,
            }
    }

    /// The first frame at which the note is audible.
    pub open spec fn spec_start_time(self) -> int {
        match self.fadein_start {
            Some(f) => f as int,
            None => self.first_sample_time as int,
        }
    }

    /// The frame after the last at which the note is audible.
    pub open spec fn spec_end_time(self) -> int {
        match self.fadeout_end {
            Some(f) => f as int,
            None => self.first_sample_time + self.frames.len(),
        }
    }

    pub fn start_time(&self) -> (r: FrameTime)
        requires
            self.wf(),
        ensures
            r == self.spec_start_time(),
    {
        match self.fadein_start {
            Some(f) => f,
            None => self.first_sample_time,
        }
    }

    pub fn end_time(&self) -> (r: FrameTime)
        requires
            self.wf(),
        ensures
            r == self.spec_end_time(),
    {
        match self.fadeout_end {
            Some(f) => f,
            None => self.first_sample_time + (self.frames.len() as i64),
        }
    }
}

/// Control messages from the preparation thread to the audio callback.
pub enum MessageToPortaudioThread {
    Stop,
    AddNote(PlaybackNote),
}

pub open spec fn message_wf(m: MessageToPortaudioThread) -> bool {
    match m {
        MessageToPortaudioThread::Stop => true,
        MessageToPortaudioThread::AddNote(n) => n.wf(),
    }
}

/// Numerator of the fade-in factor at frame `t`, over a denominator of
/// `window`: zero before `start`, full after `start + window`.
pub open spec fn fadein_num(t: int, start: int, window: int) -> int {
    vstd::math::max(0, vstd::math::min(window, t - start))
}

/// Numerator of the fade-out factor at frame `t`, over a denominator of
/// `window`: full before `end - window`, zero after `end`.
pub open spec fn fadeout_num(t: int, end: int, window: int) -> int {
    vstd::math::max(0, vstd::math::min(window, end - t))
}

/// A sample scaled by the factor `num / den`, rounding the magnitude down
/// so the scaling is symmetric around zero.
pub open spec fn spec_scale_sample(s: int, num: int, den: int) -> int {
    if s >= 0 {
        (s * num) / den
    } else {
        -(((-s) * num) / den)
    }
}

/// The value the note adds to the mix at frame `t`: its raw sample there
/// (silence outside the rendered range), scaled by whichever fade factors
/// are set, and only within the note's audible window.
pub open spec fn note_contribution(n: PlaybackNote, t: int, fin: int, fout: int) -> int {
    if n.spec_start_time() <= t < n.spec_end_time() {
        let s0 = raw_sample(n, t);
        let s1 = match n.fadein_start {
            Some(fs) => spec_scale_sample(s0, fadein_num(t, fs as int, fin), fin),
            None => s0,
        };
        match n.fadeout_end {
            Some(fe) => spec_scale_sample(s1, fadeout_num(t, fe as int, fout), fout),
            None => s1,
        }
    } else {
        0
    }
}

/// The note's rendered sample at frame `t`, silence outside its range.
pub open spec fn raw_sample(n: PlaybackNote, t: int) -> int {
    if n.first_sample_time <= t < n.first_sample_time + n.frames.len() {
        n.frames[t - n.first_sample_time] as int
    } else {
        0
    }
}

/// Sum of the contributions of the first `k` notes at frame `t`.
pub open spec fn mix_sum_upto(notes: Seq<PlaybackNote>, k: int, t: int, fin: int, fout: int) -> int
    decreases k,
{
    if k <= 0 {
        0
    } else {
        mix_sum_upto(notes, k - 1, t, fin, fout) + note_contribution(notes[k - 1], t, fin, fout)
    }
}

/// Sum of the contributions of all notes at frame `t`: what one output
/// frame of the mixer holds.
pub open spec fn mix_sum(notes: Seq<PlaybackNote>, t: int, fin: int, fout: int) -> int {
    mix_sum_upto(notes, notes.len() as int, t, fin, fout)
}

/// The fade-in factor is a fraction in [0, 1]: its numerator lies between
/// 0 and its denominator `window`.
pub proof fn lemma_fadein_bounds(t: int, start: int, window: int)
    requires
        1 <= window,
    ensures
        0 <= fadein_num(t, start, window) <= window,
{
}

/// The fade-in factor never decreases as playback advances.
pub proof fn lemma_fadein_monotonic(t1: int, t2: int, start: int, window: int)
    requires
        t1 <= t2,
    ensures
        fadein_num(t1, start, window) <= fadein_num(t2, start, window),
{
}

/// The fade-out factor is a fraction in [0, 1].
pub proof fn lemma_fadeout_bounds(t: int, end: int, window: int)
    requires
        1 <= window,
    ensures
        0 <= fadeout_num(t, end, window) <= window,
{
}

/// The fade-out factor never increases as playback advances.
pub proof fn lemma_fadeout_monotonic(t1: int, t2: int, end: int, window: int)
    requires
        t1 <= t2,
    ensures
        fadeout_num(t1, end, window) >= fadeout_num(t2, end, window),
{
}

/// Scaling by a fraction no greater than one never raises a sample's
/// magnitude, and a factor of exactly one leaves it unchanged.
pub proof fn lemma_scale_sample_bounds(s: int, num: int, den: int)
    requires
        0 <= num <= den,
        1 <= den,
    ensures
        vstd::math::abs(spec_scale_sample(s, num, den)) <= vstd::math::abs(s),
        num == den ==> spec_scale_sample(s, num, den) == s,
{
    let m = vstd::math::abs(s) as int;
    assert(m * num <= m * den) by (nonlinear_arith)
        requires 0 <= m, 0 <= num <= den;
    vstd::arithmetic::div_mod::lemma_div_is_ordered(m * num, m * den, den);
    vstd::arithmetic::div_mod::lemma_div_pos_is_pos(m * num, den);
    assert(m * den / den == m) by {
        vstd::arithmetic::div_mod::lemma_fundamental_div_mod_converse_div(m * den, den, m, 0);
    }
}

/// A note's contribution never exceeds the sample limit of a rendered note.
pub proof fn lemma_contribution_bounded(n: PlaybackNote, t: int, fin: int, fout: int)
    requires
        n.wf(),
        1 <= fin,
        1 <= fout,
    ensures
        -NOTE_SAMPLE_LIMIT <= note_contribution(n, t, fin, fout) <= NOTE_SAMPLE_LIMIT,
{
    if n.spec_start_time() <= t < n.spec_end_time() {
        let s0 = raw_sample(n, t);
        assert(-NOTE_SAMPLE_LIMIT <= s0 <= NOTE_SAMPLE_LIMIT);
        let s1 = match n.fadein_start {
            Some(fs) => spec_scale_sample(s0, fadein_num(t, fs as int, fin), fin),
            None => s0,
        };
        match n.fadein_start {
            Some(fs) => {
                lemma_fadein_bounds(t, fs as int, fin);
                lemma_scale_sample_bounds(s0, fadein_num(t, fs as int, fin), fin);
            },
            None => {},
        }
        assert(vstd::math::abs(s1) <= NOTE_SAMPLE_LIMIT);
        match n.fadeout_end {
            Some(fe) => {
                lemma_fadeout_bounds(t, fe as int, fout);
                lemma_scale_sample_bounds(s1, fadeout_num(t, fe as int, fout), fout);
            },
            None => {},
        }
    }
}

/// Mixing is additive: the mix of two note collections is the sum of their
/// separate mixes, frame by frame.
pub proof fn lemma_mix_sum_prefix(a: Seq<PlaybackNote>, b: Seq<PlaybackNote>, k: int, t: int, fin: int, fout: int)
    requires
        0 <= k <= a.len(),
    ensures
        mix_sum_upto(a + b, k, t, fin, fout) == mix_sum_upto(a, k, t, fin, fout),
    decreases k,
{
    if k > 0 {
        lemma_mix_sum_prefix(a, b, k - 1, t, fin, fout);
        assert((a + b)[k - 1] == a[k - 1]);
    }
}

pub proof fn lemma_mix_additive(a: Seq<PlaybackNote>, b: Seq<PlaybackNote>, t: int, fin: int, fout: int)
    ensures
        mix_sum(a + b, t, fin, fout) == mix_sum(a, t, fin, fout) + mix_sum(b, t, fin, fout),
    decreases b.len(),
{
    if b.len() == 0 {
        assert(a + b =~= a);
        lemma_mix_sum_prefix(a, b, a.len() as int, t, fin, fout);
    } else {
        let b0 = b.drop_last();
        lemma_mix_additive(a, b0, t, fin, fout);
        assert(a + b0 =~= (a + b).take(a.len() + b.len() - 1));
        lemma_mix_sum_take(a + b, a.len() + b.len() - 1, t, fin, fout);
        assert((a + b)[a.len() + b.len() - 1] == b.last());
        lemma_mix_sum_take(b, b.len() - 1, t, fin, fout);
        assert(b.take(b.len() - 1) =~= b0);
    }
}

/// The partial mix of the first `k` notes only looks at those notes.
pub proof fn lemma_mix_sum_take(s: Seq<PlaybackNote>, k: int, t: int, fin: int, fout: int)
    requires
        0 <= k <= s.len(),
    ensures
        mix_sum_upto(s, k, t, fin, fout) == mix_sum(s.take(k), t, fin, fout),
    decreases k,
{
    if k > 0 {
        lemma_mix_sum_take(s, k - 1, t, fin, fout);
        assert(s.take(k).drop_last() =~= s.take(k - 1));
        assert(mix_sum(s.take(k), t, fin, fout)
            == mix_sum_upto(s.take(k), k - 1, t, fin, fout) + note_contribution(s.take(k)[k - 1], t, fin, fout));
        lemma_mix_sum_upto_only_prefix(s.take(k), s.take(k - 1), k - 1, t, fin, fout);
    }
}

/// Two collections equal on a prefix mix that prefix identically.
proof fn lemma_mix_sum_upto_only_prefix(a: Seq<PlaybackNote>, b: Seq<PlaybackNote>, k: int, t: int, fin: int, fout: int)
    requires
        0 <= k,
        k <= a.len(),
        k <= b.len(),
        forall|i: int| 0 <= i < k ==> a[i] == b[i],
    ensures
        mix_sum_upto(a, k, t, fin, fout) == mix_sum_upto(b, k, t, fin, fout),
    decreases k,
{
    if k > 0 {
        lemma_mix_sum_upto_only_prefix(a, b, k - 1, t, fin, fout);
    }
}

/// Two notes with identical content mixed together give exactly double one
/// note's contribution at every frame.
pub proof fn lemma_equal_notes_double(n: PlaybackNote, t: int, fin: int, fout: int)
    ensures
        mix_sum(seq![n, n], t, fin, fout) == 2 * note_contribution(n, t, fin, fout),
{
    let s = seq![n, n];
    assert(mix_sum_upto(s, 2, t, fin, fout)
        == mix_sum_upto(s, 1, t, fin, fout) + note_contribution(s[1], t, fin, fout));
    assert(mix_sum_upto(s, 1, t, fin, fout)
        == mix_sum_upto(s, 0, t, fin, fout) + note_contribution(s[0], t, fin, fout));
}

/// The partial mix of `k` notes is bounded by `k` notes at full amplitude.
pub proof fn lemma_mix_sum_upto_bounded(notes: Seq<PlaybackNote>, k: int, t: int, fin: int, fout: int)
    requires
        0 <= k <= notes.len(),
        forall|i: int| 0 <= i < notes.len() ==> #[trigger] notes[i].wf(),
        1 <= fin,
        1 <= fout,
    ensures
        -k * NOTE_SAMPLE_LIMIT <= mix_sum_upto(notes, k, t, fin, fout) <= k * NOTE_SAMPLE_LIMIT,
    decreases k,
{
    if k > 0 {
        lemma_mix_sum_upto_bounded(notes, k - 1, t, fin, fout);
        lemma_contribution_bounded(notes[k - 1], t, fin, fout);
    }
}

/// What `Stop` does to one surviving note: its fade-out end is moved to
/// `finish` unless an earlier fade-out is already set or the note ends on
/// its own before the fade would.
pub open spec fn stop_note(n: PlaybackNote, finish: int) -> PlaybackNote {
    if finish < n.spec_end_time() {
        let fade = match n.fadeout_end {
            Some(a) => vstd::math::min(a as int, finish),
            None => finish,
        };
        PlaybackNote { fadeout_end: Some(fade as i64), ..n }
    } else {
        n
    }
}

/// What `Stop` does to the active set: notes that have not yet become
/// audible are discarded, the rest fade out by `finish`.
pub open spec fn apply_stop(notes: Seq<PlaybackNote>, now: int, finish: int) -> Seq<PlaybackNote>
    decreases notes.len(),
{
    if notes.len() == 0 {
        Seq::empty()
    } else {
        let prior = apply_stop(notes.drop_last(), now, finish);
        if notes.last().spec_start_time() < now {
            prior.push(stop_note(notes.last(), finish))
        } else {
            prior
        }
    }
}

/// What `AddNote` does to the active set.  The capacity bound exists only
/// so mixed sums fit in a machine word; a note arriving beyond it is
/// dropped.
pub open spec fn add_note(notes: Seq<PlaybackNote>, n: PlaybackNote) -> Seq<PlaybackNote> {
    if notes.len() < MAX_ACTIVE_NOTES {
        notes.push(n)
    } else {
        notes
    }
}

pub open spec fn apply_message(notes: Seq<PlaybackNote>, m: MessageToPortaudioThread, now: int, fout: int) -> Seq<PlaybackNote> {
    match m {
        MessageToPortaudioThread::Stop => apply_stop(notes, now, now + fout),
        MessageToPortaudioThread::AddNote(n) => add_note(notes, n),
    }
}

/// The active set after draining the whole control queue, in order.
pub open spec fn apply_messages(notes: Seq<PlaybackNote>, msgs: Seq<MessageToPortaudioThread>, now: int, fout: int) -> Seq<PlaybackNote>
    decreases msgs.len(),
{
    if msgs.len() == 0 {
        notes
    } else {
        apply_message(apply_messages(notes, msgs.drop_last(), now, fout), msgs.last(), now, fout)
    }
}

/// The notes still active after a callback ending at frame `end`: those
/// whose audible window extends past the buffer just played.
pub open spec fn retire(notes: Seq<PlaybackNote>, end: int) -> Seq<PlaybackNote>
    decreases notes.len(),
{
    if notes.len() == 0 {
        Seq::empty()
    } else {
        let prior = retire(notes.drop_last(), end);
        if notes.last().spec_end_time() > end {
            prior.push(notes.last())
        } else {
            prior
        }
    }
}

proof fn lemma_apply_stop_wf(notes: Seq<PlaybackNote>, now: int, finish: int)
    requires
        forall|i: int| 0 <= i < notes.len() ==> #[trigger] notes[i].wf(),
        -NOTE_TIME_LIMIT <= finish <= NOTE_TIME_LIMIT,
    ensures
        apply_stop(notes, now, finish).len() <= notes.len(),
        forall|i: int| 0 <= i < apply_stop(notes, now, finish).len()
            ==> #[trigger] apply_stop(notes, now, finish)[i].wf(),
    decreases notes.len(),
{
    if notes.len() > 0 {
        lemma_apply_stop_wf(notes.drop_last(), now, finish);
        assert(notes.last().wf());
        assert(stop_note(notes.last(), finish).wf());
    }
}

proof fn lemma_apply_messages_wf(notes: Seq<PlaybackNote>, msgs: Seq<MessageToPortaudioThread>, now: int, fout: int)
    requires
        forall|i: int| 0 <= i < notes.len() ==> #[trigger] notes[i].wf(),
        forall|i: int| 0 <= i < msgs.len() ==> message_wf(#[trigger] msgs[i]),
        notes.len() <= MAX_ACTIVE_NOTES,
        0 <= now <= MAX_FRAME_TIME,
        0 <= fout <= 250_000,
    ensures
        apply_messages(notes, msgs, now, fout).len() <= MAX_ACTIVE_NOTES,
        forall|i: int| 0 <= i < apply_messages(notes, msgs, now, fout).len()
            ==> #[trigger] apply_messages(notes, msgs, now, fout)[i].wf(),
    decreases msgs.len(),
{
    if msgs.len() > 0 {
        lemma_apply_messages_wf(notes, msgs.drop_last(), now, fout);
        let mid = apply_messages(notes, msgs.drop_last(), now, fout);
        assert(message_wf(msgs.last()));
        match msgs.last() {
            MessageToPortaudioThread::Stop => {
                lemma_apply_stop_wf(mid, now, now + fout);
            },
            MessageToPortaudioThread::AddNote(n) => {},
        }
    }
}

proof fn lemma_retire_wf(notes: Seq<PlaybackNote>, end: int)
    requires
        forall|i: int| 0 <= i < notes.len() ==> #[trigger] notes[i].wf(),
    ensures
        retire(notes, end).len() <= notes.len(),
        forall|i: int| 0 <= i < retire(notes, end).len() ==> #[trigger] retire(notes, end)[i].wf(),
    decreases notes.len(),
{
    if notes.len() > 0 {
        lemma_retire_wf(notes.drop_last(), end);
    }
}

/// Clamps `x` into `[0, hi]`.
fn clamp_low_high(x: i64, hi: i64) -> (r: i64)
    requires
        0 <= hi,
    ensures
        r == vstd::math::max(0, vstd::math::min(hi as int, x as int)),
{
    if x < 0 {
        0
    } else if x > hi {
        hi
    } else {
        x
    }
}

/// Scales a bounded sample by the fraction `num / den`.
pub(crate) fn scale_sample(s: i64, num: i64, den: i64) -> (r: i64)
    requires
        -NOTE_SAMPLE_LIMIT <= s <= NOTE_SAMPLE_LIMIT,
        0 <= num <= den,
        1 <= den <= 250_000,
    ensures
        r == spec_scale_sample(s as int, num as int, den as int),
        -NOTE_SAMPLE_LIMIT <= r <= NOTE_SAMPLE_LIMIT,
{
    proof {
        lemma_scale_sample_bounds(s as int, num as int, den as int);
    }
    if s >= 0 {
        assert(s as int * num as int <= NOTE_SAMPLE_LIMIT as int * 250_000) by (nonlinear_arith)
            requires 0 <= s as int <= NOTE_SAMPLE_LIMIT as int, 0 <= num as int <= 250_000;
        assert(0 <= s as int * num as int) by (nonlinear_arith)
            requires 0 <= s, 0 <= num;
        (s * num) / den
    } else {
        assert((-s) as int * num as int <= NOTE_SAMPLE_LIMIT as int * 250_000) by (nonlinear_arith)
            requires 0 <= (-s) as int <= NOTE_SAMPLE_LIMIT as int, 0 <= num as int <= 250_000;
        assert(0 <= (-s) as int * num as int) by (nonlinear_arith)
            requires 0 <= (-s) as int, 0 <= num;
        -(((-s) * num) / den)
    }
}

/// State of the audio-device callback: the active notes and the frame
/// position the device will ask for next.
/// State of the audio-device callback: the active notes and the frame
/// position the device will ask for next.
pub struct PortaudioThread {
    pub notes: Vec<PlaybackNote>,
    pub next_frame_time: FrameTime,
}

impl PortaudioThread {
    pub open spec fn wf(self) -> bool {
        &&& 0 <= self.next_frame_time <= MAX_FRAME_TIME
        &&& self.notes.len() <= MAX_ACTIVE_NOTES
        &&& forall|i: int| 0 <= i < self.notes.len() ==> #[trigger] self.notes[i].wf()
    }

    pub fn new() -> (r: Self)
        ensures
            r.wf(),
            r.notes@ == Seq::<PlaybackNote>::empty(),
            r.next_frame_time == 0,
    {
        PortaudioThread { notes: Vec::new(), next_frame_time: 0 }
    }

    /// One `Stop` message: notes that have not become audible yet are
    /// discarded, everything still sounding fades out by `finish`.
    #[verifier::loop_isolation(false)]
    fn apply_stop_exec(&mut self, finish: i64)
        requires
            old(self).wf(),
            -NOTE_TIME_LIMIT <= finish <= NOTE_TIME_LIMIT,
        ensures
            final(self).notes@ == apply_stop(old(self).notes@, old(self).next_frame_time as int, finish as int),
            final(self).next_frame_time == old(self).next_frame_time,
            final(self).notes.len() <= old(self).notes.len(),
            final(self).wf(),
    {
        let now = self.next_frame_time;
        let ghost before = self.notes@;
        let mut stopped: Vec<PlaybackNote> = Vec::new();
        let ghost mut j: int = 0;
        while self.notes.len() > 0
            invariant
                0 <= j <= before.len(),
                self.notes@ == before.skip(j),
                stopped@ == apply_stop(before.take(j), now as int, finish as int),
                forall|i: int| 0 <= i < stopped.len() ==> #[trigger] stopped[i].wf(),
                stopped.len() <= j,
                self.next_frame_time == now,
            decreases self.notes.len(),
        {
            let n = self.notes.remove(0);
            proof {
                assert(n == before[j]);
                assert(before[j].wf());
                assert(self.notes@ =~= before.skip(j + 1));
                assert(before.take(j + 1).drop_last() =~= before.take(j));
                assert(before.take(j + 1).last() == before[j]);
            }
            if n.start_time() < now {
                let end_time = n.end_time();
                if finish < end_time {
                    let fade = match n.fadeout_end {
                        Some(a) => if a < finish { a } else { finish },
                        None => finish,
                    };
                    let stopped_note = PlaybackNote { fadeout_end: Some(fade), ..n };
                    proof {
                        assert(stopped_note == stop_note(before[j], finish as int));
                    }
                    stopped.push(stopped_note);
                } else {
                    proof {
                        assert(n == stop_note(before[j], finish as int));
                    }
                    stopped.push(n);
                }
            }
            proof {
                j = j + 1;
            }
        }
        proof {
            assert(before.take(j) =~= before);
            lemma_apply_stop_wf(before, now as int, finish as int);
        }
        self.notes = stopped;
    }

    /// Drains the pending control messages in arrival order.
    #[verifier::loop_isolation(false)]
    fn drain_messages(&mut self, fout: i64, messages: Vec<MessageToPortaudioThread>)
        requires
            old(self).wf(),
            1 <= fout <= 250_000,
            forall|i: int| 0 <= i < messages.len() ==> message_wf(#[trigger] messages[i]),
        ensures
            final(self).notes@ == apply_messages(old(self).notes@, messages@,
                old(self).next_frame_time as int, fout as int),
            final(self).next_frame_time == old(self).next_frame_time,
            final(self).wf(),
    {
        let now = self.next_frame_time;
        let ghost orig_notes = self.notes@;
        let ghost all_msgs = messages@;
        let mut messages = messages;
        let ghost mut k: int = 0;
        while messages.len() > 0
            invariant
                0 <= k <= all_msgs.len(),
                messages@ == all_msgs.skip(k),
                self.notes@ == apply_messages(orig_notes, all_msgs.take(k), now as int, fout as int),
                self.notes.len() <= MAX_ACTIVE_NOTES,
                forall|i: int| 0 <= i < self.notes.len() ==> #[trigger] self.notes[i].wf(),
                self.next_frame_time == now,
            decreases messages.len(),
        {
            let m = messages.remove(0);
            proof {
                assert(m == all_msgs[k]);
                assert(message_wf(all_msgs[k]));
                assert(messages@ =~= all_msgs.skip(k + 1));
            }
            match m {
                MessageToPortaudioThread::Stop => {
                    let finish = now + fout;
                    self.apply_stop_exec(finish);
                },
                MessageToPortaudioThread::AddNote(n) => {
                    if self.notes.len() < MAX_ACTIVE_NOTES {
                        self.notes.push(n);
                    }
                },
            }
            proof {
                assert(all_msgs.take(k + 1).drop_last() =~= all_msgs.take(k));
                assert(all_msgs.take(k + 1).last() == all_msgs[k]);
                k = k + 1;
            }
        }
        proof {
            assert(all_msgs.take(k) =~= all_msgs);
        }
    }

    /// Mixes every audible note into a fresh buffer of one callback's
    /// length, each sample scaled by the fade factors that apply to it.
    #[verifier::loop_isolation(false)]
    fn mix(&self, cfg: &EngineConfig, fin: i64, fout: i64) -> (buffer: Vec<Sample>)
        requires
            self.wf(),
            cfg.wf(),
            self.next_frame_time + cfg.frames_per_buffer <= MAX_FRAME_TIME,
            fin == cfg.spec_fadein_frames(),
            fout == cfg.spec_fadeout_frames(),
            1 <= fin <= 10_000,
            1 <= fout <= 250_000,
        ensures
            buffer.len() == cfg.frames_per_buffer,
            forall|j: int| 0 <= j < buffer.len()
                ==> #[trigger] buffer[j] == mix_sum(self.notes@, self.next_frame_time + j, fin as int, fout as int),
    {
        let ghost active = self.notes@;
        let now = self.next_frame_time;
        let fpb = cfg.frames_per_buffer as usize;
        let end = now + cfg.frames_per_buffer as i64;

        let mut buffer: Vec<Sample> = Vec::new();
        let mut z: usize = 0;
        while z < fpb
            invariant
                buffer.len() == z,
                z <= fpb,
                forall|j: int| 0 <= j < z ==> #[trigger] buffer[j] == 0,
            decreases fpb - z,
        {
            buffer.push(0);
            z += 1;
        }

        let mut nk: usize = 0;
        while nk < self.notes.len()
            invariant
                nk <= self.notes.len(),
                buffer.len() == fpb,
                forall|j: int| 0 <= j < fpb
                    ==> #[trigger] buffer[j] == mix_sum_upto(active, nk as int, now + j, fin as int, fout as int),
            decreases self.notes.len() - nk,
        {
            let n = &self.notes[nk];
            proof {
                assert(active[nk as int].wf());
            }
            let note_start = n.start_time();
            let note_end = n.end_time();
            let lo = if note_start > now { note_start } else { now };
            let hi = if note_end < end { note_end } else { end };
            if lo < hi {
                let mut t = lo;
                while t < hi
                    invariant
                        lo <= t <= hi,
                        buffer.len() == fpb,
                        forall|j: int| 0 <= j < fpb
                            ==> #[trigger] buffer[j] == mix_sum_upto(active, nk as int, now + j, fin as int, fout as int)
                                + if lo <= now + j < t {
                                    note_contribution(active[nk as int], now + j, fin as int, fout as int)
                                } else {
                                    0
                                },
                    decreases hi - t,
                {
                    let off = t - n.first_sample_time;
                    let flen = n.frames.len();
                    let s0 = if off >= 0 && off < flen as i64 {
                        n.frames[off as usize]
                    } else {
                        0
                    };
                    proof {
                        assert(s0 == raw_sample(active[nk as int], t as int));
                    }
                    let s1 = match n.fadein_start {
                        Some(fs) => {
                            let num = clamp_low_high(t - fs, fin);
                            scale_sample(s0, num, fin)
                        },
                        None => s0,
                    };
                    let s2 = match n.fadeout_end {
                        Some(fe) => {
                            let num = clamp_low_high(fe - t, fout);
                            scale_sample(s1, num, fout)
                        },
                        None => s1,
                    };
                    proof {
                        assert(s2 == note_contribution(active[nk as int], t as int, fin as int, fout as int));
                        lemma_mix_sum_upto_bounded(active, nk as int, t as int, fin as int, fout as int);
                        lemma_contribution_bounded(active[nk as int], t as int, fin as int, fout as int);
                    }
                    let idx = (t - now) as usize;
                    let mixed = buffer[idx] + s2;
                    buffer[idx] = mixed;
                    t += 1;
                }
                proof {
                    assert forall|j: int| 0 <= j < fpb implies
                        #[trigger] buffer[j] == mix_sum_upto(active, nk as int + 1, now + j, fin as int, fout as int) by {
                        let tt = now + j;
                        if !(lo <= tt < hi) {
                            assert(note_contribution(active[nk as int], tt, fin as int, fout as int) == 0);
                        }
                    }
                }
            } else {
                proof {
                    assert forall|j: int| 0 <= j < fpb implies
                        #[trigger] buffer[j] == mix_sum_upto(active, nk as int + 1, now + j, fin as int, fout as int) by {
                        let tt = now + j;
                        assert(note_contribution(active[nk as int], tt, fin as int, fout as int) == 0);
                    }
                }
            }
            nk += 1;
        }
        buffer
    }

    /// Drops every note whose audible window ends at or before `end`.
    #[verifier::loop_isolation(false)]
    fn retire_exec(&mut self, end: i64)
        requires
            old(self).wf(),
        ensures
            final(self).notes@ == retire(old(self).notes@, end as int),
            final(self).next_frame_time == old(self).next_frame_time,
            final(self).wf(),
    {
        let ghost premix = self.notes@;
        let mut kept: Vec<PlaybackNote> = Vec::new();
        let ghost mut rj: int = 0;
        while self.notes.len() > 0
            invariant
                0 <= rj <= premix.len(),
                self.notes@ == premix.skip(rj),
                kept@ == retire(premix.take(rj), end as int),
                forall|i: int| 0 <= i < kept.len() ==> #[trigger] kept[i].wf(),
                kept.len() <= rj,
                self.next_frame_time == old(self).next_frame_time,
            decreases self.notes.len(),
        {
            let n = self.notes.remove(0);
            proof {
                assert(n == premix[rj]);
                assert(premix[rj].wf());
                assert(self.notes@ =~= premix.skip(rj + 1));
                assert(premix.take(rj + 1).drop_last() =~= premix.take(rj));
                assert(premix.take(rj + 1).last() == premix[rj]);
            }
            if n.end_time() > end {
                kept.push(n);
            }
            proof {
                rj = rj + 1;
            }
        }
        proof {
            assert(premix.take(rj) =~= premix);
            lemma_retire_wf(premix, end as int);
        }
        self.notes = kept;
    }

    /// One device callback.  Drains the pending control messages, mixes
    /// every audible note into a fresh buffer with its fade factors
    /// applied, retires notes that ended within the buffer, and reports
    /// the frame position reached for the preparation thread's clock.
    pub fn call(&mut self, cfg: &EngineConfig, messages: Vec<MessageToPortaudioThread>) -> (r: (Vec<Sample>, FrameTime))
        requires
            old(self).wf(),
            cfg.wf(),
            old(self).next_frame_time + cfg.frames_per_buffer <= MAX_FRAME_TIME,
            forall|i: int| 0 <= i < messages.len() ==> message_wf(#[trigger] messages[i]),
        ensures
            ({
                let fin = cfg.spec_fadein_frames();
                let fout = cfg.spec_fadeout_frames();
                let now = old(self).next_frame_time as int;
                let active = apply_messages(old(self).notes@, messages@, now, fout);
                &&& r.0.len() == cfg.frames_per_buffer
                &&& forall|j: int| 0 <= j < r.0.len()
                        ==> #[trigger] r.0[j] == mix_sum(active, now + j, fin, fout)
                &&& final(self).notes@ == retire(active, now + cfg.frames_per_buffer)
                &&& final(self).next_frame_time == now + cfg.frames_per_buffer
                &&& r.1 == final(self).next_frame_time
                &&& final(self).wf()
            }),
    {
        let fin = cfg.fadein_frames();
        let fout = cfg.fadeout_frames();
        self.drain_messages(fout, messages);
        let buffer = self.mix(cfg, fin, fout);
        let end = self.next_frame_time + cfg.frames_per_buffer as i64;
        self.retire_exec(end);
        self.next_frame_time = end;
        (buffer, end)
    }
}

} // verus!
