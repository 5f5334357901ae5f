//! The preparation-thread state machine.
//!
//! The preparation thread owns the playback script and a logical clock.
//! It renders notes that fall within a rolling lookahead window, commits a
//! real-time start frame once enough audio is buffered (priming), and
//! hands fully rendered notes to the audio callback ahead of their due
//! time.  The outside work — synthesizing a descriptor, carrying messages
//! between threads — is done by the caller, which feeds the results back
//! in as plain values.

use vstd::prelude::*;
use crate::units::{Micros, FrameTime, EngineConfig, MAX_FRAME_TIME, MAX_SCRIPT_MICROS,
    MICROS_CONVERT_LIMIT, STALL_MIN_MICROS, STALL_MAX_MICROS,
    micros_to_frames, frames_to_micros, spec_micros_to_frames, spec_frames_to_micros,
    lemma_round_div_bound, MICROS_PER_SECOND};
use crate::script::{Note, PlaybackScript};
use crate::cache::RenderCache;
use crate::mixer::PlaybackNote;
use crate::note::NoteDescriptor;

verus! {

/// The lookahead window advances this much per rendering step.
pub const LOOKAHEAD_STEP_MICROS: i64 = 100_000;

/// Audio buffered beyond the start time before playback commits.
pub const PRIME_MICROS: i64 = 100_000;

/// While playing, rendering keeps this far ahead of the playback clock.
pub const PLAYING_LOOKAHEAD_MICROS: i64 = 5_000_000;

/// The committed start frame leads the playback clock by this many
/// device buffers, so the first notes are in place before they are due.
pub const PRIME_LEAD_BUFFERS: i64 = 2;

/// Messages into the preparation thread: the audio thread's clock
/// feedback, and the editor's script replacements and seeks.
pub enum MessageToRenderThread {
    PlaybackReachedTime(FrameTime),
    ReplaceScript(PlaybackScript),
    RestartPlaybackAt(Option<Micros>),
}

/// A note queued for rendering or dispatch, with its play time relative
/// to the schedule start.  Negative when playback resumes mid-note.
#[derive(Clone, Copy, PartialEq, Eq, Structural, Debug)]
pub struct RenderPreparingNote {
    pub note: Note,
    pub duration_from_start: Micros,
}

impl RenderPreparingNote {
    pub open spec fn wf(self) -> bool {
        &&& self.note.wf()
        &&& -MAX_SCRIPT_MICROS <= self.duration_from_start <= MICROS_CONVERT_LIMIT
    }
}

/// Notes already in flight at a seek target: they straddle the stall
/// time, so they resume mid-note, queued at a negative offset.
pub open spec fn straddling_notes(notes: Seq<Note>, t: int) -> Seq<RenderPreparingNote>
    decreases notes.len(),
{
    if notes.len() == 0 {
        Seq::empty()
    } else {
        let prior = straddling_notes(notes.drop_last(), t);
        let n = notes.last();
        if n.start_time < t && n.spec_end_time() > t {
            prior.push(RenderPreparingNote {
                note: n,
                duration_from_start: (n.start_time - t) as i64,
            })
        } else {
            prior
        }
    }
}

/// The notes whose offset from the schedule start falls in `[from, to)`:
/// what one advance of the lookahead window queues.
pub open spec fn window_notes(notes: Seq<Note>, start: int, from: int, to: int) -> Seq<RenderPreparingNote>
    decreases notes.len(),
{
    if notes.len() == 0 {
        Seq::empty()
    } else {
        let prior = window_notes(notes.drop_last(), start, from, to);
        let n = notes.last();
        let dfs = n.start_time - start;
        if !(dfs < from) && dfs < to {
            prior.push(RenderPreparingNote { note: n, duration_from_start: dfs as i64 })
        } else {
            prior
        }
    }
}

proof fn lemma_straddling_notes_wf(notes: Seq<Note>, t: int)
    requires
        forall|i: int| 0 <= i < notes.len() ==> (#[trigger] notes[i]).wf(),
    ensures
        forall|i: int| 0 <= i < straddling_notes(notes, t).len()
            ==> (#[trigger] straddling_notes(notes, t)[i]).wf(),
    decreases notes.len(),
{
    if notes.len() > 0 {
        lemma_straddling_notes_wf(notes.drop_last(), t);
        let n = notes.last();
        assert(n == notes[notes.len() - 1]);
        assert(n.wf());
        let prior = straddling_notes(notes.drop_last(), t);
        if n.start_time < t && n.spec_end_time() > t {
            let e = RenderPreparingNote {
                note: n,
                duration_from_start: (n.start_time - t) as i64,
            };
            assert(n.start_time - t >= -MAX_SCRIPT_MICROS);
            assert(e.wf());
            assert(straddling_notes(notes, t) == prior.push(e));
            assert forall|i: int| 0 <= i < prior.push(e).len()
                implies (#[trigger] prior.push(e)[i]).wf() by {
                if i < prior.len() {
                    assert(prior[i].wf());
                } else {
                    assert(prior.push(e)[i] == e);
                }
            }
        }
    }
}

proof fn lemma_window_notes_wf(notes: Seq<Note>, start: int, from: int, to: int)
    requires
        forall|i: int| 0 <= i < notes.len() ==> (#[trigger] notes[i]).wf(),
        STALL_MIN_MICROS <= start,
        0 <= from,
    ensures
        forall|i: int| 0 <= i < window_notes(notes, start, from, to).len()
            ==> (#[trigger] window_notes(notes, start, from, to)[i]).wf(),
    decreases notes.len(),
{
    if notes.len() > 0 {
        lemma_window_notes_wf(notes.drop_last(), start, from, to);
        let n = notes.last();
        assert(n == notes[notes.len() - 1]);
        assert(n.wf());
        let prior = window_notes(notes.drop_last(), start, from, to);
        let dfs = n.start_time - start;
        if !(dfs < from) && dfs < to {
            let e = RenderPreparingNote { note: n, duration_from_start: dfs as i64 };
            assert(0 <= dfs <= MICROS_CONVERT_LIMIT);
            assert(e.wf());
            assert(window_notes(notes, start, from, to) == prior.push(e));
            assert forall|i: int| 0 <= i < prior.push(e).len()
                implies (#[trigger] prior.push(e)[i]).wf() by {
                if i < prior.len() {
                    assert(prior[i].wf());
                } else {
                    assert(prior.push(e)[i] == e);
                }
            }
        }
    }
}

/// The full state of the preparation thread between loop iterations.
pub struct RenderThread {
    pub cfg: EngineConfig,
    pub script: PlaybackScript,
    pub render_queue: Vec<RenderPreparingNote>,
    pub playback_queue: Vec<RenderPreparingNote>,
    pub latest_playback_reached: FrameTime,
    pub renders_queued_until: Micros,
    pub specified_playback_start_script_time: Option<Micros>,
    pub actual_playback_start_frame_time: Option<FrameTime>,
}

impl RenderThread {
    pub open spec fn wf(self) -> bool {
        &&& self.cfg.wf()
        &&& self.script.wf()
        &&& forall|i: int| 0 <= i < self.render_queue.len()
                ==> (#[trigger] self.render_queue[i]).wf()
        &&& forall|i: int| 0 <= i < self.playback_queue.len()
                ==> (#[trigger] self.playback_queue[i]).wf()
        &&& 0 <= self.latest_playback_reached <= MAX_FRAME_TIME
        &&& 0 <= self.renders_queued_until <= STALL_MAX_MICROS
        &&& match self.specified_playback_start_script_time {
                Some(t) => STALL_MIN_MICROS <= t <= STALL_MAX_MICROS,
                None => true,
            }
        &&& match self.actual_playback_start_frame_time {
                Some(f) => 0 <= f <= MAX_FRAME_TIME + 2_000_000,
                None => true,
            }
        &&& (self.actual_playback_start_frame_time is None
                ==> self.renders_queued_until <= PRIME_MICROS + LOOKAHEAD_STEP_MICROS)
    }

    /// The state a stall leaves behind, up to the stall time.
    pub open spec fn spec_stalled(pre: RenderThread, post: RenderThread, stall_time: Option<Micros>) -> bool {
        &&& post.cfg == pre.cfg
        &&& post.script.notes@ == pre.script.notes@
        &&& post.script.end == pre.script.end
        &&& post.script.loop_back_to == pre.script.loop_back_to
        &&& post.latest_playback_reached == pre.latest_playback_reached
        &&& post.playback_queue@ == Seq::<RenderPreparingNote>::empty()
        &&& post.actual_playback_start_frame_time is None
        &&& post.specified_playback_start_script_time == stall_time
        &&& post.renders_queued_until == 0
        &&& post.render_queue@ == match stall_time {
                Some(t) => straddling_notes(pre.script.notes@, t as int),
                None => Seq::<RenderPreparingNote>::empty(),
            }
    }

    /// A fresh, idle preparation thread.
    pub fn new(cfg: EngineConfig) -> (r: Self)
        requires
            cfg.wf(),
        ensures
            r.wf(),
            r.cfg == cfg,
            r.script.notes@ == Seq::<Note>::empty(),
            r.render_queue@ == Seq::<RenderPreparingNote>::empty(),
            r.playback_queue@ == Seq::<RenderPreparingNote>::empty(),
            r.latest_playback_reached == 0,
            r.renders_queued_until == 0,
            r.specified_playback_start_script_time is None,
            r.actual_playback_start_frame_time is None,
    {
        RenderThread {
            cfg,
            script: PlaybackScript::empty(),
            render_queue: Vec::new(),
            playback_queue: Vec::new(),
            latest_playback_reached: 0,
            renders_queued_until: 0,
            specified_playback_start_script_time: None,
            actual_playback_start_frame_time: None,
        }
    }

    /// Discards all pending work and re-enters the stalled state at
    /// `stall_time`.  Notes already in flight at that time are queued at a
    /// negative offset, so they resume fully rendered but faded in.  The
    /// caller must forward a `Stop` to the audio thread.
    #[verifier::loop_isolation(false)]
    pub fn stall(&mut self, stall_time: Option<Micros>)
        requires
            old(self).wf(),
            match stall_time {
                Some(t) => STALL_MIN_MICROS <= t <= STALL_MAX_MICROS,
                None => true,
            },
        ensures
            Self::spec_stalled(*old(self), *final(self), stall_time),
            final(self).wf(),
    {
        self.render_queue.clear();
        self.playback_queue.clear();
        self.actual_playback_start_frame_time = None;
        self.specified_playback_start_script_time = stall_time;
        self.renders_queued_until = 0;
        if let Some(t) = stall_time {
            let ghost notes = self.script.notes@;
            let mut i: usize = 0;
            while i < self.script.notes.len()
                invariant
                    i <= notes.len(),
                    self.script.notes@ == notes,
                    self.render_queue@ == straddling_notes(notes.take(i as int), t as int),
                    self.playback_queue@ == Seq::<RenderPreparingNote>::empty(),
                    self.actual_playback_start_frame_time is None,
                    self.specified_playback_start_script_time == stall_time,
                    self.renders_queued_until == 0,
                    self.latest_playback_reached == old(self).latest_playback_reached,
                    self.cfg == old(self).cfg,
                    self.script.end == old(self).script.end,
                    self.script.loop_back_to == old(self).script.loop_back_to,
                decreases notes.len() - i,
            {
                let n = self.script.notes[i];
                proof {
                    assert(notes[i as int].wf());
                    assert(notes.take(i as int + 1).drop_last() =~= notes.take(i as int));
                    assert(notes.take(i as int + 1).last() == notes[i as int]);
                }
                let duration_from_start = n.start_time - t;
                if duration_from_start < 0 && n.end_time() > t {
                    self.render_queue.push(RenderPreparingNote { note: n, duration_from_start });
                }
                i += 1;
            }
            proof {
                assert(notes.take(i as int) =~= notes);
                lemma_straddling_notes_wf(notes, t as int);
            }
        }
    }

    /// Advances the lookahead window one step, queueing the notes whose
    /// offset falls inside the newly covered span.
    #[verifier::loop_isolation(false)]
    fn extend_window(&mut self)
        requires
            old(self).wf(),
            old(self).specified_playback_start_script_time is Some,
            old(self).renders_queued_until + LOOKAHEAD_STEP_MICROS <= STALL_MAX_MICROS,
            old(self).actual_playback_start_frame_time is None
                ==> old(self).renders_queued_until <= PRIME_MICROS,
        ensures
            final(self).cfg == old(self).cfg,
            final(self).script.notes@ == old(self).script.notes@,
            final(self).script.end == old(self).script.end,
            final(self).script.loop_back_to == old(self).script.loop_back_to,
            final(self).latest_playback_reached == old(self).latest_playback_reached,
            final(self).playback_queue@ == old(self).playback_queue@,
            final(self).specified_playback_start_script_time
                == old(self).specified_playback_start_script_time,
            final(self).actual_playback_start_frame_time
                == old(self).actual_playback_start_frame_time,
            final(self).renders_queued_until
                == old(self).renders_queued_until + LOOKAHEAD_STEP_MICROS,
            final(self).render_queue@ == old(self).render_queue@ + window_notes(
                old(self).script.notes@,
                old(self).specified_playback_start_script_time.unwrap() as int,
                old(self).renders_queued_until as int,
                old(self).renders_queued_until + LOOKAHEAD_STEP_MICROS),
            final(self).wf(),
    {
        let st = match self.specified_playback_start_script_time {
            Some(a) => a,
            None => { proof { assert(false); } 0 },
        };
        let from = self.renders_queued_until;
        let queue_until = from + LOOKAHEAD_STEP_MICROS;
        let ghost notes = self.script.notes@;
        let ghost rq0 = self.render_queue@;
        let mut i: usize = 0;
        while i < self.script.notes.len()
            invariant
                i <= notes.len(),
                self.script.notes@ == notes,
                self.render_queue@ == rq0 + window_notes(notes.take(i as int), st as int,
                    from as int, queue_until as int),
                self.playback_queue@ == old(self).playback_queue@,
                self.actual_playback_start_frame_time == old(self).actual_playback_start_frame_time,
                self.specified_playback_start_script_time == old(self).specified_playback_start_script_time,
                self.renders_queued_until == from,
                self.latest_playback_reached == old(self).latest_playback_reached,
                self.cfg == old(self).cfg,
                self.script.end == old(self).script.end,
                self.script.loop_back_to == old(self).script.loop_back_to,
            decreases notes.len() - i,
        {
            let n = self.script.notes[i];
            proof {
                assert(notes[i as int].wf());
                assert(notes.take(i as int + 1).drop_last() =~= notes.take(i as int));
                assert(notes.take(i as int + 1).last() == notes[i as int]);
            }
            let duration_from_start = n.start_time - st;
            if !(duration_from_start < from) && duration_from_start < queue_until {
                self.render_queue.push(RenderPreparingNote { note: n, duration_from_start });
            }
            i += 1;
        }
        self.renders_queued_until = queue_until;
        proof {
            assert(notes.take(i as int) =~= notes);
            lemma_window_notes_wf(notes, st as int, from as int, queue_until as int);
        }
    }

    /// Two states that agree on everything observable.
    pub open spec fn same_state(a: RenderThread, b: RenderThread) -> bool {
        &&& b.cfg == a.cfg
        &&& b.script.notes@ == a.script.notes@
        &&& b.script.end == a.script.end
        &&& b.script.loop_back_to == a.script.loop_back_to
        &&& b.render_queue@ == a.render_queue@
        &&& b.playback_queue@ == a.playback_queue@
        &&& b.latest_playback_reached == a.latest_playback_reached
        &&& b.renders_queued_until == a.renders_queued_until
        &&& b.specified_playback_start_script_time == a.specified_playback_start_script_time
        &&& b.actual_playback_start_frame_time == a.actual_playback_start_frame_time
    }

    /// The stall time a script replacement computes: the script time of
    /// the currently playing moment, found by converting the frames
    /// elapsed since the committed start back into script time, clamped
    /// into the range the engine can hold.
    pub open spec fn spec_replace_stall_time(self) -> Option<Micros> {
        match self.specified_playback_start_script_time {
            None => None,
            Some(st) => Some(match self.actual_playback_start_frame_time {
                Some(fs) => {
                    let target = st + spec_frames_to_micros(
                        self.latest_playback_reached - fs, self.cfg.sample_hz as int);
                    vstd::math::min(
                        vstd::math::max(target, STALL_MIN_MICROS as int),
                        STALL_MAX_MICROS as int) as i64
                },
                None => st,
            }),
        }
    }

    /// Handles one inbound message.  Malformed input — a clock value or
    /// seek target outside the accepted range, a script with no notes or
    /// out-of-range times — is rejected and the prior state preserved.
    /// When the result is true, the caller must forward a `Stop` to the
    /// audio thread: all pending and active notes are being cleared.
    pub fn process_message(&mut self, message: MessageToRenderThread) -> (send_stop: bool)
        requires
            old(self).wf(),
        ensures
            final(self).wf(),
            ({
                let s = *old(self);
                match message {
                    MessageToRenderThread::PlaybackReachedTime(t) => {
                        &&& send_stop == false
                        &&& if 0 <= t <= MAX_FRAME_TIME {
                                &&& final(self).latest_playback_reached == t
                                &&& Self::same_state(
                                        RenderThread { latest_playback_reached: t, ..s },
                                        *final(self))
                            } else {
                                Self::same_state(s, *final(self))
                            }
                    },
                    MessageToRenderThread::RestartPlaybackAt(ot) => {
                        let ok = match ot {
                            None => true,
                            Some(t) => -MAX_SCRIPT_MICROS <= t <= MAX_SCRIPT_MICROS,
                        };
                        &&& send_stop == ok
                        &&& if ok {
                                Self::spec_stalled(s, *final(self), ot)
                            } else {
                                Self::same_state(s, *final(self))
                            }
                    },
                    MessageToRenderThread::ReplaceScript(script) => {
                        &&& send_stop == script.valid()
                        &&& if script.valid() {
                                &&& final(self).cfg == s.cfg
                                &&& final(self).script.notes@ == script.notes@
                                &&& final(self).script.end == script.end
                                &&& final(self).script.loop_back_to == script.loop_back_to
                                &&& final(self).latest_playback_reached == s.latest_playback_reached
                                &&& final(self).playback_queue@ == Seq::<RenderPreparingNote>::empty()
                                &&& final(self).actual_playback_start_frame_time is None
                                &&& final(self).specified_playback_start_script_time
                                        == s.spec_replace_stall_time()
                                &&& final(self).renders_queued_until == 0
                                &&& final(self).render_queue@ == match s.spec_replace_stall_time() {
                                        Some(t) => straddling_notes(script.notes@, t as int),
                                        None => Seq::<RenderPreparingNote>::empty(),
                                    }
                            } else {
                                Self::same_state(s, *final(self))
                            }
                    },
                }
            }),
    {
        match message {
            MessageToRenderThread::PlaybackReachedTime(t) => {
                if 0 <= t && t <= MAX_FRAME_TIME {
                    self.latest_playback_reached = t;
                }
                false
            },
            MessageToRenderThread::RestartPlaybackAt(ot) => {
                let ok = match ot {
                    None => true,
                    Some(t) => -MAX_SCRIPT_MICROS <= t && t <= MAX_SCRIPT_MICROS,
                };
                if ok {
                    self.stall(ot);
                    true
                } else {
                    false
                }
            },
            MessageToRenderThread::ReplaceScript(script) => {
                if script.validate() {
                    let stall_time = match self.specified_playback_start_script_time {
                        None => None,
                        Some(st) => Some(match self.actual_playback_start_frame_time {
                            Some(fs) => {
                                let elapsed = self.latest_playback_reached - fs;
                                let elapsed_us = frames_to_micros(elapsed, self.cfg.sample_hz);
                                let target = st + elapsed_us;
                                if target < STALL_MIN_MICROS {
                                    STALL_MIN_MICROS
                                } else if target > STALL_MAX_MICROS {
                                    STALL_MAX_MICROS
                                } else {
                                    target
                                }
                            },
                            None => st,
                        }),
                    };
                    self.script = script;
                    self.stall(stall_time);
                    true
                } else {
                    false
                }
            },
        }
    }
}

/// Stall recovery terminates.  A stall leaves the lookahead at zero and
/// every `Extended` step advances it by one fixed step, so after two
/// extensions the lookahead has passed the priming threshold — and
/// `render_step` then commits a start frame the moment it extends with
/// the threshold passed.  Between extensions, a script whose notes are at
/// least one step apart puts at most one note into each window, so only a
/// bounded number of rendering steps separates the extensions.
pub proof fn lemma_stall_recovery_terminates(rqu: int, extensions: int)
    requires
        0 <= rqu,
        2 <= extensions,
    ensures
        rqu + extensions * LOOKAHEAD_STEP_MICROS > PRIME_MICROS,
{
    assert(extensions * LOOKAHEAD_STEP_MICROS >= 2 * LOOKAHEAD_STEP_MICROS) by (nonlinear_arith)
        requires 2 <= extensions;
}

/// What one turn of the preparation loop did, and what the caller must do
/// next: render a descriptor into the cache, forward a note or a stop to
/// the audio thread, or wait for the next message.
pub enum RenderStepOutcome {
    /// Nothing to do until the next message arrives.
    Idle,
    /// The note due next has no cached rendering: the caller must render
    /// this descriptor into the cache, then step again.
    NeedsRender(NoteDescriptor),
    /// One note's rendering was confirmed and it moved to the playback
    /// queue.
    Rendered,
    /// A rendered note is due: the caller must forward it to the audio
    /// thread as an `AddNote`.
    Sent(PlaybackNote),
    /// The thread fell behind schedule and restarted at the given script
    /// time; the caller must forward a `Stop` to the audio thread.
    Restarted(Micros),
    /// The lookahead window advanced one step.
    Extended,
}

impl RenderThread {
    /// One turn of the preparation loop (the body of `render_loop`).
    /// Returns what was done; `Idle` means the thread should block on its
    /// inbound channel.
    pub fn render_step(&mut self, cache: &RenderCache) -> (r: RenderStepOutcome)
        requires
            old(self).wf(),
            cache.wf(),
        ensures
            final(self).wf(),
            ({
                let s = *old(self);
                let hz = s.cfg.sample_hz;
                match r {
                    RenderStepOutcome::Idle => {
                        &&& Self::same_state(s, *final(self))
                        &&& (s.specified_playback_start_script_time is None
                            || (s.render_queue@.len() == 0
                                && s.playback_queue@.len() == 0
                                && s.actual_playback_start_frame_time is Some
                                && s.renders_queued_until > spec_frames_to_micros(
                                    s.latest_playback_reached
                                        - s.actual_playback_start_frame_time.unwrap(),
                                    hz as int) + PLAYING_LOOKAHEAD_MICROS))
                    },
                    RenderStepOutcome::NeedsRender(d) => {
                        &&& Self::same_state(s, *final(self))
                        &&& s.specified_playback_start_script_time is Some
                        &&& s.render_queue@.len() > 0
                        &&& d == s.render_queue@.last().note.spec_descriptor()
                        &&& !cache.spec_has(d, hz)
                    },
                    RenderStepOutcome::Rendered => {
                        &&& s.specified_playback_start_script_time is Some
                        &&& s.render_queue@.len() > 0
                        &&& cache.spec_has(s.render_queue@.last().note.spec_descriptor(), hz)
                        &&& final(self).render_queue@ == s.render_queue@.drop_last()
                        &&& final(self).playback_queue@
                                == s.playback_queue@.push(s.render_queue@.last())
                        &&& final(self).cfg == s.cfg
                        &&& final(self).script.notes@ == s.script.notes@
                        &&& final(self).script.end == s.script.end
                        &&& final(self).script.loop_back_to == s.script.loop_back_to
                        &&& final(self).latest_playback_reached == s.latest_playback_reached
                        &&& final(self).renders_queued_until == s.renders_queued_until
                        &&& final(self).specified_playback_start_script_time
                                == s.specified_playback_start_script_time
                        &&& final(self).actual_playback_start_frame_time
                                == s.actual_playback_start_frame_time
                    },
                    RenderStepOutcome::Sent(note) => {
                        &&& s.specified_playback_start_script_time is Some
                        &&& s.actual_playback_start_frame_time is Some
                        &&& s.render_queue@.len() == 0
                        &&& s.playback_queue@.len() > 0
                        &&& ({
                            let next = s.playback_queue@.last();
                            let fs = s.actual_playback_start_frame_time.unwrap();
                            let nft = fs + spec_micros_to_frames(
                                next.duration_from_start as int, hz as int);
                            &&& note.first_sample_time == nft
                            &&& note.first_sample_time
                                    > s.latest_playback_reached + s.cfg.frames_per_buffer
                            &&& note.fadein_start == (if nft < fs { Some(fs) } else { None::<i64> })
                            &&& note.fadeout_end is None
                            &&& note.frames@ == (
                                    if cache.spec_has(next.note.spec_descriptor(), hz) {
                                        cache.spec_frames(next.note.spec_descriptor(), hz)
                                    } else {
                                        Seq::<crate::units::Sample>::empty()
                                    })
                            &&& note.wf()
                        })
                        &&& final(self).playback_queue@ == s.playback_queue@.drop_last()
                        &&& final(self).render_queue@ == s.render_queue@
                        &&& final(self).cfg == s.cfg
                        &&& final(self).script.notes@ == s.script.notes@
                        &&& final(self).script.end == s.script.end
                        &&& final(self).script.loop_back_to == s.script.loop_back_to
                        &&& final(self).latest_playback_reached == s.latest_playback_reached
                        &&& final(self).renders_queued_until == s.renders_queued_until
                        &&& final(self).specified_playback_start_script_time
                                == s.specified_playback_start_script_time
                        &&& final(self).actual_playback_start_frame_time
                                == s.actual_playback_start_frame_time
                    },
                    RenderStepOutcome::Restarted(t) => {
                        &&& s.specified_playback_start_script_time is Some
                        &&& s.actual_playback_start_frame_time is Some
                        &&& s.render_queue@.len() == 0
                        &&& s.playback_queue@.len() > 0
                        &&& t == s.playback_queue@.last().note.start_time
                        &&& ({
                            let next = s.playback_queue@.last();
                            let fs = s.actual_playback_start_frame_time.unwrap();
                            fs + spec_micros_to_frames(next.duration_from_start as int, hz as int)
                                <= s.latest_playback_reached + s.cfg.frames_per_buffer
                        })
                        &&& Self::spec_stalled(s, *final(self), Some(t))
                    },
                    RenderStepOutcome::Extended => {
                        &&& s.specified_playback_start_script_time is Some
                        &&& s.render_queue@.len() == 0
                        &&& (s.actual_playback_start_frame_time is Some
                                ==> s.playback_queue@.len() == 0)
                        &&& final(self).actual_playback_start_frame_time == (
                                if s.actual_playback_start_frame_time is None
                                    && s.renders_queued_until > PRIME_MICROS {
                                    Some((s.latest_playback_reached
                                        + PRIME_LEAD_BUFFERS * s.cfg.frames_per_buffer) as i64)
                                } else {
                                    s.actual_playback_start_frame_time
                                })
                        &&& final(self).renders_queued_until
                                == s.renders_queued_until + LOOKAHEAD_STEP_MICROS
                        &&& final(self).render_queue@ == window_notes(
                                s.script.notes@,
                                s.specified_playback_start_script_time.unwrap() as int,
                                s.renders_queued_until as int,
                                s.renders_queued_until + LOOKAHEAD_STEP_MICROS)
                        &&& final(self).playback_queue@ == s.playback_queue@
                        &&& final(self).cfg == s.cfg
                        &&& final(self).script.notes@ == s.script.notes@
                        &&& final(self).script.end == s.script.end
                        &&& final(self).script.loop_back_to == s.script.loop_back_to
                        &&& final(self).latest_playback_reached == s.latest_playback_reached
                        &&& final(self).specified_playback_start_script_time
                                == s.specified_playback_start_script_time
                    },
                }
            }),
    {
        let st = match self.specified_playback_start_script_time {
            Some(a) => a,
            None => {
                return RenderStepOutcome::Idle;
            },
        };
        if self.render_queue.len() > 0 {
            proof {
                assert(self.render_queue[self.render_queue.len() - 1].wf());
            }
            let desc = self.render_queue[self.render_queue.len() - 1].note.descriptor();
            if cache.has(&desc, self.cfg.sample_hz) {
                let top = self.render_queue.pop().unwrap();
                self.playback_queue.push(top);
                return RenderStepOutcome::Rendered;
            } else {
                return RenderStepOutcome::NeedsRender(desc);
            }
        }
        match self.actual_playback_start_frame_time {
            Some(fs) => {
                if self.playback_queue.len() > 0 {
                    proof {
                        assert(self.playback_queue[self.playback_queue.len() - 1].wf());
                    }
                    let next = self.playback_queue.pop().unwrap();
                    let offset_frames = micros_to_frames(next.duration_from_start, self.cfg.sample_hz);
                    let note_frame_time = fs + offset_frames;
                    if note_frame_time > self.latest_playback_reached + self.cfg.frames_per_buffer as i64 {
                        let desc = next.note.descriptor();
                        let frames = match cache.lookup(&desc, self.cfg.sample_hz) {
                            Some(f) => f,
                            None => Vec::new(),
                        };
                        let note = PlaybackNote {
                            frames,
                            first_sample_time: note_frame_time,
                            fadein_start: if note_frame_time < fs { Some(fs) } else { None },
                            fadeout_end: None,
                        };
                        return RenderStepOutcome::Sent(note);
                    } else {
                        let t = next.note.start_time;
                        self.stall(Some(t));
                        return RenderStepOutcome::Restarted(t);
                    }
                }
                let elapsed = self.latest_playback_reached - fs;
                let elapsed_us = frames_to_micros(elapsed, self.cfg.sample_hz);
                if self.renders_queued_until > elapsed_us + PLAYING_LOOKAHEAD_MICROS {
                    return RenderStepOutcome::Idle;
                }
                proof {
                    if elapsed >= 0 {
                        lemma_round_div_bound(elapsed as int * MICROS_PER_SECOND as int,
                            self.cfg.sample_hz as int, 10_000_000_000_000_000);
                        assert(elapsed as int * MICROS_PER_SECOND as int
                            <= 10_000_000_000_000_000 * self.cfg.sample_hz as int) by (nonlinear_arith)
                            requires
                                0 <= elapsed as int <= 1_000_000_000_000,
                                100 <= self.cfg.sample_hz as int,
                        ;
                    }
                }
            },
            None => {
                if self.renders_queued_until > PRIME_MICROS {
                    let lead = PRIME_LEAD_BUFFERS * self.cfg.frames_per_buffer as i64;
                    self.actual_playback_start_frame_time
                        = Some(self.latest_playback_reached + lead);
                }
            },
        }
        self.extend_window();
        RenderStepOutcome::Extended
    }
}

} // verus!
