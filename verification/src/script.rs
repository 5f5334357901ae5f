//! Playback scripts: what the editor hands the preparation thread.

use vstd::prelude::*;
use crate::units::{Micros, MAX_SCRIPT_MICROS};
use crate::note::{NoteDescriptor, FluidsynthDirectlyRenderableMIDINote,
    FluidsynthDirectlyRenderableMIDIInstrument};

verus! {

/// One note of a playback script: a melodic note on the default
/// instrument, identified by start, duration and pitch.
#[derive(Clone, Copy, PartialEq, Eq, Structural, Debug)]
pub struct Note {
    pub start_time: Micros,
    pub duration: Micros,
    pub pitch: i32,
}

impl Note {
    pub open spec fn wf(self) -> bool {
        &&& -MAX_SCRIPT_MICROS <= self.start_time <= MAX_SCRIPT_MICROS
        &&& 0 <= self.duration <= MAX_SCRIPT_MICROS
    }

    pub open spec fn spec_end_time(self) -> int {
        self.start_time + self.duration
    }

    pub fn end_time(&self) -> (r: Micros)
        requires
            self.wf(),
        ensures
            r == self.spec_end_time(),
    {
        self.start_time + self.duration
    }

    /// The rendering content of this note: velocity 100 on the first
    /// General MIDI program, as the live engine schedules it.
    pub open spec fn spec_descriptor(self) -> NoteDescriptor {
        NoteDescriptor::Midi(FluidsynthDirectlyRenderableMIDINote {
            duration: self.duration,
            pitch: self.pitch,
            velocity: 100,
            instrument: FluidsynthDirectlyRenderableMIDIInstrument {
                channel: 0,
                bank: 0,
                preset: 0,
            },
        })
    }

    pub fn descriptor(&self) -> (r: NoteDescriptor)
        ensures
            r == self.spec_descriptor(),
    {
        NoteDescriptor::Midi(FluidsynthDirectlyRenderableMIDINote {
            duration: self.duration,
            pitch: self.pitch,
            velocity: 100,
            instrument: FluidsynthDirectlyRenderableMIDIInstrument::pitched(1),
        })
    }
}

/// A playback script: an ordered note list with optional end and loop
/// markers.  A script is replaced wholesale, never mutated in place.
#[derive(Debug)]
pub struct PlaybackScript {
    pub notes: Vec<Note>,
    pub end: Option<Micros>,
    pub loop_back_to: Option<Micros>,
}

impl PlaybackScript {
    pub open spec fn wf(self) -> bool {
        &&& forall|i: int| 0 <= i < self.notes.len() ==> (#[trigger] self.notes[i]).wf()
        &&& match self.end {
                Some(t) => -MAX_SCRIPT_MICROS <= t <= MAX_SCRIPT_MICROS,
                None => true,
            }
        &&& match self.loop_back_to {
                Some(t) => -MAX_SCRIPT_MICROS <= t <= MAX_SCRIPT_MICROS,
                None => true,
            }
    }

    /// A script the engine accepts at the message boundary: well-formed
    /// times and a non-empty note list.
    pub open spec fn valid(self) -> bool {
        &&& self.wf()
        &&& self.notes.len() >= 1
    }

    /// The empty script the engine starts with.
    pub fn empty() -> (r: Self)
        ensures
            r.wf(),
            r.notes@ == Seq::<Note>::empty(),
            r.end is None,
            r.loop_back_to is None,
    {
        PlaybackScript { notes: Vec::new(), end: None, loop_back_to: None }
    }

    /// Checks whether the engine accepts this script.
    pub fn validate(&self) -> (r: bool)
        ensures
            r == self.valid(),
    {
        if self.notes.len() < 1 {
            return false;
        }
        match self.end {
            Some(t) => {
                if t < -MAX_SCRIPT_MICROS || t > MAX_SCRIPT_MICROS {
                    return false;
                }
            },
            None => {},
        }
        match self.loop_back_to {
            Some(t) => {
                if t < -MAX_SCRIPT_MICROS || t > MAX_SCRIPT_MICROS {
                    return false;
                }
            },
            None => {},
        }
        let mut i: usize = 0;
        while i < self.notes.len()
            invariant
                i <= self.notes.len(),
                forall|j: int| 0 <= j < i ==> (#[trigger] self.notes[j]).wf(),
            decreases self.notes.len() - i,
        {
            let n = &self.notes[i];
            if n.start_time < -MAX_SCRIPT_MICROS || n.start_time > MAX_SCRIPT_MICROS
                || n.duration < 0 || n.duration > MAX_SCRIPT_MICROS {
                return false;
            }
            i += 1;
        }
        true
    }
}

} // verus!
