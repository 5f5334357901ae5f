//! The rendered-note cache.
//!
//! Each distinct (descriptor, sample rate) pair is rendered exactly once;
//! afterwards every playback of the same content reuses the stored frames
//! unchanged.  The synthesis backend lives outside this crate: when a
//! lookup misses, the caller renders the descriptor and stores the result
//! here, and a second attempt to store the same key is ignored.

use vstd::prelude::*;
use crate::units::{Sample, MAX_FRAME_TIME, NOTE_SAMPLE_LIMIT};
use crate::note::NoteDescriptor;

verus! {

/// One rendered note: its content key, the sample rate it was rendered
/// at, and the frames the backend produced.
pub struct CacheEntry {
    pub descriptor: NoteDescriptor,
    pub sample_hz: u32,
    pub frames: Vec<Sample>,
}

impl CacheEntry {
    pub open spec fn wf(self) -> bool {
        &&& self.frames.len() <= MAX_FRAME_TIME
        &&& forall|i: int| 0 <= i < self.frames.len()
                ==> -NOTE_SAMPLE_LIMIT <= #[trigger] self.frames[i] <= NOTE_SAMPLE_LIMIT
    }
}

/// Frames a note's samples must respect so that mixing them stays within
/// a machine word.
pub open spec fn frames_wf(frames: Seq<Sample>) -> bool {
    &&& frames.len() <= MAX_FRAME_TIME
    &&& forall|i: int| 0 <= i < frames.len()
            ==> -NOTE_SAMPLE_LIMIT <= #[trigger] frames[i] <= NOTE_SAMPLE_LIMIT
}

/// The process-wide rendered-note cache.  It never evicts: the number of
/// distinct descriptors is bounded by the musical material of a session.
pub struct RenderCache {
    pub entries: Vec<CacheEntry>,
}

impl RenderCache {
    pub open spec fn wf(self) -> bool {
        &&& forall|i: int| 0 <= i < self.entries.len() ==> (#[trigger] self.entries[i]).wf()
        &&& forall|i: int, j: int|
                0 <= i < j < self.entries.len()
                ==> !(#[trigger] self.entries[i].descriptor == #[trigger] self.entries[j].descriptor
                        && self.entries[i].sample_hz == self.entries[j].sample_hz)
    }

    /// Whether a rendering for this key is stored.
    pub open spec fn spec_has(self, d: NoteDescriptor, hz: u32) -> bool {
        exists|i: int| 0 <= i < self.entries.len()
            && (#[trigger] self.entries[i]).descriptor == d
            && self.entries[i].sample_hz == hz
    }

    /// The frames stored for this key.
    pub open spec fn spec_frames(self, d: NoteDescriptor, hz: u32) -> Seq<Sample> {
        let i = choose|i: int| 0 <= i < self.entries.len()
            && (#[trigger] self.entries[i]).descriptor == d
            && self.entries[i].sample_hz == hz;
        self.entries[i].frames@
    }

    pub fn new() -> (r: Self)
        ensures
            r.wf(),
            forall|d: NoteDescriptor, hz: u32| !r.spec_has(d, hz),
    {
        RenderCache { entries: Vec::new() }
    }

    /// The index holding this key, if any.
    fn find(&self, d: &NoteDescriptor, hz: u32) -> (r: Option<usize>)
        requires
            self.wf(),
        ensures
            match r {
                Some(i) => i < self.entries.len()
                    && self.entries[i as int].descriptor == *d
                    && self.entries[i as int].sample_hz == hz
                    && self.spec_has(*d, hz)
                    && self.spec_frames(*d, hz) == self.entries[i as int].frames@,
                None => !self.spec_has(*d, hz),
            },
    {
        let mut i: usize = 0;
        while i < self.entries.len()
            invariant
                i <= self.entries.len(),
                self.wf(),
                forall|j: int| 0 <= j < i
                    ==> !((#[trigger] self.entries[j]).descriptor == *d
                            && self.entries[j].sample_hz == hz),
            decreases self.entries.len() - i,
        {
            let e = &self.entries[i];
            if e.sample_hz == hz && e.descriptor == *d {
                proof {
                    let w = choose|w: int| 0 <= w < self.entries.len()
                        && (#[trigger] self.entries[w]).descriptor == *d
                        && self.entries[w].sample_hz == hz;
                    assert(w == i);
                }
                return Some(i);
            }
            i += 1;
        }
        None
    }

    pub fn has(&self, d: &NoteDescriptor, hz: u32) -> (r: bool)
        requires
            self.wf(),
        ensures
            r == self.spec_has(*d, hz),
    {
        match self.find(d, hz) {
            Some(_) => true,
            None => false,
        }
    }

    /// The stored frames for this key, or `None` on a miss.  Two lookups
    /// of the same key on the same cache return the same frames.
    pub fn lookup(&self, d: &NoteDescriptor, hz: u32) -> (r: Option<Vec<Sample>>)
        requires
            self.wf(),
        ensures
            match r {
                Some(frames) => self.spec_has(*d, hz) && frames@ == self.spec_frames(*d, hz)
                    && frames_wf(frames@),
                None => !self.spec_has(*d, hz),
            },
    {
        match self.find(d, hz) {
            Some(i) => {
                let frames = self.entries[i].frames.clone();
                proof {
                    assert(frames@ =~= self.entries[i as int].frames@);
                }
                Some(frames)
            },
            None => None,
        }
    }

    /// Stores a rendering for a key.  The first store for a key wins:
    /// rendering is deterministic per descriptor, so a second rendering
    /// of the same key could only be the same frames again.
    pub fn insert(&mut self, d: NoteDescriptor, hz: u32, frames: Vec<Sample>)
        requires
            old(self).wf(),
            frames_wf(frames@),
        ensures
            final(self).wf(),
            final(self).spec_has(d, hz),
            final(self).spec_frames(d, hz)
                == if old(self).spec_has(d, hz) { old(self).spec_frames(d, hz) } else { frames@ },
            forall|d2: NoteDescriptor, hz2: u32| !(d2 == d && hz2 == hz)
                ==> #[trigger] final(self).spec_has(d2, hz2) == old(self).spec_has(d2, hz2),
            forall|d2: NoteDescriptor, hz2: u32|
                !(d2 == d && hz2 == hz) && #[trigger] old(self).spec_has(d2, hz2)
                ==> final(self).spec_frames(d2, hz2) == old(self).spec_frames(d2, hz2),
    {
        match self.find(&d, hz) {
            Some(_) => {},
            None => {
                let ghost before = self.entries@;
                self.entries.push(CacheEntry { descriptor: d, sample_hz: hz, frames });
                proof {
                    assert forall|d2: NoteDescriptor, hz2: u32|
                        !(d2 == d && hz2 == hz) && #[trigger] self.spec_has(d2, hz2)
                        implies old(self).spec_has(d2, hz2) by {
                        let w = choose|w: int| 0 <= w < self.entries.len()
                            && (#[trigger] self.entries[w]).descriptor == d2
                            && self.entries[w].sample_hz == hz2;
                        assert(w < before.len());
                        assert(before[w].descriptor == d2 && before[w].sample_hz == hz2);
                    }
                    assert forall|d2: NoteDescriptor, hz2: u32|
                        !(d2 == d && hz2 == hz) && #[trigger] old(self).spec_has(d2, hz2)
                        implies self.spec_has(d2, hz2)
                            && self.spec_frames(d2, hz2) == old(self).spec_frames(d2, hz2) by {
                        let w = choose|w: int| 0 <= w < before.len()
                            && (#[trigger] before[w]).descriptor == d2
                            && before[w].sample_hz == hz2;
                        assert(self.entries[w].descriptor == d2 && self.entries[w].sample_hz == hz2);
                        lemma_unique_key_frames(*self, d2, hz2, w);
                        let w0 = choose|w0: int| 0 <= w0 < old(self).entries.len()
                            && (#[trigger] old(self).entries[w0]).descriptor == d2
                            && old(self).entries[w0].sample_hz == hz2;
                        assert(self.entries[w0].descriptor == d2 && self.entries[w0].sample_hz == hz2);
                        lemma_unique_key_frames(*self, d2, hz2, w0);
                    }
                    let n = self.entries.len() - 1;
                    assert(self.entries[n as int].descriptor == d && self.entries[n as int].sample_hz == hz);
                    lemma_unique_key_frames(*self, d, hz, n as int);
                }
            },
        }
    }
}

impl RenderCache {
    /// Renders a descriptor through the cache.  On a miss the caller's
    /// freshly synthesized frames are stored and returned; on a hit the
    /// stored frames are returned and the fresh ones discarded, so the
    /// first rendering of a key is the one every playback uses.
    pub fn render_cached(&mut self, d: NoteDescriptor, hz: u32, fresh: Vec<Sample>) -> (out: Vec<Sample>)
        requires
            old(self).wf(),
            frames_wf(fresh@),
        ensures
            final(self).wf(),
            final(self).spec_has(d, hz),
            out@ == final(self).spec_frames(d, hz),
            out@ == if old(self).spec_has(d, hz) { old(self).spec_frames(d, hz) } else { fresh@ },
            forall|d2: NoteDescriptor, hz2: u32| !(d2 == d && hz2 == hz)
                ==> #[trigger] final(self).spec_has(d2, hz2) == old(self).spec_has(d2, hz2),
    {
        self.insert(d, hz, fresh);
        match self.lookup(&d, hz) {
            Some(frames) => frames,
            None => {
                proof {
                    assert(false);
                }
                Vec::new()
            },
        }
    }
}

/// Cache determinism: rendering one descriptor twice at one sample rate
/// yields identical frame buffers.  The hypotheses are exactly what two
/// successive `render_cached` calls ensure; the second synthesis run's
/// output is irrelevant, because the first rendering is already stored.
pub proof fn lemma_render_cached_deterministic(
    c1: RenderCache,
    d: NoteDescriptor,
    hz: u32,
    out1: Seq<Sample>,
    out2: Seq<Sample>,
    fresh2: Seq<Sample>,
)
    requires
        c1.spec_has(d, hz),
        out1 == c1.spec_frames(d, hz),
        out2 == if c1.spec_has(d, hz) { c1.spec_frames(d, hz) } else { fresh2 },
    ensures
        out2 == out1,
{
}

/// In a well-formed cache any index holding a key gives that key's frames.
proof fn lemma_unique_key_frames(c: RenderCache, d: NoteDescriptor, hz: u32, i: int)
    requires
        c.wf(),
        0 <= i < c.entries.len(),
        c.entries[i].descriptor == d,
        c.entries[i].sample_hz == hz,
    ensures
        c.spec_has(d, hz),
        c.spec_frames(d, hz) == c.entries[i].frames@,
{
    let w = choose|w: int| 0 <= w < c.entries.len()
        && (#[trigger] c.entries[w]).descriptor == d
        && c.entries[w].sample_hz == hz;
    if w != i {
        if w < i {
            assert(!(c.entries[w].descriptor == c.entries[i].descriptor
                && c.entries[w].sample_hz == c.entries[i].sample_hz));
        } else {
            assert(!(c.entries[i].descriptor == c.entries[w].descriptor
                && c.entries[i].sample_hz == c.entries[w].sample_hz));
        }
    }
}

} // verus!
