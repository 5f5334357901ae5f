//! Positioned sample sequences and additive rendering.
//!
//! A `PositionedSequence` is rendered audio pinned to a frame position at
//! its own sample rate.  Rendering mixes an entity additively into a
//! caller's buffer; when the device rate differs from the stored rate the
//! sequence is resampled by linear interpolation, with out-of-range
//! lookups reading as silence.  A homogeneous collection of renderables
//! is itself renderable, child by child.

use vstd::prelude::*;
use crate::units::{Sample, FrameTime, Micros, MAX_FRAME_TIME, MAX_SAMPLE_HZ, MAX_SCRIPT_MICROS,
    NOTE_SAMPLE_LIMIT, MIX_VALUE_LIMIT, MAX_ACTIVE_NOTES, MICROS_PER_SECOND, floor_div,
    frames_to_micros, spec_frames_to_micros, micros_to_frames_ceil, micros_to_frames_floor,
    spec_micros_to_frames_ceil, spec_micros_to_frames_floor, lemma_ceil_floor_div_bound};
use crate::note::Windowed;

verus! {

/// Rendered audio occupying `[start, start + frames.len())` on a clock
/// running at `sample_hz` frames per second.
pub struct PositionedSequence {
    pub start: FrameTime,
    pub sample_hz: u32,
    pub frames: Vec<Sample>,
}

impl PositionedSequence {
    pub open spec fn wf(self) -> bool {
        &&& 1 <= self.sample_hz <= MAX_SAMPLE_HZ
        &&& -MAX_FRAME_TIME <= self.start <= MAX_FRAME_TIME
        &&& self.frames.len() <= MAX_FRAME_TIME
        &&& forall|i: int| 0 <= i < self.frames.len()
                ==> -NOTE_SAMPLE_LIMIT <= #[trigger] self.frames[i] <= NOTE_SAMPLE_LIMIT
    }

    /// The stored sample at index `idx`, silence outside the buffer.
    pub open spec fn index_or_zero(self, idx: int) -> int {
        if 0 <= idx < self.frames.len() {
            self.frames[idx] as int
        } else {
            0
        }
    }

    /// The sample at frame `t` of the sequence's own clock.
    pub open spec fn sample_at(self, t: int) -> int {
        self.index_or_zero(t - self.start)
    }

    /// Linear interpolation at frame `t` of a device running at
    /// `device_hz`: the two nearest stored samples are blended by the
    /// fractional source position.  Positions before the sequence read
    /// as silence.
    pub open spec fn spec_resampled_at(self, t: int, device_hz: int) -> int {
        let num = t * self.sample_hz - self.start * device_hz;
        if num < 0 {
            0
        } else {
            let idx = num / device_hz;
            let rem = num % device_hz;
            let prev = self.index_or_zero(idx);
            let next = self.index_or_zero(idx + 1);
            floor_div(prev * (device_hz - rem) + next * rem, device_hz)
        }
    }

    /// What the sequence adds at device frame `t`: its own sample when
    /// the rates agree, the interpolation otherwise.
    pub open spec fn contribution_at(self, t: int, device_hz: int) -> int {
        if device_hz == self.sample_hz {
            self.sample_at(t)
        } else {
            self.spec_resampled_at(t, device_hz)
        }
    }

    /// The stored sample at `idx`, silence outside the buffer.
    fn index_at(&self, idx: i64) -> (r: Sample)
        requires
            self.wf(),
        ensures
            r == self.index_or_zero(idx as int),
            -NOTE_SAMPLE_LIMIT <= r <= NOTE_SAMPLE_LIMIT,
    {
        if idx >= 0 && (idx as u64) < (self.frames.len() as u64) {
            self.frames[idx as usize]
        } else {
            0
        }
    }

    /// Linear resampling of one output frame.
    pub fn interpolate_sample(&self, t: FrameTime, device_hz: u32) -> (r: Sample)
        requires
            self.wf(),
            1 <= device_hz <= MAX_SAMPLE_HZ,
            -2 * MAX_FRAME_TIME <= t <= 2 * MAX_FRAME_TIME,
        ensures
            r == self.spec_resampled_at(t as int, device_hz as int),
            -NOTE_SAMPLE_LIMIT <= r <= NOTE_SAMPLE_LIMIT,
    {
        let dhz = device_hz as i64;
        let shz = self.sample_hz as i64;
        assert(-2_000_000_000_000_000_000 <= t as int * shz as int <= 2_000_000_000_000_000_000)
            by (nonlinear_arith)
            requires
                -2_000_000_000_000 <= t as int <= 2_000_000_000_000,
                1 <= shz as int <= 1_000_000,
        ;
        assert(-1_000_000_000_000_000_000 <= self.start as int * dhz as int <= 1_000_000_000_000_000_000)
            by (nonlinear_arith)
            requires
                -1_000_000_000_000 <= self.start as int <= 1_000_000_000_000,
                1 <= dhz as int <= 1_000_000,
        ;
        let num = t * shz - self.start * dhz;
        if num < 0 {
            return 0;
        }
        proof {
            vstd::arithmetic::div_mod::lemma_div_pos_is_pos(num as int, dhz as int);
            vstd::arithmetic::div_mod::lemma_div_is_ordered_by_denominator(num as int, 1, dhz as int);
            vstd::arithmetic::div_mod::lemma_div_basics(num as int);
            vstd::arithmetic::div_mod::lemma_mod_division_less_than_divisor(num as int, dhz as int);
        }
        let idx = num / dhz;
        let rem = num % dhz;
        let prev = self.index_at(idx);
        let next = self.index_at(idx + 1);
        assert(-4_294_967_296_000_000 <= prev as int * (dhz - rem) as int <= 4_294_967_296_000_000)
            by (nonlinear_arith)
            requires
                -4_294_967_296 <= prev as int <= 4_294_967_296,
                0 <= (dhz - rem) as int <= 1_000_000,
        ;
        assert(-4_294_967_296_000_000 <= next as int * rem as int <= 4_294_967_296_000_000)
            by (nonlinear_arith)
            requires
                -4_294_967_296 <= next as int <= 4_294_967_296,
                0 <= rem as int <= 1_000_000,
        ;
        let blend = prev * (dhz - rem) + next * rem;
        proof {
            lemma_blend_bound(prev as int, next as int, rem as int, dhz as int);
        }
        if blend >= 0 {
            blend / dhz
        } else {
            -((-blend + dhz - 1) / dhz)
        }
    }
}

/// A blend of two bounded samples by complementary weights stays within
/// the same bound.
proof fn lemma_blend_bound(prev: int, next: int, rem: int, d: int)
    requires
        -NOTE_SAMPLE_LIMIT <= prev <= NOTE_SAMPLE_LIMIT,
        -NOTE_SAMPLE_LIMIT <= next <= NOTE_SAMPLE_LIMIT,
        0 <= rem < d,
        1 <= d,
    ensures
        -NOTE_SAMPLE_LIMIT <= floor_div(prev * (d - rem) + next * rem, d) <= NOTE_SAMPLE_LIMIT,
{
    let l = NOTE_SAMPLE_LIMIT as int;
    let blend = prev * (d - rem) + next * rem;
    assert(-(l * d) <= blend <= l * d) by (nonlinear_arith)
        requires
            blend == prev * (d - rem) + next * rem,
            -l <= prev <= l,
            -l <= next <= l,
            0 <= rem < d,
            0 < l,
    ;
    assert((l * d + d - 1) / d == l) by {
        vstd::arithmetic::div_mod::lemma_fundamental_div_mod_converse_div(
            l * d + d - 1, d, l, d - 1);
    }
    if blend >= 0 {
        assert(blend / d <= (l * d + d - 1) / d) by {
            vstd::arithmetic::div_mod::lemma_div_is_ordered(blend, l * d + d - 1, d);
        }
        assert(0 <= blend / d) by {
            vstd::arithmetic::div_mod::lemma_div_pos_is_pos(blend, d);
        }
    } else {
        assert((-blend + d - 1) / d <= (l * d + d - 1) / d) by {
            vstd::arithmetic::div_mod::lemma_div_is_ordered(-blend + d - 1, l * d + d - 1, d);
        }
        assert(0 <= (-blend + d - 1) / d) by {
            vstd::arithmetic::div_mod::lemma_div_pos_is_pos(-blend + d - 1, d);
        }
    }
}

/// Resampling a sequence to its own sample rate is the identity: at
/// every frame the interpolation lands exactly on a stored sample.
pub proof fn lemma_resample_identity(s: PositionedSequence, t: int)
    requires
        s.wf(),
    ensures
        s.spec_resampled_at(t, s.sample_hz as int) == s.sample_at(t),
{
    let hz = s.sample_hz as int;
    let num = t * hz - s.start * hz;
    assert(num == (t - s.start) * hz) by (nonlinear_arith)
        requires
            num == t * hz - s.start * hz,
    ;
    if t < s.start {
        assert(num < 0) by (nonlinear_arith)
            requires num == (t - s.start) * hz, t - s.start <= -1, hz >= 1;
        assert(s.sample_at(t) == 0);
    } else {
        assert(num >= 0) by (nonlinear_arith)
            requires num == (t - s.start) * hz, t - s.start >= 0, hz >= 1;
        assert(num / hz == t - s.start && num % hz == 0) by {
            vstd::arithmetic::div_mod::lemma_fundamental_div_mod_converse_div(
                num, hz, t - s.start, 0);
            vstd::arithmetic::div_mod::lemma_fundamental_div_mod_converse_mod(
                num, hz, t - s.start, 0);
        }
        let prev = s.index_or_zero(t - s.start);
        let nxt = s.index_or_zero(t - s.start + 1);
        let blend = prev * (hz - 0) + nxt * 0;
        assert(blend == prev * hz) by (nonlinear_arith)
            requires
                blend == prev * (hz - 0) + nxt * 0,
        ;
        if prev >= 0 {
            assert(blend >= 0) by (nonlinear_arith)
                requires blend == prev * hz, prev >= 0, hz >= 1;
            assert(blend / hz == prev) by {
                vstd::arithmetic::div_mod::lemma_fundamental_div_mod_converse_div(
                    blend, hz, prev, 0);
            }
        } else {
            assert(blend < 0) by (nonlinear_arith)
                requires blend == prev * hz, prev < 0, hz >= 1;
            assert(-blend == (-prev) * hz) by (nonlinear_arith)
                requires
                    blend == prev * hz,
            ;
            assert((-blend + hz - 1) / hz == -prev) by {
                vstd::arithmetic::div_mod::lemma_fundamental_div_mod_converse_div(
                    -blend + hz - 1, hz, -prev, hz - 1);
            }
        }
    }
}

/// An entity that can mix itself, sample-accurately and additively, into
/// a caller's buffer at a given device rate.
pub trait Renderable: Windowed {
    spec fn render_wf(&self) -> bool;

    /// A bound on the magnitude this entity can add to any one frame.
    spec fn spec_max_amplitude(&self) -> int;

    /// The value this entity adds at device frame `t`.
    spec fn spec_contribution(&self, t: int, device_hz: int) -> int;

    proof fn lemma_contribution_bounded(&self, t: int, device_hz: int)
        requires
            self.render_wf(),
            1 <= device_hz,
        ensures
            0 <= self.spec_max_amplitude(),
            -self.spec_max_amplitude() <= self.spec_contribution(t, device_hz)
                <= self.spec_max_amplitude(),
    ;

    /// Adds this entity's contribution to every frame of `buffer`,
    /// which starts at device frame `start`.
    fn render(&self, buffer: &mut Vec<Sample>, start: FrameTime, device_hz: u32)
        requires
            self.render_wf(),
            1 <= device_hz <= MAX_SAMPLE_HZ,
            -2 * MAX_FRAME_TIME <= start,
            start + old(buffer)@.len() <= 2 * MAX_FRAME_TIME,
            forall|i: int| 0 <= i < old(buffer)@.len()
                ==> -MIX_VALUE_LIMIT + self.spec_max_amplitude()
                    <= #[trigger] old(buffer)@[i]
                    <= MIX_VALUE_LIMIT - self.spec_max_amplitude(),
        ensures
            final(buffer)@.len() == old(buffer)@.len(),
            forall|i: int| 0 <= i < final(buffer)@.len()
                ==> #[trigger] final(buffer)@[i]
                    == old(buffer)@[i] + self.spec_contribution(start + i, device_hz as int),
    ;
}

impl Windowed for PositionedSequence {
    open spec fn windowed_wf(&self) -> bool {
        self.wf()
    }

    open spec fn spec_start(&self) -> int {
        spec_frames_to_micros(self.start as int, self.sample_hz as int)
    }

    open spec fn spec_end(&self) -> int {
        spec_frames_to_micros(self.start + self.frames.len() - 1, self.sample_hz as int)
    }

    fn start(&self) -> (r: Micros) {
        frames_to_micros(self.start, self.sample_hz)
    }

    fn end(&self) -> (r: Micros) {
        let len = self.frames.len() as i64;
        frames_to_micros(self.start + len - 1, self.sample_hz)
    }
}

impl Renderable for PositionedSequence {
    open spec fn render_wf(&self) -> bool {
        self.wf()
    }

    open spec fn spec_max_amplitude(&self) -> int {
        NOTE_SAMPLE_LIMIT as int
    }

    open spec fn spec_contribution(&self, t: int, device_hz: int) -> int {
        self.contribution_at(t, device_hz)
    }

    proof fn lemma_contribution_bounded(&self, t: int, device_hz: int) {
        if device_hz == self.sample_hz {
            assert(-NOTE_SAMPLE_LIMIT <= self.sample_at(t) <= NOTE_SAMPLE_LIMIT);
        } else {
            let num = t * self.sample_hz - self.start * device_hz;
            if num >= 0 {
                let idx = num / device_hz;
                let rem = num % device_hz;
                vstd::arithmetic::div_mod::lemma_mod_division_less_than_divisor(num, device_hz);
                lemma_blend_bound(self.index_or_zero(idx), self.index_or_zero(idx + 1),
                    rem, device_hz);
            }
        }
    }

    #[verifier::loop_isolation(false)]
    fn render(&self, buffer: &mut Vec<Sample>, start: FrameTime, device_hz: u32) {
        let ghost orig = buffer@;
        let same_rate = device_hz == self.sample_hz;
        let n = buffer.len();
        let mut i: usize = 0;
        while i < n
            invariant
                i <= n,
                buffer@.len() == n,
                forall|j: int| 0 <= j < n
                    ==> #[trigger] buffer@[j] == if j < i {
                            orig[j] + self.contribution_at(start + j, device_hz as int)
                        } else {
                            orig[j] as int
                        },
            decreases n - i,
        {
            let t = start + i as i64;
            let v = if same_rate {
                let off = t - self.start;
                self.index_at(off)
            } else {
                self.interpolate_sample(t, device_hz)
            };
            proof {
                assert(v == self.contribution_at(t as int, device_hz as int));
            }
            let mixed = buffer[i] + v;
            buffer[i] = mixed;
            i += 1;
        }
    }
}

/// The smallest start among the children, one second when there are none.
pub open spec fn seq_min_start<T: Windowed>(s: Seq<T>) -> int
    decreases s.len(),
{
    if s.len() == 0 {
        MICROS_PER_SECOND as int
    } else if s.len() == 1 {
        s[0].spec_start()
    } else {
        vstd::math::min(seq_min_start(s.drop_last()), s.last().spec_start())
    }
}

/// The largest end among the children, zero when there are none.
pub open spec fn seq_max_end<T: Windowed>(s: Seq<T>) -> int
    decreases s.len(),
{
    if s.len() == 0 {
        0
    } else if s.len() == 1 {
        s[0].spec_end()
    } else {
        vstd::math::max(seq_max_end(s.drop_last()), s.last().spec_end())
    }
}

/// An ordered collection of windowed entities is itself windowed, by the
/// union of its children's windows.
impl<T: Windowed> Windowed for Vec<T> {
    open spec fn windowed_wf(&self) -> bool {
        forall|i: int| 0 <= i < self@.len() ==> (#[trigger] self@[i]).windowed_wf()
    }

    open spec fn spec_start(&self) -> int {
        seq_min_start(self@)
    }

    open spec fn spec_end(&self) -> int {
        seq_max_end(self@)
    }

    #[verifier::loop_isolation(false)]
    fn start(&self) -> (r: Micros) {
        if self.len() == 0 {
            return MICROS_PER_SECOND;
        }
        proof {
            assert(self@[0].windowed_wf());
        }
        let mut m = self[0].start();
        let mut i: usize = 1;
        while i < self.len()
            invariant
                1 <= i <= self@.len(),
                m == seq_min_start(self@.take(i as int)),
            decreases self@.len() - i,
        {
            proof {
                assert(self@[i as int].windowed_wf());
                assert(self@.take(i as int + 1).drop_last() =~= self@.take(i as int));
                assert(self@.take(i as int + 1).last() == self@[i as int]);
            }
            let c = self[i].start();
            if c < m {
                m = c;
            }
            i += 1;
        }
        proof {
            assert(self@.take(i as int) =~= self@);
        }
        m
    }

    #[verifier::loop_isolation(false)]
    fn end(&self) -> (r: Micros) {
        if self.len() == 0 {
            return 0;
        }
        proof {
            assert(self@[0].windowed_wf());
        }
        let mut m = self[0].end();
        let mut i: usize = 1;
        while i < self.len()
            invariant
                1 <= i <= self@.len(),
                m == seq_max_end(self@.take(i as int)),
            decreases self@.len() - i,
        {
            proof {
                assert(self@[i as int].windowed_wf());
                assert(self@.take(i as int + 1).drop_last() =~= self@.take(i as int));
                assert(self@.take(i as int + 1).last() == self@[i as int]);
            }
            let c = self[i].end();
            if c > m {
                m = c;
            }
            i += 1;
        }
        proof {
            assert(self@.take(i as int) =~= self@);
        }
        m
    }
}

/// Sum of the amplitude bounds of the first `k` children.
pub open spec fn amplitude_upto<T: Renderable>(s: Seq<T>, k: int) -> int
    decreases k,
{
    if k <= 0 {
        0
    } else {
        amplitude_upto(s, k - 1) + s[k - 1].spec_max_amplitude()
    }
}

/// Sum of the contributions of the first `k` children at frame `t`.
pub open spec fn contribution_upto<T: Renderable>(s: Seq<T>, k: int, t: int, device_hz: int) -> int
    decreases k,
{
    if k <= 0 {
        0
    } else {
        contribution_upto(s, k - 1, t, device_hz) + s[k - 1].spec_contribution(t, device_hz)
    }
}

proof fn lemma_contribution_upto_bounded<T: Renderable>(s: Seq<T>, k: int, t: int, device_hz: int)
    requires
        0 <= k <= s.len(),
        forall|i: int| 0 <= i < s.len() ==> (#[trigger] s[i]).render_wf(),
        1 <= device_hz,
    ensures
        0 <= amplitude_upto(s, k),
        -amplitude_upto(s, k) <= contribution_upto(s, k, t, device_hz) <= amplitude_upto(s, k),
    decreases k,
{
    if k > 0 {
        lemma_contribution_upto_bounded(s, k - 1, t, device_hz);
        s[k - 1].lemma_contribution_bounded(t, device_hz);
    }
}

proof fn lemma_amplitude_upto_monotone<T: Renderable>(s: Seq<T>, j: int, k: int)
    requires
        0 <= j <= k <= s.len(),
        forall|i: int| 0 <= i < s.len() ==> (#[trigger] s[i]).render_wf(),
    ensures
        amplitude_upto(s, j) <= amplitude_upto(s, k),
    decreases k,
{
    if k > j {
        lemma_amplitude_upto_monotone(s, j, k - 1);
        s[k - 1].lemma_contribution_bounded(0, 1);
    }
}

/// An ordered collection of renderables is itself renderable: each child
/// mixes itself in, in order.
impl<T: Renderable> Renderable for Vec<T> {
    open spec fn render_wf(&self) -> bool {
        forall|i: int| 0 <= i < self@.len() ==> (#[trigger] self@[i]).render_wf()
    }

    open spec fn spec_max_amplitude(&self) -> int {
        amplitude_upto(self@, self@.len() as int)
    }

    open spec fn spec_contribution(&self, t: int, device_hz: int) -> int {
        contribution_upto(self@, self@.len() as int, t, device_hz)
    }

    proof fn lemma_contribution_bounded(&self, t: int, device_hz: int) {
        lemma_contribution_upto_bounded(self@, self@.len() as int, t, device_hz);
    }

    #[verifier::loop_isolation(false)]
    fn render(&self, buffer: &mut Vec<Sample>, start: FrameTime, device_hz: u32) {
        let ghost orig = buffer@;
        let ghost children = self@;
        let n = buffer.len();
        let mut k: usize = 0;
        while k < self.len()
            invariant
                k <= children.len(),
                self@ == children,
                buffer@.len() == n,
                forall|j: int| 0 <= j < n
                    ==> #[trigger] buffer@[j]
                        == orig[j] + contribution_upto(children, k as int, start + j, device_hz as int),
            decreases children.len() - k,
        {
            proof {
                assert(children[k as int].render_wf());
                lemma_amplitude_upto_monotone(children, k as int + 1, children.len() as int);
                assert forall|j: int| 0 <= j < n implies
                    -MIX_VALUE_LIMIT + children[k as int].spec_max_amplitude()
                        <= #[trigger] buffer@[j]
                        <= MIX_VALUE_LIMIT - children[k as int].spec_max_amplitude() by {
                    lemma_contribution_upto_bounded(children, k as int, start + j, device_hz as int);
                    children[k as int].lemma_contribution_bounded(start + j, device_hz as int);
                }
            }
            let child = &self[k];
            child.render(buffer, start, device_hz);
            k += 1;
        }
    }
}

/// Sum of the stored samples of the first `k` sequences at frame `t` of
/// their common clock.
pub open spec fn merged_sample_upto(s: Seq<PositionedSequence>, k: int, t: int) -> int
    decreases k,
{
    if k <= 0 {
        0
    } else {
        merged_sample_upto(s, k - 1, t) + s[k - 1].sample_at(t)
    }
}

/// The superposition of a collection of sequences at frame `t`.
pub open spec fn merged_sample(s: Seq<PositionedSequence>, t: int) -> int {
    merged_sample_upto(s, s.len() as int, t)
}

proof fn lemma_merged_sample_upto_bounded(s: Seq<PositionedSequence>, k: int, t: int)
    requires
        0 <= k <= s.len(),
        forall|i: int| 0 <= i < s.len() ==> (#[trigger] s[i]).wf(),
    ensures
        -k * NOTE_SAMPLE_LIMIT <= merged_sample_upto(s, k, t) <= k * NOTE_SAMPLE_LIMIT,
    decreases k,
{
    if k > 0 {
        lemma_merged_sample_upto_bounded(s, k - 1, t);
        assert(s[k - 1].wf());
    }
}

proof fn lemma_merged_sample_prefix(a: Seq<PositionedSequence>, b: Seq<PositionedSequence>, k: int, t: int)
    requires
        0 <= k <= a.len(),
    ensures
        merged_sample_upto(a + b, k, t) == merged_sample_upto(a, k, t),
    decreases k,
{
    if k > 0 {
        lemma_merged_sample_prefix(a, b, k - 1, t);
        assert((a + b)[k - 1] == a[k - 1]);
    }
}

proof fn lemma_merged_sample_take(s: Seq<PositionedSequence>, k: int, t: int)
    requires
        0 <= k <= s.len(),
    ensures
        merged_sample_upto(s, k, t) == merged_sample(s.take(k), t),
    decreases k,
{
    if k > 0 {
        lemma_merged_sample_take(s, k - 1, t);
        assert(s.take(k).drop_last() =~= s.take(k - 1));
        lemma_merged_sample_only_prefix(s.take(k), s.take(k - 1), k - 1, t);
    }
}

proof fn lemma_merged_sample_only_prefix(a: Seq<PositionedSequence>, b: Seq<PositionedSequence>, k: int, t: int)
    requires
        0 <= k,
        k <= a.len(),
        k <= b.len(),
        forall|i: int| 0 <= i < k ==> a[i] == b[i],
    ensures
        merged_sample_upto(a, k, t) == merged_sample_upto(b, k, t),
    decreases k,
{
    if k > 0 {
        lemma_merged_sample_only_prefix(a, b, k - 1, t);
    }
}

/// Superposition is additive: merging two collections of sequences gives,
/// at every frame, the sum of what each collection gives on its own.
pub proof fn lemma_merged_sample_additive(a: Seq<PositionedSequence>, b: Seq<PositionedSequence>, t: int)
    ensures
        merged_sample(a + b, t) == merged_sample(a, t) + merged_sample(b, t),
    decreases b.len(),
{
    if b.len() == 0 {
        assert(a + b =~= a);
        lemma_merged_sample_prefix(a, b, a.len() as int, t);
    } else {
        let b0 = b.drop_last();
        lemma_merged_sample_additive(a, b0, t);
        assert(a + b0 =~= (a + b).take(a.len() + b.len() - 1));
        lemma_merged_sample_take(a + b, a.len() + b.len() - 1, t);
        assert((a + b)[a.len() + b.len() - 1] == b.last());
        lemma_merged_sample_take(b, b.len() - 1, t);
        assert(b.take(b.len() - 1) =~= b0);
    }
}

/// Superimposes sequences that share a sample rate into one sequence
/// covering the union of their spans, summing overlapping samples.
#[verifier::loop_isolation(false)]
pub fn merge(sequences: &Vec<PositionedSequence>) -> (r: PositionedSequence)
    requires
        1 <= sequences@.len() <= MAX_ACTIVE_NOTES,
        forall|i: int| 0 <= i < sequences@.len() ==> (#[trigger] sequences@[i]).wf(),
        forall|i: int| 0 <= i < sequences@.len()
            ==> (#[trigger] sequences@[i]).sample_hz == sequences@[0].sample_hz,
    ensures
        r.sample_hz == sequences@[0].sample_hz,
        forall|i: int| 0 <= i < sequences@.len()
            ==> r.start <= (#[trigger] sequences@[i]).start
                && sequences@[i].start + sequences@[i].frames@.len()
                    <= r.start + r.frames@.len(),
        exists|i: int| 0 <= i < sequences@.len() && r.start == (#[trigger] sequences@[i]).start,
        exists|i: int| 0 <= i < sequences@.len()
            && r.start + r.frames@.len()
                == (#[trigger] sequences@[i]).start + sequences@[i].frames@.len(),
        forall|j: int| 0 <= j < r.frames@.len()
            ==> #[trigger] r.frames@[j] == merged_sample(sequences@, r.start + j),
    decreases 0int,
{
    let ghost children = sequences@;
    let n = sequences.len();
    proof {
        assert(children[0].wf());
    }
    let mut minimum = sequences[0].start;
    let mut maximum = sequences[0].start + sequences[0].frames.len() as i64;
    let ghost mut min_witness: int = 0;
    let ghost mut max_witness: int = 0;
    let mut i: usize = 1;
    while i < n
        invariant
            1 <= i <= n,
            -MAX_FRAME_TIME <= minimum,
            maximum <= 2 * MAX_FRAME_TIME,
            minimum <= maximum,
            0 <= min_witness < i,
            0 <= max_witness < i,
            minimum == children[min_witness].start,
            maximum == children[max_witness].start + children[max_witness].frames@.len(),
            forall|q: int| 0 <= q < i
                ==> minimum <= (#[trigger] children[q]).start
                    && children[q].start + children[q].frames@.len() <= maximum,
        decreases n - i,
    {
        proof {
            assert(children[i as int].wf());
        }
        let s = &sequences[i];
        let e = s.start + s.frames.len() as i64;
        if s.start < minimum {
            minimum = s.start;
            proof {
                min_witness = i as int;
            }
        }
        if e > maximum {
            maximum = e;
            proof {
                max_witness = i as int;
            }
        }
        i += 1;
    }

    let total = maximum - minimum;
    let mut frames: Vec<Sample> = Vec::new();
    let mut c: i64 = 0;
    while c < total
        invariant
            0 <= c <= total,
            frames@.len() == c,
            forall|j: int| 0 <= j < c ==> #[trigger] frames@[j] == 0,
        decreases total - c,
    {
        frames.push(0);
        c += 1;
    }

    let mut k: usize = 0;
    while k < n
        invariant
            k <= n,
            frames@.len() == total,
            forall|j: int| 0 <= j < total
                ==> #[trigger] frames@[j] == merged_sample_upto(children, k as int, minimum + j),
        decreases n - k,
    {
        proof {
            assert(children[k as int].wf());
        }
        let s = &sequences[k];
        let lo = s.start - minimum;
        let slen = s.frames.len();
        let mut j: usize = 0;
        while j < slen
            invariant
                j <= slen,
                frames@.len() == total,
                k < n,
                lo == children[k as int].start - minimum,
                slen == children[k as int].frames@.len(),
                forall|p: int| 0 <= p < total
                    ==> #[trigger] frames@[p] == merged_sample_upto(children, k as int, minimum + p)
                        + if lo <= p < lo + j {
                            children[k as int].sample_at(minimum + p)
                        } else {
                            0
                        },
            decreases slen - j,
        {
            proof {
                assert(children[k as int].wf());
                assert(0 <= lo);
                assert(lo + slen <= total);
                assert(j < slen);
            }
            let flen = frames.len();
            let pos_index = lo + j as i64;
            proof {
                assert(0 <= pos_index < flen as int);
            }
            let pos = pos_index as usize;
            proof {
                lemma_merged_sample_upto_bounded(children, k as int, minimum + lo + j);
                assert(children[k as int].sample_at(minimum + lo + j)
                    == children[k as int].frames@[j as int]);
            }
            let mixed = frames[pos] + s.frames[j];
            frames[pos] = mixed;
            proof {
                assert forall|p: int| 0 <= p < total implies
                    #[trigger] frames@[p] == merged_sample_upto(children, k as int, minimum + p)
                        + if lo <= p < lo + j + 1 {
                            children[k as int].sample_at(minimum + p)
                        } else {
                            0
                        } by {
                    if p != lo + j {
                        assert(frames@[p] == merged_sample_upto(children, k as int, minimum + p)
                            + if lo <= p < lo + j {
                                children[k as int].sample_at(minimum + p)
                            } else {
                                0
                            });
                    }
                }
            }
            j += 1;
        }
        proof {
            assert forall|p: int| 0 <= p < total implies
                #[trigger] frames@[p] == merged_sample_upto(children, k as int + 1, minimum + p) by {
                if !(lo <= p < lo + slen) {
                    assert(children[k as int].sample_at(minimum + p) == 0);
                }
            }
        }
        k += 1;
    }
    proof {
        assert(merged_sample_upto(children, n as int, minimum as int)
            == merged_sample(children, minimum as int));
    }
    PositionedSequence { start: minimum, sample_hz: sequences[0].sample_hz, frames }
}

/// The largest sample magnitude among the first `k` entries.
pub open spec fn max_abs_upto(s: Seq<Sample>, k: int) -> int
    decreases k,
{
    if k <= 0 {
        0
    } else {
        vstd::math::max(max_abs_upto(s, k - 1), vstd::math::abs(s[k - 1] as int) as int)
    }
}

/// A sample scaled down to the forced maximum, rounding the magnitude to
/// nearest and keeping the sign.
pub open spec fn scale_to_maximum(s: int, forced: int, peak: int) -> int {
    if s >= 0 {
        (2 * s * forced + peak) / (2 * peak)
    } else {
        -((2 * (-s) * forced + peak) / (2 * peak))
    }
}

proof fn lemma_scale_to_maximum_bound(s: int, forced: int, peak: int)
    requires
        -peak <= s <= peak,
        1 <= peak,
        0 <= forced,
    ensures
        -forced <= scale_to_maximum(s, forced, peak) <= forced,
{
    let m = if s >= 0 { s } else { -s };
    assert(2 * m * forced + peak <= forced * (2 * peak) + (2 * peak - 1)) by (nonlinear_arith)
        requires 0 <= m <= peak, 0 <= forced, 1 <= peak;
    assert((forced * (2 * peak) + (2 * peak - 1)) / (2 * peak) == forced) by {
        vstd::arithmetic::div_mod::lemma_fundamental_div_mod_converse_div(
            forced * (2 * peak) + (2 * peak - 1), 2 * peak, forced, 2 * peak - 1);
    }
    assert(0 <= 2 * m * forced + peak) by (nonlinear_arith)
        requires 0 <= m, 0 <= forced, 1 <= peak;
    assert((2 * m * forced + peak) / (2 * peak) <= forced) by {
        vstd::arithmetic::div_mod::lemma_div_is_ordered(
            2 * m * forced + peak, forced * (2 * peak) + (2 * peak - 1), 2 * peak);
    }
    assert(0 <= (2 * m * forced + peak) / (2 * peak)) by {
        vstd::arithmetic::div_mod::lemma_div_pos_is_pos(2 * m * forced + peak, 2 * peak);
    }
}

/// Scales a rendered buffer down so no sample magnitude exceeds
/// `forced_maximum`; a buffer already within the bound is left untouched.
#[verifier::loop_isolation(false)]
pub fn enforce_maximum(sequence: &mut Vec<Sample>, forced_maximum: i64)
    requires
        forall|i: int| 0 <= i < old(sequence)@.len()
            ==> -NOTE_SAMPLE_LIMIT <= #[trigger] old(sequence)@[i] <= NOTE_SAMPLE_LIMIT,
        0 <= forced_maximum <= 1_000_000_000,
    ensures
        final(sequence)@.len() == old(sequence)@.len(),
        ({
            let peak = max_abs_upto(old(sequence)@, old(sequence)@.len() as int);
            if peak <= forced_maximum {
                final(sequence)@ == old(sequence)@
            } else {
                forall|i: int| 0 <= i < final(sequence)@.len()
                    ==> #[trigger] final(sequence)@[i]
                        == scale_to_maximum(old(sequence)@[i] as int, forced_maximum as int, peak)
                        && -forced_maximum <= final(sequence)@[i] <= forced_maximum
            }
        }),
{
    let ghost orig = sequence@;
    let n = sequence.len();
    let mut peak: i64 = 0;
    let mut i: usize = 0;
    while i < n
        invariant
            i <= n,
            sequence@ == orig,
            peak == max_abs_upto(orig, i as int),
            0 <= peak <= NOTE_SAMPLE_LIMIT,
            forall|q: int| 0 <= q < i ==> -peak <= #[trigger] orig[q] <= peak,
        decreases n - i,
    {
        let s = sequence[i];
        let a = if s >= 0 { s } else { -s };
        if a > peak {
            peak = a;
        }
        i += 1;
    }
    if peak <= forced_maximum {
        return;
    }
    let mut j: usize = 0;
    while j < n
        invariant
            j <= n,
            sequence@.len() == n,
            1 <= peak <= NOTE_SAMPLE_LIMIT,
            forced_maximum < peak,
            0 <= forced_maximum <= 1_000_000_000,
            peak == max_abs_upto(orig, n as int),
            forall|q: int| 0 <= q < n ==> -peak <= #[trigger] orig[q] <= peak,
            forall|q: int| j <= q < n ==> #[trigger] sequence@[q] == orig[q],
            forall|q: int| 0 <= q < j
                ==> #[trigger] sequence@[q]
                    == scale_to_maximum(orig[q] as int, forced_maximum as int, peak as int)
                    && -forced_maximum <= sequence@[q] <= forced_maximum,
        decreases n - j,
    {
        let s = sequence[j];
        proof {
            lemma_scale_to_maximum_bound(s as int, forced_maximum as int, peak as int);
        }
        let scaled = if s >= 0 {
            assert(0 <= 2 * (s as int) * (forced_maximum as int) <= 8_589_934_592_000_000_000)
                by (nonlinear_arith)
                requires
                    0 <= s as int <= 4_294_967_296,
                    0 <= forced_maximum as int <= 1_000_000_000,
            ;
            (2 * s * forced_maximum + peak) / (2 * peak)
        } else {
            assert(0 <= 2 * ((-s) as int) * (forced_maximum as int) <= 8_589_934_592_000_000_000)
                by (nonlinear_arith)
                requires
                    0 <= (-s) as int <= 4_294_967_296,
                    0 <= forced_maximum as int <= 1_000_000_000,
            ;
            -((2 * (-s) * forced_maximum + peak) / (2 * peak))
        };
        sequence[j] = scaled;
        j += 1;
    }
}

impl PositionedSequence {
    /// Renders any renderable entity into a fresh sequence covering its
    /// whole window at the given device rate.
    #[verifier::loop_isolation(false)]
    pub fn rendered_from<N: Renderable>(note: &N, device_hz: u32) -> (r: PositionedSequence)
        requires
            note.render_wf(),
            note.windowed_wf(),
            1 <= device_hz <= MAX_SAMPLE_HZ,
            -MAX_SCRIPT_MICROS <= note.spec_start() <= MAX_SCRIPT_MICROS,
            -MAX_SCRIPT_MICROS <= note.spec_end() <= MAX_SCRIPT_MICROS,
            note.spec_max_amplitude() <= MIX_VALUE_LIMIT,
        ensures
            r.sample_hz == device_hz,
            r.start == spec_micros_to_frames_ceil(note.spec_start(), device_hz as int),
            r.frames@.len() == ({
                let latest = spec_micros_to_frames_floor(note.spec_end(), device_hz as int);
                vstd::math::max(0, latest + 1 - r.start)
            }),
            forall|j: int| 0 <= j < r.frames@.len()
                ==> #[trigger] r.frames@[j]
                    == note.spec_contribution(r.start + j, device_hz as int),
    {
        proof {
            lemma_script_window_frames_bounded(note.spec_start(), device_hz as int);
            lemma_script_window_frames_bounded(note.spec_end(), device_hz as int);
        }
        let earliest = micros_to_frames_ceil(note.start(), device_hz);
        let latest = micros_to_frames_floor(note.end(), device_hz);
        let length = if latest + 1 > earliest { latest + 1 - earliest } else { 0 };
        let mut frames: Vec<Sample> = Vec::new();
        let mut c: i64 = 0;
        while c < length
            invariant
                0 <= c <= length,
                frames@.len() == c,
                forall|j: int| 0 <= j < c ==> #[trigger] frames@[j] == 0,
            decreases length - c,
        {
            frames.push(0);
            c += 1;
        }
        note.render(&mut frames, earliest, device_hz);
        PositionedSequence { start: earliest, sample_hz: device_hz, frames }
    }
}

/// A script-time bound keeps both rounding conversions within the frame
/// clock's bound.
proof fn lemma_script_window_frames_bounded(t: int, hz: int)
    requires
        -MAX_SCRIPT_MICROS <= t <= MAX_SCRIPT_MICROS,
        1 <= hz <= MAX_SAMPLE_HZ,
    ensures
        -MAX_FRAME_TIME <= spec_micros_to_frames_ceil(t, hz) <= MAX_FRAME_TIME,
        -MAX_FRAME_TIME <= spec_micros_to_frames_floor(t, hz) <= MAX_FRAME_TIME,
{
    if t >= 0 {
        assert(0 <= t * hz <= 1_000_000_000_000_000_000) by (nonlinear_arith)
            requires 0 <= t <= 1_000_000_000_000, 1 <= hz <= 1_000_000;
        lemma_ceil_floor_div_bound(t * hz, MICROS_PER_SECOND as int, MAX_FRAME_TIME as int);
    } else {
        assert(0 <= (-t) * hz <= 1_000_000_000_000_000_000) by (nonlinear_arith)
            requires 0 <= -t <= 1_000_000_000_000, 1 <= hz <= 1_000_000;
        assert((-t) * hz == -(t * hz)) by (nonlinear_arith);
        lemma_ceil_floor_div_bound((-t) * hz, MICROS_PER_SECOND as int, MAX_FRAME_TIME as int);
    }
}

} // verus!


