//! BCM (Binary Code Modulation) state machine for ISR-driven HUB75 refresh.
//!
//! Caches the [`BcmSegment`] scan sequence exposed by a framebuffer and
//! tracks which segment and repetition the DMA is currently outputting,
//! advancing through the BCM weighting sequence on each transfer-complete
//! interrupt.
//!
//! Framebuffer swaps move addresses: both framebuffers have identical layout,
//! so at a frame boundary the byte distance between the old and the new
//! framebuffer is added to every cached segment address.

use vstd::prelude::*;

use crate::framebuffer::{
    law_moving_all_moves_each, lemma_offset_addr_adds, lemma_offset_addr_is_mod, lemma_offset_addr_reaches, moved_all,
    offset_addr, BcmSegment, FrameBuffer,
};

verus! {

/// Maximum number of BCM segments that can be cached for ISR use.
///
/// Sized for the worst-case row-major layout: 32 row-pairs x (8 planes + 1
/// inter-row gap + 1 end-of-row trailer) = 320 segments.
pub const MAX_SEGMENTS: usize = 320;

// ---------------------------------------------------------------------------
// Model: the transfers that make up one frame
// ---------------------------------------------------------------------------

/// How many transfers the state machine spends on a segment: its repetition
/// count, and one for a segment whose count is zero.
pub open spec fn weight(segment: BcmSegment) -> nat {
    if segment.reps == 0 {
        1
    } else {
        segment.reps as nat
    }
}

/// Number of transfers in one frame.
pub open spec fn frame_len(segments: Seq<BcmSegment>) -> nat
    decreases segments.len(),
{
    if segments.len() == 0 {
        0
    } else {
        frame_len(segments.drop_last()) + weight(segments.last())
    }
}

/// The (address, byte length) of every transfer of one frame, in order: each
/// segment as often in a row as it weighs.
pub open spec fn frame_stream(segments: Seq<BcmSegment>) -> Seq<(usize, usize)>
    decreases segments.len(),
{
    if segments.len() == 0 {
        Seq::empty()
    } else {
        frame_stream(segments.drop_last()) + Seq::new(
            weight(segments.last()),
            |i: int| (segments.last().ptr, segments.last().len),
        )
    }
}

/// Where a scan stands: the segments it walks, and the segment and
/// repetition that is being output.
pub struct BcmScan {
    /// The segments of one frame.
    pub segments: Seq<BcmSegment>,
    /// Consecutive segments that form one DMA transfer group.
    pub segments_per_group: nat,
    /// Index of the segment being output.
    pub segment: int,
    /// Repetitions of that segment that are already complete.
    pub rep: int,
}

impl BcmScan {
    /// The scan at the first repetition of the first segment.
    pub open spec fn start(segments: Seq<BcmSegment>, segments_per_group: nat) -> BcmScan {
        BcmScan { segments, segments_per_group, segment: 0, rep: 0 }
    }

    /// The scan stands on a repetition that its segments have.
    pub open spec fn wf(self) -> bool {
        &&& self.segments.len() <= MAX_SEGMENTS
        &&& if self.segments.len() == 0 {
            self.segment == 0 && self.rep == 0
        } else {
            &&& 0 <= self.segment < self.segments.len()
            &&& 0 <= self.rep < weight(self.segments[self.segment])
        }
    }

    /// The (address, byte length) being output; the null block when nothing
    /// has been loaded.
    pub open spec fn current(self) -> (usize, usize) {
        if self.segments.len() == 0 {
            (0, 0)
        } else {
            (self.segments[self.segment].ptr, self.segments[self.segment].len)
        }
    }

    /// The scan after one more transfer, and whether that transfer was the
    /// last of the frame.
    pub open spec fn next(self) -> (BcmScan, bool) {
        if self.rep + 1 < weight(self.segments[self.segment]) {
            (BcmScan { rep: self.rep + 1, ..self }, false)
        } else if self.segment + 1 < self.segments.len() {
            (BcmScan { segment: self.segment + 1, rep: 0, ..self }, false)
        } else {
            (BcmScan { segment: 0, rep: 0, ..self }, true)
        }
    }

    /// The scan after `n` transfers.
    pub open spec fn after(self, n: nat) -> BcmScan
        decreases n,
    {
        if n == 0 {
            self
        } else {
            self.after((n - 1) as nat).next().0
        }
    }

    /// Number of transfers of this frame that are already complete.
    pub open spec fn position(self) -> int {
        frame_len(self.segments.take(self.segment)) + self.rep
    }

    /// The same scan over segments moved by `delta` bytes.
    pub open spec fn moved(self, delta: int) -> BcmScan {
        BcmScan { segments: moved_all(self.segments, delta), ..self }
    }
}

// ---------------------------------------------------------------------------
// Segment cache
// ---------------------------------------------------------------------------

/// Segment storage with no valid entry.
fn empty_segments() -> (r: [BcmSegment; MAX_SEGMENTS])
    ensures
        forall|i: int|
            0 <= i < MAX_SEGMENTS ==> #[trigger] r@[i] == (BcmSegment { ptr: 0, len: 0, reps: 0 }),
{
    let empty = BcmSegment { ptr: 0, len: 0, reps: 0 };
    let segments: [BcmSegment; MAX_SEGMENTS] = [empty;MAX_SEGMENTS];
    assert forall|i: int| 0 <= i < MAX_SEGMENTS implies #[trigger] segments@[i] == empty by {
        assert(vstd::array::spec_array_fill_for_copy_type::<BcmSegment, MAX_SEGMENTS>(empty)@[i]
            == empty);
    }
    segments
}

/// Cached BCM segment sequence for ISR use.
///
/// Stores the full segment sequence of a framebuffer so the ISR can drive
/// DMA without going back to the framebuffer.
pub struct SegmentCache {
    /// Segment storage; only the first `count` entries are valid.
    pub segments: [BcmSegment; MAX_SEGMENTS],
    /// Number of valid entries in `segments`.
    pub count: usize,
    /// Consecutive segments that form one DMA transfer group.
    ///
    /// The STM32 backends synchronise per segment and do not batch groups.
    pub segments_per_group: usize,
}

impl View for SegmentCache {
    type V = Seq<BcmSegment>;

    /// The valid entries.
    open spec fn view(&self) -> Seq<BcmSegment> {
        self.segments@.take(self.count as int)
    }
}

impl Default for SegmentCache {
    fn default() -> (r: Self)
        ensures
            r.wf(),
            r@ == Seq::<BcmSegment>::empty(),
            r.count == 0,
            r.segments_per_group == 1,
            forall|i: int|
                0 <= i < MAX_SEGMENTS ==> #[trigger] r.segments@[i] == (BcmSegment {
                    ptr: 0,
                    len: 0,
                    reps: 0,
                }),
    {
        Self::new()
    }
}

impl SegmentCache {
    /// The count does not exceed the storage.
    pub open spec fn wf(&self) -> bool {
        self.count <= MAX_SEGMENTS
    }

    /// Create an empty segment cache.
    #[must_use]
    pub fn new() -> (r: Self)
        ensures
            r.wf(),
            r@ == Seq::<BcmSegment>::empty(),
            r.count == 0,
            r.segments_per_group == 1,
            forall|i: int|
                0 <= i < MAX_SEGMENTS ==> #[trigger] r.segments@[i] == (BcmSegment {
                    ptr: 0,
                    len: 0,
                    reps: 0,
                }),
    {
        Self { segments: empty_segments(), count: 0, segments_per_group: 1 }
    }

    /// Shift every cached segment address by `delta` bytes.
    ///
    /// Used for framebuffer swaps: the old and new framebuffers have
    /// identical layout, so all segment addresses move by the same byte
    /// offset. A count beyond the storage stands for all of it.
    pub fn apply_delta(&mut self, delta: isize)
        ensures
            forall|i: int|
                0 <= i < MAX_SEGMENTS ==> #[trigger] final(self).segments@[i] == (if i < old(
                    self,
                ).count {
                    old(self).segments@[i].moved(delta as int)
                } else {
                    old(self).segments@[i]
                }),
            final(self).count == old(self).count,
            final(self).segments_per_group == old(self).segments_per_group,
            old(self).wf() ==> final(self).wf(),
            old(self).wf() ==> final(self)@ == moved_all(old(self)@, delta as int),
    {
        let mut i: usize = 0;
        while i < self.count && i < MAX_SEGMENTS
            invariant
                i <= self.count,
                i <= MAX_SEGMENTS,
                self.count == old(self).count,
                self.segments_per_group == old(self).segments_per_group,
                forall|j: int|
                    0 <= j < i ==> #[trigger] self.segments@[j] == old(self).segments@[j].moved(
                        delta as int,
                    ),
                forall|j: int|
                    i <= j < MAX_SEGMENTS ==> #[trigger] self.segments@[j] == old(
                        self,
                    ).segments@[j],
            decreases MAX_SEGMENTS - i,
        {
            let segment = self.segments[i];
            proof {
                lemma_wrapping_add_is_offset(segment.ptr, delta);
            }
            self.segments[i] =
            BcmSegment {
                ptr: segment.ptr.wrapping_add_signed(delta),
                len: segment.len,
                reps: segment.reps,
            };
            i += 1;
        }
        assert(old(self).wf() ==> self@ =~= moved_all(old(self)@, delta as int));
    }
}

/// `wrapping_add_signed` is movement through a cyclic address space.
pub proof fn lemma_wrapping_add_is_offset(addr: usize, delta: isize)
    ensures
        addr.wrapping_add_signed(delta) == offset_addr(addr, delta as int),
{
    let m = usize::MAX + 1;
    let sum = addr + delta;
    lemma_offset_addr_is_mod(addr, delta as int);
    if sum > usize::MAX {
        vstd::arithmetic::div_mod::lemma_small_mod((sum - m) as nat, m as nat);
        vstd::arithmetic::div_mod::lemma_mod_add_multiples_vanish(sum - m, m);
    } else if sum < 0 {
        vstd::arithmetic::div_mod::lemma_small_mod((sum + m) as nat, m as nat);
        vstd::arithmetic::div_mod::lemma_mod_add_multiples_vanish(sum, m);
    }
}

/// Extract the BCM segment sequence from a framebuffer into `cache`.
pub fn segments_from_fb_into(fb: &FrameBuffer, cache: &mut SegmentCache)
    requires
        fb.loadable(),
    ensures
        final(cache).wf(),
        final(cache)@ == fb.segments@,
        final(cache).count == fb.segments@.len(),
        forall|i: int|
            0 <= i < fb.segments@.len() ==> #[trigger] final(cache).segments@[i] == fb.segments@[i],
        final(cache).segments_per_group == fb.segments_per_group,
        forall|i: int|
            fb.segments@.len() <= i < MAX_SEGMENTS ==> #[trigger] final(cache).segments@[i] == old(
                cache,
            ).segments@[i],
{
    let count: usize = fb.segments.len();
    let mut i: usize = 0;
    while i < count
        invariant
            i <= count <= MAX_SEGMENTS,
            count == fb.segments@.len(),
            forall|j: int| 0 <= j < i ==> #[trigger] cache.segments@[j] == fb.segments@[j],
            forall|j: int|
                i <= j < MAX_SEGMENTS ==> #[trigger] cache.segments@[j] == old(cache).segments@[j],
        decreases count - i,
    {
        cache.segments[i] = fb.segments[i];
        i += 1;
    }
    cache.count = count;
    cache.segments_per_group = fb.segments_per_group;
    assert(cache@ =~= fb.segments@);
}

// ---------------------------------------------------------------------------
// State machine
// ---------------------------------------------------------------------------

/// ISR-driven BCM state machine.
///
/// Walks the cached segment sequence in order, streaming each segment
/// `reps` times before advancing to the next — the BCM weighting is
/// entirely described by the framebuffer's segment sequence.
pub struct BcmState {
    cache: SegmentCache,
    current_segment: usize,
    current_rep: usize,
}

impl View for BcmState {
    type V = BcmScan;

    closed spec fn view(&self) -> BcmScan {
        BcmScan {
            segments: self.cache@,
            segments_per_group: self.cache.segments_per_group as nat,
            segment: self.current_segment as int,
            rep: self.current_rep as int,
        }
    }
}

impl BcmState {
    /// The scan stands on a repetition that its segments have.
    pub open spec fn wf(&self) -> bool {
        self@.wf() && self.storage_wf()
    }

    /// The cache is within its storage, and holds the null block as long as
    /// nothing has been loaded.
    pub closed spec fn storage_wf(&self) -> bool {
        &&& self.cache.wf()
        &&& self.cache.count == 0 ==> self.cache.segments@[0] == (BcmSegment {
            ptr: 0,
            len: 0,
            reps: 0,
        })
    }

    /// Create a state machine with nothing loaded.
    #[must_use]
    pub fn new() -> (r: Self)
        ensures
            r.wf(),
            r@ == BcmScan::start(Seq::empty(), 1),
    {
        Self { cache: SegmentCache::new(), current_segment: 0, current_rep: 0 }
    }

    /// Load the segment sequence from `fb`, restarting the scan from
    /// segment 0.
    pub fn load(&mut self, fb: &FrameBuffer)
        requires
            fb.loadable(),
        ensures
            final(self).wf(),
            final(self)@ == BcmScan::start(fb.segments@, fb.segments_per_group as nat),
    {
        segments_from_fb_into(fb, &mut self.cache);
        self.current_segment = 0;
        self.current_rep = 0;
    }

    /// Advance the BCM state machine after a transfer completes.
    /// Returns `true` when a full frame boundary is reached (all segments
    /// with all repetitions have been output).
    pub fn advance(&mut self) -> (r: bool)
        requires
            old(self).wf(),
            old(self)@.segments.len() > 0,
        ensures
            final(self).wf(),
            final(self)@ == old(self)@.next().0,
            r == old(self)@.next().1,
    {
        assert(self.cache@[self.current_segment as int]
            == self.cache.segments@[self.current_segment as int]);
        self.current_rep += 1;
        if self.current_rep >= self.cache.segments[self.current_segment].reps {
            self.current_rep = 0;
            self.current_segment += 1;
            if self.current_segment >= self.cache.count {
                self.current_segment = 0;
                return true;
            }
        }
        false
    }

    /// Returns the (address, byte length) for the current segment's
    /// DMA data.
    #[must_use]
    pub fn current_segment(&self) -> (r: (usize, usize))
        requires
            self.wf(),
        ensures
            r == self@.current(),
    {
        let segment = self.cache.segments[self.current_segment];
        (segment.ptr, segment.len)
    }

    /// Shift all cached segment addresses by `delta` bytes (called at a
    /// frame-boundary framebuffer swap).
    pub fn apply_delta(&mut self, delta: isize)
        requires
            old(self).wf(),
        ensures
            final(self).wf(),
            final(self)@ == old(self)@.moved(delta as int),
    {
        self.cache.apply_delta(delta);
    }
}

// ---------------------------------------------------------------------------
// Laws
// ---------------------------------------------------------------------------

/// The first `n` segments of a frame are the start of the frame.
proof fn lemma_stream_prefix(segments: Seq<BcmSegment>, n: int)
    requires
        0 <= n < segments.len(),
    ensures
        frame_stream(segments).len() == frame_len(segments),
        frame_len(segments.take(n)) + weight(segments[n]) == frame_len(segments.take(n + 1)),
        frame_len(segments.take(n + 1)) <= frame_len(segments),
        forall|i: int|
            0 <= i < weight(segments[n]) ==> #[trigger] frame_stream(segments)[frame_len(
                segments.take(n),
            ) + i] == (segments[n].ptr, segments[n].len),
    decreases segments.len(),
{
    assert(segments.take(n + 1).drop_last() =~= segments.take(n));
    assert(segments.take(n + 1).last() == segments[n]);
    let init = segments.drop_last();
    lemma_stream_len(segments);
    lemma_stream_len(init);
    if n + 1 == segments.len() {
        assert(segments.take(n + 1) =~= segments);
        assert(segments.take(n) =~= init);
    } else {
        lemma_stream_prefix(init, n);
        assert(init.take(n) =~= segments.take(n));
        assert(init.take(n + 1) =~= segments.take(n + 1));
        assert(init[n] == segments[n]);
    }
}

/// A frame has as many transfers as its segments weigh.
pub proof fn lemma_stream_len(segments: Seq<BcmSegment>)
    ensures
        frame_stream(segments).len() == frame_len(segments),
    decreases segments.len(),
{
    if segments.len() > 0 {
        lemma_stream_len(segments.drop_last());
    }
}

/// At every step the scan outputs the block that stands at its position in
/// the frame; one step moves it to the next position, and it reports the
/// frame boundary on the last position and on no other.
pub proof fn law_step_follows_frame(scan: BcmScan)
    requires
        scan.wf(),
        scan.segments.len() > 0,
    ensures
        0 <= scan.position() < frame_len(scan.segments),
        scan.current() == frame_stream(scan.segments)[scan.position()],
        scan.next().0.wf(),
        scan.next().0.segments == scan.segments,
        scan.next().1 <==> scan.position() + 1 == frame_len(scan.segments),
        scan.next().0.position() == (if scan.next().1 {
            0
        } else {
            scan.position() + 1
        }),
{
    lemma_stream_prefix(scan.segments, scan.segment);
    assert(scan.segments.take(0) =~= Seq::empty());
    if scan.segment + 1 < scan.segments.len() {
        lemma_stream_prefix(scan.segments, scan.segment + 1);
    } else {
        assert(scan.segments.take(scan.segment + 1) =~= scan.segments);
    }
    let block = frame_stream(scan.segments)[frame_len(scan.segments.take(scan.segment)) + scan.rep];
    assert(block == scan.current());
}

/// The refresh is periodic: after `n` transfers a scan that starts a frame
/// stands `n` positions on, modulo the length of the frame. Over one frame it
/// therefore outputs every segment as often in a row as it weighs, in scan
/// order, and it reports the frame boundary exactly once, on the last
/// transfer of each frame.
pub proof fn law_scan_outputs_frame(segments: Seq<BcmSegment>, segments_per_group: nat, n: nat)
    requires
        0 < segments.len() <= MAX_SEGMENTS,
    ensures
        ({
            let scan = BcmScan::start(segments, segments_per_group).after(n);
            let frame = frame_len(segments) as int;
            &&& scan.wf()
            &&& frame > 0
            &&& scan.segments == segments
            &&& scan.position() == n as int % frame
            &&& scan.current() == frame_stream(segments)[n as int % frame]
            &&& scan.next().1 <==> (n + 1) as int % frame == 0
        }),
    decreases n,
{
    let start = BcmScan::start(segments, segments_per_group);
    let scan = start.after(n);
    let frame = frame_len(segments) as int;
    if n == 0 {
        assert(segments.take(0) =~= Seq::empty());
        law_step_follows_frame(scan);
        vstd::arithmetic::div_mod::lemma_small_mod(0, frame as nat);
    } else {
        let before = (n - 1) as nat;
        law_scan_outputs_frame(segments, segments_per_group, before);
        law_step_follows_frame(start.after(before));
        law_step_follows_frame(scan);
        lemma_count_up(before as int, frame);
    }
    lemma_count_up(n as int, frame);
}

/// Counting up by one: the remainder grows by one, or the quotient does and
/// the remainder starts over.
pub(crate) proof fn lemma_count_up(n: int, m: int)
    requires
        n >= 0,
        m > 0,
    ensures
        0 <= n % m < m,
        n % m + 1 == m ==> (n + 1) % m == 0 && (n + 1) / m == n / m + 1,
        n % m + 1 != m ==> (n + 1) % m == n % m + 1 && (n + 1) / m == n / m,
{
    vstd::arithmetic::div_mod::lemma_fundamental_div_mod(n, m);
    let q = n / m;
    let r = n % m;
    if r + 1 == m {
        assert(n + 1 == (q + 1) * m) by (nonlinear_arith)
            requires
                n == m * q + r,
                r + 1 == m,
        ;
        vstd::arithmetic::div_mod::lemma_fundamental_div_mod_converse(n + 1, m, q + 1, 0);
    } else {
        assert(n + 1 == q * m + (r + 1)) by (nonlinear_arith)
            requires
                n == m * q + r,
        ;
        vstd::arithmetic::div_mod::lemma_fundamental_div_mod_converse(n + 1, m, q, r + 1);
    }
}

/// Moving the segments moves every transfer of the frame by the same distance
/// and changes neither the order nor the number of transfers.
pub proof fn law_delta_moves_frame(segments: Seq<BcmSegment>, delta: int)
    ensures
        frame_len(moved_all(segments, delta)) == frame_len(segments),
        frame_stream(moved_all(segments, delta)) == frame_stream(segments).map_values(
            |block: (usize, usize)| (offset_addr(block.0, delta), block.1),
        ),
    decreases segments.len(),
{
    let moved = moved_all(segments, delta);
    let shift = |block: (usize, usize)| (offset_addr(block.0, delta), block.1);
    if segments.len() > 0 {
        law_delta_moves_frame(segments.drop_last(), delta);
        assert(moved.drop_last() =~= moved_all(segments.drop_last(), delta));
    }
    assert(frame_stream(moved) =~= frame_stream(segments).map_values(shift));
}

/// A delta does not disturb the scan: moving the segments first and stepping
/// then is stepping first and moving then, and the frame boundary falls in
/// the same place.
pub proof fn law_delta_keeps_place(scan: BcmScan, delta: int)
    requires
        scan.wf(),
        scan.segments.len() > 0,
    ensures
        scan.moved(delta).wf(),
        scan.moved(delta).next().0 == scan.next().0.moved(delta),
        scan.moved(delta).next().1 == scan.next().1,
        scan.moved(delta).position() == scan.position(),
        scan.moved(delta).current() == (offset_addr(scan.current().0, delta), scan.current().1),
{
    assert(moved_all(scan.segments, delta).take(scan.segment) =~= moved_all(
        scan.segments.take(scan.segment),
        delta,
    ));
    law_delta_moves_frame(scan.segments.take(scan.segment), delta);
}

/// Deltas add up, and the delta back undoes the delta there: swapping to
/// another framebuffer and back restores every cached address.
pub proof fn law_deltas_add_up(segments: Seq<BcmSegment>, first: int, second: int)
    ensures
        moved_all(moved_all(segments, first), second) == moved_all(segments, first + second),
        moved_all(moved_all(segments, first), -first) == segments,
{
    assert forall|i: int| 0 <= i < segments.len() implies segments[i].moved(first).moved(second)
        == segments[i].moved(first + second) && segments[i].moved(first).moved(-first)
        == segments[i] by {
        lemma_offset_addr_adds(segments[i].ptr, first, second);
        lemma_offset_addr_adds(segments[i].ptr, first, -first);
        lemma_offset_addr_reaches(segments[i].ptr, segments[i].ptr);
    }
    assert(moved_all(moved_all(segments, first), second) =~= moved_all(segments, first + second));
    assert(moved_all(moved_all(segments, first), -first) =~= segments);
}

/// The delta technique is a reload: once the segments of one framebuffer are
/// loaded, moving them by the distance to another framebuffer of the same
/// layout gives exactly the segments of that one.
pub proof fn law_delta_reaches_other_framebuffer(old_fb: &FrameBuffer, new_fb: &FrameBuffer)
    requires
        old_fb.same_layout(new_fb),
    ensures
        moved_all(old_fb.segments@, new_fb.addr - old_fb.addr) == new_fb.segments@,
{
    let delta = new_fb.addr - old_fb.addr;
    assert forall|i: int| 0 <= i < old_fb.segments@.len() implies old_fb.segments@[i].moved(delta)
        == new_fb.segments@[i] by {
        let from = old_fb.segments@[i].ptr;
        let to = new_fb.segments@[i].ptr;
        assert(new_fb.segment_offset(i) == old_fb.segment_offset(i));
        lemma_offset_addr_adds(from, -old_fb.addr, new_fb.addr as int);
        lemma_offset_addr_adds(to, -new_fb.addr, new_fb.addr as int);
        lemma_offset_addr_reaches(to, to);
    }
    assert(moved_all(old_fb.segments@, delta) =~= new_fb.segments@);
}

/// One more segment makes the frame longer by its repetition count, at least
/// by one, and all of these transfers are of that segment.
pub proof fn law_frame_grows_by_each_segment(segments: Seq<BcmSegment>, segment: BcmSegment)
    ensures
        frame_len(Seq::empty()) == 0,
        frame_stream(Seq::empty()).len() == 0,
        ({
            let times = if segment.reps == 0 {
                1
            } else {
                segment.reps as nat
            };
            let start = frame_len(segments);
            let longer = frame_stream(segments.push(segment));
            &&& frame_stream(segments).len() == start
            &&& frame_len(segments.push(segment)) == start + times
            &&& longer.len() == start + times
            &&& forall|i: int| 0 <= i < start ==> #[trigger] longer[i] == frame_stream(segments)[i]
            &&& forall|i: int|
                start <= i < start + times ==> #[trigger] longer[i] == (segment.ptr, segment.len)
        }),
{
    assert(segments.push(segment).drop_last() =~= segments);
    lemma_stream_len(segments);
}

/// A scan outputs the segment it stands on. It stays there until it has
/// output it `reps` times, goes on to the next segment then, and starts over
/// behind the last one; starting over, and nothing else, is a frame boundary.
pub proof fn law_scan_repeats_then_moves_on(scan: BcmScan)
    requires
        scan.segments.len() > 0,
        0 <= scan.segment < scan.segments.len(),
    ensures
        ({
            let segment = scan.segments[scan.segment];
            let (after, boundary) = scan.next();
            let repeats = scan.rep + 1 < segment.reps;
            let last = scan.segment + 1 == scan.segments.len();
            &&& scan.current() == (segment.ptr, segment.len)
            &&& after.segments == scan.segments
            &&& after.segments_per_group == scan.segments_per_group
            &&& scan.rep >= 0 && repeats ==> after.segment == scan.segment && after.rep == scan.rep
                + 1
            &&& scan.rep >= 0 && !repeats ==> after.rep == 0 && after.segment == (if last {
                0
            } else {
                scan.segment + 1
            })
            &&& scan.rep >= 0 ==> (boundary <==> !repeats && last)
        }),
{
}

/// A scan starts at the first repetition of the first segment, and its
/// position is the number of transfers of the frame that are behind it.
pub proof fn law_scan_starts_a_frame(
    segments: Seq<BcmSegment>,
    segments_per_group: nat,
    scan: BcmScan,
)
    ensures
        ({
            let start = BcmScan::start(segments, segments_per_group);
            &&& start.segments == segments
            &&& start.segments_per_group == segments_per_group
            &&& start.segment == 0
            &&& start.rep == 0
        }),
        segments.len() == 0 ==> BcmScan::start(segments, segments_per_group).current() == (
            0usize,
            0usize,
        ),
        scan.position() == frame_len(scan.segments.take(scan.segment)) + scan.rep,
{
}

/// Moving a scan moves every segment address, modulo the size of the address
/// space, and does not move the place where the scan stands.
pub proof fn law_moved_scan_stays_in_place(scan: BcmScan, delta: int, i: int)
    requires
        0 <= i < scan.segments.len(),
    ensures
        ({
            let moved = scan.moved(delta);
            &&& moved.segment == scan.segment
            &&& moved.rep == scan.rep
            &&& moved.segments_per_group == scan.segments_per_group
            &&& moved.segments.len() == scan.segments.len()
            &&& moved.segments[i].ptr as int == (scan.segments[i].ptr + delta) % (usize::MAX + 1)
            &&& moved.segments[i].len == scan.segments[i].len
            &&& moved.segments[i].reps == scan.segments[i].reps
        }),
{
    law_moving_all_moves_each(scan.segments, delta, i);
}

} // verus!
