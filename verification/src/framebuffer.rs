//! What a framebuffer exposes to the refresh engine.
//!
//! A framebuffer publishes one complete panel refresh as an ordered sequence
//! of [`BcmSegment`]s. The refresh engine only ever reads addresses, byte
//! lengths and repetition counts, so those are what is kept here; the pixel
//! memory itself stays with the DMA engine.

use vstd::prelude::*;

use crate::bcm::MAX_SEGMENTS;

verus! {

/// Width of one DMA beat.
#[derive(Clone, Copy, Debug, PartialEq, Eq, Structural)]
pub enum WordSize {
    /// One byte per beat.
    OneByte,
    /// Two bytes per beat.
    TwoBytes,
    /// Four bytes per beat.
    FourBytes,
    /// Eight bytes per beat.
    EightBytes,
}

/// A single segment of the BCM scan sequence: `len` bytes at address `ptr`,
/// streamed `reps` times before the scan moves on.
#[derive(Clone, Copy, Debug, PartialEq, Eq, Structural)]
pub struct BcmSegment {
    /// Address of the segment data.
    pub ptr: usize,
    /// Byte length of the segment.
    pub len: usize,
    /// How many times the segment is streamed before advancing.
    pub reps: usize,
}

/// The address `delta` bytes away from `addr`, wrapping around the end of the
/// address space.
pub open spec fn offset_addr(addr: usize, delta: int) -> usize {
    let there = addr + delta;
    if 0 <= there <= usize::MAX {
        there as usize
    } else {
        (there % (usize::MAX + 1)) as usize
    }
}

impl BcmSegment {
    /// The same segment of a framebuffer that lies `delta` bytes away.
    pub open spec fn moved(self, delta: int) -> BcmSegment {
        BcmSegment { ptr: offset_addr(self.ptr, delta), len: self.len, reps: self.reps }
    }
}

/// Every segment of `segments`, moved by `delta` bytes.
pub open spec fn moved_all(segments: Seq<BcmSegment>, delta: int) -> Seq<BcmSegment> {
    segments.map_values(|s: BcmSegment| s.moved(delta))
}

/// A framebuffer as the refresh engine sees it.
pub struct FrameBuffer {
    /// Address of the framebuffer itself.
    pub addr: usize,
    /// DMA word the framebuffer is laid out for.
    pub word_size: WordSize,
    /// The segments of one complete panel refresh, in scan order.
    pub segments: Vec<BcmSegment>,
    /// Consecutive segments that may be chained into one DMA transfer.
    pub segments_per_group: usize,
}

impl FrameBuffer {
    /// The framebuffer has between one and [`MAX_SEGMENTS`] segments, none of
    /// them at the null address.
    pub open spec fn loadable(&self) -> bool {
        &&& 1 <= self.segments@.len() <= MAX_SEGMENTS
        &&& forall|i: int| 0 <= i < self.segments@.len() ==> (#[trigger] self.segments@[i]).ptr != 0
    }

    /// Distance of segment `i` from the start of the framebuffer.
    pub open spec fn segment_offset(&self, i: int) -> usize {
        offset_addr(self.segments@[i].ptr, -self.addr)
    }

    /// `other` has the layout of this framebuffer, at its own address: each
    /// segment sits at the same distance from the start of the framebuffer
    /// and has the same length and repetition count.
    pub open spec fn same_layout(&self, other: &FrameBuffer) -> bool {
        &&& other.word_size == self.word_size
        &&& other.segments_per_group == self.segments_per_group
        &&& other.segments@.len() == self.segments@.len()
        &&& forall|i: int|
            0 <= i < self.segments@.len() ==> {
                &&& #[trigger] other.segment_offset(i) == self.segment_offset(i)
                &&& other.segments@[i].len == self.segments@[i].len
                &&& other.segments@[i].reps == self.segments@[i].reps
            }
    }

    /// Tells whether the framebuffer can be loaded for scanning.
    pub fn is_loadable(&self) -> (r: bool)
        ensures
            r == self.loadable(),
    {
        let count: usize = self.segments.len();
        if count == 0 || count > MAX_SEGMENTS {
            return false;
        }
        let mut i: usize = 0;
        while i < count
            invariant
                i <= count == self.segments@.len(),
                forall|j: int| 0 <= j < i ==> (#[trigger] self.segments@[j]).ptr != 0,
            decreases count - i,
        {
            if self.segments[i].ptr == 0 {
                assert(self.segments@[i as int].ptr == 0);
                return false;
            }
            i += 1;
        }
        true
    }
}

/// Static byte length and repetition count of one segment of a sequence.
#[derive(Clone, Copy, Debug, PartialEq, Eq, Structural)]
pub struct BcmLenReps {
    /// Byte length of the segment.
    pub len: usize,
    /// How many times the segment is streamed before advancing.
    pub reps: usize,
}

/// The static shape of a framebuffer's refresh: one complete panel refresh is
/// the sequence of `entries`, repeated `count` times.
pub struct BcmSequence {
    /// The segments of one sequence, in scan order.
    pub entries: Vec<BcmLenReps>,
    /// How often the sequence repeats in one refresh.
    pub count: usize,
}

/// Sum of the repetition counts of `entries`.
pub open spec fn rep_sum(entries: Seq<BcmLenReps>) -> nat
    decreases entries.len(),
{
    if entries.len() == 0 {
        0
    } else {
        rep_sum(entries.drop_last()) + entries.last().reps as nat
    }
}

impl BcmSequence {
    /// Sum of the repetition counts over one complete panel refresh.
    pub open spec fn rep_count(&self) -> nat {
        self.count as nat * rep_sum(self.entries@)
    }

    /// `fb` streams this sequence, over and over, until the refresh is
    /// complete.
    pub open spec fn describes(&self, fb: &FrameBuffer) -> bool {
        &&& fb.segments@.len() == self.entries@.len() * self.count
        &&& forall|i: int|
            0 <= i < fb.segments@.len() ==> {
                let entry = self.entries@[i % self.entries@.len() as int];
                (#[trigger] fb.segments@[i]).len == entry.len && fb.segments@[i].reps == entry.reps
            }
    }
}

/// The signed byte distance from `from` to `to`, taken the short way round
/// when the plain difference does not fit.
pub open spec fn delta_between(from: usize, to: usize) -> int {
    let distance = to - from;
    if distance > isize::MAX {
        distance - (usize::MAX + 1)
    } else if distance < isize::MIN {
        distance + (usize::MAX + 1)
    } else {
        distance
    }
}

/// The byte delta that moves every address of the framebuffer at `from` to
/// the one at `to`.
pub fn byte_delta(from: usize, to: usize) -> (r: isize)
    ensures
        r == delta_between(from, to),
{
    let distance: usize = to.wrapping_sub(from);
    proof {
        lemma_signed_distance(distance);
    }
    distance as isize
}

/// Reading a distance as signed wraps the upper half of the range.
proof fn lemma_signed_distance(distance: usize)
    ensures
        distance as isize == (if distance > isize::MAX {
            distance - (usize::MAX + 1)
        } else {
            distance as int
        }),
{
    if usize::BITS == 32 {
        let narrow = distance as u32;
        assert(narrow as i32 == (if narrow > 0x7fff_ffffu32 {
            narrow - 0x1_0000_0000
        } else {
            narrow as int
        })) by (bit_vector);
    } else {
        let wide = distance as u64;
        assert(wide as i64 == (if wide > 0x7fff_ffff_ffff_ffffu64 {
            wide - 0x1_0000_0000_0000_0000
        } else {
            wide as int
        })) by (bit_vector);
    }
}

/// Movement through the address space is addition modulo its size.
pub proof fn lemma_offset_addr_is_mod(addr: usize, delta: int)
    ensures
        offset_addr(addr, delta) as int == (addr + delta) % (usize::MAX + 1),
{
    let there = addr + delta;
    if 0 <= there <= usize::MAX {
        vstd::arithmetic::div_mod::lemma_small_mod(there as nat, (usize::MAX + 1) as nat);
    }
    assert(0 <= there % (usize::MAX + 1) < usize::MAX + 1);
}

/// Moving an address twice is moving it once by the sum.
pub proof fn lemma_offset_addr_adds(addr: usize, first: int, second: int)
    ensures
        offset_addr(offset_addr(addr, first), second) == offset_addr(addr, first + second),
{
    let m = usize::MAX + 1;
    lemma_offset_addr_is_mod(addr, first);
    lemma_offset_addr_is_mod(offset_addr(addr, first), second);
    lemma_offset_addr_is_mod(addr, first + second);
    vstd::arithmetic::div_mod::lemma_add_mod_noop(addr + first, second, m);
    vstd::arithmetic::div_mod::lemma_add_mod_noop((addr + first) % m, second, m);
    vstd::arithmetic::div_mod::lemma_mod_twice(addr + first, m);
}

/// Taking the short way round moves an address to the same place.
pub proof fn lemma_delta_between_offsets(addr: usize, from: usize, to: usize)
    ensures
        offset_addr(addr, delta_between(from, to)) == offset_addr(addr, to - from),
{
    let m = usize::MAX + 1;
    let there = addr + (to - from);
    lemma_offset_addr_is_mod(addr, delta_between(from, to));
    lemma_offset_addr_is_mod(addr, to - from);
    vstd::arithmetic::div_mod::lemma_mod_add_multiples_vanish(there, m);
    vstd::arithmetic::div_mod::lemma_mod_add_multiples_vanish(there - m, m);
}

/// Moving an address by the distance to another one lands on that one.
pub proof fn lemma_offset_addr_reaches(from: usize, to: usize)
    ensures
        offset_addr(from, to - from) == to,
        offset_addr(from, 0) == from,
{
}

// ---------------------------------------------------------------------------
// Laws
// ---------------------------------------------------------------------------

/// Moving a segment adds the distance to its address, modulo the size of the
/// address space, and leaves its length and repetition count alone.
pub proof fn law_moving_adds_to_the_address(segment: BcmSegment, delta: int)
    ensures
        segment.moved(delta).ptr as int == (segment.ptr + delta) % (usize::MAX + 1),
        segment.moved(delta).len == segment.len,
        segment.moved(delta).reps == segment.reps,
{
    lemma_offset_addr_is_mod(segment.ptr, delta);
}

/// Moving a sequence of segments moves each of them, in place.
pub proof fn law_moving_all_moves_each(segments: Seq<BcmSegment>, delta: int, i: int)
    requires
        0 <= i < segments.len(),
    ensures
        moved_all(segments, delta).len() == segments.len(),
        moved_all(segments, delta)[i].ptr as int == (segments[i].ptr + delta) % (usize::MAX + 1),
        moved_all(segments, delta)[i].len == segments[i].len,
        moved_all(segments, delta)[i].reps == segments[i].reps,
{
    law_moving_adds_to_the_address(segments[i], delta);
}

/// The byte delta is the one signed number of pointer width that leads from
/// one address to the other, modulo the size of the address space.
pub proof fn law_delta_leads_from_one_to_the_other(from: usize, to: usize)
    ensures
        isize::MIN <= delta_between(from, to) <= isize::MAX,
        (from + delta_between(from, to)) % (usize::MAX + 1) == to,
        isize::MIN <= to - from <= isize::MAX ==> delta_between(from, to) == to - from,
{
    let m = usize::MAX + 1;
    vstd::arithmetic::div_mod::lemma_small_mod(to as nat, m as nat);
    vstd::arithmetic::div_mod::lemma_mod_add_multiples_vanish(to as int, m);
    vstd::arithmetic::div_mod::lemma_mod_add_multiples_vanish(to - m, m);
}

/// A framebuffer can be loaded exactly when it has 1 to 320 segments and none
/// of them is at the null address.
pub proof fn law_loadable_framebuffers(fb: &FrameBuffer)
    ensures
        fb.loadable() <==> {
            &&& 1 <= fb.segments@.len() <= 320
            &&& forall|i: int| 0 <= i < fb.segments@.len() ==> (#[trigger] fb.segments@[i]).ptr > 0
        },
{
    if fb.loadable() {
        assert forall|i: int| 0 <= i < fb.segments@.len() implies (
        #[trigger] fb.segments@[i]).ptr > 0 by {
            assert(fb.segments@[i].ptr != 0);
        }
    }
}

/// Two framebuffers whose segments have the same lengths and repetition counts
/// and lie equally far behind the start have the same layout.
pub proof fn law_equal_distances_are_the_same_layout(a: &FrameBuffer, b: &FrameBuffer)
    requires
        a.word_size == b.word_size,
        a.segments_per_group == b.segments_per_group,
        a.segments@.len() == b.segments@.len(),
        forall|i: int|
            0 <= i < a.segments@.len() ==> {
                &&& (#[trigger] a.segments@[i]).ptr - a.addr == b.segments@[i].ptr - b.addr
                &&& a.segments@[i].len == b.segments@[i].len
                &&& a.segments@[i].reps == b.segments@[i].reps
            },
    ensures
        a.same_layout(b),
{
    assert forall|i: int| 0 <= i < a.segments@.len() implies {
        &&& #[trigger] b.segment_offset(i) == a.segment_offset(i)
        &&& b.segments@[i].len == a.segments@[i].len
        &&& b.segments@[i].reps == a.segments@[i].reps
    } by {
        assert(a.segments@[i].ptr - a.addr == b.segments@[i].ptr - b.addr);
        lemma_offset_addr_is_mod(a.segments@[i].ptr, -a.addr);
        lemma_offset_addr_is_mod(b.segments@[i].ptr, -b.addr);
    }
}

/// One more entry adds its repetitions to a sequence, and the refresh has the
/// repetitions of the sequence as often as the sequence repeats.
pub proof fn law_sequence_counts_every_entry(sequence: &BcmSequence, entry: BcmLenReps)
    ensures
        rep_sum(Seq::empty()) == 0,
        rep_sum(sequence.entries@.push(entry)) == rep_sum(sequence.entries@) + entry.reps,
        sequence.rep_count() == sequence.count * rep_sum(sequence.entries@),
{
    assert(sequence.entries@.push(entry).drop_last() =~= sequence.entries@);
}

} // verus!
