//! GPDMA linked-list backend for HUB75 panels.
//!
//! Achieves BCM (Binary Code Modulation) weighting by duplicating
//! [`LinearItem`] descriptors in a single linked-list chain. Each
//! [`BcmSegment`] exposed by the framebuffer gets `reps` consecutive
//! descriptors all pointing at the same segment data.
//!
//! Works with **any** GPDMA channel (no 2D capability required).
//!
//! The descriptor chain is circular: the terminal item links back to item 0
//! so the chain loops forever and the GPDMA is started exactly once — no
//! per-frame restart. The terminal item raises a transfer-complete event on
//! its own end, one per frame; every other item only would on the end of the
//! whole list, which a circular list never reaches.

use vstd::prelude::*;

use crate::bcm::MAX_SEGMENTS;
use crate::config::Config;
use crate::framebuffer::{
    byte_delta, delta_between, lemma_offset_addr_is_mod, offset_addr, rep_sum, BcmLenReps,
    BcmSegment, BcmSequence, FrameBuffer, WordSize,
};
use crate::pins::Hub75Pins;
use crate::setup::{hardware, Hardware};

verus! {

/// Maximum number of `LinearItem` descriptors in a full BCM chain.
///
/// A frame-major bitplane framebuffer with `PLANES` planes needs
/// `2^(PLANES-1)` descriptors (8 planes = 128). Row-major layouts need
/// `NROWS * 2^(PLANES-1)` descriptors.
pub const MAX_DESCRIPTORS: usize = 255;

/// Bytes of one linear descriptor in the table that the GPDMA reads: six
/// 32-bit registers.
pub const LINEAR_ITEM_BYTES: usize = 24;

/// Bytes of one 2D descriptor in the table that the GPDMA reads: eight
/// 32-bit registers.
pub const TWO_D_ITEM_BYTES: usize = 32;

/// Largest block that one descriptor can stream: its byte counter has 16
/// bits.
pub const MAX_BLOCK_BYTES: usize = 65535;

/// When a descriptor raises a transfer-complete event.
#[derive(Clone, Copy, Debug, PartialEq, Eq, Structural)]
pub enum TransferCompleteMode {
    /// At the end of each block.
    EachBlock,
    /// At the end of each repeated block.
    Each2DBlock,
    /// At the end of each linked-list item.
    EachLinkedListItem,
    /// At the end of the last linked-list item, which a circular list does
    /// not have.
    LastLinkedListItem,
}

/// One memory-to-peripheral descriptor of a linear chain.
#[derive(Clone, Copy, Debug, PartialEq, Eq, Structural)]
pub struct LinearItem {
    /// DMA request line that paces the transfer.
    pub request: u8,
    /// Source address.
    pub sar: u32,
    /// Destination address.
    pub dar: u32,
    /// Bytes to transfer.
    pub len: usize,
    /// Width of one beat, on both sides.
    pub word_size: WordSize,
    /// When the descriptor raises a transfer-complete event.
    pub transfer_complete_mode: TransferCompleteMode,
    /// Lower 16 address bits of the next descriptor.
    pub link: Option<u16>,
}

/// One memory-to-peripheral descriptor of a 2D chain.
#[derive(Clone, Copy, Debug, PartialEq, Eq, Structural)]
pub struct TwoDItem {
    /// DMA request line that paces the transfer.
    pub request: u8,
    /// Source address.
    pub sar: u32,
    /// Destination address.
    pub dar: u32,
    /// Bytes in one block.
    pub len: usize,
    /// Width of one beat, on both sides.
    pub word_size: WordSize,
    /// When the descriptor raises a transfer-complete event.
    pub transfer_complete_mode: TransferCompleteMode,
    /// How often the block is repeated after its first transfer.
    pub block_repeat_count: u16,
    /// Added to the source address after each block.
    pub block_src_addr_offset: i32,
    /// Lower 16 address bits of the next descriptor.
    pub link: Option<u16>,
}

/// The descriptor whose registers are all zero.
pub open spec fn zero_item() -> LinearItem {
    LinearItem {
        request: 0,
        sar: 0,
        dar: 0,
        len: 0,
        word_size: WordSize::OneByte,
        transfer_complete_mode: TransferCompleteMode::EachBlock,
        link: None,
    }
}

/// Create a zeroed `LinearItem`.
#[must_use]
pub fn zeroed_linear_item() -> (r: LinearItem)
    ensures
        r == zero_item(),
{
    LinearItem {
        request: 0,
        sar: 0,
        dar: 0,
        len: 0,
        word_size: WordSize::OneByte,
        transfer_complete_mode: TransferCompleteMode::EachBlock,
        link: None,
    }
}

/// An unused descriptor transfers nothing from nowhere and leads nowhere.
pub proof fn law_zero_item_is_empty()
    ensures
        zero_item().request == 0,
        zero_item().sar == 0,
        zero_item().dar == 0,
        zero_item().len == 0,
        zero_item().word_size == WordSize::OneByte,
        zero_item().transfer_complete_mode == TransferCompleteMode::EachBlock,
        zero_item().link is None,
{
}

// ---------------------------------------------------------------------------
// Addresses
// ---------------------------------------------------------------------------

/// The 32-bit bus address that the GPDMA uses for `addr`.
pub open spec fn bus_addr(addr: usize) -> u32 {
    (addr as int % 0x1_0000_0000) as u32
}

/// The bus address `delta` bytes away from `addr`, wrapping around the end
/// of the 32-bit address space.
pub open spec fn offset_bus_addr(addr: u32, delta: int) -> u32 {
    ((addr + delta) % 0x1_0000_0000) as u32
}

/// Lower 16 address bits of the item at `index` in a table at `table_addr`
/// whose items take `item_bytes` each.
pub open spec fn item_offset_of(table_addr: usize, item_bytes: int, index: int) -> u16 {
    ((table_addr + item_bytes * index) % 0x1_0000) as u16
}

/// The `bytes` bytes from `table_addr` on lie in one 64 KB region, and in the
/// address space at all.
pub open spec fn in_one_region(table_addr: usize, bytes: int) -> bool {
    let end = table_addr + bytes - 1;
    0 <= end <= usize::MAX && table_addr as int / 0x1_0000 == end / 0x1_0000
}

/// A bus address is the lower 32 bits of an address, moving it is addition
/// modulo 2^32, and the offset of a table item is the lower 16 bits of where
/// the item starts.
pub proof fn law_bus_addresses(addr: usize, bus: u32, delta: int, item_bytes: int, index: int)
    ensures
        bus_addr(addr) as int == addr as int % 4294967296,
        offset_bus_addr(bus, delta) as int == (bus + delta) % 4294967296,
        item_offset_of(addr, item_bytes, index) as int == (addr + item_bytes * index) % 65536,
{
}

/// The bus address of `addr`.
pub(crate) fn to_bus_addr(addr: usize) -> (r: u32)
    ensures
        r == bus_addr(addr),
{
    (addr as u64 % 0x1_0000_0000) as u32
}

/// Lower 16-bit offset address of an item within its 64 KB region.
pub(crate) fn item_offset(table_addr: usize, item_bytes: usize, index: usize) -> (r: u16)
    requires
        table_addr + item_bytes * index <= usize::MAX,
    ensures
        r == item_offset_of(table_addr, item_bytes as int, index as int),
{
    assert(item_bytes * index >= 0) by (nonlinear_arith);
    ((table_addr + item_bytes * index) % 0x1_0000) as u16
}

/// The bus address follows the address: moving first and taking the bus
/// address then is taking it first and moving then.
pub proof fn lemma_bus_addr_moves(addr: usize, delta: int)
    ensures
        bus_addr(offset_addr(addr, delta)) == offset_bus_addr(bus_addr(addr), delta),
{
    let m = 0x1_0000_0000int;
    let k = (usize::MAX + 1) / m;
    lemma_offset_addr_is_mod(addr, delta);
    assert(m * k == usize::MAX + 1 && k > 0);
    vstd::arithmetic::div_mod::lemma_mod_mod(addr + delta, m, k);
    vstd::arithmetic::div_mod::lemma_add_mod_noop(addr as int, delta, m);
    vstd::arithmetic::div_mod::lemma_add_mod_noop(addr as int % m, delta, m);
    vstd::arithmetic::div_mod::lemma_mod_twice(addr as int, m);
}

/// Taking the short way round moves a bus address to the same place.
pub proof fn lemma_bus_delta(addr: u32, from: usize, to: usize)
    ensures
        offset_bus_addr(addr, delta_between(from, to)) == offset_bus_addr(addr, to - from),
{
    let m = 0x1_0000_0000int;
    let there = addr + (to - from);
    let k = (usize::MAX + 1) / m;
    assert(m * k == usize::MAX + 1);
    vstd::arithmetic::div_mod::lemma_mod_multiples_vanish(k, there, m);
    vstd::arithmetic::div_mod::lemma_mod_multiples_vanish(-k, there, m);
    assert(m * (-k) == -(m * k)) by (nonlinear_arith);
}

// ---------------------------------------------------------------------------
// Item chain construction
// ---------------------------------------------------------------------------

/// Sum of the repetition counts of `segments`.
pub open spec fn rep_total(segments: Seq<BcmSegment>) -> nat
    decreases segments.len(),
{
    if segments.len() == 0 {
        0
    } else {
        rep_total(segments.drop_last()) + segments.last().reps as nat
    }
}

/// Each segment as often in a row as its repetition count says.
pub open spec fn expanded(segments: Seq<BcmSegment>) -> Seq<BcmSegment>
    decreases segments.len(),
{
    if segments.len() == 0 {
        Seq::empty()
    } else {
        expanded(segments.drop_last()) + Seq::new(
            segments.last().reps as nat,
            |i: int| segments.last(),
        )
    }
}

/// One descriptor can stream the segment in words of `word_size`: it is not
/// larger than a block can be, and it fits the DMA word. Bytes always do,
/// halfwords need an even address and an even length, and there is no wider
/// transfer.
pub open spec fn fits_transfer(segment: BcmSegment, word_size: WordSize) -> bool {
    &&& segment.len <= MAX_BLOCK_BYTES
    &&& match word_size {
        WordSize::OneByte => true,
        WordSize::TwoBytes => segment.ptr % 2 == 0 && segment.len % 2 == 0,
        _ => false,
    }
}

/// A chain for `fb` can be built in a table at `items_addr`: the framebuffer
/// has between one and [`MAX_SEGMENTS`] segments, one descriptor per
/// repetition fits in the table, the descriptors do not span a 64 KB
/// boundary, and one descriptor can stream each segment that is streamed at
/// all.
pub open spec fn chain_buildable(items_addr: usize, fb: &FrameBuffer, word_size: WordSize) -> bool {
    let segments = fb.segments@;
    &&& 1 <= segments.len() <= MAX_SEGMENTS
    &&& rep_total(segments) <= MAX_DESCRIPTORS
    &&& in_one_region(items_addr, LINEAR_ITEM_BYTES * rep_total(segments))
    &&& forall|i: int|
        0 <= i < segments.len() && (#[trigger] segments[i]).reps > 0 ==> fits_transfer(
            segments[i],
            word_size,
        )
}

/// The descriptor at `index` in the chain for `segments`.
pub open spec fn linear_item_at(
    segments: Seq<BcmSegment>,
    items_addr: usize,
    odr_addr: usize,
    word_size: WordSize,
    request: u8,
    index: int,
) -> LinearItem {
    let terminal = index + 1 == rep_total(segments);
    LinearItem {
        request,
        sar: bus_addr(expanded(segments)[index].ptr),
        dar: bus_addr(odr_addr),
        len: expanded(segments)[index].len,
        word_size,
        transfer_complete_mode: if terminal {
            TransferCompleteMode::EachLinkedListItem
        } else {
            TransferCompleteMode::LastLinkedListItem
        },
        link: Some(
            item_offset_of(
                items_addr,
                LINEAR_ITEM_BYTES as int,
                if terminal {
                    0
                } else {
                    index + 1
                },
            ),
        ),
    }
}

/// The repetitions of segment `n` stand together in the expansion.
pub proof fn lemma_expanded_prefix(segments: Seq<BcmSegment>, n: int)
    requires
        0 <= n < segments.len(),
    ensures
        expanded(segments).len() == rep_total(segments),
        rep_total(segments.take(n)) + segments[n].reps == rep_total(segments.take(n + 1)),
        rep_total(segments.take(n + 1)) <= rep_total(segments),
        forall|i: int|
            0 <= i < segments[n].reps ==> #[trigger] expanded(segments)[rep_total(segments.take(n))
                + i] == segments[n],
    decreases segments.len(),
{
    assert(segments.take(n + 1).drop_last() =~= segments.take(n));
    assert(segments.take(n + 1).last() == segments[n]);
    let init = segments.drop_last();
    lemma_expanded_len(segments);
    lemma_expanded_len(init);
    if n + 1 == segments.len() {
        assert(segments.take(n + 1) =~= segments);
        assert(segments.take(n) =~= init);
    } else {
        lemma_expanded_prefix(init, n);
        assert(init.take(n) =~= segments.take(n));
        assert(init.take(n + 1) =~= segments.take(n + 1));
        assert(init[n] == segments[n]);
    }
}

/// The expansion has one entry per repetition.
pub proof fn lemma_expanded_len(segments: Seq<BcmSegment>)
    ensures
        expanded(segments).len() == rep_total(segments),
    decreases segments.len(),
{
    if segments.len() > 0 {
        lemma_expanded_len(segments.drop_last());
    }
}

/// One more segment makes the chain longer by its repetition count, and all
/// of these places are for that segment.
pub proof fn law_chain_grows_by_each_segment(segments: Seq<BcmSegment>, segment: BcmSegment)
    ensures
        rep_total(Seq::empty()) == 0,
        expanded(Seq::empty()).len() == 0,
        ({
            let start = rep_total(segments);
            let longer = expanded(segments.push(segment));
            &&& expanded(segments).len() == start
            &&& rep_total(segments.push(segment)) == start + segment.reps
            &&& longer.len() == start + segment.reps
            &&& forall|i: int| 0 <= i < start ==> #[trigger] longer[i] == expanded(segments)[i]
            &&& forall|i: int|
                start <= i < start + segment.reps ==> #[trigger] longer[i] == segment
        }),
{
    assert(segments.push(segment).drop_last() =~= segments);
    lemma_expanded_len(segments);
}

/// A chain can be built exactly when there are 1 to 320 segments with at most
/// 255 repetitions in all, the first and the last byte of the descriptors,
/// 24 bytes each, have the same upper address bits above the lower 16, and
/// each segment that is streamed has at most 65535 bytes and is made of whole
/// words, which are bytes or halfwords.
pub proof fn law_buildable_chains(items_addr: usize, fb: &FrameBuffer, word_size: WordSize)
    ensures
        chain_buildable(items_addr, fb, word_size) <==> {
            let end = items_addr + 24 * rep_total(fb.segments@) - 1;
            &&& 1 <= fb.segments@.len() <= 320
            &&& rep_total(fb.segments@) <= 255
            &&& 0 <= end <= usize::MAX
            &&& items_addr as int / 65536 == end / 65536
            &&& forall|i: int|
                0 <= i < fb.segments@.len() && (#[trigger] fb.segments@[i]).reps > 0 ==> {
                    let segment = fb.segments@[i];
                    &&& segment.len <= 65535
                    &&& word_size == WordSize::OneByte || (word_size == WordSize::TwoBytes
                        && segment.ptr % 2 == 0 && segment.len % 2 == 0)
                }
        },
{
    let segments = fb.segments@;
    if chain_buildable(items_addr, fb, word_size) {
        assert forall|i: int| 0 <= i < segments.len() && (#[trigger] segments[i]).reps > 0 implies {
            let segment = segments[i];
            &&& segment.len <= 65535
            &&& word_size == WordSize::OneByte || (word_size == WordSize::TwoBytes && segment.ptr
                % 2 == 0 && segment.len % 2 == 0)
        } by {
            assert(fits_transfer(segments[i], word_size));
        }
    }
}

/// Number of descriptors that the chain for `fb` needs, when they fit in the
/// table.
pub fn chain_len(fb: &FrameBuffer) -> (r: Option<usize>)
    ensures
        r == (if rep_total(fb.segments@) <= MAX_DESCRIPTORS {
            Some(rep_total(fb.segments@) as usize)
        } else {
            None
        }),
{
    let ghost segments = fb.segments@;
    let segment_count: usize = fb.segments.len();
    let mut total: usize = 0;
    let mut i: usize = 0;
    while i < segment_count
        invariant
            i <= segment_count,
            segments == fb.segments@,
            segment_count == segments.len(),
            total == rep_total(segments.take(i as int)),
            total <= MAX_DESCRIPTORS,
        decreases segment_count - i,
    {
        proof {
            lemma_expanded_prefix(segments, i as int);
        }
        let reps: usize = fb.segments[i].reps;
        if reps > MAX_DESCRIPTORS - total {
            return None;
        }
        total += reps;
        i += 1;
    }
    assert(segments.take(segment_count as int) =~= segments);
    Some(total)
}

/// Tells whether one descriptor can stream the segment in words of
/// `word_size`.
pub(crate) fn segment_fits_transfer(segment: &BcmSegment, word_size: WordSize) -> (r: bool)
    ensures
        r == fits_transfer(*segment, word_size),
{
    if segment.len > MAX_BLOCK_BYTES {
        return false;
    }
    match word_size {
        WordSize::OneByte => true,
        WordSize::TwoBytes => segment.ptr % 2 == 0 && segment.len % 2 == 0,
        _ => false,
    }
}

/// Tells whether `bytes` bytes from `table_addr` on lie in one 64 KB region.
pub(crate) fn lies_in_one_region(table_addr: usize, bytes: usize) -> (r: bool)
    ensures
        r == in_one_region(table_addr, bytes as int),
{
    if bytes == 0 {
        return table_addr > 0 && table_addr / 0x1_0000 == (table_addr - 1) / 0x1_0000;
    }
    if bytes - 1 > usize::MAX - table_addr {
        return false;
    }
    table_addr / 0x1_0000 == (table_addr + (bytes - 1)) / 0x1_0000
}

/// Tells whether [`build_item_chain`] can build the chain.
pub fn can_build_item_chain(items_addr: usize, fb: &FrameBuffer, word_size: WordSize) -> (r: bool)
    ensures
        r == chain_buildable(items_addr, fb, word_size),
{
    let segment_count: usize = fb.segments.len();
    if segment_count == 0 || segment_count > MAX_SEGMENTS {
        return false;
    }
    let total: usize = match chain_len(fb) {
        Some(total) => total,
        None => {
            return false;
        },
    };
    if !lies_in_one_region(items_addr, LINEAR_ITEM_BYTES * total) {
        return false;
    }
    let mut i: usize = 0;
    while i < segment_count
        invariant
            i <= segment_count == fb.segments@.len(),
            forall|j: int|
                0 <= j < i && (#[trigger] fb.segments@[j]).reps > 0 ==> fits_transfer(
                    fb.segments@[j],
                    word_size,
                ),
        decreases segment_count - i,
    {
        if fb.segments[i].reps > 0 && !segment_fits_transfer(&fb.segments[i], word_size) {
            assert(!fits_transfer(fb.segments@[i as int], word_size));
            return false;
        }
        i += 1;
    }
    true
}

/// Populate the linked-list chain with duplicated descriptors for
/// BCM weighting, from the framebuffer's [`BcmSegment`] sequence.
///
/// For each segment, creates `reps` consecutive `LinearItem` entries
/// pointing at the same segment data. The terminal item links back to
/// item 0 (making the chain circular) and raises one transfer-complete
/// event per frame boundary.
///
/// `items_addr` is the address of the descriptor table that the GPDMA reads.
///
/// Returns the number of active items in the chain.
pub fn build_item_chain(
    items: &mut [LinearItem; MAX_DESCRIPTORS],
    items_addr: usize,
    fb: &FrameBuffer,
    odr_addr: usize,
    word_size: WordSize,
    request: u8,
) -> (total: usize)
    requires
        chain_buildable(items_addr, fb, word_size),
    ensures
        total == rep_total(fb.segments@),
        forall|i: int|
            0 <= i < total ==> {
                &&& (#[trigger] final(items)@[i]).dar as int == odr_addr as int % 0x1_0000_0000
                &&& final(items)@[i].request == request
                &&& final(items)@[i].word_size == word_size
            },
        forall|i: int|
            0 <= i < total ==> #[trigger] final(items)@[i] == linear_item_at(
                fb.segments@,
                items_addr,
                odr_addr,
                word_size,
                request,
                i,
            ),
        forall|i: int|
            total <= i < MAX_DESCRIPTORS ==> #[trigger] final(items)@[i] == old(items)@[i],
{
    let ghost segments = fb.segments@;
    let segment_count: usize = fb.segments.len();
    let total: usize = match chain_len(fb) {
        Some(total) => total,
        None => 0,
    };
    let dar: u32 = to_bus_addr(odr_addr);
    let mut idx: usize = 0;
    let mut i: usize = 0;
    assert(segments.take(0) =~= Seq::empty());
    while i < segment_count
        invariant
            i <= segment_count,
            segments == fb.segments@,
            segment_count == segments.len(),
            chain_buildable(items_addr, fb, word_size),
            total == rep_total(segments),
            dar == bus_addr(odr_addr),
            idx == rep_total(segments.take(i as int)),
            idx <= total,
            forall|j: int|
                0 <= j < idx ==> #[trigger] items@[j] == linear_item_at(
                    segments,
                    items_addr,
                    odr_addr,
                    word_size,
                    request,
                    j,
                ),
            forall|j: int| idx <= j < MAX_DESCRIPTORS ==> #[trigger] items@[j] == old(items)@[j],
        decreases segment_count - i,
    {
        proof {
            lemma_expanded_prefix(segments, i as int);
        }
        let segment = fb.segments[i];
        let ghost first = idx;
        let mut rep: usize = 0;
        while rep < segment.reps
            invariant
                i < segment_count,
                segments == fb.segments@,
                segment_count == segments.len(),
                segment == segments[i as int],
                chain_buildable(items_addr, fb, word_size),
                total == rep_total(segments),
                dar == bus_addr(odr_addr),
                first == rep_total(segments.take(i as int)),
                first + segment.reps <= total,
                forall|j: int|
                    0 <= j < segment.reps ==> #[trigger] expanded(segments)[first + j] == segment,
                rep <= segment.reps,
                idx == first + rep,
                forall|j: int|
                    0 <= j < idx ==> #[trigger] items@[j] == linear_item_at(
                        segments,
                        items_addr,
                        odr_addr,
                        word_size,
                        request,
                        j,
                    ),
                forall|j: int|
                    idx <= j < MAX_DESCRIPTORS ==> #[trigger] items@[j] == old(items)@[j],
            decreases segment.reps - rep,
        {
            let is_last = idx + 1 == total;
            let transfer_complete_mode = if is_last {
                TransferCompleteMode::EachLinkedListItem
            } else {
                TransferCompleteMode::LastLinkedListItem
            };
            let next_idx: usize = if is_last {
                0
            } else {
                idx + 1
            };
            let link = Some(item_offset(items_addr, LINEAR_ITEM_BYTES, next_idx));
            let sar: u32 = to_bus_addr(segment.ptr);
            assert(expanded(segments)[first + rep] == segment);
            items[idx] =
            LinearItem {
                request,
                sar,
                dar,
                len: segment.len,
                word_size,
                transfer_complete_mode,
                link,
            };
            idx += 1;
            rep += 1;
        }
        i += 1;
    }
    assert(segments.take(segment_count as int) =~= segments);
    total
}

// ---------------------------------------------------------------------------
// Framebuffer swaps
// ---------------------------------------------------------------------------

/// The descriptor with its source address moved by `delta` bytes.
pub open spec fn moved_item(item: LinearItem, delta: int) -> LinearItem {
    LinearItem { sar: offset_bus_addr(item.sar, delta), ..item }
}

/// The 2D descriptor with its source address moved by `delta` bytes.
pub open spec fn moved_item_2d(item: TwoDItem, delta: int) -> TwoDItem {
    TwoDItem { sar: offset_bus_addr(item.sar, delta), ..item }
}

/// The bus address `delta` bytes away from `addr`.
fn move_bus_addr(addr: u32, delta: isize) -> (r: u32)
    ensures
        r == offset_bus_addr(addr, delta as int),
{
    let wide: i64 = delta as i64;
    let step: u32 = wide as u32;
    assert(wide as u32 as i64 == wide % 0x1_0000_0000i64) by (bit_vector);
    addr.wrapping_add(step)
}

/// Shift the source-address fields of all active descriptors by
/// `delta` bytes.
///
/// Called at a framebuffer swap: the old and new framebuffers have identical
/// layout, so every descriptor's `sar` moves by the same byte offset.
pub fn apply_item_delta(items: &mut [LinearItem; MAX_DESCRIPTORS], count: usize, delta: isize)
    ensures
        forall|i: int|
            0 <= i < MAX_DESCRIPTORS ==> #[trigger] final(items)@[i] == (if i < count {
                moved_item(old(items)@[i], delta as int)
            } else {
                old(items)@[i]
            }),
{
    let mut i: usize = 0;
    while i < count && i < MAX_DESCRIPTORS
        invariant
            i <= count,
            i <= MAX_DESCRIPTORS,
            forall|j: int|
                0 <= j < MAX_DESCRIPTORS ==> #[trigger] items@[j] == (if j < i {
                    moved_item(old(items)@[j], delta as int)
                } else {
                    old(items)@[j]
                }),
        decreases MAX_DESCRIPTORS - i,
    {
        let item = items[i];
        let sar: u32 = move_bus_addr(item.sar, delta);
        items[i] = LinearItem { sar, ..item };
        i += 1;
    }
}

/// Shift the source-address fields of all active 2D descriptors by
/// `delta` bytes (one item per BCM segment).
pub fn apply_item_delta_2d(items: &mut [TwoDItem; MAX_SEGMENTS], count: usize, delta: isize)
    ensures
        forall|i: int|
            0 <= i < MAX_SEGMENTS ==> #[trigger] final(items)@[i] == (if i < count {
                moved_item_2d(old(items)@[i], delta as int)
            } else {
                old(items)@[i]
            }),
{
    let mut i: usize = 0;
    while i < count && i < MAX_SEGMENTS
        invariant
            i <= count,
            i <= MAX_SEGMENTS,
            forall|j: int|
                0 <= j < MAX_SEGMENTS ==> #[trigger] items@[j] == (if j < i {
                    moved_item_2d(old(items)@[j], delta as int)
                } else {
                    old(items)@[j]
                }),
        decreases MAX_SEGMENTS - i,
    {
        let item = items[i];
        let sar: u32 = move_bus_addr(item.sar, delta);
        items[i] = TwoDItem { sar, ..item };
        i += 1;
    }
}

/// Moving a descriptor adds the distance to its source address, modulo 2^32,
/// and changes nothing else.
pub proof fn law_moved_descriptor_reads_elsewhere(item: LinearItem, item_2d: TwoDItem, delta: int)
    ensures
        ({
            let moved = moved_item(item, delta);
            &&& moved.sar as int == (item.sar + delta) % 0x1_0000_0000
            &&& moved == (LinearItem { sar: moved.sar, ..item })
        }),
        ({
            let moved = moved_item_2d(item_2d, delta);
            &&& moved.sar as int == (item_2d.sar + delta) % 0x1_0000_0000
            &&& moved == (TwoDItem { sar: moved.sar, ..item_2d })
        }),
{
}

// ---------------------------------------------------------------------------
// Transfer options
// ---------------------------------------------------------------------------

/// DMA request priority.
#[derive(Clone, Copy, Debug, PartialEq, Eq, Structural)]
pub enum Priority {
    /// Low priority.
    Low,
    /// Medium priority.
    Medium,
    /// High priority.
    High,
    /// Very high priority.
    VeryHigh,
}

/// Options of a GPDMA transfer.
#[derive(Clone, Copy, Debug, PartialEq, Eq, Structural)]
pub struct TransferOptions {
    /// Request priority level.
    pub priority: Priority,
    /// Enable the half-transfer interrupt.
    pub half_transfer_ir: bool,
    /// Enable the transfer-complete interrupt.
    pub complete_transfer_ir: bool,
    /// When the channel itself raises a transfer-complete event.
    pub transfer_complete_mode: TransferCompleteMode,
}

/// The priority, half-transfer interrupt and transfer-complete interrupt of
/// `embassy_stm32::dma::TransferOptions::default()`.
///
/// Trusted: the default is very high priority, no half-transfer interrupt,
/// and a transfer-complete interrupt.
#[verifier::external_body]
fn default_transfer_options() -> (r: (Priority, bool, bool))
    ensures
        r == (Priority::VeryHigh, false, true),
{
    let options = embassy_stm32::dma::TransferOptions::default();
    let priority = match options.priority {
        embassy_stm32::dma::Priority::Low => Priority::Low,
        embassy_stm32::dma::Priority::Medium => Priority::Medium,
        embassy_stm32::dma::Priority::High => Priority::High,
        embassy_stm32::dma::Priority::VeryHigh => Priority::VeryHigh,
    };
    (priority, options.half_transfer_ir, options.complete_transfer_ir)
}

/// Default transfer options for GPDMA linked-list HUB75 transfers.
///
/// Shared by the linear and 2D GPDMA backends.
pub fn gpdma_transfer_options() -> (r: TransferOptions)
    ensures
        r == (TransferOptions {
            priority: Priority::VeryHigh,
            half_transfer_ir: false,
            complete_transfer_ir: true,
            transfer_complete_mode: TransferCompleteMode::LastLinkedListItem,
        }),
{
    let (_, half_transfer_ir, _) = default_transfer_options();
    TransferOptions {
        priority: Priority::VeryHigh,
        half_transfer_ir,
        complete_transfer_ir: true,
        transfer_complete_mode: TransferCompleteMode::LastLinkedListItem,
    }
}

// ---------------------------------------------------------------------------
// Descriptor count
// ---------------------------------------------------------------------------

/// Number of `LinearItem` descriptors needed to stream a framebuffer with
/// this BCM sequence: the sum of the repetition counts of every segment in
/// one complete panel refresh.
///
/// Equals `2^(PLANES-1)` for frame-major bitplane framebuffers.
pub fn descriptor_count(sequence: &BcmSequence) -> (r: usize)
    requires
        sequence.rep_count() <= usize::MAX,
    ensures
        r == sequence.rep_count(),
{
    let ghost entries = sequence.entries@;
    let count: usize = sequence.count;
    if count == 0 {
        assert(0 * rep_sum(entries) == 0);
        return 0;
    }
    let len: usize = sequence.entries.len();
    let mut total: usize = 0;
    let mut i: usize = 0;
    assert(rep_sum(entries) <= usize::MAX) by (nonlinear_arith)
        requires
            count as nat * rep_sum(entries) <= usize::MAX,
            count >= 1,
    ;
    while i < len
        invariant
            i <= len,
            entries == sequence.entries@,
            len == entries.len(),
            total == rep_sum(entries.take(i as int)),
            rep_sum(entries) <= usize::MAX,
        decreases len - i,
    {
        proof {
            lemma_rep_sum_prefix(entries, i + 1);
            assert(entries.take(i + 1).drop_last() =~= entries.take(i as int));
        }
        total += sequence.entries[i].reps;
        i += 1;
    }
    assert(entries.take(len as int) =~= entries);
    count * total
}

/// A prefix has at most as many repetitions as the whole.
proof fn lemma_rep_sum_prefix(entries: Seq<BcmLenReps>, n: int)
    requires
        0 <= n <= entries.len(),
    ensures
        rep_sum(entries.take(n)) <= rep_sum(entries),
    decreases entries.len(),
{
    if n == entries.len() {
        assert(entries.take(n) =~= entries);
    } else {
        lemma_rep_sum_prefix(entries.drop_last(), n);
        assert(entries.drop_last().take(n) =~= entries.take(n));
    }
}

// ---------------------------------------------------------------------------
// IsrCore — frame-boundary state
// ---------------------------------------------------------------------------

/// Number of frame-boundary transfer-complete interrupts that a swap waits
/// for after the descriptor delta has been applied: two, or fewer when one of
/// the two switches that shorten the wait is set.
///
/// `wait_0` shortens the wait to nothing and takes precedence; `wait_1`
/// shortens it to one interrupt.
pub fn swap_wait_count(wait_0: bool, wait_1: bool) -> (r: u8)
    ensures
        r == (if wait_0 {
            0u8
        } else if wait_1 {
            1u8
        } else {
            2u8
        }),
{
    if wait_0 {
        0
    } else if wait_1 {
        1
    } else {
        2
    }
}

/// Per-instance ISR core state for the GPDMA backends, shared between
/// the interrupt handler and the [`Hub75`] driver.
///
/// `W` is the handle by which a waiting task is woken.
pub struct IsrCore<W> {
    swap_waits: u8,
    swap_done: bool,
    swap_waker: Option<W>,
    frame_count: u32,
}

/// The state of an [`IsrCore`].
pub struct IsrCoreView<W> {
    /// Frame boundaries that the pending swap still waits for.
    pub swap_waits: u8,
    /// The last swap has seen all the boundaries it waits for.
    pub swap_done: bool,
    /// Who to wake when the pending swap is done.
    pub swap_waker: Option<W>,
    /// Complete frames rendered, modulo 2^32.
    pub frame_count: u32,
}

impl<W> IsrCoreView<W> {
    /// The state after one more frame boundary, and who is to be woken.
    pub open spec fn after_frame(self) -> (IsrCoreView<W>, Option<W>) {
        let frame_count = ((self.frame_count + 1) % 0x1_0000_0000) as u32;
        if self.swap_waits == 0 {
            (IsrCoreView { frame_count, ..self }, None)
        } else if self.swap_waits == 1 {
            (
                IsrCoreView { swap_waits: 0, swap_done: true, swap_waker: None, frame_count },
                self.swap_waker,
            )
        } else {
            (
                IsrCoreView { swap_waits: (self.swap_waits - 1) as u8, frame_count, ..self },
                None,
            )
        }
    }

    /// The state after `n` more frame boundaries.
    pub open spec fn after_frames(self, n: nat) -> IsrCoreView<W>
        decreases n,
    {
        if n == 0 {
            self
        } else {
            self.after_frames((n - 1) as nat).after_frame().0
        }
    }
}

impl<W> View for IsrCore<W> {
    type V = IsrCoreView<W>;

    closed spec fn view(&self) -> IsrCoreView<W> {
        IsrCoreView {
            swap_waits: self.swap_waits,
            swap_done: self.swap_done,
            swap_waker: self.swap_waker,
            frame_count: self.frame_count,
        }
    }
}

impl<W> IsrCore<W> {
    /// Create a new core.
    #[must_use]
    pub fn new() -> (r: Self)
        ensures
            r@ == (IsrCoreView::<W> {
                swap_waits: 0,
                swap_done: false,
                swap_waker: None,
                frame_count: 0,
            }),
    {
        Self { swap_waits: 0, swap_done: false, swap_waker: None, frame_count: 0 }
    }

    /// Called from the interrupt handler at each frame boundary.
    ///
    /// The chain raises exactly one transfer-complete interrupt per frame (on
    /// the terminal item). Framebuffer deltas are applied in [`Hub75::swap`]
    /// rather than here, so this only counts the frame boundary and, if a
    /// swap is waiting, decrements the remaining-waits counter and signals
    /// completion once it reaches zero. Returns the waker of the task that is
    /// to be woken then.
    pub fn on_frame(&mut self) -> (wake: Option<W>)
        ensures
            final(self)@ == old(self)@.after_frame().0,
            wake == old(self)@.after_frame().1,
    {
        self.frame_count = self.frame_count.wrapping_add(1);
        if self.swap_waits > 0 {
            self.swap_waits -= 1;
            if self.swap_waits == 0 {
                return self.signal_swap_done();
            }
        }
        None
    }

    /// Returns the number of complete BCM frames rendered.
    pub fn frame_count(&self) -> (r: u32)
        ensures
            r == self@.frame_count,
    {
        self.frame_count
    }

    /// Arm a swap wait for `wait_count` frame-boundary interrupts. Called
    /// after the descriptor delta has been applied.
    ///
    /// Returns whether there is anything to wait for; if so, the swap is
    /// complete once [`IsrCore::poll_swap`] says so.
    pub fn wait_swap(&mut self, wait_count: u8) -> (pending: bool)
        ensures
            pending == (wait_count != 0),
            final(self)@ == (if wait_count != 0 {
                IsrCoreView { swap_waits: wait_count, swap_done: false, ..old(self)@ }
            } else {
                old(self)@
            }),
    {
        if wait_count != 0 {
            self.swap_waits = wait_count;
            self.swap_done = false;
            true
        } else {
            false
        }
    }

    /// Look whether the armed swap is complete, and leave `waker` behind to
    /// be woken if it is not.
    pub fn poll_swap(&mut self, waker: W) -> (ready: bool)
        ensures
            ready == old(self)@.swap_done,
            final(self)@ == (if old(self)@.swap_done {
                old(self)@
            } else {
                IsrCoreView { swap_waker: Some(waker), ..old(self)@ }
            }),
    {
        if self.swap_done {
            return true;
        }
        self.swap_waker = Some(waker);
        false
    }

    fn signal_swap_done(&mut self) -> (wake: Option<W>)
        ensures
            final(self)@ == (IsrCoreView { swap_done: true, swap_waker: None, ..old(self)@ }),
            wake == old(self)@.swap_waker,
    {
        self.swap_done = true;
        self.swap_waker.take()
    }
}

/// A swap that waits for `wait_count` boundaries is complete after that many
/// and not before; the task that waits is woken by the last of them.
/// Meanwhile every boundary is counted as a frame.
pub proof fn law_swap_waits_for_boundaries<W>(armed: IsrCoreView<W>, wait_count: u8, n: nat)
    requires
        wait_count > 0,
        armed.swap_waits == wait_count,
        !armed.swap_done,
    ensures
        armed.after_frames(n).swap_done <==> n >= wait_count,
        n < wait_count ==> armed.after_frames(n).swap_waits == wait_count - n,
        n < wait_count ==> armed.after_frames(n).swap_waker == armed.swap_waker,
        n + 1 < wait_count ==> armed.after_frames(n).after_frame().1 is None,
        n + 1 == wait_count ==> armed.after_frames(n).after_frame().1 == armed.swap_waker,
        n >= wait_count ==> armed.after_frames(n).swap_waits == 0,
        n >= wait_count ==> armed.after_frames(n).after_frame().1 is None,
    decreases n,
{
    if n > 0 {
        law_swap_waits_for_boundaries(armed, wait_count, (n - 1) as nat);
    }
}

/// A frame boundary counts one frame and takes one off what a swap waits for.
/// The boundary that takes off the last one, and no other, marks the swap as
/// done and wakes who waits for it, once.
pub proof fn law_boundary_counts_down<W>(core: IsrCoreView<W>)
    ensures
        ({
            let (after, wake) = core.after_frame();
            &&& after.frame_count == (if core.frame_count == u32::MAX {
                0
            } else {
                core.frame_count + 1
            })
            &&& after.swap_waits == (if core.swap_waits == 0 {
                0
            } else {
                core.swap_waits - 1
            })
            &&& after.swap_done == (core.swap_done || core.swap_waits == 1)
            &&& core.swap_waits == 1 ==> wake == core.swap_waker && after.swap_waker is None
            &&& core.swap_waits != 1 ==> wake is None && after.swap_waker == core.swap_waker
        }),
{
}

/// The frame counter counts frame boundaries, modulo 2^32.
pub proof fn law_frames_are_counted<W>(core: IsrCoreView<W>, n: nat)
    ensures
        core.after_frames(n).frame_count as int == (core.frame_count + n) % 0x1_0000_0000,
    decreases n,
{
    if n > 0 {
        law_frames_are_counted(core, (n - 1) as nat);
    }
}

// ---------------------------------------------------------------------------
// Hub75 — public driver handle
// ---------------------------------------------------------------------------

/// A table without active descriptors.
fn empty_items() -> (r: [LinearItem; MAX_DESCRIPTORS])
    ensures
        forall|i: int| 0 <= i < MAX_DESCRIPTORS ==> #[trigger] r@[i] == zero_item(),
{
    let zero = zeroed_linear_item();
    let items: [LinearItem; MAX_DESCRIPTORS] = [zero;MAX_DESCRIPTORS];
    assert forall|i: int| 0 <= i < MAX_DESCRIPTORS implies #[trigger] items@[i] == zero by {
        assert(vstd::array::spec_array_fill_for_copy_type::<LinearItem, MAX_DESCRIPTORS>(zero)@[i]
            == zero);
    }
    items
}

/// HUB75 LED matrix controller driven by a GPDMA linked-list refresh
/// loop.
///
/// BCM weighting is achieved by duplicating `LinearItem` descriptors
/// (one per BCM segment repetition) in a single chain. The GPDMA
/// traverses the chain autonomously; one interrupt fires per complete
/// BCM frame.
///
/// Use [`Hub75::swap()`] to double-buffer.
pub struct Hub75<W> {
    /// State shared with the interrupt handler.
    pub core: IsrCore<W>,
    /// The descriptors, as they stand in the table that the GPDMA reads.
    pub items: [LinearItem; MAX_DESCRIPTORS],
    /// Number of active descriptors.
    pub descriptor_count: usize,
    /// Address of the framebuffer on display.
    pub current_fb: usize,
}

impl<W> Hub75<W> {
    /// The chain for `fb` stands in the table, and `fb` is on display.
    pub open spec fn displays(
        &self,
        fb: &FrameBuffer,
        items_addr: usize,
        odr_addr: usize,
        word_size: WordSize,
        request: u8,
    ) -> bool {
        &&& self.current_fb == fb.addr
        &&& self.descriptor_count == rep_total(fb.segments@) <= MAX_DESCRIPTORS
        &&& forall|i: int|
            0 <= i < self.descriptor_count ==> #[trigger] self.items@[i] == linear_item_at(
                fb.segments@,
                items_addr,
                odr_addr,
                word_size,
                request,
                i,
            )
    }

    /// `after` is this driver after a swap to the framebuffer at `new_fb`:
    /// every active descriptor reads from as far away as the two framebuffers
    /// are apart, and nothing else has changed.
    pub open spec fn swapped(&self, new_fb: usize, after: Hub75<W>) -> bool {
        &&& after.current_fb == new_fb
        &&& after.core == self.core
        &&& after.descriptor_count == self.descriptor_count
        &&& forall|i: int|
            0 <= i < MAX_DESCRIPTORS ==> #[trigger] after.items@[i] == (if i
                < self.descriptor_count {
                moved_item(self.items@[i], new_fb - self.current_fb)
            } else {
                self.items@[i]
            })
    }

    /// Create a new GPDMA-backed HUB75 driver: work out the hardware setup,
    /// the descriptor chain for `fb` and the options to start the chain with.
    ///
    /// `port_odr_addr` is the address of the output data register of the port
    /// that the pins are on, `items_addr` that of the descriptor table that
    /// the GPDMA reads.
    pub fn new<P: Hub75Pins>(
        pins: P,
        port_odr_addr: usize,
        config: &Config,
        request: u8,
        items_addr: usize,
        fb: &FrameBuffer,
    ) -> (r: (Self, Hardware, TransferOptions))
        requires
            port_odr_addr + pins.odr_offset() <= usize::MAX,
            fb.word_size == P::word_size(),
            chain_buildable(items_addr, fb, P::word_size()),
        ensures
            r.0.core@ == (IsrCoreView::<W> {
                swap_waits: 0,
                swap_done: false,
                swap_waker: None,
                frame_count: 0,
            }),
            r.0.displays(fb, items_addr, r.1.odr_addr, P::word_size(), request),
            forall|i: int|
                r.0.descriptor_count <= i < MAX_DESCRIPTORS ==> #[trigger] r.0.items@[i]
                    == zero_item(),
            r.1.describes(pins, port_odr_addr, config),
            r.2 == (TransferOptions {
                priority: Priority::VeryHigh,
                half_transfer_ir: false,
                complete_transfer_ir: true,
                transfer_complete_mode: TransferCompleteMode::LastLinkedListItem,
            }),
    {
        let hw = hardware(pins, port_odr_addr, config);
        let mut items = empty_items();
        let word_size = P::dma_word_size();
        let descriptor_count: usize = build_item_chain(
            &mut items,
            items_addr,
            fb,
            hw.odr_addr,
            word_size,
            request,
        );
        let hub = Self { core: IsrCore::new(), items, descriptor_count, current_fb: fb.addr };
        (hub, hw, gpdma_transfer_options())
    }

    /// Returns the number of complete BCM frames rendered since init.
    #[must_use]
    pub fn frame_count(&self) -> (r: u32)
        ensures
            r == self.core@.frame_count,
    {
        self.core.frame_count()
    }

    /// Replace the displayed framebuffer, returning the address of the
    /// previously-displayed one.
    ///
    /// Immediately shifts every descriptor source address to the framebuffer
    /// at `new_fb`. Once the descriptor table has been rewritten, arm the
    /// wait with [`IsrCore::wait_swap`]; the old framebuffer may be handed
    /// back when that wait is complete.
    pub fn swap(&mut self, new_fb: usize) -> (old_fb: usize)
        ensures
            old_fb == old(self).current_fb,
            old(self).swapped(new_fb, *final(self)),
    {
        let old_fb: usize = self.current_fb;
        let delta: isize = byte_delta(old_fb, new_fb);
        self.current_fb = new_fb;
        proof {
            assert forall|addr: u32| #[trigger]
                offset_bus_addr(addr, delta as int) == offset_bus_addr(addr, new_fb - old_fb) by {
                lemma_bus_delta(addr, old_fb, new_fb);
            }
            assert forall|addr: u32| #[trigger] offset_bus_addr(addr, 0) == addr by {}
        }
        if delta != 0 {
            apply_item_delta(&mut self.items, self.descriptor_count, delta);
        }
        old_fb
    }
}

} // verus!
