//! GPDMA 2D linked-list backend for HUB75 panels.
//!
//! Uses 2D-capable GPDMA channels with hardware block-repeat to achieve
//! BCM (Binary Code Modulation) weighting. Instead of duplicating
//! descriptors (as the linear backend does), each [`BcmSegment`] exposed
//! by the framebuffer gets a single [`TwoDItem`] with `block_repeat_count`
//! set to `reps - 1`, causing the hardware to repeat the transfer `reps`
//! times total.
//!
//! This reduces the descriptor table to one item per BCM segment while
//! producing identical BCM timing, and it also supports row-major bitplane
//! layouts (up to [`MAX_SEGMENTS`] segments).
//!
//! The terminal item links back to item 0 so the chain loops forever
//! and the GPDMA is started once. As in the linear backend, the terminal
//! item raises one transfer-complete event per frame while the others stay
//! silent.

use vstd::prelude::*;

use crate::bcm::MAX_SEGMENTS;
use crate::config::Config;
use crate::framebuffer::{byte_delta, BcmSegment, FrameBuffer, WordSize};
use crate::gpdma::{
    apply_item_delta_2d, bus_addr, fits_transfer, gpdma_transfer_options, in_one_region, item_offset,
    item_offset_of, lemma_bus_delta, lies_in_one_region, moved_item_2d, offset_bus_addr,
    segment_fits_transfer, to_bus_addr, IsrCore, IsrCoreView, Priority, TransferCompleteMode,
    TransferOptions, TwoDItem, TWO_D_ITEM_BYTES,
};
use crate::pins::Hub75Pins;
use crate::setup::{hardware, Hardware};

verus! {

/// Largest number of times that one 2D descriptor can stream its block.
pub const MAX_BLOCK_REPS: usize = 2048;

/// The 2D descriptor whose registers are all zero.
pub open spec fn zero_item_2d() -> TwoDItem {
    TwoDItem {
        request: 0,
        sar: 0,
        dar: 0,
        len: 0,
        word_size: WordSize::OneByte,
        transfer_complete_mode: TransferCompleteMode::EachBlock,
        block_repeat_count: 0,
        block_src_addr_offset: 0,
        link: None,
    }
}

/// Create a zeroed `TwoDItem`.
#[must_use]
pub fn zeroed_two_d_item() -> (r: TwoDItem)
    ensures
        r == zero_item_2d(),
{
    TwoDItem {
        request: 0,
        sar: 0,
        dar: 0,
        len: 0,
        word_size: WordSize::OneByte,
        transfer_complete_mode: TransferCompleteMode::EachBlock,
        block_repeat_count: 0,
        block_src_addr_offset: 0,
        link: None,
    }
}

/// An unused 2D descriptor transfers nothing from nowhere and leads nowhere.
pub proof fn law_zero_item_2d_is_empty()
    ensures
        zero_item_2d().request == 0,
        zero_item_2d().sar == 0,
        zero_item_2d().dar == 0,
        zero_item_2d().len == 0,
        zero_item_2d().word_size == WordSize::OneByte,
        zero_item_2d().transfer_complete_mode == TransferCompleteMode::EachBlock,
        zero_item_2d().block_repeat_count == 0,
        zero_item_2d().block_src_addr_offset == 0,
        zero_item_2d().link is None,
{
}

// ---------------------------------------------------------------------------
// Item chain construction (2D)
// ---------------------------------------------------------------------------

/// One 2D descriptor can stream the segment with all its repetitions: the
/// repetition count is between one and [`MAX_BLOCK_REPS`], and the segment
/// makes one block.
pub open spec fn fits_block(segment: BcmSegment, word_size: WordSize) -> bool {
    &&& 1 <= segment.reps <= MAX_BLOCK_REPS
    &&& fits_transfer(segment, word_size)
}

/// A 2D chain for `fb` can be built in a table at `items_addr`: the
/// framebuffer has between one and [`MAX_SEGMENTS`] segments, the descriptors
/// do not span a 64 KB boundary, and each segment fits one descriptor.
pub open spec fn chain_buildable_2d(
    items_addr: usize,
    fb: &FrameBuffer,
    word_size: WordSize,
) -> bool {
    let segments = fb.segments@;
    &&& 1 <= segments.len() <= MAX_SEGMENTS
    &&& in_one_region(items_addr, TWO_D_ITEM_BYTES * segments.len())
    &&& forall|i: int| 0 <= i < segments.len() ==> fits_block(#[trigger] segments[i], word_size)
}

/// The descriptor at `index` in the 2D chain for `segments`.
pub open spec fn two_d_item_at(
    segments: Seq<BcmSegment>,
    items_addr: usize,
    odr_addr: usize,
    word_size: WordSize,
    request: u8,
    index: int,
) -> TwoDItem {
    let terminal = index + 1 == segments.len();
    TwoDItem {
        request,
        sar: bus_addr(segments[index].ptr),
        dar: bus_addr(odr_addr),
        len: segments[index].len,
        word_size,
        transfer_complete_mode: if terminal {
            TransferCompleteMode::EachLinkedListItem
        } else {
            TransferCompleteMode::LastLinkedListItem
        },
        block_repeat_count: (segments[index].reps - 1) as u16,
        block_src_addr_offset: (-segments[index].len) as i32,
        link: Some(
            item_offset_of(
                items_addr,
                TWO_D_ITEM_BYTES as int,
                if terminal {
                    0
                } else {
                    index + 1
                },
            ),
        ),
    }
}

/// A 2D chain can be built exactly when there are 1 to 320 segments, the first
/// and the last byte of the descriptors, 32 bytes each, have the same upper
/// address bits above the lower 16, and each segment is streamed 1 to 2048
/// times, has at most 65535 bytes and is made of whole words, which are bytes
/// or halfwords.
pub proof fn law_buildable_2d_chains(items_addr: usize, fb: &FrameBuffer, word_size: WordSize)
    ensures
        chain_buildable_2d(items_addr, fb, word_size) <==> {
            let end = items_addr + 32 * fb.segments@.len() - 1;
            &&& 1 <= fb.segments@.len() <= 320
            &&& 0 <= end <= usize::MAX
            &&& items_addr as int / 65536 == end / 65536
            &&& forall|i: int|
                0 <= i < fb.segments@.len() ==> {
                    let segment = #[trigger] fb.segments@[i];
                    &&& 1 <= segment.reps <= 2048
                    &&& segment.len <= 65535
                    &&& word_size == WordSize::OneByte || (word_size == WordSize::TwoBytes
                        && segment.ptr % 2 == 0 && segment.len % 2 == 0)
                }
        },
{
    let segments = fb.segments@;
    if chain_buildable_2d(items_addr, fb, word_size) {
        assert forall|i: int| 0 <= i < segments.len() implies {
            let segment = #[trigger] segments[i];
            &&& 1 <= segment.reps <= 2048
            &&& segment.len <= 65535
            &&& word_size == WordSize::OneByte || (word_size == WordSize::TwoBytes && segment.ptr
                % 2 == 0 && segment.len % 2 == 0)
        } by {
            assert(fits_block(segments[i], word_size));
        }
    }
}

/// Tells whether [`build_item_chain_2d`] can build the chain.
pub fn can_build_item_chain_2d(items_addr: usize, fb: &FrameBuffer, word_size: WordSize) -> (r:
    bool)
    ensures
        r == chain_buildable_2d(items_addr, fb, word_size),
{
    let segment_count: usize = fb.segments.len();
    if segment_count == 0 || segment_count > MAX_SEGMENTS {
        return false;
    }
    if !lies_in_one_region(items_addr, TWO_D_ITEM_BYTES * segment_count) {
        return false;
    }
    let mut i: usize = 0;
    while i < segment_count
        invariant
            i <= segment_count == fb.segments@.len(),
            forall|j: int| 0 <= j < i ==> fits_block(#[trigger] fb.segments@[j], word_size),
        decreases segment_count - i,
    {
        let segment = fb.segments[i];
        if segment.reps < 1 || segment.reps > MAX_BLOCK_REPS || !segment_fits_transfer(
            &segment,
            word_size,
        ) {
            assert(!fits_block(fb.segments@[i as int], word_size));
            return false;
        }
        i += 1;
    }
    true
}

/// Populate the 2D linked-list chain for BCM weighting.
///
/// Creates one `TwoDItem` per [`BcmSegment`], using the hardware
/// `block_repeat_count` to repeat each segment transfer `reps` times.
/// The total number of items equals the framebuffer's segment count.
///
/// `items_addr` is the address of the descriptor table that the GPDMA reads.
///
/// Returns the number of active items.
pub fn build_item_chain_2d(
    items: &mut [TwoDItem; MAX_SEGMENTS],
    items_addr: usize,
    fb: &FrameBuffer,
    odr_addr: usize,
    word_size: WordSize,
    request: u8,
) -> (segment_count: usize)
    requires
        chain_buildable_2d(items_addr, fb, word_size),
    ensures
        segment_count == fb.segments@.len(),
        forall|i: int|
            0 <= i < segment_count ==> {
                &&& (#[trigger] final(items)@[i]).dar as int == odr_addr as int % 0x1_0000_0000
                &&& final(items)@[i].request == request
                &&& final(items)@[i].word_size == word_size
            },
        forall|i: int|
            0 <= i < segment_count ==> #[trigger] final(items)@[i] == two_d_item_at(
                fb.segments@,
                items_addr,
                odr_addr,
                word_size,
                request,
                i,
            ),
        forall|i: int|
            segment_count <= i < MAX_SEGMENTS ==> #[trigger] final(items)@[i] == old(items)@[i],
{
    let segment_count: usize = fb.segments.len();
    let dar: u32 = to_bus_addr(odr_addr);
    let mut i: usize = 0;
    while i < segment_count
        invariant
            i <= segment_count == fb.segments@.len(),
            chain_buildable_2d(items_addr, fb, word_size),
            dar == bus_addr(odr_addr),
            forall|j: int|
                0 <= j < i ==> #[trigger] items@[j] == two_d_item_at(
                    fb.segments@,
                    items_addr,
                    odr_addr,
                    word_size,
                    request,
                    j,
                ),
            forall|j: int| i <= j < MAX_SEGMENTS ==> #[trigger] items@[j] == old(items)@[j],
        decreases segment_count - i,
    {
        let segment = fb.segments[i];
        assert(fits_block(fb.segments@[i as int], word_size));
        let is_last = i + 1 == segment_count;
        let transfer_complete_mode = if is_last {
            TransferCompleteMode::EachLinkedListItem
        } else {
            TransferCompleteMode::LastLinkedListItem
        };
        let block_repeat_count: u16 = (segment.reps - 1) as u16;
        let block_src_addr_offset: i32 = -(segment.len as i32);
        let next_idx: usize = if is_last {
            0
        } else {
            i + 1
        };
        let link = Some(item_offset(items_addr, TWO_D_ITEM_BYTES, next_idx));
        let sar: u32 = to_bus_addr(segment.ptr);
        items[i] =
        TwoDItem {
            request,
            sar,
            dar,
            len: segment.len,
            word_size,
            transfer_complete_mode,
            block_repeat_count,
            block_src_addr_offset,
            link,
        };
        i += 1;
    }
    segment_count
}

// ---------------------------------------------------------------------------
// Hub75 — public driver handle
// ---------------------------------------------------------------------------

/// A table without active descriptors.
fn empty_items() -> (r: [TwoDItem; MAX_SEGMENTS])
    ensures
        forall|i: int| 0 <= i < MAX_SEGMENTS ==> #[trigger] r@[i] == zero_item_2d(),
{
    let zero = zeroed_two_d_item();
    let items: [TwoDItem; MAX_SEGMENTS] = [zero;MAX_SEGMENTS];
    assert forall|i: int| 0 <= i < MAX_SEGMENTS implies #[trigger] items@[i] == zero by {
        assert(vstd::array::spec_array_fill_for_copy_type::<TwoDItem, MAX_SEGMENTS>(zero)@[i]
            == zero);
    }
    items
}

/// HUB75 LED matrix controller driven by a 2D GPDMA linked-list refresh
/// loop.
///
/// BCM weighting is achieved via the hardware block-repeat count on each
/// `TwoDItem`. Only one descriptor per BCM segment is needed (typically
/// 6-8 for frame-major layouts), rather than one per repetition.
///
/// Use [`Hub75::swap()`] to double-buffer.
pub struct Hub75<W> {
    /// State shared with the interrupt handler.
    pub core: IsrCore<W>,
    /// The descriptors, as they stand in the table that the GPDMA reads.
    pub items: [TwoDItem; MAX_SEGMENTS],
    /// Number of active descriptors.
    pub descriptor_count: usize,
    /// Address of the framebuffer on display.
    pub current_fb: usize,
}

impl<W> Hub75<W> {
    /// The chain for `fb` stands in the table, and `fb` is on display.
    pub open spec fn displays(
        &self,
        fb: &FrameBuffer,
        items_addr: usize,
        odr_addr: usize,
        word_size: WordSize,
        request: u8,
    ) -> bool {
        &&& self.current_fb == fb.addr
        &&& self.descriptor_count == fb.segments@.len() <= MAX_SEGMENTS
        &&& forall|i: int|
            0 <= i < self.descriptor_count ==> #[trigger] self.items@[i] == two_d_item_at(
                fb.segments@,
                items_addr,
                odr_addr,
                word_size,
                request,
                i,
            )
    }

    /// `after` is this driver after a swap to the framebuffer at `new_fb`:
    /// every active descriptor reads from as far away as the two framebuffers
    /// are apart, and nothing else has changed.
    pub open spec fn swapped(&self, new_fb: usize, after: Hub75<W>) -> bool {
        &&& after.current_fb == new_fb
        &&& after.core == self.core
        &&& after.descriptor_count == self.descriptor_count
        &&& forall|i: int|
            0 <= i < MAX_SEGMENTS ==> #[trigger] after.items@[i] == (if i < self.descriptor_count {
                moved_item_2d(self.items@[i], new_fb - self.current_fb)
            } else {
                self.items@[i]
            })
    }

    /// Create a new 2D GPDMA-backed HUB75 driver: work out the hardware
    /// setup, the descriptor chain for `fb` and the options to start the
    /// chain with.
    ///
    /// `port_odr_addr` is the address of the output data register of the port
    /// that the pins are on, `items_addr` that of the descriptor table that
    /// the GPDMA reads.
    pub fn new<P: Hub75Pins>(
        pins: P,
        port_odr_addr: usize,
        config: &Config,
        request: u8,
        items_addr: usize,
        fb: &FrameBuffer,
    ) -> (r: (Self, Hardware, TransferOptions))
        requires
            port_odr_addr + pins.odr_offset() <= usize::MAX,
            fb.word_size == P::word_size(),
            chain_buildable_2d(items_addr, fb, P::word_size()),
        ensures
            r.0.core@ == (IsrCoreView::<W> {
                swap_waits: 0,
                swap_done: false,
                swap_waker: None,
                frame_count: 0,
            }),
            r.0.displays(fb, items_addr, r.1.odr_addr, P::word_size(), request),
            forall|i: int|
                r.0.descriptor_count <= i < MAX_SEGMENTS ==> #[trigger] r.0.items@[i]
                    == zero_item_2d(),
            r.1.describes(pins, port_odr_addr, config),
            r.2 == (TransferOptions {
                priority: Priority::VeryHigh,
                half_transfer_ir: false,
                complete_transfer_ir: true,
                transfer_complete_mode: TransferCompleteMode::LastLinkedListItem,
            }),
    {
        let hw = hardware(pins, port_odr_addr, config);
        let mut items = empty_items();
        let word_size = P::dma_word_size();
        let descriptor_count: usize = build_item_chain_2d(
            &mut items,
            items_addr,
            fb,
            hw.odr_addr,
            word_size,
            request,
        );
        let hub = Self { core: IsrCore::new(), items, descriptor_count, current_fb: fb.addr };
        (hub, hw, gpdma_transfer_options())
    }

    /// Returns the number of complete BCM frames rendered since init.
    #[must_use]
    pub fn frame_count(&self) -> (r: u32)
        ensures
            r == self.core@.frame_count,
    {
        self.core.frame_count()
    }

    /// Replace the displayed framebuffer, returning the address of the
    /// previously-displayed one.
    ///
    /// Immediately shifts every descriptor source address to the framebuffer
    /// at `new_fb`. Once the descriptor table has been rewritten, arm the
    /// wait with [`IsrCore::wait_swap`]; the old framebuffer may be handed
    /// back when that wait is complete.
    pub fn swap(&mut self, new_fb: usize) -> (old_fb: usize)
        ensures
            old_fb == old(self).current_fb,
            old(self).swapped(new_fb, *final(self)),
    {
        let old_fb: usize = self.current_fb;
        let delta: isize = byte_delta(old_fb, new_fb);
        self.current_fb = new_fb;
        proof {
            assert forall|addr: u32| #[trigger]
                offset_bus_addr(addr, delta as int) == offset_bus_addr(addr, new_fb - old_fb) by {
                lemma_bus_delta(addr, old_fb, new_fb);
            }
            assert forall|addr: u32| #[trigger] offset_bus_addr(addr, 0) == addr by {}
        }
        if delta != 0 {
            apply_item_delta_2d(&mut self.items, self.descriptor_count, delta);
        }
        old_fb
    }
}

} // verus!
