//! Laws of the linked-list backends.
//!
//! What holds of the drivers of [`crate::gpdma`] and [`crate::gpdma_2d`] as a
//! whole: the chains they build are rings that stream one frame per round and
//! raise one event per frame, a swap turns the chain of one framebuffer into
//! the chain of another, and the default wait of a swap is long enough for
//! the old framebuffer to be handed back.

use vstd::arithmetic::power2::pow2;
use vstd::prelude::*;

use crate::bcm::{
    frame_len, frame_stream, law_delta_reaches_other_framebuffer, weight, MAX_SEGMENTS,
};
use crate::chain::{
    circular, events, law_two_interrupts_drain_old_sources, walk_after, ChainNode, Walk,
};
use crate::config::Config;
use crate::framebuffer::{
    moved_all, rep_sum, BcmLenReps, BcmSegment, BcmSequence, FrameBuffer, WordSize,
};
use crate::gpdma::{
    bus_addr, expanded, in_one_region, item_offset_of, law_swap_waits_for_boundaries,
    lemma_bus_addr_moves, lemma_expanded_len, lemma_expanded_prefix, linear_item_at, moved_item,
    moved_item_2d, offset_bus_addr, rep_total, Hub75, IsrCoreView,
    LinearItem, TransferCompleteMode, TwoDItem, LINEAR_ITEM_BYTES, MAX_DESCRIPTORS,
    TWO_D_ITEM_BYTES,
};
use crate::gpdma_2d::{fits_block, two_d_item_at};
use crate::pins::{law_byte_group, law_halfword_group, Hub75Pins, Hub75Pins16, Hub75Pins8};
use crate::setup::{law_byte_setup, law_halfword_setup, Hardware};

verus! {

// ---------------------------------------------------------------------------
// Linear chain
// ---------------------------------------------------------------------------

/// What decides the walk through the first `count` descriptors.
pub open spec fn linear_nodes(items: Seq<LinearItem>, count: nat) -> Seq<ChainNode> {
    Seq::new(
        count,
        |i: int|
            ChainNode {
                sar: items[i].sar,
                link: items[i].link,
                transfer_complete_mode: items[i].transfer_complete_mode,
            },
    )
}

/// The (bus address, byte length) of every transfer of one round through the
/// first `count` descriptors.
pub open spec fn linear_stream(items: Seq<LinearItem>, count: nat) -> Seq<(u32, usize)> {
    Seq::new(count, |i: int| (items[i].sar, items[i].len))
}

/// The blocks as the GPDMA addresses them.
pub open spec fn on_bus(blocks: Seq<(usize, usize)>) -> Seq<(u32, usize)> {
    blocks.map_values(|block: (usize, usize)| (bus_addr(block.0), block.1))
}

/// Every segment is streamed at least once.
pub open spec fn all_streamed(segments: Seq<BcmSegment>) -> bool {
    forall|i: int| 0 <= i < segments.len() ==> (#[trigger] segments[i]).reps > 0
}

/// When every segment is streamed, the expansion is the frame.
pub proof fn lemma_expanded_is_frame(segments: Seq<BcmSegment>)
    requires
        all_streamed(segments),
    ensures
        expanded(segments).map_values(|s: BcmSegment| (s.ptr, s.len)) == frame_stream(segments),
        rep_total(segments) == frame_len(segments),
        segments.len() > 0 ==> rep_total(segments) > 0,
    decreases segments.len(),
{
    let block = |s: BcmSegment| (s.ptr, s.len);
    if segments.len() > 0 {
        let init = segments.drop_last();
        assert(all_streamed(init)) by {
            assert forall|i: int| 0 <= i < init.len() implies (#[trigger] init[i]).reps > 0 by {
                assert(init[i] == segments[i]);
            }
        }
        lemma_expanded_is_frame(init);
        assert(segments.last() == segments[segments.len() - 1]);
    }
    assert(expanded(segments).map_values(block) =~= frame_stream(segments));
}

/// The chain that a framebuffer is turned into is a ring, its terminal node
/// links back to item 0, and only that node raises an event.
pub proof fn law_linear_chain_is_circular<W>(
    hub: Hub75<W>,
    fb: &FrameBuffer,
    items_addr: usize,
    odr_addr: usize,
    word_size: WordSize,
    request: u8,
)
    requires
        hub.displays(fb, items_addr, odr_addr, word_size, request),
        in_one_region(items_addr, LINEAR_ITEM_BYTES * rep_total(fb.segments@)),
        rep_total(fb.segments@) > 0,
    ensures
        circular(
            linear_nodes(hub.items@, hub.descriptor_count as nat),
            items_addr,
            LINEAR_ITEM_BYTES as int,
        ),
{
    let nodes = linear_nodes(hub.items@, hub.descriptor_count as nat);
    assert forall|i: int| 0 <= i < nodes.len() implies {
        let terminal = i + 1 == nodes.len();
        &&& (#[trigger] nodes[i]).link == Some(
            item_offset_of(
                items_addr,
                LINEAR_ITEM_BYTES as int,
                if terminal {
                    0
                } else {
                    i + 1
                },
            ),
        )
        &&& nodes[i].transfer_complete_mode == (if terminal {
            TransferCompleteMode::EachLinkedListItem
        } else {
            TransferCompleteMode::LastLinkedListItem
        })
    } by {
        assert(hub.items@[i] == linear_item_at(
            fb.segments@,
            items_addr,
            odr_addr,
            word_size,
            request,
            i,
        ));
    }
}

/// One round through the chain streams one frame: each segment as often in a
/// row as its repetition count says, in scan order. This is what the
/// interrupt-driven scan outputs over one frame.
pub proof fn law_linear_chain_streams_frame<W>(
    hub: Hub75<W>,
    fb: &FrameBuffer,
    items_addr: usize,
    odr_addr: usize,
    word_size: WordSize,
    request: u8,
)
    requires
        hub.displays(fb, items_addr, odr_addr, word_size, request),
        all_streamed(fb.segments@),
    ensures
        linear_stream(hub.items@, hub.descriptor_count as nat) == on_bus(
            frame_stream(fb.segments@),
        ),
{
    let segments = fb.segments@;
    let block = |s: BcmSegment| (s.ptr, s.len);
    lemma_expanded_is_frame(segments);
    lemma_expanded_len(segments);
    assert forall|i: int| 0 <= i < hub.descriptor_count implies (
    #[trigger] hub.items@[i].sar, hub.items@[i].len) == on_bus(frame_stream(segments))[i] by {
        assert(expanded(segments).map_values(block)[i] == block(expanded(segments)[i]));
        assert(hub.items@[i] == linear_item_at(
            segments,
            items_addr,
            odr_addr,
            word_size,
            request,
            i,
        ));
    }
    assert(linear_stream(hub.items@, hub.descriptor_count as nat) =~= on_bus(
        frame_stream(segments),
    ));
}

/// Moving the segments moves the expansion.
pub proof fn lemma_expanded_moves(segments: Seq<BcmSegment>, delta: int)
    ensures
        expanded(moved_all(segments, delta)) == moved_all(expanded(segments), delta),
        rep_total(moved_all(segments, delta)) == rep_total(segments),
    decreases segments.len(),
{
    let moved = moved_all(segments, delta);
    if segments.len() > 0 {
        lemma_expanded_moves(segments.drop_last(), delta);
        assert(moved.drop_last() =~= moved_all(segments.drop_last(), delta));
    }
    assert(expanded(moved) =~= moved_all(expanded(segments), delta));
}

/// A swap is a rebuild: after it, the table holds exactly the chain that
/// building it for the new framebuffer gives, and the old framebuffer is the
/// one handed back. `swapped` is the driver after `swap` to `new_fb`.
pub proof fn law_swap_displays_new_framebuffer<W>(
    hub: Hub75<W>,
    swapped: Hub75<W>,
    old_fb: &FrameBuffer,
    new_fb: &FrameBuffer,
    items_addr: usize,
    odr_addr: usize,
    word_size: WordSize,
    request: u8,
)
    requires
        hub.displays(old_fb, items_addr, odr_addr, word_size, request),
        old_fb.same_layout(new_fb),
        hub.swapped(new_fb.addr, swapped),
    ensures
        swapped.displays(new_fb, items_addr, odr_addr, word_size, request),
        hub.current_fb == old_fb.addr,
{
    let delta = new_fb.addr - old_fb.addr;
    law_delta_reaches_other_framebuffer(old_fb, new_fb);
    lemma_expanded_moves(old_fb.segments@, delta);
    lemma_expanded_len(old_fb.segments@);
    assert forall|i: int| 0 <= i < swapped.descriptor_count implies #[trigger] swapped.items@[i]
        == linear_item_at(new_fb.segments@, items_addr, odr_addr, word_size, request, i) by {
        assert(hub.items@[i] == linear_item_at(
            old_fb.segments@,
            items_addr,
            odr_addr,
            word_size,
            request,
            i,
        ));
        lemma_bus_addr_moves(expanded(old_fb.segments@)[i].ptr, delta);
    }
}

/// The default wait of a swap is long enough: wherever in the ring the GPDMA
/// is when the descriptors are rewritten for `new_fb`, and whatever it still
/// reads from then, once the swap is reported as done it reads segments of
/// `new_fb`, and nothing else ever after.
///
/// `armed` is the core with the default wait of two boundaries, `served` the
/// number of interrupts it has counted since, and `n` the number of items
/// that the GPDMA has completed since the rewrite. An interrupt is served
/// after its event was raised, and at most one event was raised before the
/// rewrite and served after it.
pub proof fn law_default_wait_drains_old_framebuffer<W>(
    swapped: Hub75<W>,
    new_fb: &FrameBuffer,
    items_addr: usize,
    odr_addr: usize,
    word_size: WordSize,
    request: u8,
    armed: IsrCoreView<W>,
    served: nat,
    walk: Walk,
    raised_before: nat,
    n: nat,
    m: nat,
)
    requires
        swapped.displays(new_fb, items_addr, odr_addr, word_size, request),
        in_one_region(items_addr, LINEAR_ITEM_BYTES * rep_total(new_fb.segments@)),
        0 <= walk.at < swapped.descriptor_count,
        armed.swap_waits == 2,
        !armed.swap_done,
        armed.after_frames(served).swap_done,
        raised_before <= 1,
        served <= raised_before + events(
            linear_nodes(swapped.items@, swapped.descriptor_count as nat),
            items_addr,
            LINEAR_ITEM_BYTES as int,
            walk,
            n,
        ),
        m >= n,
    ensures
        ({
            let nodes = linear_nodes(swapped.items@, swapped.descriptor_count as nat);
            let now = walk_after(nodes, items_addr, LINEAR_ITEM_BYTES as int, walk, m);
            &&& 0 <= now.at < swapped.descriptor_count
            &&& now.src == bus_addr(expanded(new_fb.segments@)[now.at].ptr)
        }),
{
    let nodes = linear_nodes(swapped.items@, swapped.descriptor_count as nat);
    law_linear_chain_is_circular(swapped, new_fb, items_addr, odr_addr, word_size, request);
    law_swap_waits_for_boundaries(armed, 2, served);
    law_two_interrupts_drain_old_sources(
        nodes,
        items_addr,
        LINEAR_ITEM_BYTES as int,
        walk,
        raised_before,
        n,
        m,
    );
    let now = walk_after(nodes, items_addr, LINEAR_ITEM_BYTES as int, walk, m);
    assert(swapped.items@[now.at] == linear_item_at(
        new_fb.segments@,
        items_addr,
        odr_addr,
        word_size,
        request,
        now.at,
    ));
}

/// Swapping to another framebuffer and back restores the chain.
pub proof fn law_swap_back_restores_chain<W>(
    hub: Hub75<W>,
    there: Hub75<W>,
    back: Hub75<W>,
    new_fb: usize,
)
    requires
        hub.swapped(new_fb, there),
        there.swapped(hub.current_fb, back),
    ensures
        back.items@ == hub.items@,
        back.descriptor_count == hub.descriptor_count,
        back.current_fb == hub.current_fb,
        there.current_fb == new_fb,
{
    let delta = new_fb - hub.current_fb;
    assert forall|i: int| 0 <= i < MAX_DESCRIPTORS implies #[trigger] back.items@[i]
        == hub.items@[i] by {
        assert(i < hub.descriptor_count ==> there.items@[i].sar == offset_bus_addr(
            hub.items@[i].sar,
            delta,
        ));
        lemma_bus_addr_returns(hub.items@[i].sar, delta);
    }
    assert(back.items@ =~= hub.items@);
}

/// Moving a bus address there and back restores it.
proof fn lemma_bus_addr_returns(addr: u32, delta: int)
    ensures
        offset_bus_addr(offset_bus_addr(addr, delta), -delta) == addr,
{
}

/// The static descriptor count is the length of the chain: a framebuffer that
/// streams `sequence` needs as many descriptors as the sequence says, whether
/// they are counted ahead of time or from its segments.
pub proof fn law_static_count_is_chain_len(sequence: &BcmSequence, fb: &FrameBuffer)
    requires
        sequence.describes(fb),
    ensures
        rep_total(fb.segments@) == sequence.rep_count(),
{
    let len = sequence.entries@.len();
    let count = sequence.count as nat;
    lemma_repeated_reps(sequence, fb, count);
    assert(len * count <= fb.segments@.len());
    assert(fb.segments@.take((len * count) as int) =~= fb.segments@);
}

/// The first `rounds` rounds of a sequence have `rounds` times its
/// repetitions.
proof fn lemma_repeated_reps(sequence: &BcmSequence, fb: &FrameBuffer, rounds: nat)
    requires
        sequence.describes(fb),
        rounds <= sequence.count,
    ensures
        sequence.entries@.len() * rounds <= fb.segments@.len(),
        rep_total(fb.segments@.take((sequence.entries@.len() * rounds) as int)) == rounds * rep_sum(
            sequence.entries@,
        ),
    decreases rounds,
{
    let len = sequence.entries@.len();
    let count = sequence.count as nat;
    assert(len * rounds <= len * count) by (nonlinear_arith)
        requires
            rounds <= count,
    ;
    if rounds == 0 {
        assert(len * 0 == 0);
        assert(fb.segments@.take(0) =~= Seq::empty());
    } else {
        let before = (rounds - 1) as nat;
        lemma_repeated_reps(sequence, fb, before);
        assert(len * rounds == len * before + len) by (nonlinear_arith)
            requires
                rounds == before + 1,
        ;
        lemma_one_round_reps(sequence, fb, before, len);
        assert(sequence.entries@.take(len as int) =~= sequence.entries@);
        assert(rounds * rep_sum(sequence.entries@) == before * rep_sum(sequence.entries@) + rep_sum(
            sequence.entries@,
        )) by (nonlinear_arith)
            requires
                rounds == before + 1,
        ;
    }
}

/// The first `n` segments of round `round` add the repetitions of the first
/// `n` entries.
proof fn lemma_one_round_reps(sequence: &BcmSequence, fb: &FrameBuffer, round: nat, n: nat)
    requires
        sequence.describes(fb),
        n <= sequence.entries@.len(),
        sequence.entries@.len() * round + n <= fb.segments@.len(),
    ensures
        rep_total(fb.segments@.take((sequence.entries@.len() * round + n) as int)) == rep_total(
            fb.segments@.take((sequence.entries@.len() * round) as int),
        ) + rep_sum(sequence.entries@.take(n as int)),
    decreases n,
{
    let segments = fb.segments@;
    let entries = sequence.entries@;
    let start = (entries.len() * round) as int;
    if n == 0 {
        assert(entries.take(0) =~= Seq::empty());
    } else {
        let before = (n - 1) as nat;
        lemma_one_round_reps(sequence, fb, round, before);
        let at = start + before;
        assert(segments.take(at + 1).drop_last() =~= segments.take(at));
        assert(entries.take(n as int).drop_last() =~= entries.take(before as int));
        vstd::arithmetic::div_mod::lemma_fundamental_div_mod_converse(
            at,
            entries.len() as int,
            round as int,
            before as int,
        );
        assert(segments[at].reps == entries[before as int].reps);
    }
}

/// A frame-major bitplane sequence of `entries.len()` planes: the least
/// significant plane is streamed once, and plane `k` is repeated `2^(k-1)`
/// times.
pub open spec fn frame_major(entries: Seq<BcmLenReps>) -> bool {
    &&& entries.len() > 0
    &&& entries[0].reps == 1
    &&& forall|k: int|
        1 <= k < entries.len() ==> (#[trigger] entries[k]).reps == pow2((k - 1) as nat)
}

/// A frame-major bitplane framebuffer with `PLANES` planes needs
/// `2^(PLANES-1)` descriptors, and a row-major one, which repeats that
/// sequence for each of `NROWS` rows, `NROWS * 2^(PLANES-1)`. With up to eight
/// planes a frame-major chain always fits in the table.
pub proof fn law_bitplane_descriptor_count(sequence: &BcmSequence)
    requires
        frame_major(sequence.entries@),
    ensures
        sequence.rep_count() == sequence.count * pow2((sequence.entries@.len() - 1) as nat),
        sequence.count == 1 && sequence.entries@.len() <= 8 ==> sequence.rep_count()
            <= MAX_DESCRIPTORS,
{
    let entries = sequence.entries@;
    lemma_bitplane_rep_sum(entries, entries.len());
    assert(entries.take(entries.len() as int) =~= entries);
    vstd::arithmetic::power2::lemma2_to64();
}

/// The first `n` planes of a frame-major sequence have `2^(n-1)` repetitions.
proof fn lemma_bitplane_rep_sum(entries: Seq<BcmLenReps>, n: nat)
    requires
        frame_major(entries),
        1 <= n <= entries.len(),
    ensures
        rep_sum(entries.take(n as int)) == pow2((n - 1) as nat),
    decreases n,
{
    let before = (n - 1) as nat;
    assert(entries.take(n as int).drop_last() =~= entries.take(before as int));
    assert(entries.take(n as int).last() == entries[before as int]);
    if n == 1 {
        vstd::arithmetic::power2::lemma2_to64();
        assert(rep_sum(entries.take(0)) == 0);
        assert(pow2(0) == 1);
    } else {
        lemma_bitplane_rep_sum(entries, before);
        vstd::arithmetic::power2::lemma_pow2_unfold(before);
        assert(entries[before as int].reps == pow2((before - 1) as nat));
    }
}

/// Every active descriptor is paced by the request line, writes the register
/// in words of the size asked for, and leads to the descriptor behind it, the
/// last one to the first. Only the last one raises an event.
pub proof fn law_descriptors_write_the_register<W>(
    hub: Hub75<W>,
    fb: &FrameBuffer,
    items_addr: usize,
    odr_addr: usize,
    word_size: WordSize,
    request: u8,
    i: int,
)
    requires
        hub.displays(fb, items_addr, odr_addr, word_size, request),
        0 <= i < hub.descriptor_count,
    ensures
        ({
            let item = hub.items@[i];
            let last = i + 1 == hub.descriptor_count;
            let next = if last {
                0
            } else {
                i + 1
            };
            &&& item.request == request
            &&& item.dar as int == odr_addr as int % 4294967296
            &&& item.word_size == word_size
            &&& item.link is Some
            &&& item.link->0 as int == (items_addr + 24 * next) % 65536
            &&& last ==> item.transfer_complete_mode == TransferCompleteMode::EachLinkedListItem
            &&& !last ==> item.transfer_complete_mode == TransferCompleteMode::LastLinkedListItem
        }),
{
    assert(hub.items@[i] == linear_item_at(
        fb.segments@,
        items_addr,
        odr_addr,
        word_size,
        request,
        i,
    ));
}

/// Every repetition of every segment has a descriptor that reads the whole
/// segment, in scan order behind those of the segments before it, and there
/// are no others.
pub proof fn law_descriptors_read_the_segments<W>(
    hub: Hub75<W>,
    fb: &FrameBuffer,
    items_addr: usize,
    odr_addr: usize,
    word_size: WordSize,
    request: u8,
    n: int,
    rep: int,
)
    requires
        hub.displays(fb, items_addr, odr_addr, word_size, request),
        0 <= n < fb.segments@.len(),
        0 <= rep < fb.segments@[n].reps,
    ensures
        ({
            let at = rep_total(fb.segments@.take(n)) + rep;
            &&& 0 <= at < hub.descriptor_count <= 255
            &&& hub.items@[at].sar as int == fb.segments@[n].ptr as int % 4294967296
            &&& hub.items@[at].len == fb.segments@[n].len
        }),
        hub.descriptor_count == rep_total(fb.segments@),
        hub.current_fb == fb.addr,
{
    lemma_expanded_prefix(fb.segments@, n);
    let at = rep_total(fb.segments@.take(n)) + rep;
    assert(expanded(fb.segments@)[at] == fb.segments@[n]);
    assert(hub.items@[at] == linear_item_at(
        fb.segments@,
        items_addr,
        odr_addr,
        word_size,
        request,
        at,
    ));
}

/// A driver on an 8-pin group writes bytes, to the upper byte of the register
/// when the group is wired to pins 8-15 and to the lower byte otherwise.
pub proof fn law_byte_driver_writes_its_byte<W>(
    hub: Hub75<W>,
    hw: &Hardware,
    group: Hub75Pins8,
    port_odr_addr: usize,
    config: &Config,
    fb: &FrameBuffer,
    items_addr: usize,
    request: u8,
    i: int,
)
    requires
        hw.describes(group, port_odr_addr, config),
        hub.displays(
            fb,
            items_addr,
            hw.odr_addr,
            <Hub75Pins8 as Hub75Pins>::word_size(),
            request,
        ),
        0 <= i < hub.descriptor_count,
    ensures
        hub.items@[i].word_size == WordSize::OneByte,
        group.base_pin == 0 ==> hub.items@[i].dar as int == port_odr_addr as int % 4294967296,
        group.base_pin != 0 ==> hub.items@[i].dar as int == (port_odr_addr + 1) % 4294967296,
{
    law_byte_setup(hw, group, port_odr_addr, config, 0);
    law_byte_group(group);
    law_descriptors_write_the_register(
        hub,
        fb,
        items_addr,
        hw.odr_addr,
        WordSize::OneByte,
        request,
        i,
    );
}

/// A driver on a 16-pin group writes halfwords to the whole register.
pub proof fn law_halfword_driver_writes_the_port<W>(
    hub: Hub75<W>,
    hw: &Hardware,
    group: Hub75Pins16,
    port_odr_addr: usize,
    config: &Config,
    fb: &FrameBuffer,
    items_addr: usize,
    request: u8,
    i: int,
)
    requires
        hw.describes(group, port_odr_addr, config),
        hub.displays(
            fb,
            items_addr,
            hw.odr_addr,
            <Hub75Pins16 as Hub75Pins>::word_size(),
            request,
        ),
        0 <= i < hub.descriptor_count,
    ensures
        hub.items@[i].word_size == WordSize::TwoBytes,
        hub.items@[i].dar as int == port_odr_addr as int % 4294967296,
{
    law_halfword_setup(hw, group, port_odr_addr, config, 0);
    law_halfword_group(group);
    law_descriptors_write_the_register(
        hub,
        fb,
        items_addr,
        hw.odr_addr,
        WordSize::TwoBytes,
        request,
        i,
    );
}

/// A swap moves what the active descriptors read by the distance between the
/// two framebuffers, modulo 2^32, and touches neither anything else in the
/// table nor the state that the interrupt handler shares.
pub proof fn law_swap_moves_sources_only<W>(
    hub: Hub75<W>,
    swapped: Hub75<W>,
    new_fb: usize,
    i: int,
)
    requires
        hub.swapped(new_fb, swapped),
        0 <= i < 255,
    ensures
        swapped.current_fb == new_fb,
        swapped.core == hub.core,
        swapped.descriptor_count == hub.descriptor_count,
        i < hub.descriptor_count ==> swapped.items@[i].sar as int == (hub.items@[i].sar + new_fb
            - hub.current_fb) % 4294967296,
        i >= hub.descriptor_count ==> swapped.items@[i].sar == hub.items@[i].sar,
        swapped.items@[i] == (LinearItem { sar: swapped.items@[i].sar, ..hub.items@[i] }),
{
    assert(swapped.items@[i] == (if i < hub.descriptor_count {
        moved_item(hub.items@[i], new_fb - hub.current_fb)
    } else {
        hub.items@[i]
    }));
}

// ---------------------------------------------------------------------------
// 2D chain
// ---------------------------------------------------------------------------

/// What decides the walk through the first `count` 2D descriptors.
pub open spec fn two_d_nodes(items: Seq<TwoDItem>, count: nat) -> Seq<ChainNode> {
    Seq::new(
        count,
        |i: int|
            ChainNode {
                sar: items[i].sar,
                link: items[i].link,
                transfer_complete_mode: items[i].transfer_complete_mode,
            },
    )
}

/// The (bus address, byte length) of every block that one 2D descriptor
/// streams: the source address runs through the block and is then stepped by
/// the block offset.
pub open spec fn item_blocks(item: TwoDItem) -> Seq<(u32, usize)> {
    Seq::new(
        (item.block_repeat_count + 1) as nat,
        |k: int|
            (offset_bus_addr(item.sar, k * (item.len + item.block_src_addr_offset)), item.len),
    )
}

/// The (bus address, byte length) of every block of one round through the
/// first `count` 2D descriptors.
pub open spec fn two_d_stream(items: Seq<TwoDItem>, count: nat) -> Seq<(u32, usize)>
    decreases count,
{
    if count == 0 {
        Seq::empty()
    } else {
        two_d_stream(items, (count - 1) as nat) + item_blocks(items[count - 1])
    }
}

/// The 2D chain that a framebuffer is turned into is a ring, its terminal
/// node links back to item 0, and only that node raises an event.
pub proof fn law_2d_chain_is_circular<W>(
    hub: crate::gpdma_2d::Hub75<W>,
    fb: &FrameBuffer,
    items_addr: usize,
    odr_addr: usize,
    word_size: WordSize,
    request: u8,
)
    requires
        hub.displays(fb, items_addr, odr_addr, word_size, request),
        in_one_region(items_addr, TWO_D_ITEM_BYTES * fb.segments@.len()),
        fb.segments@.len() > 0,
    ensures
        circular(
            two_d_nodes(hub.items@, hub.descriptor_count as nat),
            items_addr,
            TWO_D_ITEM_BYTES as int,
        ),
{
    let nodes = two_d_nodes(hub.items@, hub.descriptor_count as nat);
    assert forall|i: int| 0 <= i < nodes.len() implies {
        let terminal = i + 1 == nodes.len();
        &&& (#[trigger] nodes[i]).link == Some(
            item_offset_of(
                items_addr,
                TWO_D_ITEM_BYTES as int,
                if terminal {
                    0
                } else {
                    i + 1
                },
            ),
        )
        &&& nodes[i].transfer_complete_mode == (if terminal {
            TransferCompleteMode::EachLinkedListItem
        } else {
            TransferCompleteMode::LastLinkedListItem
        })
    } by {
        assert(hub.items@[i] == two_d_item_at(
            fb.segments@,
            items_addr,
            odr_addr,
            word_size,
            request,
            i,
        ));
    }
}

/// A 2D descriptor streams its segment `reps` times: each block starts where
/// the segment does, because the block offset steps back over the block.
pub proof fn law_2d_item_repeats_segment(
    segments: Seq<BcmSegment>,
    items_addr: usize,
    odr_addr: usize,
    word_size: WordSize,
    request: u8,
    index: int,
)
    requires
        0 <= index < segments.len(),
        fits_block(segments[index], word_size),
    ensures
        item_blocks(two_d_item_at(segments, items_addr, odr_addr, word_size, request, index))
            == Seq::new(
            segments[index].reps as nat,
            |k: int| (bus_addr(segments[index].ptr), segments[index].len),
        ),
{
    let item = two_d_item_at(segments, items_addr, odr_addr, word_size, request, index);
    let segment = segments[index];
    assert(item.len + item.block_src_addr_offset == 0);
    assert forall|k: int| 0 <= k < segment.reps implies #[trigger] item_blocks(item)[k] == (
        bus_addr(segment.ptr),
        segment.len,
    ) by {
        assert(k * 0 == 0);
        assert(offset_bus_addr(item.sar, 0) == item.sar);
    }
    assert(item_blocks(item) =~= Seq::new(
        segment.reps as nat,
        |k: int| (bus_addr(segment.ptr), segment.len),
    ));
}

/// One round through the 2D chain streams one frame, exactly as the linear
/// chain and the interrupt-driven scan do: the three backends have identical
/// BCM timing.
pub proof fn law_2d_chain_streams_frame<W>(
    hub: crate::gpdma_2d::Hub75<W>,
    fb: &FrameBuffer,
    items_addr: usize,
    odr_addr: usize,
    word_size: WordSize,
    request: u8,
)
    requires
        hub.displays(fb, items_addr, odr_addr, word_size, request),
        forall|i: int|
            0 <= i < fb.segments@.len() ==> fits_block(#[trigger] fb.segments@[i], word_size),
    ensures
        two_d_stream(hub.items@, hub.descriptor_count as nat) == on_bus(frame_stream(fb.segments@)),
{
    lemma_2d_stream_prefix(
        hub,
        fb,
        items_addr,
        odr_addr,
        word_size,
        request,
        hub.descriptor_count as nat,
    );
    assert(fb.segments@.take(hub.descriptor_count as int) =~= fb.segments@);
}

/// The first `n` descriptors stream the first `n` segments.
proof fn lemma_2d_stream_prefix<W>(
    hub: crate::gpdma_2d::Hub75<W>,
    fb: &FrameBuffer,
    items_addr: usize,
    odr_addr: usize,
    word_size: WordSize,
    request: u8,
    n: nat,
)
    requires
        hub.displays(fb, items_addr, odr_addr, word_size, request),
        forall|i: int|
            0 <= i < fb.segments@.len() ==> fits_block(#[trigger] fb.segments@[i], word_size),
        n <= fb.segments@.len(),
    ensures
        two_d_stream(hub.items@, n) == on_bus(frame_stream(fb.segments@.take(n as int))),
    decreases n,
{
    let segments = fb.segments@;
    if n == 0 {
        assert(two_d_stream(hub.items@, n) =~= on_bus(frame_stream(segments.take(0))));
    } else {
        let before = (n - 1) as nat;
        let last = segments[before as int];
        lemma_2d_stream_prefix(hub, fb, items_addr, odr_addr, word_size, request, before);
        assert(fits_block(last, word_size));
        law_2d_item_repeats_segment(
            segments,
            items_addr,
            odr_addr,
            word_size,
            request,
            before as int,
        );
        assert(hub.items@[before as int] == two_d_item_at(
            segments,
            items_addr,
            odr_addr,
            word_size,
            request,
            before as int,
        ));
        let prefix = segments.take(n as int);
        assert(prefix.drop_last() =~= segments.take(before as int));
        assert(prefix.last() == last);
        assert(weight(last) == last.reps);
        assert(two_d_stream(hub.items@, n) =~= on_bus(frame_stream(prefix)));
    }
}

/// A swap is a rebuild: after it, the table holds exactly the 2D chain that
/// building it for the new framebuffer gives. `swapped` is the driver after
/// `swap` to `new_fb`.
pub proof fn law_2d_swap_displays_new_framebuffer<W>(
    hub: crate::gpdma_2d::Hub75<W>,
    swapped: crate::gpdma_2d::Hub75<W>,
    old_fb: &FrameBuffer,
    new_fb: &FrameBuffer,
    items_addr: usize,
    odr_addr: usize,
    word_size: WordSize,
    request: u8,
)
    requires
        hub.displays(old_fb, items_addr, odr_addr, word_size, request),
        old_fb.same_layout(new_fb),
        hub.swapped(new_fb.addr, swapped),
    ensures
        swapped.displays(new_fb, items_addr, odr_addr, word_size, request),
        hub.current_fb == old_fb.addr,
{
    let delta = new_fb.addr - old_fb.addr;
    law_delta_reaches_other_framebuffer(old_fb, new_fb);
    assert forall|i: int| 0 <= i < swapped.descriptor_count implies #[trigger] swapped.items@[i]
        == two_d_item_at(new_fb.segments@, items_addr, odr_addr, word_size, request, i) by {
        assert(hub.items@[i] == two_d_item_at(
            old_fb.segments@,
            items_addr,
            odr_addr,
            word_size,
            request,
            i,
        ));
        lemma_bus_addr_moves(old_fb.segments@[i].ptr, delta);
    }
}

/// The default wait of a swap is long enough for the 2D chain too: once the
/// swap is reported as done, the GPDMA reads segments of `new_fb`, and nothing
/// else ever after.
///
/// The parameters are those of [`law_default_wait_drains_old_framebuffer`].
pub proof fn law_2d_default_wait_drains_old_framebuffer<W>(
    swapped: crate::gpdma_2d::Hub75<W>,
    new_fb: &FrameBuffer,
    items_addr: usize,
    odr_addr: usize,
    word_size: WordSize,
    request: u8,
    armed: IsrCoreView<W>,
    served: nat,
    walk: Walk,
    raised_before: nat,
    n: nat,
    m: nat,
)
    requires
        swapped.displays(new_fb, items_addr, odr_addr, word_size, request),
        in_one_region(items_addr, TWO_D_ITEM_BYTES * new_fb.segments@.len()),
        0 <= walk.at < swapped.descriptor_count,
        armed.swap_waits == 2,
        !armed.swap_done,
        armed.after_frames(served).swap_done,
        raised_before <= 1,
        served <= raised_before + events(
            two_d_nodes(swapped.items@, swapped.descriptor_count as nat),
            items_addr,
            TWO_D_ITEM_BYTES as int,
            walk,
            n,
        ),
        m >= n,
    ensures
        ({
            let nodes = two_d_nodes(swapped.items@, swapped.descriptor_count as nat);
            let now = walk_after(nodes, items_addr, TWO_D_ITEM_BYTES as int, walk, m);
            &&& 0 <= now.at < swapped.descriptor_count
            &&& now.src == bus_addr(new_fb.segments@[now.at].ptr)
        }),
{
    let nodes = two_d_nodes(swapped.items@, swapped.descriptor_count as nat);
    law_2d_chain_is_circular(swapped, new_fb, items_addr, odr_addr, word_size, request);
    law_swap_waits_for_boundaries(armed, 2, served);
    law_two_interrupts_drain_old_sources(
        nodes,
        items_addr,
        TWO_D_ITEM_BYTES as int,
        walk,
        raised_before,
        n,
        m,
    );
    let now = walk_after(nodes, items_addr, TWO_D_ITEM_BYTES as int, walk, m);
    assert(swapped.items@[now.at] == two_d_item_at(
        new_fb.segments@,
        items_addr,
        odr_addr,
        word_size,
        request,
        now.at,
    ));
}

/// Swapping to another framebuffer and back restores the 2D chain.
pub proof fn law_2d_swap_back_restores_chain<W>(
    hub: crate::gpdma_2d::Hub75<W>,
    there: crate::gpdma_2d::Hub75<W>,
    back: crate::gpdma_2d::Hub75<W>,
    new_fb: usize,
)
    requires
        hub.swapped(new_fb, there),
        there.swapped(hub.current_fb, back),
    ensures
        back.items@ == hub.items@,
        back.descriptor_count == hub.descriptor_count,
        back.current_fb == hub.current_fb,
        there.current_fb == new_fb,
{
    let delta = new_fb - hub.current_fb;
    assert forall|i: int| 0 <= i < MAX_SEGMENTS implies #[trigger] back.items@[i]
        == hub.items@[i] by {
        assert(i < hub.descriptor_count ==> there.items@[i].sar == offset_bus_addr(
            hub.items@[i].sar,
            delta,
        ));
        lemma_bus_addr_returns(hub.items@[i].sar, delta);
    }
    assert(back.items@ =~= hub.items@);
}

/// Every active 2D descriptor is paced by the request line, writes the register
/// in words of the size asked for, and leads to the descriptor behind it, the
/// last one to the first. Only the last one raises an event.
pub proof fn law_2d_descriptors_write_the_register<W>(
    hub: crate::gpdma_2d::Hub75<W>,
    fb: &FrameBuffer,
    items_addr: usize,
    odr_addr: usize,
    word_size: WordSize,
    request: u8,
    i: int,
)
    requires
        hub.displays(fb, items_addr, odr_addr, word_size, request),
        0 <= i < hub.descriptor_count,
    ensures
        ({
            let item = hub.items@[i];
            let last = i + 1 == hub.descriptor_count;
            let next = if last {
                0
            } else {
                i + 1
            };
            &&& item.request == request
            &&& item.dar as int == odr_addr as int % 4294967296
            &&& item.word_size == word_size
            &&& item.link is Some
            &&& item.link->0 as int == (items_addr + 32 * next) % 65536
            &&& last ==> item.transfer_complete_mode == TransferCompleteMode::EachLinkedListItem
            &&& !last ==> item.transfer_complete_mode == TransferCompleteMode::LastLinkedListItem
        }),
{
    assert(hub.items@[i] == two_d_item_at(
        fb.segments@,
        items_addr,
        odr_addr,
        word_size,
        request,
        i,
    ));
}

/// Every segment has one 2D descriptor, in scan order, and there are no others.
/// It reads the whole segment, repeats it until it has been streamed `reps`
/// times, and steps back over it in between.
pub proof fn law_2d_descriptors_read_the_segments<W>(
    hub: crate::gpdma_2d::Hub75<W>,
    fb: &FrameBuffer,
    items_addr: usize,
    odr_addr: usize,
    word_size: WordSize,
    request: u8,
    n: int,
)
    requires
        hub.displays(fb, items_addr, odr_addr, word_size, request),
        0 <= n < fb.segments@.len(),
        1 <= fb.segments@[n].reps <= 2048,
        fb.segments@[n].len <= 65535,
    ensures
        hub.items@[n].sar as int == fb.segments@[n].ptr as int % 4294967296,
        hub.items@[n].len == fb.segments@[n].len,
        hub.items@[n].block_repeat_count + 1 == fb.segments@[n].reps,
        hub.items@[n].block_src_addr_offset + fb.segments@[n].len == 0,
        hub.descriptor_count == fb.segments@.len() <= 320,
        hub.current_fb == fb.addr,
{
    assert(hub.items@[n] == two_d_item_at(
        fb.segments@,
        items_addr,
        odr_addr,
        word_size,
        request,
        n,
    ));
}

/// A 2D driver on an 8-pin group writes bytes, to the upper byte of the register
/// when the group is wired to pins 8-15 and to the lower byte otherwise.
pub proof fn law_2d_byte_driver_writes_its_byte<W>(
    hub: crate::gpdma_2d::Hub75<W>,
    hw: &Hardware,
    group: Hub75Pins8,
    port_odr_addr: usize,
    config: &Config,
    fb: &FrameBuffer,
    items_addr: usize,
    request: u8,
    i: int,
)
    requires
        hw.describes(group, port_odr_addr, config),
        hub.displays(
            fb,
            items_addr,
            hw.odr_addr,
            <Hub75Pins8 as Hub75Pins>::word_size(),
            request,
        ),
        0 <= i < hub.descriptor_count,
    ensures
        hub.items@[i].word_size == WordSize::OneByte,
        group.base_pin == 0 ==> hub.items@[i].dar as int == port_odr_addr as int % 4294967296,
        group.base_pin != 0 ==> hub.items@[i].dar as int == (port_odr_addr + 1) % 4294967296,
{
    law_byte_setup(hw, group, port_odr_addr, config, 0);
    law_byte_group(group);
    law_2d_descriptors_write_the_register(
        hub,
        fb,
        items_addr,
        hw.odr_addr,
        WordSize::OneByte,
        request,
        i,
    );
}

/// A 2D driver on a 16-pin group writes halfwords to the whole register.
pub proof fn law_2d_halfword_driver_writes_the_port<W>(
    hub: crate::gpdma_2d::Hub75<W>,
    hw: &Hardware,
    group: Hub75Pins16,
    port_odr_addr: usize,
    config: &Config,
    fb: &FrameBuffer,
    items_addr: usize,
    request: u8,
    i: int,
)
    requires
        hw.describes(group, port_odr_addr, config),
        hub.displays(
            fb,
            items_addr,
            hw.odr_addr,
            <Hub75Pins16 as Hub75Pins>::word_size(),
            request,
        ),
        0 <= i < hub.descriptor_count,
    ensures
        hub.items@[i].word_size == WordSize::TwoBytes,
        hub.items@[i].dar as int == port_odr_addr as int % 4294967296,
{
    law_halfword_setup(hw, group, port_odr_addr, config, 0);
    law_halfword_group(group);
    law_2d_descriptors_write_the_register(
        hub,
        fb,
        items_addr,
        hw.odr_addr,
        WordSize::TwoBytes,
        request,
        i,
    );
}

/// A swap moves what the active 2D descriptors read by the distance between the
/// two framebuffers, modulo 2^32, and touches neither anything else in the
/// table nor the state that the interrupt handler shares.
pub proof fn law_2d_swap_moves_sources_only<W>(
    hub: crate::gpdma_2d::Hub75<W>,
    swapped: crate::gpdma_2d::Hub75<W>,
    new_fb: usize,
    i: int,
)
    requires
        hub.swapped(new_fb, swapped),
        0 <= i < 320,
    ensures
        swapped.current_fb == new_fb,
        swapped.core == hub.core,
        swapped.descriptor_count == hub.descriptor_count,
        i < hub.descriptor_count ==> swapped.items@[i].sar as int == (hub.items@[i].sar + new_fb
            - hub.current_fb) % 4294967296,
        i >= hub.descriptor_count ==> swapped.items@[i].sar == hub.items@[i].sar,
        swapped.items@[i] == (TwoDItem { sar: swapped.items@[i].sar, ..hub.items@[i] }),
{
    assert(swapped.items@[i] == (if i < hub.descriptor_count {
        moved_item_2d(hub.items@[i], new_fb - hub.current_fb)
    } else {
        hub.items@[i]
    }));
}


} // verus!
