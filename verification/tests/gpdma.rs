use hub75::bcm::{BcmState, MAX_SEGMENTS};
use hub75::framebuffer::{BcmLenReps, BcmSegment, BcmSequence, FrameBuffer, WordSize};
use hub75::gpdma::{
    apply_item_delta, build_item_chain, can_build_item_chain, chain_len, descriptor_count,
    gpdma_transfer_options, swap_wait_count, zeroed_linear_item, Hub75, IsrCore, LinearItem,
    Priority, TransferCompleteMode, TransferOptions, LINEAR_ITEM_BYTES, MAX_DESCRIPTORS,
};
use hub75::{AnyPin, Config, Hertz, Hub75Pins16, Speed};

const TABLE: usize = 0x2000_4000;
const ODR: usize = 0x4202_0c14;

fn segment(ptr: usize, len: usize, reps: usize) -> BcmSegment {
    BcmSegment { ptr, len, reps }
}

fn framebuffer_at(addr: usize) -> FrameBuffer {
    FrameBuffer {
        addr,
        word_size: WordSize::TwoBytes,
        segments: vec![
            segment(addr, 300, 1),
            segment(addr + 100, 200, 1),
            segment(addr + 200, 100, 2),
        ],
        segments_per_group: 1,
    }
}

fn whole_port() -> Hub75Pins16 {
    let mut pins = [AnyPin { port: 3, pin: 0 }; 16];
    for i in 0..16u8 {
        pins[i as usize].pin = i;
    }
    Hub75Pins16::new(pins).unwrap()
}

fn empty_table() -> [LinearItem; MAX_DESCRIPTORS] {
    [zeroed_linear_item(); MAX_DESCRIPTORS]
}

#[test]
fn zeroed_item_is_unlinked_and_empty() {
    let item = zeroed_linear_item();
    assert_eq!((item.request, item.sar, item.dar, item.len), (0, 0, 0, 0));
    assert_eq!(item.transfer_complete_mode, TransferCompleteMode::EachBlock);
    assert_eq!(item.link, None);
}

#[test]
fn chain_has_one_descriptor_per_repetition() {
    let fb = framebuffer_at(0x2001_0000);
    let mut items = empty_table();
    assert!(can_build_item_chain(TABLE, &fb, WordSize::TwoBytes));
    let count = build_item_chain(&mut items, TABLE, &fb, ODR, WordSize::TwoBytes, 42);
    assert_eq!(count, 4);
    assert_eq!(
        items[0],
        LinearItem {
            request: 42,
            sar: 0x2001_0000,
            dar: 0x4202_0c14,
            len: 300,
            word_size: WordSize::TwoBytes,
            transfer_complete_mode: TransferCompleteMode::LastLinkedListItem,
            link: Some(0x4018),
        }
    );
    assert_eq!((items[1].sar, items[1].len, items[1].link), (0x2001_0064, 200, Some(0x4030)));
    assert_eq!((items[2].sar, items[2].len, items[2].link), (0x2001_00c8, 100, Some(0x4048)));
    assert_eq!((items[3].sar, items[3].len, items[3].link), (0x2001_00c8, 100, Some(0x4000)));
    assert_eq!(items[4], zeroed_linear_item());
}

#[test]
fn only_terminal_descriptor_raises_an_event() {
    let fb = framebuffer_at(0x2001_0000);
    let mut items = empty_table();
    let count = build_item_chain(&mut items, TABLE, &fb, ODR, WordSize::TwoBytes, 1);
    for (i, item) in items[..count].iter().enumerate() {
        let raises = item.transfer_complete_mode == TransferCompleteMode::EachLinkedListItem;
        assert_eq!(raises, i + 1 == count);
    }
}

#[test]
fn links_walk_round_the_table() {
    let fb = framebuffer_at(0x2001_0000);
    let mut items = empty_table();
    let count = build_item_chain(&mut items, TABLE, &fb, ODR, WordSize::TwoBytes, 1);
    let mut at = 0;
    let mut visited = Vec::new();
    for _ in 0..2 * count {
        visited.push(at);
        let target = (TABLE & !0xffff) + items[at].link.unwrap() as usize;
        at = (target - TABLE) / LINEAR_ITEM_BYTES;
    }
    assert_eq!(visited, vec![0, 1, 2, 3, 0, 1, 2, 3]);
}

#[test]
fn chain_streams_what_the_scan_outputs() {
    let fb = framebuffer_at(0x2001_0000);
    let mut items = empty_table();
    let count = build_item_chain(&mut items, TABLE, &fb, ODR, WordSize::TwoBytes, 1);
    let mut state = BcmState::new();
    state.load(&fb);
    for i in 0..count {
        let (ptr, len) = state.current_segment();
        assert_eq!((items[i].sar as usize, items[i].len), (ptr, len));
        assert_eq!(state.advance(), i + 1 == count);
    }
}

#[test]
fn segment_without_repetitions_has_no_descriptor() {
    let fb = FrameBuffer {
        addr: 0x10,
        word_size: WordSize::OneByte,
        segments: vec![segment(0x10, 1, 0), segment(0x20, 2, 1)],
        segments_per_group: 1,
    };
    let mut items = empty_table();
    let count = build_item_chain(&mut items, TABLE, &fb, ODR, WordSize::OneByte, 1);
    assert_eq!(count, 1);
    assert_eq!(items[0].sar, 0x20);
    assert_eq!(items[0].link, Some(0x4000));
    assert_eq!(items[0].transfer_complete_mode, TransferCompleteMode::EachLinkedListItem);
}

#[test]
fn full_table_can_be_built() {
    let fb = FrameBuffer {
        addr: 0x10,
        word_size: WordSize::OneByte,
        segments: vec![segment(0x10, 1, MAX_DESCRIPTORS)],
        segments_per_group: 1,
    };
    let mut items = empty_table();
    assert!(can_build_item_chain(TABLE, &fb, WordSize::OneByte));
    assert_eq!(
        build_item_chain(&mut items, TABLE, &fb, ODR, WordSize::OneByte, 1),
        MAX_DESCRIPTORS
    );
    assert_eq!(items[MAX_DESCRIPTORS - 1].link, Some(0x4000));
}

#[test]
fn chain_conditions_are_checked() {
    let fb = framebuffer_at(0x2001_0000);
    assert!(!can_build_item_chain(TABLE, &fb, WordSize::FourBytes));
    assert!(!can_build_item_chain(TABLE, &fb, WordSize::EightBytes));
    assert!(can_build_item_chain(TABLE, &fb, WordSize::OneByte));

    let odd_address = framebuffer_at(0x2001_0001);
    assert!(!can_build_item_chain(TABLE, &odd_address, WordSize::TwoBytes));
    assert!(can_build_item_chain(TABLE, &odd_address, WordSize::OneByte));

    let mut odd_length = framebuffer_at(0x2001_0000);
    odd_length.segments[1].len = 199;
    assert!(!can_build_item_chain(TABLE, &odd_length, WordSize::TwoBytes));

    let mut long = framebuffer_at(0x2001_0000);
    long.segments[1].len = 65535;
    assert!(can_build_item_chain(TABLE, &long, WordSize::OneByte));
    long.segments[1].len = 65536;
    assert!(!can_build_item_chain(TABLE, &long, WordSize::OneByte));
    long.segments[1].reps = 0;
    assert!(can_build_item_chain(TABLE, &long, WordSize::OneByte));

    let mut none = framebuffer_at(0x2001_0000);
    none.segments.clear();
    assert!(!can_build_item_chain(TABLE, &none, WordSize::TwoBytes));

    let mut too_many_segments = framebuffer_at(0x2001_0000);
    too_many_segments.segments = vec![segment(2, 2, 0); MAX_SEGMENTS + 1];
    assert!(!can_build_item_chain(TABLE, &too_many_segments, WordSize::TwoBytes));

    let mut too_many_reps = framebuffer_at(0x2001_0000);
    too_many_reps.segments[2].reps = MAX_DESCRIPTORS - 1;
    assert!(!can_build_item_chain(TABLE, &too_many_reps, WordSize::TwoBytes));
    too_many_reps.segments[2].reps = usize::MAX;
    assert!(!can_build_item_chain(TABLE, &too_many_reps, WordSize::TwoBytes));
}

#[test]
fn chain_must_not_span_a_64k_boundary() {
    let fb = framebuffer_at(0x2001_0000);
    let last_fit = 0x2001_0000 - 4 * LINEAR_ITEM_BYTES;
    assert!(can_build_item_chain(last_fit, &fb, WordSize::TwoBytes));
    assert!(!can_build_item_chain(last_fit + 4, &fb, WordSize::TwoBytes));
    assert!(can_build_item_chain(0x2001_0000, &fb, WordSize::TwoBytes));
    assert!(!can_build_item_chain(usize::MAX - 3, &fb, WordSize::TwoBytes));
}

#[test]
fn chain_len_is_sum_of_repetitions() {
    let mut fb = framebuffer_at(0x2001_0000);
    assert_eq!(chain_len(&fb), Some(4));
    fb.segments[0].reps = 252;
    assert_eq!(chain_len(&fb), Some(255));
    fb.segments[0].reps = 253;
    assert_eq!(chain_len(&fb), None);
}

#[test]
fn item_delta_moves_active_descriptors() {
    let fb = framebuffer_at(0x2001_0000);
    let mut items = empty_table();
    let count = build_item_chain(&mut items, TABLE, &fb, ODR, WordSize::TwoBytes, 1);
    apply_item_delta(&mut items, count, 0x800);
    assert_eq!(items[0].sar, 0x2001_0800);
    assert_eq!(items[3].sar, 0x2001_08c8);
    assert_eq!(items[4].sar, 0);
    apply_item_delta(&mut items, count, -0x1000);
    assert_eq!(items[0].sar, 0x2000_f800);
    assert_eq!(items[0].dar, 0x4202_0c14);
}

#[test]
fn item_delta_wraps_at_32_bits() {
    let mut items = empty_table();
    items[0].sar = 0x10;
    items[1].sar = 0xffff_fff0;
    apply_item_delta(&mut items, 2, -0x20);
    assert_eq!(items[0].sar, 0xffff_fff0);
    assert_eq!(items[1].sar, 0xffff_ffd0);
    apply_item_delta(&mut items, 2, 0x30);
    assert_eq!(items[0].sar, 0x20);
    assert_eq!(items[1].sar, 0);
}

#[test]
fn item_delta_count_is_clamped_to_the_table() {
    let mut items = empty_table();
    apply_item_delta(&mut items, usize::MAX, 7);
    assert!(items.iter().all(|item| item.sar == 7));
}

#[test]
fn transfer_options_are_fixed() {
    assert_eq!(
        gpdma_transfer_options(),
        TransferOptions {
            priority: Priority::VeryHigh,
            half_transfer_ir: false,
            complete_transfer_ir: true,
            transfer_complete_mode: TransferCompleteMode::LastLinkedListItem,
        }
    );
    let outside = embassy_stm32::dma::TransferOptions::default();
    assert!(outside.priority == embassy_stm32::dma::Priority::VeryHigh);
    assert!(!outside.half_transfer_ir);
    assert!(outside.complete_transfer_ir);
}

#[test]
fn bitplane_sequences_need_powers_of_two() {
    for planes in 1..=8usize {
        let mut entries = vec![BcmLenReps { len: planes * 64, reps: 1 }];
        for k in 1..planes {
            entries.push(BcmLenReps { len: (planes - k) * 64, reps: 1 << (k - 1) });
        }
        let frame_major = BcmSequence { entries, count: 1 };
        assert_eq!(descriptor_count(&frame_major), 1 << (planes - 1));
        let row_major = BcmSequence { entries: frame_major.entries, count: 32 };
        assert_eq!(descriptor_count(&row_major), 32 << (planes - 1));
    }
}

#[test]
fn sequence_that_never_repeats_needs_nothing() {
    let sequence =
        BcmSequence { entries: vec![BcmLenReps { len: 1, reps: usize::MAX }; 2], count: 0 };
    assert_eq!(descriptor_count(&sequence), 0);
}

#[test]
fn swap_waits_for_two_interrupts_by_default() {
    assert_eq!(swap_wait_count(false, false), 2);
    assert_eq!(swap_wait_count(false, true), 1);
    assert_eq!(swap_wait_count(true, false), 0);
    assert_eq!(swap_wait_count(true, true), 0);
}

#[test]
fn armed_swap_is_done_after_its_boundaries() {
    let mut core: IsrCore<&str> = IsrCore::new();
    assert!(core.wait_swap(2));
    assert!(!core.poll_swap("task"));
    assert_eq!(core.on_frame(), None);
    assert!(!core.poll_swap("task again"));
    assert_eq!(core.on_frame(), Some("task again"));
    assert!(core.poll_swap("late"));
    assert_eq!(core.on_frame(), None);
    assert_eq!(core.frame_count(), 3);
}

#[test]
fn shortened_waits() {
    let mut core: IsrCore<u8> = IsrCore::new();
    assert!(!core.wait_swap(0));
    assert!(core.wait_swap(1));
    assert!(!core.poll_swap(9));
    assert_eq!(core.on_frame(), Some(9));
    assert!(core.poll_swap(10));
}

#[test]
fn frames_are_counted_without_a_swap() {
    let mut core: IsrCore<u8> = IsrCore::new();
    assert!(!core.poll_swap(1));
    for _ in 0..5 {
        assert_eq!(core.on_frame(), None);
    }
    assert_eq!(core.frame_count(), 5);
}

#[test]
fn driver_builds_chain_and_setup() {
    let fb = framebuffer_at(0x2001_0000);
    let config = Config::new().frequency(Hertz(20_000_000)).gpio_speed(Speed::High);
    let (hub, hw, options) = Hub75::<u8>::new(whole_port(), ODR, &config, 42, TABLE, &fb);
    assert_eq!(hub.descriptor_count, 4);
    assert_eq!(hub.current_fb, 0x2001_0000);
    assert_eq!(hub.frame_count(), 0);
    assert_eq!(hub.items[3].dar, 0x4202_0c14);
    assert_eq!(hub.items[3].request, 42);
    assert_eq!(hub.items[4], zeroed_linear_item());
    assert_eq!(hw.odr_addr, ODR);
    assert_eq!(hw.frequency, Hertz(20_000_000));
    assert_eq!(hw.pins.len(), 16);
    assert_eq!(options, gpdma_transfer_options());
}

#[test]
fn driver_swap_is_a_rebuild() {
    let fb0 = framebuffer_at(0x2001_0000);
    let fb1 = framebuffer_at(0x2000_8000);
    let config = Config::new();
    let (mut hub, _, _) = Hub75::<u8>::new(whole_port(), ODR, &config, 1, TABLE, &fb0);
    let (other, _, _) = Hub75::<u8>::new(whole_port(), ODR, &config, 1, TABLE, &fb1);
    assert_eq!(hub.swap(fb1.addr), fb0.addr);
    assert_eq!(hub.items, other.items);
    assert_eq!(hub.current_fb, fb1.addr);
    assert_eq!(hub.swap(fb0.addr), fb1.addr);
    assert_eq!(hub.items[0].sar, 0x2001_0000);
}

#[test]
fn driver_swap_to_same_framebuffer_changes_nothing() {
    let fb = framebuffer_at(0x2001_0000);
    let (mut hub, _, _) = Hub75::<u8>::new(whole_port(), ODR, &Config::new(), 1, TABLE, &fb);
    let before = hub.items;
    assert_eq!(hub.swap(fb.addr), fb.addr);
    assert_eq!(hub.items, before);
}

#[test]
fn driver_counts_frames_of_its_core() {
    let fb = framebuffer_at(0x2001_0000);
    let (mut hub, _, _) = Hub75::<u8>::new(whole_port(), ODR, &Config::new(), 1, TABLE, &fb);
    hub.swap(0x2002_0000);
    assert!(hub.core.wait_swap(swap_wait_count(false, false)));
    assert!(!hub.core.poll_swap(5));
    assert_eq!(hub.core.on_frame(), None);
    assert_eq!(hub.core.on_frame(), Some(5));
    assert!(hub.core.poll_swap(6));
    assert_eq!(hub.frame_count(), 2);
}
