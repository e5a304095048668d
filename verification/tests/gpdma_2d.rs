use hub75::bcm::{BcmState, MAX_SEGMENTS};
use hub75::framebuffer::{BcmSegment, FrameBuffer, WordSize};
use hub75::gpdma::{
    apply_item_delta_2d, gpdma_transfer_options, TransferCompleteMode, TwoDItem, TWO_D_ITEM_BYTES,
};
use hub75::gpdma_2d::{
    build_item_chain_2d, can_build_item_chain_2d, zeroed_two_d_item, Hub75, MAX_BLOCK_REPS,
};
use hub75::{AnyPin, Config, Hub75Pins8};

const TABLE: usize = 0x2000_4000;
const ODR: usize = 0x4202_0414;

fn segment(ptr: usize, len: usize, reps: usize) -> BcmSegment {
    BcmSegment { ptr, len, reps }
}

fn framebuffer_at(addr: usize) -> FrameBuffer {
    FrameBuffer {
        addr,
        word_size: WordSize::OneByte,
        segments: vec![
            segment(addr, 300, 1),
            segment(addr + 100, 200, 1),
            segment(addr + 200, 100, 2),
        ],
        segments_per_group: 1,
    }
}

fn upper_byte() -> Hub75Pins8 {
    let pin = |pin| AnyPin { port: 1, pin };
    Hub75Pins8::new(pin(8), pin(9), pin(10), pin(11), pin(12), pin(13), pin(14), pin(15)).unwrap()
}

fn empty_table() -> [TwoDItem; MAX_SEGMENTS] {
    [zeroed_two_d_item(); MAX_SEGMENTS]
}

#[test]
fn zeroed_2d_item_is_unlinked_and_empty() {
    let item = zeroed_two_d_item();
    assert_eq!((item.request, item.sar, item.dar, item.len), (0, 0, 0, 0));
    assert_eq!((item.block_repeat_count, item.block_src_addr_offset), (0, 0));
    assert_eq!(item.link, None);
}

#[test]
fn chain_2d_has_one_descriptor_per_segment() {
    let fb = framebuffer_at(0x2001_0000);
    let mut items = empty_table();
    assert!(can_build_item_chain_2d(TABLE, &fb, WordSize::OneByte));
    let count = build_item_chain_2d(&mut items, TABLE, &fb, ODR, WordSize::OneByte, 9);
    assert_eq!(count, 3);
    assert_eq!(
        items[2],
        TwoDItem {
            request: 9,
            sar: 0x2001_00c8,
            dar: 0x4202_0414,
            len: 100,
            word_size: WordSize::OneByte,
            transfer_complete_mode: TransferCompleteMode::EachLinkedListItem,
            block_repeat_count: 1,
            block_src_addr_offset: -100,
            link: Some(0x4000),
        }
    );
    assert_eq!(items[0].link, Some(0x4020));
    assert_eq!(items[1].link, Some(0x4040));
    assert_eq!(items[0].block_repeat_count, 0);
    assert_eq!(items[0].transfer_complete_mode, TransferCompleteMode::LastLinkedListItem);
    assert_eq!(items[3], zeroed_two_d_item());
}

#[test]
fn chain_2d_streams_what_the_scan_outputs() {
    let fb = framebuffer_at(0x2001_0000);
    let mut items = empty_table();
    let count = build_item_chain_2d(&mut items, TABLE, &fb, ODR, WordSize::OneByte, 9);
    let mut blocks = Vec::new();
    for item in &items[..count] {
        let mut source = item.sar;
        for _ in 0..=item.block_repeat_count {
            blocks.push((source as usize, item.len));
            source = source
                .wrapping_add(item.len as u32)
                .wrapping_add(item.block_src_addr_offset as u32);
        }
    }
    let mut state = BcmState::new();
    state.load(&fb);
    for (i, block) in blocks.iter().enumerate() {
        assert_eq!(*block, state.current_segment());
        assert_eq!(state.advance(), i + 1 == blocks.len());
    }
}

#[test]
fn chain_2d_conditions_are_checked() {
    let mut fb = framebuffer_at(0x2001_0000);
    assert!(can_build_item_chain_2d(TABLE, &fb, WordSize::TwoBytes));
    assert!(!can_build_item_chain_2d(TABLE, &fb, WordSize::FourBytes));
    fb.segments[1].reps = 0;
    assert!(!can_build_item_chain_2d(TABLE, &fb, WordSize::OneByte));
    fb.segments[1].reps = MAX_BLOCK_REPS;
    assert!(can_build_item_chain_2d(TABLE, &fb, WordSize::OneByte));
    fb.segments[1].reps = MAX_BLOCK_REPS + 1;
    assert!(!can_build_item_chain_2d(TABLE, &fb, WordSize::OneByte));
    fb.segments[1].reps = 1;
    fb.segments[1].len = 65535;
    assert!(can_build_item_chain_2d(TABLE, &fb, WordSize::OneByte));
    fb.segments[1].len += 1;
    assert!(!can_build_item_chain_2d(TABLE, &fb, WordSize::OneByte));
    fb.segments[1].len = 199;
    assert!(!can_build_item_chain_2d(TABLE, &fb, WordSize::TwoBytes));
    fb.segments.clear();
    assert!(!can_build_item_chain_2d(TABLE, &fb, WordSize::OneByte));
}

#[test]
fn chain_2d_must_not_span_a_64k_boundary() {
    let fb = framebuffer_at(0x2001_0000);
    let last_fit = 0x2001_0000 - 3 * TWO_D_ITEM_BYTES;
    assert!(can_build_item_chain_2d(last_fit, &fb, WordSize::OneByte));
    assert!(!can_build_item_chain_2d(last_fit + 4, &fb, WordSize::OneByte));
}

#[test]
fn row_major_layout_fills_the_2d_table() {
    let segments: Vec<BcmSegment> =
        (0..MAX_SEGMENTS).map(|i| segment(0x2001_0000 + 64 * i, 64, 1 + i % 4)).collect();
    let fb = FrameBuffer {
        addr: 0x2001_0000,
        word_size: WordSize::OneByte,
        segments,
        segments_per_group: 10,
    };
    assert!(can_build_item_chain_2d(TABLE, &fb, WordSize::OneByte));
    let mut items = empty_table();
    assert_eq!(
        build_item_chain_2d(&mut items, TABLE, &fb, ODR, WordSize::OneByte, 9),
        MAX_SEGMENTS
    );
    assert_eq!(items[MAX_SEGMENTS - 1].link, Some(0x4000));
    assert_eq!(items[MAX_SEGMENTS - 2].link, Some(0x67e0));
}

#[test]
fn item_delta_2d_moves_active_descriptors() {
    let mut items = empty_table();
    items[0].sar = 0x100;
    items[1].sar = 0x200;
    apply_item_delta_2d(&mut items, 1, -0x101);
    assert_eq!(items[0].sar, 0xffff_ffff);
    assert_eq!(items[1].sar, 0x200);
    apply_item_delta_2d(&mut items, usize::MAX, 1);
    assert_eq!(items[0].sar, 0);
    assert_eq!(items[1].sar, 0x201);
    assert_eq!(items[MAX_SEGMENTS - 1].sar, 1);
}

#[test]
fn driver_2d_swap_is_a_rebuild() {
    let fb0 = framebuffer_at(0x2001_0000);
    let fb1 = framebuffer_at(0x2000_8000);
    let config = Config::new();
    let (mut hub, hw, options) = Hub75::<u8>::new(upper_byte(), ODR, &config, 9, TABLE, &fb0);
    assert_eq!(hw.odr_addr, ODR + 1);
    assert_eq!(options, gpdma_transfer_options());
    assert_eq!(hub.descriptor_count, 3);
    assert_eq!(hub.items[0].dar, 0x4202_0415);
    assert_eq!(hub.items[3], zeroed_two_d_item());
    let before = hub.items;
    let (other, _, _) = Hub75::<u8>::new(upper_byte(), ODR, &config, 9, TABLE, &fb1);
    assert_eq!(hub.swap(fb1.addr), fb0.addr);
    assert_eq!(hub.items, other.items);
    assert_eq!(hub.swap(fb0.addr), fb1.addr);
    assert_eq!(hub.items, before);
}

#[test]
fn driver_2d_counts_frames_of_its_core() {
    let fb = framebuffer_at(0x2001_0000);
    let (mut hub, _, _) = Hub75::<u8>::new(upper_byte(), ODR, &Config::new(), 9, TABLE, &fb);
    assert_eq!(hub.frame_count(), 0);
    hub.core.on_frame();
    assert_eq!(hub.frame_count(), 1);
}
