use hub75::bcm::BcmState;
use hub75::framebuffer::{
    byte_delta, BcmLenReps, BcmSegment, BcmSequence, FrameBuffer, WordSize,
};
use hub75::gpdma::{can_build_item_chain, chain_len, descriptor_count};
use hub75::gpdma_2d::can_build_item_chain_2d;
use hub75_framebuffer::bitplane::latched::row::DmaFrameBuffer as LatchedRows;
use hub75_framebuffer::bitplane::latched::DmaFrameBuffer as Latched;
use hub75_framebuffer::bitplane::plain::DmaFrameBuffer as Plain;
use hub75_framebuffer::{bcm_rep_count, FrameBuffer as Source};

const TABLE: usize = 0x2000_0000;

fn describe<F: Source>(fb: &F, word_size: WordSize) -> FrameBuffer {
    let segments = (0..fb.bcm_segment_count())
        .map(|i| {
            let segment = fb.bcm_segment(i);
            BcmSegment { ptr: segment.ptr.addr(), len: segment.len, reps: segment.reps }
        })
        .collect();
    FrameBuffer {
        addr: std::ptr::from_ref(fb).addr(),
        word_size,
        segments,
        segments_per_group: fb.bcm_segments_per_group(),
    }
}

fn sequence_of<F: Source>() -> BcmSequence {
    let entries = F::BCM_SEQUENCE[..F::BCM_SEQUENCE_LEN]
        .iter()
        .map(|entry| BcmLenReps { len: entry.len, reps: entry.reps })
        .collect();
    BcmSequence { entries, count: F::BCM_SEQUENCE_COUNT }
}

fn transfers_per_frame(fb: &FrameBuffer) -> usize {
    let mut state = BcmState::new();
    state.load(fb);
    let mut transfers = 1;
    while !state.advance() {
        transfers += 1;
    }
    transfers
}

#[test]
fn frame_major_framebuffer_needs_power_of_two_descriptors() {
    type Fb = Plain<16, 32, 8>;
    let fb = Box::new(Fb::new());
    let described = describe(&*fb, WordSize::TwoBytes);
    assert!(described.is_loadable());
    assert!(can_build_item_chain(TABLE, &described, WordSize::TwoBytes));
    assert!(can_build_item_chain_2d(TABLE, &described, WordSize::TwoBytes));
    assert_eq!(descriptor_count(&sequence_of::<Fb>()), 128);
    assert_eq!(descriptor_count(&sequence_of::<Fb>()), bcm_rep_count::<Fb>());
    assert_eq!(chain_len(&described), Some(128));
    assert_eq!(transfers_per_frame(&described), 128);
}

#[test]
fn every_bit_depth_is_streamed_in_full() {
    fn check<F: Source>(fb: &F, planes: usize) {
        let described = describe(fb, WordSize::OneByte);
        assert_eq!(described.segments.len(), planes);
        assert_eq!(transfers_per_frame(&described), 1 << (planes - 1));
        assert_eq!(descriptor_count(&sequence_of::<F>()), 1 << (planes - 1));
        assert_eq!(chain_len(&described), Some(1 << (planes - 1)));
    }
    check(&Latched::<8, 16, 1>::new(), 1);
    check(&Latched::<8, 16, 2>::new(), 2);
    check(&Latched::<8, 16, 5>::new(), 5);
    check(&Latched::<8, 16, 8>::new(), 8);
}

#[test]
fn row_major_framebuffer_outgrows_the_linear_table() {
    type Fb = LatchedRows<16, 32, 6>;
    let fb = Box::new(Fb::new());
    let described = describe(&*fb, WordSize::OneByte);
    assert_eq!(descriptor_count(&sequence_of::<Fb>()), 16 * 32);
    assert_eq!(descriptor_count(&sequence_of::<Fb>()), bcm_rep_count::<Fb>());
    assert_eq!(chain_len(&described), None);
    assert!(!can_build_item_chain(TABLE, &described, WordSize::OneByte));
    assert!(can_build_item_chain_2d(TABLE, &described, WordSize::OneByte));
    assert_eq!(transfers_per_frame(&described), 16 * 32);
}

#[test]
fn delta_leads_from_one_framebuffer_to_the_other() {
    type Fb = Latched<16, 32, 4>;
    let pair = Box::new([Fb::new(), Fb::new()]);
    let old = describe(&pair[0], WordSize::OneByte);
    let new = describe(&pair[1], WordSize::OneByte);

    let mut moved = BcmState::new();
    moved.load(&old);
    moved.apply_delta(byte_delta(old.addr, new.addr));
    let mut loaded = BcmState::new();
    loaded.load(&new);
    for _ in 0..8 {
        assert_eq!(moved.current_segment(), loaded.current_segment());
        assert_eq!(moved.advance(), loaded.advance());
    }
    moved.apply_delta(byte_delta(new.addr, old.addr));
    assert_eq!(moved.current_segment().0, old.segments[0].ptr);
}

#[test]
fn byte_delta_takes_the_short_way_round() {
    assert_eq!(byte_delta(0x2000_1000, 0x2000_3000), 0x2000);
    assert_eq!(byte_delta(0x2000_3000, 0x2000_1000), -0x2000);
    assert_eq!(byte_delta(7, 7), 0);
    assert_eq!(byte_delta(0, usize::MAX), -1);
    assert_eq!(byte_delta(usize::MAX, 0), 1);
    assert_eq!(byte_delta(0, isize::MAX as usize), isize::MAX);
}
