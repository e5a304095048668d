use hub75::bcm::{segments_from_fb_into, BcmState, SegmentCache, MAX_SEGMENTS};
use hub75::framebuffer::{BcmSegment, FrameBuffer, WordSize};

const BASE: usize = 0x2000_0100;

fn segment(ptr: usize, len: usize, reps: usize) -> BcmSegment {
    BcmSegment { ptr, len, reps }
}

fn framebuffer_at(addr: usize) -> FrameBuffer {
    FrameBuffer {
        addr,
        word_size: WordSize::OneByte,
        segments: vec![
            segment(addr + 4, 300, 1),
            segment(addr + 104, 200, 1),
            segment(addr + 204, 100, 2),
        ],
        segments_per_group: 3,
    }
}

fn one_frame(state: &mut BcmState) -> Vec<(usize, usize)> {
    let mut blocks = Vec::new();
    loop {
        blocks.push(state.current_segment());
        if state.advance() {
            return blocks;
        }
    }
}

#[test]
fn new_cache_is_empty() {
    let cache = SegmentCache::new();
    assert_eq!(cache.count, 0);
    assert_eq!(cache.segments_per_group, 1);
    assert_eq!(cache.segments[0], segment(0, 0, 0));
    assert_eq!(cache.segments[MAX_SEGMENTS - 1], segment(0, 0, 0));
    let default = SegmentCache::default();
    assert_eq!(default.count, 0);
    assert_eq!(default.segments_per_group, 1);
}

#[test]
fn cache_takes_segments_of_framebuffer() {
    let fb = framebuffer_at(BASE);
    let mut cache = SegmentCache::new();
    segments_from_fb_into(&fb, &mut cache);
    assert_eq!(cache.count, 3);
    assert_eq!(cache.segments_per_group, 3);
    assert_eq!(&cache.segments[..3], &fb.segments[..]);
    assert_eq!(cache.segments[3], segment(0, 0, 0));
}

#[test]
fn cache_reload_leaves_storage_behind_alone() {
    let mut cache = SegmentCache::new();
    segments_from_fb_into(&framebuffer_at(BASE), &mut cache);
    let short = FrameBuffer {
        addr: 0x100,
        word_size: WordSize::OneByte,
        segments: vec![segment(0x100, 7, 5)],
        segments_per_group: 1,
    };
    segments_from_fb_into(&short, &mut cache);
    assert_eq!(cache.count, 1);
    assert_eq!(cache.segments[0], segment(0x100, 7, 5));
    assert_eq!(cache.segments[1], segment(BASE + 104, 200, 1));
}

#[test]
fn cache_delta_moves_valid_entries_only() {
    let mut cache = SegmentCache::new();
    segments_from_fb_into(&framebuffer_at(BASE), &mut cache);
    cache.segments[3] = segment(1, 2, 3);
    cache.apply_delta(-0x100);
    assert_eq!(cache.segments[0], segment(BASE + 4 - 0x100, 300, 1));
    assert_eq!(cache.segments[2], segment(BASE + 204 - 0x100, 100, 2));
    assert_eq!(cache.segments[3], segment(1, 2, 3));
    assert_eq!(cache.count, 3);
}

#[test]
fn cache_delta_stops_at_the_end_of_the_storage() {
    let mut cache = SegmentCache::new();
    for i in 0..MAX_SEGMENTS {
        cache.segments[i] = segment(0x1000 + i, i, 1);
    }
    cache.count = MAX_SEGMENTS + 1;
    cache.apply_delta(0x10);
    for i in 0..MAX_SEGMENTS {
        assert_eq!(cache.segments[i], segment(0x1010 + i, i, 1));
    }
    assert_eq!(cache.count, MAX_SEGMENTS + 1);
}

#[test]
fn cache_delta_wraps_around_address_space() {
    let mut cache = SegmentCache::new();
    cache.segments[0] = segment(5, 1, 1);
    cache.segments[1] = segment(usize::MAX, 1, 1);
    cache.count = 2;
    cache.apply_delta(-6);
    assert_eq!(cache.segments[0].ptr, usize::MAX);
    assert_eq!(cache.segments[1].ptr, usize::MAX - 6);
    cache.apply_delta(6);
    assert_eq!(cache.segments[0].ptr, 5);
    assert_eq!(cache.segments[1].ptr, usize::MAX);
}

#[test]
fn empty_state_outputs_null_block() {
    let state = BcmState::new();
    assert_eq!(state.current_segment(), (0, 0));
}

#[test]
fn scan_outputs_each_segment_as_often_as_it_weighs() {
    let mut state = BcmState::new();
    state.load(&framebuffer_at(BASE));
    let frame = vec![
        (BASE + 4, 300),
        (BASE + 104, 200),
        (BASE + 204, 100),
        (BASE + 204, 100),
    ];
    assert_eq!(one_frame(&mut state), frame);
    assert_eq!(one_frame(&mut state), frame);
}

#[test]
fn segment_without_repetitions_is_output_once() {
    let fb = FrameBuffer {
        addr: 0x10,
        word_size: WordSize::OneByte,
        segments: vec![segment(0x10, 1, 0), segment(0x20, 2, 2)],
        segments_per_group: 1,
    };
    let mut state = BcmState::new();
    state.load(&fb);
    assert_eq!(one_frame(&mut state), vec![(0x10, 1), (0x20, 2), (0x20, 2)]);
}

#[test]
fn single_segment_reports_boundary_every_time() {
    let fb = FrameBuffer {
        addr: 0x10,
        word_size: WordSize::OneByte,
        segments: vec![segment(0x10, 1, 1)],
        segments_per_group: 1,
    };
    let mut state = BcmState::new();
    state.load(&fb);
    assert!(state.advance());
    assert!(state.advance());
}

#[test]
fn full_cache_is_scanned_to_the_end() {
    let segments: Vec<BcmSegment> = (0..MAX_SEGMENTS).map(|i| segment(i + 1, 1, 1)).collect();
    let fb = FrameBuffer { addr: 1, word_size: WordSize::OneByte, segments, segments_per_group: 10 };
    assert!(fb.is_loadable());
    let mut state = BcmState::new();
    state.load(&fb);
    let blocks = one_frame(&mut state);
    assert_eq!(blocks.len(), MAX_SEGMENTS);
    assert_eq!(blocks[MAX_SEGMENTS - 1], (MAX_SEGMENTS, 1));
}

#[test]
fn load_restarts_scan() {
    let mut state = BcmState::new();
    state.load(&framebuffer_at(BASE));
    state.advance();
    state.advance();
    state.load(&framebuffer_at(0x5000));
    assert_eq!(state.current_segment(), (0x5004, 300));
    assert_eq!(one_frame(&mut state).len(), 4);
}

#[test]
fn delta_keeps_place_and_reaches_other_framebuffer() {
    let mut moved = BcmState::new();
    moved.load(&framebuffer_at(BASE));
    moved.advance();
    moved.advance();
    moved.apply_delta(0x300);

    let mut other = BcmState::new();
    other.load(&framebuffer_at(BASE + 0x300));
    other.advance();
    other.advance();

    assert_eq!(moved.current_segment(), other.current_segment());
    assert_eq!(one_frame(&mut moved), one_frame(&mut other));
    assert_eq!(one_frame(&mut moved), one_frame(&mut other));
}

#[test]
fn delta_back_restores_frame() {
    let mut state = BcmState::new();
    state.load(&framebuffer_at(BASE));
    let before = one_frame(&mut state);
    state.apply_delta(0x1234);
    state.apply_delta(-0x1234);
    assert_eq!(one_frame(&mut state), before);
}

#[test]
fn framebuffer_must_have_segments_that_are_not_null() {
    let none = FrameBuffer {
        addr: 1,
        word_size: WordSize::OneByte,
        segments: Vec::new(),
        segments_per_group: 1,
    };
    assert!(!none.is_loadable());
    let too_many = FrameBuffer {
        addr: 1,
        word_size: WordSize::OneByte,
        segments: vec![segment(1, 1, 1); MAX_SEGMENTS + 1],
        segments_per_group: 1,
    };
    assert!(!too_many.is_loadable());
    let null = FrameBuffer {
        addr: 1,
        word_size: WordSize::OneByte,
        segments: vec![segment(1, 1, 1), segment(0, 1, 1)],
        segments_per_group: 1,
    };
    assert!(!null.is_loadable());
    assert!(framebuffer_at(BASE).is_loadable());
}
