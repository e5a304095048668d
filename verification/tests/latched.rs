use hub75::framebuffer::{BcmSegment, FrameBuffer, WordSize};
use hub75::latched::{DmaTransfer, Hub75, IsrCore, IsrCoreState};
use hub75::{AnyPin, Config, Hertz, Hub75Pins8};

const ODR: usize = 0x4800_0414;

fn segment(ptr: usize, len: usize, reps: usize) -> BcmSegment {
    BcmSegment { ptr, len, reps }
}

fn framebuffer_at(addr: usize) -> FrameBuffer {
    FrameBuffer {
        addr,
        word_size: WordSize::OneByte,
        segments: vec![segment(addr + 8, 300, 1), segment(addr + 108, 200, 2)],
        segments_per_group: 1,
    }
}

fn byte_at(first: u8) -> Hub75Pins8 {
    let pin = |i: u8| AnyPin { port: 1, pin: first + i };
    Hub75Pins8::new(pin(0), pin(1), pin(2), pin(3), pin(4), pin(5), pin(6), pin(7)).unwrap()
}

fn driver(fb: &FrameBuffer) -> Hub75<&'static str> {
    Hub75::new(byte_at(8), ODR, &Config::new(), 5, fb).0
}

fn transfer(ptr: usize, len: usize) -> DmaTransfer {
    DmaTransfer { request: 5, ptr, len, odr_byte_addr: ODR + 1 }
}

#[test]
fn uninitialised_core_does_nothing() {
    let mut core: IsrCore<u8> = IsrCore::new();
    let action = core.on_dma_complete();
    assert_eq!(action.transfer, None);
    assert_eq!(action.wake, None);
    assert_eq!(core.frame_count(), 0);
}

#[test]
fn driver_starts_with_first_segment() {
    let fb = framebuffer_at(0x2000_1000);
    let config = Config::new().frequency(Hertz(6_000_000));
    let (hub, hw, first) = Hub75::<u8>::new(byte_at(8), ODR, &config, 5, &fb);
    assert_eq!(first, transfer(0x2000_1008, 300));
    assert_eq!(hw.odr_addr, ODR + 1);
    assert_eq!(hw.frequency, Hertz(6_000_000));
    assert!(hw.pins[7].set_high);
    assert_eq!(hub.frame_count(), 0);
    assert_eq!(hub.core.returned_fb(), 0);

    let (_, hw, first) = Hub75::<u8>::new(byte_at(0), ODR, &config, 5, &fb);
    assert_eq!(hw.odr_addr, ODR);
    assert_eq!(first.odr_byte_addr, ODR);
}

#[test]
fn each_interrupt_starts_the_next_transfer() {
    let mut hub = driver(&framebuffer_at(0x2000_1000));
    let mut seen = Vec::new();
    for _ in 0..6 {
        let action = hub.core.on_dma_complete();
        assert_eq!(action.wake, None);
        let next = action.transfer.unwrap();
        assert_eq!(next, transfer(next.ptr, next.len));
        seen.push((next.ptr, next.len));
    }
    let (a, b) = ((0x2000_1008, 300), (0x2000_106c, 200));
    assert_eq!(seen, vec![b, b, a, b, b, a]);
    assert_eq!(hub.frame_count(), 2);
}

#[test]
fn swap_takes_place_at_frame_boundary() {
    let mut hub = driver(&framebuffer_at(0x2000_1000));
    hub.core.on_dma_complete();
    hub.swap(0x2000_5000);
    assert!(!hub.core.poll_swap("task"));

    let action = hub.core.on_dma_complete();
    assert_eq!(action.transfer, Some(transfer(0x2000_106c, 200)));
    assert_eq!(action.wake, None);
    assert!(!hub.core.poll_swap("task"));

    let action = hub.core.on_dma_complete();
    assert_eq!(action.transfer, Some(transfer(0x2000_5008, 300)));
    assert_eq!(action.wake, Some("task"));
    assert!(hub.core.poll_swap("late"));
    assert_eq!(hub.core.returned_fb(), 0x2000_1000);
    assert_eq!(hub.frame_count(), 1);

    let action = hub.core.on_dma_complete();
    assert_eq!(action.transfer, Some(transfer(0x2000_506c, 200)));
    assert_eq!(action.wake, None);
}

#[test]
fn old_framebuffer_is_no_longer_read_after_swap() {
    let mut hub = driver(&framebuffer_at(0x2000_1000));
    hub.swap(0x2000_5000);
    for _ in 0..3 {
        hub.core.on_dma_complete();
    }
    let (a, b) = (transfer(0x2000_5008, 300), transfer(0x2000_506c, 200));
    for k in 1..=12 {
        let action = hub.core.on_dma_complete();
        assert_eq!(action.transfer, Some(if k % 3 == 0 { a } else { b }));
        assert_eq!(action.wake, None);
        assert!(hub.core.poll_swap("task"));
        assert_eq!(hub.core.returned_fb(), 0x2000_1000);
    }
    assert_eq!(hub.frame_count(), 5);
}

#[test]
fn swap_without_waiting_task_wakes_nobody() {
    let mut hub = driver(&framebuffer_at(0x2000_1000));
    hub.swap(0x2000_5000);
    for _ in 0..3 {
        assert_eq!(hub.core.on_dma_complete().wake, None);
    }
    assert!(hub.core.poll_swap("task"));
}

#[test]
fn double_buffering_hands_buffers_back_in_turn() {
    let (mut shown, mut spare) = (0x2000_1000, 0x2000_0800);
    let mut hub = driver(&framebuffer_at(shown));
    for frame in 1..=4u32 {
        hub.swap(spare);
        for _ in 0..2 {
            let next = hub.core.on_dma_complete().transfer.unwrap();
            assert_eq!(next.ptr, shown + 108);
        }
        let first = hub.core.on_dma_complete().transfer.unwrap();
        assert_eq!(first.ptr, spare + 8);
        assert!(hub.core.poll_swap("task"));
        assert_eq!(hub.core.returned_fb(), shown);
        assert_eq!(hub.frame_count(), frame);
        (shown, spare) = (spare, shown);
    }
}

#[test]
fn later_swap_replaces_pending_one() {
    let mut hub = driver(&framebuffer_at(0x2000_1000));
    hub.swap(0x2000_5000);
    hub.swap(0x2000_9000);
    for _ in 0..2 {
        hub.core.on_dma_complete();
    }
    let action = hub.core.on_dma_complete();
    assert_eq!(action.transfer, Some(transfer(0x2000_9008, 300)));
    assert_eq!(hub.core.returned_fb(), 0x2000_1000);
}

#[test]
fn restart_forgets_swaps_and_frames() {
    let mut core: IsrCore<u8> = IsrCore::new();
    core.init_state(IsrCoreState::new(5, ODR));
    let first = core.start_first_transfer(&framebuffer_at(0x2000_1000));
    assert_eq!(first, DmaTransfer { request: 5, ptr: 0x2000_1008, len: 300, odr_byte_addr: ODR });
    core.swap_inner(0x2000_5000);
    for _ in 0..3 {
        core.on_dma_complete();
    }
    assert!(core.poll_swap(1));
    core.swap_inner(0x2000_9000);
    let again = core.start_first_transfer(&framebuffer_at(0x2000_3000));
    assert_eq!(again.ptr, 0x2000_3008);
    assert_eq!(core.frame_count(), 0);
    assert_eq!(core.returned_fb(), 0);
    assert!(!core.poll_swap(2));
    for _ in 0..3 {
        core.on_dma_complete();
    }
    assert!(!core.poll_swap(2));
    assert_eq!(core.frame_count(), 1);
}
