//! ISR-driven HUB75 latched panel driver.
//!
//! One DMA transfer is in flight at a time. Its transfer-complete interrupt
//! stops and resets the timer between transfers for deterministic clock
//! alignment and hands over to [`IsrCore::on_dma_complete()`], which advances
//! the BCM state machine, carries out a pending framebuffer swap at a frame
//! boundary, and says which transfer comes next.

use vstd::prelude::*;

use crate::bcm::{
    frame_len, frame_stream, law_delta_keeps_place, law_delta_moves_frame,
    law_delta_reaches_other_framebuffer, law_scan_outputs_frame, law_scan_repeats_then_moves_on,
    law_step_follows_frame, lemma_count_up, BcmScan, BcmState,
};
use crate::config::Config;
use crate::framebuffer::{
    byte_delta, delta_between, law_moving_all_moves_each, lemma_delta_between_offsets, moved_all,
    BcmSegment, FrameBuffer,
};
use crate::pins::Hub75Pins8;
use crate::setup::{hardware, Hardware};

verus! {

/// A memory-to-port DMA transfer of `len` bytes.
#[derive(Clone, Copy, Debug, PartialEq, Eq, Structural)]
pub struct DmaTransfer {
    /// DMA request line that paces the transfer.
    pub request: u8,
    /// Source address.
    pub ptr: usize,
    /// Number of bytes.
    pub len: usize,
    /// Address of the output data register byte that is written.
    pub odr_byte_addr: usize,
}

/// What the interrupt handler has to do once the core has been updated.
pub struct DmaAction<W> {
    /// The transfer to start, if the driver is initialised.
    pub transfer: Option<DmaTransfer>,
    /// Who to wake, if a swap has just taken place.
    pub wake: Option<W>,
}

// ---------------------------------------------------------------------------
// IsrCore — ISR state
// ---------------------------------------------------------------------------

/// The refresh state of an initialised driver.
pub struct IsrCoreState {
    transfer: Option<DmaTransfer>,
    dma_request: u8,
    odr_byte_addr: usize,
    bcm: BcmState,
    current_fb: usize,
    pending_fb: Option<usize>,
    returned_fb: usize,
}

/// The state of an [`IsrCoreState`].
pub struct RefreshView {
    /// The transfer in flight.
    pub transfer: Option<DmaTransfer>,
    /// DMA request line.
    pub dma_request: u8,
    /// Address of the output data register byte that is written.
    pub odr_byte_addr: usize,
    /// Where the scan stands.
    pub scan: BcmScan,
    /// The framebuffer on display.
    pub current_fb: usize,
    /// The framebuffer that is to be displayed next.
    pub pending_fb: Option<usize>,
    /// The framebuffer that the last swap has taken off the display, null
    /// before the first swap.
    pub returned_fb: usize,
}

impl RefreshView {
    /// The transfer that outputs what the scan stands on.
    pub open spec fn next_transfer(self) -> DmaTransfer {
        DmaTransfer {
            request: self.dma_request,
            ptr: self.scan.current().0,
            len: self.scan.current().1,
            odr_byte_addr: self.odr_byte_addr,
        }
    }

    /// `fb` is on display: the scan walks its segments.
    pub open spec fn displays(self, fb: &FrameBuffer) -> bool {
        self.current_fb == fb.addr && self.scan.segments == fb.segments@
    }

    /// The transfer in flight completes the frame.
    pub open spec fn at_boundary(self) -> bool {
        self.scan.next().1
    }

    /// The state after the transfer in flight is complete and the next one
    /// has been started. At a frame boundary a pending framebuffer goes on
    /// display: every segment address moves by the distance between the two
    /// framebuffers.
    pub open spec fn after_transfer(self) -> RefreshView {
        let stepped = RefreshView { scan: self.scan.next().0, ..self };
        let shown = match self.pending_fb {
            Some(new_fb) if self.at_boundary() => RefreshView {
                scan: stepped.scan.moved(new_fb - self.current_fb),
                current_fb: new_fb,
                pending_fb: None,
                returned_fb: self.current_fb,
                ..stepped
            },
            _ => stepped,
        };
        RefreshView { transfer: Some(shown.next_transfer()), ..shown }
    }
}

impl View for IsrCoreState {
    type V = RefreshView;

    closed spec fn view(&self) -> RefreshView {
        RefreshView {
            transfer: self.transfer,
            dma_request: self.dma_request,
            odr_byte_addr: self.odr_byte_addr,
            scan: self.bcm@,
            current_fb: self.current_fb,
            pending_fb: self.pending_fb,
            returned_fb: self.returned_fb,
        }
    }
}

impl IsrCoreState {
    /// The BCM state machine is well formed.
    pub closed spec fn wf(&self) -> bool {
        self.bcm.wf()
    }

    /// The state of a driver that has not started its first transfer.
    pub fn new(dma_request: u8, odr_byte_addr: usize) -> (r: Self)
        ensures
            r.wf(),
            r@ == (RefreshView {
                transfer: None,
                dma_request,
                odr_byte_addr,
                scan: BcmScan::start(Seq::empty(), 1),
                current_fb: 0,
                pending_fb: None,
                returned_fb: 0,
            }),
    {
        Self {
            transfer: None,
            dma_request,
            odr_byte_addr,
            bcm: BcmState::new(),
            current_fb: 0,
            pending_fb: None,
            returned_fb: 0,
        }
    }
}

/// Per-instance ISR core state, shared between the interrupt handler and the
/// [`Hub75`] driver.
///
/// `W` is the handle by which a waiting task is woken.
pub struct IsrCore<W> {
    state: Option<IsrCoreState>,
    swap_done: bool,
    swap_waker: Option<W>,
    frame_count: u32,
}

/// The state of an [`IsrCore`].
pub struct IsrCoreView<W> {
    /// The refresh state, once the driver is initialised.
    pub state: Option<RefreshView>,
    /// The last swap has taken place.
    pub swap_done: bool,
    /// Who to wake when the pending swap takes place.
    pub swap_waker: Option<W>,
    /// Complete frames rendered, modulo 2^32.
    pub frame_count: u32,
}

impl<W> IsrCoreView<W> {
    /// The refresh loop is running: something has been loaded, and the scan
    /// stands inside it.
    pub open spec fn running(self) -> bool {
        self.state matches Some(state) && state.scan.wf() && state.scan.segments.len() > 0
    }

    /// The state after one more transfer is complete.
    pub open spec fn after_transfer(self) -> IsrCoreView<W> {
        match self.state {
            None => self,
            Some(state) => {
                let swaps = state.at_boundary() && state.pending_fb is Some;
                IsrCoreView {
                    state: Some(state.after_transfer()),
                    swap_done: self.swap_done || swaps,
                    swap_waker: if swaps {
                        None
                    } else {
                        self.swap_waker
                    },
                    frame_count: if state.at_boundary() {
                        ((self.frame_count + 1) % 0x1_0000_0000) as u32
                    } else {
                        self.frame_count
                    },
                }
            },
        }
    }

    /// The state after `n` more transfers are complete.
    pub open spec fn after_transfers(self, n: nat) -> IsrCoreView<W>
        decreases n,
    {
        if n == 0 {
            self
        } else {
            self.after_transfers((n - 1) as nat).after_transfer()
        }
    }
}

impl<W> View for IsrCore<W> {
    type V = IsrCoreView<W>;

    closed spec fn view(&self) -> IsrCoreView<W> {
        IsrCoreView {
            state: match self.state {
                Some(state) => Some(state@),
                None => None,
            },
            swap_done: self.swap_done,
            swap_waker: self.swap_waker,
            frame_count: self.frame_count,
        }
    }
}

impl<W> IsrCore<W> {
    /// The refresh state, if there is one, is well formed.
    pub closed spec fn wf(&self) -> bool {
        self.state matches Some(state) ==> state.wf()
    }

    /// Create a new uninitialized core.
    pub fn new() -> (r: Self)
        ensures
            r.wf(),
            r@ == (IsrCoreView::<W> {
                state: None,
                swap_done: false,
                swap_waker: None,
                frame_count: 0,
            }),
    {
        Self { state: None, swap_done: false, swap_waker: None, frame_count: 0 }
    }

    /// Called from the interrupt handler while the timer is stopped. Handles
    /// BCM advance and swap signalling, and says which transfer to start.
    /// Does nothing as long as the driver is not initialised.
    pub fn on_dma_complete(&mut self) -> (r: DmaAction<W>)
        requires
            old(self).wf(),
            old(self)@.state is Some ==> old(self)@.running(),
        ensures
            final(self).wf(),
            final(self)@ == old(self)@.after_transfer(),
            final(self)@.state is Some ==> final(self)@.running(),
            r.transfer == (match final(self)@.state {
                Some(state) => state.transfer,
                None => None,
            }),
            r.wake == (match old(self)@.state {
                Some(state) if state.at_boundary() && state.pending_fb is Some => old(
                    self,
                )@.swap_waker,
                _ => None,
            }),
    {
        let mut state = match self.state.take() {
            Some(state) => state,
            None => {
                return DmaAction { transfer: None, wake: None };
            },
        };
        let mut wake: Option<W> = None;
        let frame_boundary = state.bcm.advance();
        if frame_boundary {
            self.frame_count = self.frame_count.wrapping_add(1);
            if let Some(new_fb) = state.pending_fb.take() {
                let old_fb: usize = state.current_fb;
                let delta: isize = byte_delta(old_fb, new_fb);
                proof {
                    lemma_moved_by_delta(state.bcm@.segments, old_fb, new_fb);
                }
                state.returned_fb = old_fb;
                state.current_fb = new_fb;
                state.bcm.apply_delta(delta);
                wake = self.signal_swap_done();
            }
        }
        let (ptr, len) = state.bcm.current_segment();
        let transfer = DmaTransfer {
            request: state.dma_request,
            ptr,
            len,
            odr_byte_addr: state.odr_byte_addr,
        };
        state.transfer = Some(transfer);
        self.state = Some(state);
        DmaAction { transfer: Some(transfer), wake }
    }

    /// Returns the number of complete BCM frames rendered.
    pub fn frame_count(&self) -> (r: u32)
        ensures
            r == self@.frame_count,
    {
        self.frame_count
    }

    /// Queue a swap to the framebuffer at `new_fb`, to take place at the next
    /// frame boundary. The swap has taken place once [`IsrCore::poll_swap`]
    /// says so; [`IsrCore::returned_fb`] then gives the old framebuffer.
    pub fn swap_inner(&mut self, new_fb: usize)
        requires
            old(self).wf(),
            old(self)@.state is Some,
        ensures
            final(self).wf(),
            final(self)@ == (IsrCoreView {
                state: Some(RefreshView { pending_fb: Some(new_fb), ..old(self)@.state->0 }),
                swap_done: false,
                ..old(self)@
            }),
    {
        if let Some(mut state) = self.state.take() {
            state.pending_fb = Some(new_fb);
            self.state = Some(state);
        }
        self.swap_done = false;
    }

    /// Look whether the queued swap has taken place, and leave `waker` behind
    /// to be woken if it has not.
    pub fn poll_swap(&mut self, waker: W) -> (ready: bool)
        requires
            old(self).wf(),
        ensures
            final(self).wf(),
            ready == old(self)@.swap_done,
            final(self)@ == (if old(self)@.swap_done {
                old(self)@
            } else {
                IsrCoreView { swap_waker: Some(waker), ..old(self)@ }
            }),
    {
        if self.swap_done {
            return true;
        }
        self.swap_waker = Some(waker);
        false
    }

    /// The framebuffer that the last swap has taken off the display.
    pub fn returned_fb(&self) -> (r: usize)
        requires
            self@.state is Some,
        ensures
            r == self@.state->0.returned_fb,
    {
        match &self.state {
            Some(state) => state.returned_fb,
            None => 0,
        }
    }

    fn signal_swap_done(&mut self) -> (wake: Option<W>)
        ensures
            final(self)@ == (IsrCoreView { swap_done: true, swap_waker: None, ..old(self)@ }),
            final(self).state == old(self).state,
            wake == old(self)@.swap_waker,
    {
        self.swap_done = true;
        self.swap_waker.take()
    }

    /// Put the refresh state in place.
    pub fn init_state(&mut self, new_state: IsrCoreState)
        requires
            new_state.wf(),
        ensures
            final(self).wf(),
            final(self)@ == (IsrCoreView { state: Some(new_state@), ..old(self)@ }),
    {
        self.state = Some(new_state);
    }

    /// Load `fb` and start the refresh loop from its first segment. Returns
    /// the transfer to start.
    pub fn start_first_transfer(&mut self, fb: &FrameBuffer) -> (r: DmaTransfer)
        requires
            old(self).wf(),
            old(self)@.state is Some,
            fb.loadable(),
        ensures
            final(self).wf(),
            final(self)@.running(),
            r == (DmaTransfer {
                request: old(self)@.state->0.dma_request,
                ptr: fb.segments@[0].ptr,
                len: fb.segments@[0].len,
                odr_byte_addr: old(self)@.state->0.odr_byte_addr,
            }),
            final(self)@ == (IsrCoreView {
                state: Some(
                    RefreshView {
                        transfer: Some(r),
                        dma_request: old(self)@.state->0.dma_request,
                        odr_byte_addr: old(self)@.state->0.odr_byte_addr,
                        scan: BcmScan::start(fb.segments@, fb.segments_per_group as nat),
                        current_fb: fb.addr,
                        pending_fb: None,
                        returned_fb: 0,
                    },
                ),
                swap_done: false,
                swap_waker: old(self)@.swap_waker,
                frame_count: 0,
            }),
    {
        self.swap_done = false;
        self.frame_count = 0;
        let mut state = match self.state.take() {
            Some(state) => state,
            None => IsrCoreState::new(0, 0),
        };
        state.bcm.load(fb);
        state.current_fb = fb.addr;
        state.pending_fb = None;
        state.returned_fb = 0;
        let (ptr, len) = state.bcm.current_segment();
        let transfer = DmaTransfer {
            request: state.dma_request,
            ptr,
            len,
            odr_byte_addr: state.odr_byte_addr,
        };
        state.transfer = Some(transfer);
        self.state = Some(state);
        transfer
    }
}

/// Moving segments the short way round moves them to the same place.
proof fn lemma_moved_by_delta(segments: Seq<BcmSegment>, from: usize, to: usize)
    ensures
        moved_all(segments, delta_between(from, to)) == moved_all(segments, to - from),
{
    assert forall|i: int| 0 <= i < segments.len() implies #[trigger] segments[i].moved(
        delta_between(from, to),
    ) == segments[i].moved(to - from) by {
        lemma_delta_between_offsets(segments[i].ptr, from, to);
    }
    assert(moved_all(segments, delta_between(from, to)) =~= moved_all(segments, to - from));
}

// ---------------------------------------------------------------------------
// Hub75 — public driver handle
// ---------------------------------------------------------------------------

/// HUB75 LED matrix controller driven by an ISR-based BCM refresh loop.
///
/// Use [`Hub75::swap()`] to double-buffer: write to one framebuffer while the
/// ISR renders from another, swapping atomically at frame boundaries.
pub struct Hub75<W> {
    /// State shared with the interrupt handler.
    pub core: IsrCore<W>,
}

impl<W> Hub75<W> {
    /// Create a new HUB75 driver: work out the hardware setup and start the
    /// refresh of `fb`. Returns the transfer to start first.
    ///
    /// `port_odr_addr` is the address of the output data register of the port
    /// that the pins are on.
    pub fn new(
        pins: Hub75Pins8,
        port_odr_addr: usize,
        config: &Config,
        dma_request: u8,
        fb: &FrameBuffer,
    ) -> (r: (Self, Hardware, DmaTransfer))
        requires
            pins.base_pin != 0 ==> port_odr_addr < usize::MAX,
            fb.loadable(),
        ensures
            r.0.core.wf(),
            r.0.core@.running(),
            r.0.core@ == (IsrCoreView::<W> {
                state: Some(
                    RefreshView {
                        transfer: Some(r.2),
                        dma_request,
                        odr_byte_addr: r.1.odr_addr,
                        scan: BcmScan::start(fb.segments@, fb.segments_per_group as nat),
                        current_fb: fb.addr,
                        pending_fb: None,
                        returned_fb: 0,
                    },
                ),
                swap_done: false,
                swap_waker: None,
                frame_count: 0,
            }),
            r.1.describes(pins, port_odr_addr, config),
            r.2 == (DmaTransfer {
                request: dma_request,
                ptr: fb.segments@[0].ptr,
                len: fb.segments@[0].len,
                odr_byte_addr: r.1.odr_addr,
            }),
    {
        let hw = hardware(pins, port_odr_addr, config);
        let mut core: IsrCore<W> = IsrCore::new();
        core.init_state(IsrCoreState::new(dma_request, hw.odr_addr));
        let transfer = core.start_first_transfer(fb);
        (Self { core }, hw, transfer)
    }

    /// Returns the number of complete BCM frames rendered since init.
    pub fn frame_count(&self) -> (r: u32)
        ensures
            r == self.core@.frame_count,
    {
        self.core.frame_count()
    }

    /// Replace the displayed framebuffer with the one at `new_fb`.
    ///
    /// Queues `new_fb` for display. At the next BCM frame boundary the
    /// segment addresses are swapped atomically, and
    /// [`IsrCore::returned_fb`] gives the framebuffer that is no longer read.
    pub fn swap(&mut self, new_fb: usize)
        requires
            old(self).core.wf(),
            old(self).core@.state is Some,
        ensures
            final(self).core.wf(),
            final(self).core@ == (IsrCoreView {
                state: Some(RefreshView { pending_fb: Some(new_fb), ..old(self).core@.state->0 }),
                swap_done: false,
                ..old(self).core@
            }),
    {
        self.core.swap_inner(new_fb);
    }
}

// ---------------------------------------------------------------------------
// Laws
// ---------------------------------------------------------------------------

/// The refresh never derails: whatever is pending, after `n` transfers the
/// scan stands `n` positions on in the frame, modulo its length, and one frame
/// has been counted for each time it passed the end — a swap neither skips
/// nor repeats a transfer.
pub proof fn law_refresh_counts_frames<W>(core: IsrCoreView<W>, n: nat)
    requires
        core.running(),
    ensures
        ({
            let before = core.state->0.scan;
            let after = core.after_transfers(n);
            let frame = frame_len(before.segments) as int;
            &&& frame > 0
            &&& after.running()
            &&& frame_len(after.state->0.scan.segments) == frame
            &&& after.state->0.scan.position() == (before.position() + n) % frame
            &&& after.frame_count as int == (core.frame_count + (before.position() + n) / frame)
                % 0x1_0000_0000
            &&& n > 0 ==> after.state->0.transfer == Some(after.state->0.next_transfer())
        }),
    decreases n,
{
    let before = core.state->0.scan;
    let frame = frame_len(before.segments) as int;
    law_step_follows_frame(before);
    if n == 0 {
        vstd::arithmetic::div_mod::lemma_small_mod(before.position() as nat, frame as nat);
        vstd::arithmetic::div_mod::lemma_basic_div(before.position(), frame);
    } else {
        law_refresh_counts_frames(core, (n - 1) as nat);
        let prev = core.after_transfers((n - 1) as nat);
        let state = prev.state->0;
        let position = before.position() + (n - 1);
        law_step_follows_frame(state.scan);
        lemma_count_up(position, frame);
        let stepped = state.scan.next().0;
        if state.at_boundary() && state.pending_fb is Some {
            let delta = state.pending_fb->0 - state.current_fb;
            law_delta_keeps_place(stepped, delta);
            law_delta_moves_frame(stepped.segments, delta);
        }
    }
}

/// A swap is atomic and takes place at a frame boundary. Until the frame that
/// is being output is complete, the scan goes on over the old framebuffer, the
/// swap is not reported as done and nobody is woken. With the transfer that
/// completes the frame, the new framebuffer goes on display from its first
/// segment, the old one is the one to be handed back, and the swap is done.
pub proof fn law_swap_takes_place_at_frame_boundary<W>(
    core: IsrCoreView<W>,
    new_fb: usize,
    n: nat,
)
    requires
        core.running(),
        core.state->0.pending_fb == Some(new_fb),
        !core.swap_done,
    ensures
        ({
            let before = core.state->0;
            let after = core.after_transfers(n).state->0;
            let left = frame_len(before.scan.segments) - before.scan.position();
            &&& left > 0
            &&& n < left ==> {
                &&& after.scan == before.scan.after(n)
                &&& after.current_fb == before.current_fb
                &&& after.pending_fb == Some(new_fb)
                &&& !core.after_transfers(n).swap_done
                &&& core.after_transfers(n).swap_waker == core.swap_waker
            }
            &&& n == left ==> {
                &&& after.scan == BcmScan::start(
                    moved_all(before.scan.segments, new_fb - before.current_fb),
                    before.scan.segments_per_group,
                )
                &&& after.current_fb == new_fb
                &&& after.pending_fb is None
                &&& after.returned_fb == before.current_fb
                &&& core.after_transfers(n).swap_done
                &&& core.after_transfers(n).swap_waker is None
            }
        }),
    decreases n,
{
    let before = core.state->0;
    let left = frame_len(before.scan.segments) - before.scan.position();
    law_step_follows_frame(before.scan);
    if 0 < n <= left {
        let m = (n - 1) as nat;
        law_swap_takes_place_at_frame_boundary(core, new_fb, m);
        law_refresh_counts_frames(core, m);
        let prev = core.after_transfers(m).state->0;
        lemma_scan_keeps_segments(before.scan, m);
        law_step_follows_frame(prev.scan);
        vstd::arithmetic::div_mod::lemma_small_mod(
            (before.scan.position() + m) as nat,
            frame_len(before.scan.segments),
        );
        assert(prev.at_boundary() <==> n == left);
    }
}

/// Stepping a scan changes where it stands, not what it walks.
proof fn lemma_scan_keeps_segments(scan: BcmScan, n: nat)
    ensures
        scan.after(n).segments == scan.segments,
        scan.after(n).segments_per_group == scan.segments_per_group,
    decreases n,
{
    if n > 0 {
        lemma_scan_keeps_segments(scan, (n - 1) as nat);
    }
}

/// After a swap the refresh stays on the new framebuffer. With nothing
/// pending, every later transfer is one of the scan over the segments on
/// display, the framebuffer handed back stays the same, and a swap that is
/// done stays done.
pub proof fn law_refresh_stays_on_display<W>(core: IsrCoreView<W>, n: nat)
    requires
        core.running(),
        core.state->0.pending_fb is None,
    ensures
        ({
            let before = core.state->0;
            let after = core.after_transfers(n);
            &&& after.running()
            &&& after.state->0.scan == before.scan.after(n)
            &&& after.state->0.scan.segments == before.scan.segments
            &&& after.state->0.current_fb == before.current_fb
            &&& after.state->0.pending_fb is None
            &&& after.state->0.returned_fb == before.returned_fb
            &&& after.state->0.dma_request == before.dma_request
            &&& after.state->0.odr_byte_addr == before.odr_byte_addr
            &&& after.swap_done == core.swap_done
            &&& after.swap_waker == core.swap_waker
        }),
    decreases n,
{
    lemma_scan_keeps_segments(core.state->0.scan, n);
    law_refresh_counts_frames(core, n);
    if n > 0 {
        law_refresh_stays_on_display(core, (n - 1) as nat);
    }
}

/// What is streamed is the frame on display, and nothing else. As long as no
/// swap takes place, because none is pending or because the frame is not
/// complete yet, the transfer in flight after `n` transfers is the one that
/// stands `n` further on in the frame: it reads that block, on the request
/// line and to the register byte of the driver. A pending swap does not show.
pub proof fn law_transfers_stream_the_frame_on_display<W>(core: IsrCoreView<W>, n: nat)
    requires
        core.running(),
        n > 0,
        core.state->0.pending_fb is None || core.state->0.scan.position() + n < frame_len(
            core.state->0.scan.segments,
        ),
    ensures
        ({
            let before = core.state->0;
            let frame = frame_len(before.scan.segments) as int;
            let block = frame_stream(before.scan.segments)[(before.scan.position() + n) % frame];
            core.after_transfers(n).state->0.transfer == Some(
                DmaTransfer {
                    request: before.dma_request,
                    ptr: block.0,
                    len: block.1,
                    odr_byte_addr: before.odr_byte_addr,
                },
            )
        }),
{
    let before = core.state->0;
    let after = core.after_transfers(n).state->0;
    law_refresh_counts_frames(core, n);
    lemma_output_stays(core, n);
    lemma_display_stays(core, n);
    law_step_follows_frame(after.scan);
    assert(after.scan.segments == before.scan.segments);
}

/// The segments on display stay as long as no swap takes place.
proof fn lemma_display_stays<W>(core: IsrCoreView<W>, n: nat)
    requires
        core.running(),
        core.state->0.pending_fb is None || core.state->0.scan.position() + n < frame_len(
            core.state->0.scan.segments,
        ),
    ensures
        core.after_transfers(n).state->0.scan.segments == core.state->0.scan.segments,
        core.after_transfers(n).state->0.pending_fb == core.state->0.pending_fb,
        core.after_transfers(n).state->0.current_fb == core.state->0.current_fb,
    decreases n,
{
    if n > 0 {
        let m = (n - 1) as nat;
        let before = core.state->0;
        lemma_display_stays(core, m);
        law_refresh_counts_frames(core, m);
        let prev = core.after_transfers(m).state->0;
        law_step_follows_frame(before.scan);
        law_step_follows_frame(prev.scan);
        if before.pending_fb is Some {
            vstd::arithmetic::div_mod::lemma_small_mod(
                (before.scan.position() + m) as nat,
                frame_len(before.scan.segments),
            );
        }
    }
}

/// A swap is atomic in what is streamed. While it is pending, up to the end of
/// the frame, every transfer reads the block of `old_fb` that comes next, and
/// not a byte of the new framebuffer.
pub proof fn law_pending_swap_streams_old_framebuffer<W>(
    core: IsrCoreView<W>,
    old_fb: &FrameBuffer,
    new_fb: usize,
    n: nat,
)
    requires
        core.running(),
        core.state->0.displays(old_fb),
        core.state->0.pending_fb == Some(new_fb),
        0 < n < frame_len(old_fb.segments@) - core.state->0.scan.position(),
    ensures
        ({
            let block = frame_stream(old_fb.segments@)[core.state->0.scan.position() + n];
            core.after_transfers(n).state->0.transfer == Some(
                DmaTransfer {
                    request: core.state->0.dma_request,
                    ptr: block.0,
                    len: block.1,
                    odr_byte_addr: core.state->0.odr_byte_addr,
                },
            )
        }),
{
    law_step_follows_frame(core.state->0.scan);
    law_transfers_stream_the_frame_on_display(core, n);
    vstd::arithmetic::div_mod::lemma_small_mod(
        (core.state->0.scan.position() + n) as nat,
        frame_len(old_fb.segments@),
    );
}

/// What one completed transfer does. The same segment is streamed again while
/// it has repetitions left, the next one after that, and behind the last one
/// the first one again, which completes the frame. Only then a pending
/// framebuffer goes on display: every segment address moves by the distance
/// between the framebuffers, modulo the size of the address space.
pub proof fn law_completed_transfer<W>(core: IsrCoreView<W>)
    requires
        core.running(),
    ensures
        ({
            let before = core.state->0;
            let after = core.after_transfer();
            let scan = before.scan;
            let repeats = scan.rep + 1 < scan.segments[scan.segment].reps;
            let last = scan.segment + 1 == scan.segments.len();
            let boundary = !repeats && last;
            let swaps = boundary && before.pending_fb is Some;
            let next = if repeats {
                scan.segment
            } else if last {
                0
            } else {
                scan.segment + 1
            };
            let distance = if swaps {
                before.pending_fb->0 - before.current_fb
            } else {
                0
            };
            let state = after.state->0;
            &&& after.state is Some
            &&& before.at_boundary() == boundary
            &&& state.transfer is Some
            &&& state.transfer->0.request == before.dma_request
            &&& state.transfer->0.odr_byte_addr == before.odr_byte_addr
            &&& state.transfer->0.ptr as int == (scan.segments[next].ptr + distance) % (usize::MAX
                + 1)
            &&& state.transfer->0.len == scan.segments[next].len
            &&& state.dma_request == before.dma_request
            &&& state.odr_byte_addr == before.odr_byte_addr
            &&& state.scan.segment == next
            &&& state.scan.rep == (if repeats {
                scan.rep + 1
            } else {
                0
            })
            &&& state.scan.segments.len() == scan.segments.len()
            &&& forall|i: int|
                0 <= i < scan.segments.len() ==> {
                    let moved = #[trigger] state.scan.segments[i];
                    &&& moved.ptr as int == (scan.segments[i].ptr + distance) % (usize::MAX + 1)
                    &&& moved.len == scan.segments[i].len
                    &&& moved.reps == scan.segments[i].reps
                }
            &&& state.scan.segments_per_group == scan.segments_per_group
            &&& swaps ==> {
                &&& state.current_fb == before.pending_fb->0
                &&& state.returned_fb == before.current_fb
                &&& state.pending_fb is None
                &&& after.swap_done
                &&& after.swap_waker is None
            }
            &&& !swaps ==> {
                &&& state.current_fb == before.current_fb
                &&& state.returned_fb == before.returned_fb
                &&& state.pending_fb == before.pending_fb
                &&& after.swap_done == core.swap_done
                &&& after.swap_waker == core.swap_waker
            }
            &&& after.frame_count == (if !boundary {
                core.frame_count as int
            } else if core.frame_count == u32::MAX {
                0
            } else {
                core.frame_count + 1
            })
        }),
{
    let before = core.state->0;
    let scan = before.scan;
    let state = core.after_transfer().state->0;
    law_scan_repeats_then_moves_on(scan);
    let distance = if before.at_boundary() && before.pending_fb is Some {
        before.pending_fb->0 - before.current_fb
    } else {
        0
    };
    assert forall|i: int| 0 <= i < scan.segments.len() implies {
        let moved = #[trigger] state.scan.segments[i];
        &&& moved.ptr as int == (scan.segments[i].ptr + distance) % (usize::MAX + 1)
        &&& moved.len == scan.segments[i].len
        &&& moved.reps == scan.segments[i].reps
    } by {
        law_moving_all_moves_each(scan.segments, distance, i);
        vstd::arithmetic::div_mod::lemma_small_mod(
            scan.segments[i].ptr as nat,
            (usize::MAX + 1) as nat,
        );
    }
    assert(state.scan.segments[state.scan.segment].ptr as int == (
    scan.segments[state.scan.segment].ptr + distance) % (usize::MAX + 1));
}

/// A core that is not initialised does not react to an interrupt.
pub proof fn law_idle_core_stays_idle<W>(core: IsrCoreView<W>)
    requires
        core.state is None,
    ensures
        core.after_transfer() == core,
{
}

/// A framebuffer is on display when its address is the current one and its
/// segments are the ones scanned.
pub proof fn law_framebuffer_on_display(state: RefreshView, fb: &FrameBuffer)
    ensures
        state.displays(fb) <==> state.current_fb == fb.addr && state.scan.segments == fb.segments@,
{
}

/// The refresh runs exactly when 1 to 320 segments are loaded and the scan
/// stands on one of them, on a repetition that it has. What is pending, what
/// is in flight and who waits play no part.
pub proof fn law_running_refresh<W>(core: IsrCoreView<W>)
    ensures
        core.running() <==> {
            let scan = core.state->0.scan;
            &&& core.state is Some
            &&& 1 <= scan.segments.len() <= 320
            &&& 0 <= scan.segment < scan.segments.len()
            &&& 0 <= scan.rep
            &&& scan.rep == 0 || scan.rep < scan.segments[scan.segment].reps
        },
{
}

/// A swap puts the new framebuffer on display for good. From the transfer on
/// that completes the frame on display, and for as long as no other swap is
/// queued, a swap to a framebuffer of the same layout has put exactly that
/// framebuffer on display and gives back the one that was on display before.
/// The old one is no longer read: `k` transfers later the transfer in flight
/// is number `k` of the frame of `new_fb`, modulo its length, and so reads one
/// of its segments.
pub proof fn law_swap_displays_new_framebuffer<W>(
    core: IsrCoreView<W>,
    old_fb: &FrameBuffer,
    new_fb: &FrameBuffer,
    n: nat,
)
    requires
        core.running(),
        core.state->0.displays(old_fb),
        old_fb.same_layout(new_fb),
        core.state->0.pending_fb == Some(new_fb.addr),
        !core.swap_done,
        n >= frame_len(core.state->0.scan.segments) - core.state->0.scan.position(),
    ensures
        ({
            let scan = core.state->0.scan;
            let left = frame_len(scan.segments) - scan.position();
            let frame = frame_len(new_fb.segments@) as int;
            let after = core.after_transfers(n);
            let block = frame_stream(new_fb.segments@)[(n - left) % frame];
            &&& left > 0
            &&& frame == frame_len(scan.segments)
            &&& after.running()
            &&& after.state->0.displays(new_fb)
            &&& after.state->0.pending_fb is None
            &&& after.state->0.returned_fb == old_fb.addr
            &&& after.swap_done
            &&& after.state->0.transfer == Some(
                DmaTransfer {
                    request: core.state->0.dma_request,
                    ptr: block.0,
                    len: block.1,
                    odr_byte_addr: core.state->0.odr_byte_addr,
                },
            )
            &&& exists|i: int|
                0 <= i < new_fb.segments@.len() && block == (
                    (#[trigger] new_fb.segments@[i]).ptr,
                    new_fb.segments@[i].len,
                )
        }),
{
    let scan = core.state->0.scan;
    law_step_follows_frame(scan);
    let left = (frame_len(scan.segments) - scan.position()) as nat;
    let later = (n - left) as nat;
    law_swap_takes_place_at_frame_boundary(core, new_fb.addr, left);
    law_refresh_counts_frames(core, left);
    law_refresh_counts_frames(core, n);
    law_delta_reaches_other_framebuffer(old_fb, new_fb);
    let swapped = core.after_transfers(left);
    lemma_transfers_add_up(core, left, later);
    law_refresh_stays_on_display(swapped, later);
    lemma_output_stays(core, left);
    law_scan_outputs_frame(new_fb.segments@, scan.segments_per_group, later);
    let now = core.after_transfers(n).state->0.scan;
    assert(now.current() == (
        new_fb.segments@[now.segment].ptr,
        new_fb.segments@[now.segment].len,
    ));
}

/// Transfers add up.
proof fn lemma_transfers_add_up<W>(core: IsrCoreView<W>, first: nat, second: nat)
    ensures
        core.after_transfers(first).after_transfers(second) == core.after_transfers(first + second),
    decreases second,
{
    if second > 0 {
        lemma_transfers_add_up(core, first, (second - 1) as nat);
    }
}

/// No transfer changes the request line or the register that is written.
proof fn lemma_output_stays<W>(core: IsrCoreView<W>, n: nat)
    requires
        core.state is Some,
    ensures
        core.after_transfers(n).state is Some,
        core.after_transfers(n).state->0.dma_request == core.state->0.dma_request,
        core.after_transfers(n).state->0.odr_byte_addr == core.state->0.odr_byte_addr,
    decreases n,
{
    if n > 0 {
        lemma_output_stays(core, (n - 1) as nat);
    }
}

} // verus!
