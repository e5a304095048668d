//! Validated groups of GPIO data pins.

use vstd::prelude::*;

use crate::config::Speed;
use crate::framebuffer::WordSize;

verus! {

/// Represents errors that can occur during HUB75 driver operations.
#[derive(Clone, Copy, Debug, PartialEq, Eq, Structural)]
pub enum Hub75Error {
    /// A pin is on a different GPIO port than the others.
    /// `index` is the position in the pin list.
    PinNotOnSamePort {
        /// Index of the offending pin.
        index: u8,
    },
    /// The pins are not consecutive starting at the expected position.
    PinsNotConsecutive {
        /// Index of the offending pin.
        index: u8,
        /// Expected pin number.
        expected: u8,
        /// Actual pin number.
        actual: u8,
    },
    /// Error occurred during DMA operations.
    Dma,
    /// Error occurred during timer configuration.
    Timer,
    /// The driver has not been initialised yet.
    NotInitialised,
}

/// A GPIO pin: the port it is on and its number on that port.
#[derive(Clone, Copy, Debug, PartialEq, Eq, Structural)]
pub struct AnyPin {
    /// GPIO port.
    pub port: u8,
    /// Pin number on the port.
    pub pin: u8,
}

/// How one data pin is brought up.
#[derive(Clone, Copy, Debug, PartialEq, Eq, Structural)]
pub struct PinSetup {
    /// The pin.
    pub pin: AnyPin,
    /// Drive the pin high before it becomes an output.
    pub set_high: bool,
    /// Output speed.
    pub speed: Speed,
}

// ---------------------------------------------------------------------------
// Layout rules
// ---------------------------------------------------------------------------

/// Pin `i` of the list is where it belongs: on the port of the first pin, at
/// `i` pins from `first`.
pub open spec fn in_place(pins: Seq<AnyPin>, first: int, i: int) -> bool {
    pins[i].port == pins[0].port && pins[i].pin == first + i
}

/// All pins are on one port and consecutive, starting at pin `first`.
pub open spec fn consecutive(pins: Seq<AnyPin>, first: int) -> bool {
    forall|i: int| 0 <= i < pins.len() ==> #[trigger] in_place(pins, first, i)
}

/// Pin `i` is the first one in the list that is out of place.
pub open spec fn first_misplaced(pins: Seq<AnyPin>, first: int, i: int) -> bool {
    &&& 0 <= i < pins.len()
    &&& !in_place(pins, first, i)
    &&& forall|j: int| 0 <= j < i ==> #[trigger] in_place(pins, first, j)
}

/// The error for a list whose pin `i` is the first one out of place: a wrong
/// port is reported ahead of a wrong pin number.
pub open spec fn misplacement(pins: Seq<AnyPin>, first: int, i: int) -> Hub75Error {
    if pins[i].port != pins[0].port {
        Hub75Error::PinNotOnSamePort { index: i as u8 }
    } else {
        Hub75Error::PinsNotConsecutive {
            index: i as u8,
            expected: (first + i) as u8,
            actual: pins[i].pin,
        }
    }
}

/// `error` is what is wrong with `pins`, expected from pin `first` on.
pub open spec fn is_fault(pins: Seq<AnyPin>, first: int, error: Hub75Error) -> bool {
    exists|i: int| #[trigger]
        first_misplaced(pins, first, i) && error == misplacement(pins, first, i)
}

/// Looks for the first pin that is not on the port of the first one or not
/// consecutive from pin `first` on.
fn find_misplaced(pins: &[AnyPin], first: u8) -> (r: Option<Hub75Error>)
    requires
        0 < pins@.len(),
        first + pins@.len() <= 256,
    ensures
        match r {
            None => consecutive(pins@, first as int),
            Some(error) => is_fault(pins@, first as int, error),
        },
{
    let port: u8 = pins[0].port;
    let mut i: usize = 0;
    while i < pins.len()
        invariant
            i <= pins@.len(),
            first + pins@.len() <= 256,
            port == pins@[0].port,
            forall|j: int| 0 <= j < i ==> #[trigger] in_place(pins@, first as int, j),
        decreases pins@.len() - i,
    {
        let pin = pins[i];
        let index: u8 = i as u8;
        if pin.port != port {
            assert(first_misplaced(pins@, first as int, i as int));
            return Some(Hub75Error::PinNotOnSamePort { index });
        }
        let expected: u8 = first + index;
        if pin.pin != expected {
            assert(first_misplaced(pins@, first as int, i as int));
            return Some(Hub75Error::PinsNotConsecutive { index, expected, actual: pin.pin });
        }
        assert(in_place(pins@, first as int, i as int));
        i += 1;
    }
    None
}

// ---------------------------------------------------------------------------
// Pin groups
// ---------------------------------------------------------------------------

/// Trait implemented by HUB75 pin groups (8-bit or 16-bit).
pub trait Hub75Pins: Sized {
    /// The data pins, lowest bit first.
    spec fn data_pins(&self) -> Seq<AnyPin>;

    /// Offset into the port's output data register at which the group starts.
    spec fn odr_offset(&self) -> int;

    /// Index of the pin that blanks the panel and is high from the start, if
    /// the group has one.
    spec fn blank_pin() -> Option<int>;

    /// DMA word size of the group, as used in contracts.
    spec fn word_size() -> WordSize;

    /// DMA word size matching the width of the group.
    fn dma_word_size() -> (r: WordSize)
        ensures
            r == Self::word_size(),
    ;

    /// Work out how to configure the pins and where the DMA writes.
    ///
    /// `odr_addr` is the address of the output data register of the port that
    /// the pins are on. Returns the address that the DMA writes and, in
    /// order, how each pin is brought up.
    fn configure_and_get_odr(self, odr_addr: usize, speed: Speed) -> (r: (usize, Vec<PinSetup>))
        requires
            odr_addr + self.odr_offset() <= usize::MAX,
        ensures
            r.0 == odr_addr + self.odr_offset(),
            r.1@.len() == self.data_pins().len(),
            forall|i: int|
                0 <= i < r.1@.len() ==> #[trigger] r.1@[i] == (PinSetup {
                    pin: self.data_pins()[i],
                    set_high: Self::blank_pin() == Some(i),
                    speed,
                }),
    ;
}

/// Pin configuration for a HUB75 panel with an external address latch.
///
/// The 8 data pins must all be on the same GPIO port, occupying either the
/// lower byte (pins 0-7) or upper byte (pins 8-15). The pins must be wired
/// in order so that R1 maps to bit 0 of the byte, G1 to bit 1, and so on.
///
/// The data pins map directly to the latched framebuffer byte layout:
/// - bit 0: R1
/// - bit 1: G1
/// - bit 2: B1
/// - bit 3: R2
/// - bit 4: G2
/// - bit 5: B2
/// - bit 6: LATCH
/// - bit 7: BLANK
///
/// For upper-byte wiring, pin N+8 corresponds to bit N.
/// For lower-byte wiring, pin N corresponds to bit N.
///
/// Use [`Hub75Pins8::new()`] to construct; it validates pin layout at
/// creation time.
pub struct Hub75Pins8 {
    /// The 8 GPIO pins in order.
    pub pins: [AnyPin; 8],
    /// First pin number in the group (0 or 8).
    pub base_pin: u8,
}

impl Hub75Pins8 {
    /// The pins are one byte of one port, in order.
    pub open spec fn wf(&self) -> bool {
        &&& self.base_pin == 0 || self.base_pin == 8
        &&& consecutive(self.pins@, self.base_pin as int)
    }

    /// Create a validated pin configuration.
    ///
    /// All 8 pins must be on the same GPIO port and must occupy 8
    /// consecutive pins in either the lower byte (pins 0-7) or upper byte
    /// (pins 8-15), with R1 on the lowest pin of the group.
    ///
    /// # Errors
    /// Returns [`Hub75Error::PinNotOnSamePort`] if any pin is on a
    /// different GPIO port than the first, or
    /// [`Hub75Error::PinsNotConsecutive`] if the pins are not 8
    /// consecutive pins starting at pin 0 or pin 8.
    #[allow(clippy::too_many_arguments)]
    pub fn new(
        red1: AnyPin,
        grn1: AnyPin,
        blu1: AnyPin,
        red2: AnyPin,
        grn2: AnyPin,
        blu2: AnyPin,
        latch: AnyPin,
        blank: AnyPin,
    ) -> (r: Result<Self, Hub75Error>)
        ensures
            ({
                let pins = seq![red1, grn1, blu1, red2, grn2, blu2, latch, blank];
                let first = red1.pin as int;
                if first != 0 && first != 8 {
                    r == Err::<Self, Hub75Error>(
                        Hub75Error::PinsNotConsecutive { index: 0, expected: 0, actual: red1.pin },
                    )
                } else {
                    match r {
                        Ok(group) => {
                            &&& consecutive(pins, first)
                            &&& group.pins@ == pins
                            &&& group.base_pin == red1.pin
                            &&& group.wf()
                        },
                        Err(error) => is_fault(pins, first, error),
                    }
                }
            }),
            ({
                let pins = seq![red1, grn1, blu1, red2, grn2, blu2, latch, blank];
                r is Ok <==> {
                    &&& red1.pin == 0 || red1.pin == 8
                    &&& forall|i: int|
                        0 <= i < 8 ==> (#[trigger] pins[i]).port == red1.port && pins[i].pin
                            == red1.pin + i
                }
            }),
            r matches Ok(group) ==> group.base_pin == red1.pin && group.pins@ == seq![
                red1,
                grn1,
                blu1,
                red2,
                grn2,
                blu2,
                latch,
                blank,
            ],
    {
        let pins = [red1, grn1, blu1, red2, grn2, blu2, latch, blank];
        assert(pins@ =~= seq![red1, grn1, blu1, red2, grn2, blu2, latch, blank]);
        let first: u8 = red1.pin;
        if first != 0 && first != 8 {
            return Err(Hub75Error::PinsNotConsecutive { index: 0, expected: 0, actual: first });
        }
        proof {
            law_consecutive_pins(pins@, first as int);
        }
        match find_misplaced(pins.as_slice(), first) {
            Some(error) => {
                proof {
                    law_fault_is_unique(pins@, first as int, error, error);
                }
                Err(error)
            },
            None => Ok(Self { pins, base_pin: first }),
        }
    }
}

impl Hub75Pins for Hub75Pins8 {
    open spec fn data_pins(&self) -> Seq<AnyPin> {
        self.pins@
    }

    open spec fn odr_offset(&self) -> int {
        if self.base_pin != 0 {
            1
        } else {
            0
        }
    }

    open spec fn blank_pin() -> Option<int> {
        Some(7)
    }

    open spec fn word_size() -> WordSize {
        WordSize::OneByte
    }

    fn dma_word_size() -> (r: WordSize) {
        WordSize::OneByte
    }

    fn configure_and_get_odr(self, odr_addr: usize, speed: Speed) -> (r: (usize, Vec<PinSetup>)) {
        let byte_offset: usize = if self.base_pin != 0 {
            1
        } else {
            0
        };
        let mut setups: Vec<PinSetup> = Vec::new();
        let mut i: usize = 0;
        while i < 8
            invariant
                i <= 8,
                setups@.len() == i,
                forall|j: int|
                    0 <= j < i ==> #[trigger] setups@[j] == (PinSetup {
                        pin: self.pins@[j],
                        set_high: j == 7,
                        speed,
                    }),
            decreases 8 - i,
        {
            setups.push(PinSetup { pin: self.pins[i], set_high: i == 7, speed });
            i += 1;
        }
        (odr_addr + byte_offset, setups)
    }
}

/// Pin configuration for a HUB75 panel using 16 data pins (full GPIO port
/// width).
///
/// All 16 pins must be on the same GPIO port, occupying pins 0-15 in order.
/// The DMA writes a full `u16` to the ODR register on each clock cycle.
///
/// Specific bit assignments depend on the framebuffer implementation used.
///
/// Use [`Hub75Pins16::new()`] to construct; it validates pin layout at
/// creation time.
pub struct Hub75Pins16 {
    /// The 16 GPIO pins in order (pin 0 through pin 15).
    pub pins: [AnyPin; 16],
}

impl Hub75Pins16 {
    /// The pins are one whole port, in order.
    pub open spec fn wf(&self) -> bool {
        consecutive(self.pins@, 0)
    }

    /// Create a validated 16-pin configuration.
    ///
    /// All 16 pins must be on the same GPIO port and must occupy pins 0-15
    /// consecutively.
    ///
    /// # Errors
    /// Returns [`Hub75Error::PinNotOnSamePort`] if any pin is on a
    /// different GPIO port than the first, or
    /// [`Hub75Error::PinsNotConsecutive`] if the pins are not
    /// consecutive starting at pin 0.
    pub fn new(pins: [AnyPin; 16]) -> (r: Result<Self, Hub75Error>)
        ensures
            match r {
                Ok(group) => group.pins == pins && group.wf(),
                Err(error) => is_fault(pins@, 0, error),
            },
            r is Ok <==> forall|i: int|
                0 <= i < 16 ==> (#[trigger] pins@[i]).port == pins@[0].port && pins@[i].pin == i,
            r matches Ok(group) ==> group.pins@ == pins@,
    {
        proof {
            law_consecutive_pins(pins@, 0);
        }
        match find_misplaced(pins.as_slice(), 0) {
            Some(error) => {
                proof {
                    law_fault_is_unique(pins@, 0, error, error);
                }
                Err(error)
            },
            None => Ok(Self { pins }),
        }
    }
}

impl Hub75Pins for Hub75Pins16 {
    open spec fn data_pins(&self) -> Seq<AnyPin> {
        self.pins@
    }

    open spec fn odr_offset(&self) -> int {
        0
    }

    open spec fn blank_pin() -> Option<int> {
        None
    }

    open spec fn word_size() -> WordSize {
        WordSize::TwoBytes
    }

    fn dma_word_size() -> (r: WordSize) {
        WordSize::TwoBytes
    }

    fn configure_and_get_odr(self, odr_addr: usize, speed: Speed) -> (r: (usize, Vec<PinSetup>)) {
        let mut setups: Vec<PinSetup> = Vec::new();
        let mut i: usize = 0;
        while i < 16
            invariant
                i <= 16,
                setups@.len() == i,
                forall|j: int|
                    0 <= j < i ==> #[trigger] setups@[j] == (PinSetup {
                        pin: self.pins@[j],
                        set_high: false,
                        speed,
                    }),
            decreases 16 - i,
        {
            setups.push(PinSetup { pin: self.pins[i], set_high: false, speed });
            i += 1;
        }
        (odr_addr, setups)
    }
}

// ---------------------------------------------------------------------------
// Laws
// ---------------------------------------------------------------------------

/// The pins of a validated byte group are the bits of the byte that the DMA
/// writes: with lower-byte wiring pin N is bit N of byte 0, with upper-byte
/// wiring pin N+8 is bit N of byte 1, all on one port.
pub proof fn law_byte_group_is_one_byte(group: Hub75Pins8, bit: int)
    requires
        group.wf(),
        0 <= bit < 8,
    ensures
        group.data_pins()[bit].pin == 8 * group.odr_offset() + bit,
        group.data_pins()[bit].port == group.data_pins()[0].port,
{
    assert(in_place(group.pins@, group.base_pin as int, bit));
}

/// The pins of a validated 16-bit group are the bits of the halfword that the
/// DMA writes: pin N is bit N, all on one port.
pub proof fn law_halfword_group_is_whole_port(group: Hub75Pins16, bit: int)
    requires
        group.wf(),
        0 <= bit < 16,
    ensures
        group.odr_offset() == 0,
        group.data_pins()[bit].pin == bit,
        group.data_pins()[bit].port == group.data_pins()[0].port,
{
    assert(in_place(group.pins@, 0, bit));
}

/// A pin list has at most one fault to report, and it has one exactly when it
/// is not consecutive.
pub proof fn law_fault_is_unique(pins: Seq<AnyPin>, first: int, a: Hub75Error, b: Hub75Error)
    requires
        is_fault(pins, first, a),
    ensures
        !consecutive(pins, first),
        is_fault(pins, first, b) ==> a == b,
{
    let i = choose|i: int| #[trigger]
        first_misplaced(pins, first, i) && a == misplacement(pins, first, i);
    assert(!in_place(pins, first, i));
    if is_fault(pins, first, b) {
        let j = choose|j: int| #[trigger]
            first_misplaced(pins, first, j) && b == misplacement(pins, first, j);
        assert(!in_place(pins, first, j));
        assert(i == j);
    }
}

/// A pin list is consecutive exactly when each pin is on the port of the first
/// one and has the number that is as far from `first` as its place in the
/// list; nothing else about the port or the numbers matters.
pub proof fn law_consecutive_pins(pins: Seq<AnyPin>, first: int)
    ensures
        consecutive(pins, first) <==> forall|i: int|
            0 <= i < pins.len() ==> (#[trigger] pins[i]).port == pins[0].port && pins[i].pin == first
                + i,
{
    if consecutive(pins, first) {
        assert forall|i: int| 0 <= i < pins.len() implies (#[trigger] pins[i]).port == pins[0].port
            && pins[i].pin == first + i by {
            assert(in_place(pins, first, i));
        }
    }
    if forall|i: int|
        0 <= i < pins.len() ==> (#[trigger] pins[i]).port == pins[0].port && pins[i].pin == first
            + i {
        assert forall|i: int| 0 <= i < pins.len() implies #[trigger] in_place(pins, first, i) by {
            assert(pins[i].port == pins[0].port);
        }
    }
}

/// Pins in order on one port have no fault, whatever the port.
pub proof fn law_ordered_pins_have_no_fault(
    pins: Seq<AnyPin>,
    port: u8,
    first: int,
    error: Hub75Error,
)
    requires
        pins.len() > 0,
        forall|i: int|
            0 <= i < pins.len() ==> (#[trigger] pins[i]).port == port && pins[i].pin == first + i,
    ensures
        consecutive(pins, first),
        !is_fault(pins, first, error),
{
    assert(pins[0].port == port);
    law_consecutive_pins(pins, first);
    if is_fault(pins, first, error) {
        law_fault_is_unique(pins, first, error, error);
    }
}

/// A fault names the first pin that is out of place. It is a port fault when
/// that pin is on another port than the first pin, and otherwise gives the pin
/// number expected there and the one found.
pub proof fn law_fault_names_first_misplaced_pin(
    pins: Seq<AnyPin>,
    first: int,
    i: int,
    error: Hub75Error,
)
    requires
        0 <= i < pins.len() <= 16,
        0 <= first <= 8,
        pins[i].port != pins[0].port || pins[i].pin != first + i,
        forall|j: int|
            0 <= j < i ==> (#[trigger] pins[j]).port == pins[0].port && pins[j].pin == first + j,
    ensures
        is_fault(pins, first, error) <==> match error {
            Hub75Error::PinNotOnSamePort { index } => pins[i].port != pins[0].port && index == i,
            Hub75Error::PinsNotConsecutive { index, expected, actual } => {
                &&& pins[i].port == pins[0].port
                &&& index == i
                &&& expected == first + i
                &&& actual == pins[i].pin
            },
            _ => false,
        },
{
    assert forall|j: int| 0 <= j < i implies #[trigger] in_place(pins, first, j) by {
        assert(pins[j].port == pins[0].port);
    }
    assert(first_misplaced(pins, first, i));
    assert(is_fault(pins, first, misplacement(pins, first, i)));
    if is_fault(pins, first, error) {
        law_fault_is_unique(pins, first, error, misplacement(pins, first, i));
    }
}

/// An 8-pin group is valid exactly when it starts at pin 0 or pin 8 and is in
/// order on one port. It is written in bytes, to the byte of the register that
/// its pins are in, and its last pin blanks the panel.
pub proof fn law_byte_group(group: Hub75Pins8)
    ensures
        group.wf() <==> {
            &&& group.base_pin == 0 || group.base_pin == 8
            &&& forall|i: int|
                0 <= i < 8 ==> (#[trigger] group.pins@[i]).port == group.pins@[0].port
                    && group.pins@[i].pin == group.base_pin + i
        },
        group.data_pins() == group.pins@,
        group.data_pins().len() == 8,
        group.base_pin == 0 ==> group.odr_offset() == 0,
        group.base_pin != 0 ==> group.odr_offset() == 1,
        <Hub75Pins8 as Hub75Pins>::blank_pin() == Some(7int),
        <Hub75Pins8 as Hub75Pins>::word_size() == WordSize::OneByte,
{
    law_consecutive_pins(group.pins@, group.base_pin as int);
}

/// A 16-pin group is valid exactly when it is a whole port in order. It is
/// written in halfwords, to the start of the register, and has no blank pin.
pub proof fn law_halfword_group(group: Hub75Pins16)
    ensures
        group.wf() <==> forall|i: int|
            0 <= i < 16 ==> (#[trigger] group.pins@[i]).port == group.pins@[0].port
                && group.pins@[i].pin == i,
        group.data_pins() == group.pins@,
        group.data_pins().len() == 16,
        group.odr_offset() == 0,
        <Hub75Pins16 as Hub75Pins>::blank_pin() is None,
        <Hub75Pins16 as Hub75Pins>::word_size() == WordSize::TwoBytes,
{
    law_consecutive_pins(group.pins@, 0);
}

} // verus!
