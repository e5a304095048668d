//! Shared hardware setup for all HUB75 backends.
//!
//! Every backend configures the timer peripheral, clock PWM pin, and GPIO
//! data pins identically. This module works out that setup, so there is a
//! single source of truth.

use vstd::prelude::*;

use crate::config::{Config, Hertz};
use crate::pins::{Hub75Pins, Hub75Pins16, Hub75Pins8, PinSetup};

verus! {

/// Resources that every HUB75 backend needs, as they are to be configured.
pub struct Hardware {
    /// Address that the DMA writes.
    pub odr_addr: usize,
    /// How the data pins are brought up, in order.
    pub pins: Vec<PinSetup>,
    /// Pixel clock frequency.
    pub frequency: Hertz,
}

impl Hardware {
    /// This is the setup for `pins` on the port whose output data register is
    /// at `port_odr_addr`, with the clock and speed of `config`.
    pub open spec fn describes<P: Hub75Pins>(
        &self,
        pins: P,
        port_odr_addr: usize,
        config: &Config,
    ) -> bool {
        &&& self.odr_addr == port_odr_addr + pins.odr_offset()
        &&& self.frequency == config.frequency
        &&& self.pins@.len() == pins.data_pins().len()
        &&& forall|i: int|
            0 <= i < self.pins@.len() ==> #[trigger] self.pins@[i] == (PinSetup {
                pin: pins.data_pins()[i],
                set_high: P::blank_pin() == Some(i),
                speed: config.gpio_speed,
            })
    }
}

/// Work out the GPIO and clock configuration for HUB75 output.
///
/// `port_odr_addr` is the address of the output data register of the port
/// that the pins are on.
pub fn hardware<P: Hub75Pins>(pins: P, port_odr_addr: usize, config: &Config) -> (r: Hardware)
    requires
        port_odr_addr + pins.odr_offset() <= usize::MAX,
    ensures
        r.describes(pins, port_odr_addr, config),
{
    let (odr_addr, setups) = pins.configure_and_get_odr(port_odr_addr, config.gpio_speed);
    Hardware { odr_addr, pins: setups, frequency: config.frequency }
}

/// Compare value for the pixel clock: four fifths of the timer's largest
/// compare value, so that the clock is high for the last fifth of each
/// period.
///
/// The result never exceeds `max`, so it fits the timer's own register
/// width; the product is formed in 64 bits, so `max` may be any 32-bit value.
pub fn clock_compare_value(max: u32) -> (r: u32)
    ensures
        r as int == max * 4 / 5,
        r <= max,
{
    (max as u64 * 4 / 5) as u32
}

// ---------------------------------------------------------------------------
// Laws
// ---------------------------------------------------------------------------

/// The setup of an 8-pin group writes the byte of the register that the pins
/// are in: the first one for pins 0-7, the second one for pins 8-15. Each pin
/// is brought up in order at the configured speed, only the last one driven
/// high, and the clock has the configured frequency.
pub proof fn law_byte_setup(
    hw: &Hardware,
    group: Hub75Pins8,
    port_odr_addr: usize,
    config: &Config,
    i: int,
)
    requires
        hw.describes(group, port_odr_addr, config),
        0 <= i < 8,
    ensures
        hw.odr_addr == port_odr_addr + (if group.base_pin == 0 {
            0int
        } else {
            1
        }),
        hw.frequency == config.frequency,
        hw.pins@.len() == 8,
        hw.pins@[i].pin == group.pins@[i],
        hw.pins@[i].set_high <==> i == 7,
        hw.pins@[i].speed == config.gpio_speed,
{
}

/// The setup of a 16-pin group writes the whole register. Each pin is brought
/// up in order at the configured speed, none driven high, and the clock has
/// the configured frequency.
pub proof fn law_halfword_setup(
    hw: &Hardware,
    group: Hub75Pins16,
    port_odr_addr: usize,
    config: &Config,
    i: int,
)
    requires
        hw.describes(group, port_odr_addr, config),
        0 <= i < 16,
    ensures
        hw.odr_addr == port_odr_addr,
        hw.frequency == config.frequency,
        hw.pins@.len() == 16,
        hw.pins@[i].pin == group.pins@[i],
        !hw.pins@[i].set_high,
        hw.pins@[i].speed == config.gpio_speed,
{
}

} // verus!
