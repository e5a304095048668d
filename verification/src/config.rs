//! Driver configuration.

use vstd::prelude::*;

verus! {

/// A frequency in hertz.
#[derive(Clone, Copy, Debug, PartialEq, Eq, Structural)]
pub struct Hertz(pub u32);

/// GPIO output slew rate.
#[derive(Clone, Copy, Debug, PartialEq, Eq, Structural)]
pub enum Speed {
    /// Low speed.
    Low,
    /// Medium speed.
    Medium,
    /// High speed.
    High,
    /// Very high speed.
    VeryHigh,
}

/// Driver configuration for pixel clock frequency (defaults to 10 MHz) and
/// GPIO output speed (defaults to Medium).
#[derive(Clone, Copy, Debug, PartialEq, Eq, Structural)]
#[non_exhaustive]
pub struct Config {
    /// Pixel clock frequency for the HUB75 panel.
    pub frequency: Hertz,
    /// GPIO output speed for the data and control pins.
    pub gpio_speed: Speed,
}

impl Config {
    /// The starting defaults: 10 MHz pixel clock, medium GPIO speed.
    pub open spec fn defaults() -> Config {
        Config { frequency: Hertz(10_000_000), gpio_speed: Speed::Medium }
    }

    /// Sensible starting defaults: 10 MHz pixel clock, medium GPIO speed.
    #[must_use]
    pub fn new() -> (r: Self)
        ensures
            r == Self::defaults(),
            r.frequency.0 == 10_000_000,
            r.gpio_speed == Speed::Medium,
    {
        Self { frequency: Hertz(10_000_000), gpio_speed: Speed::Medium }
    }

    /// Set the pixel clock frequency.
    #[must_use]
    pub fn frequency(self, frequency: Hertz) -> (r: Self)
        ensures
            r == (Config { frequency, ..self }),
            r.frequency == frequency,
            r.gpio_speed == self.gpio_speed,
    {
        Self { frequency, gpio_speed: self.gpio_speed }
    }

    /// Set the GPIO output speed for the data and control pins.
    #[must_use]
    pub fn gpio_speed(self, gpio_speed: Speed) -> (r: Self)
        ensures
            r == (Config { gpio_speed, ..self }),
            r.gpio_speed == gpio_speed,
            r.frequency == self.frequency,
    {
        Self { frequency: self.frequency, gpio_speed }
    }
}

impl Default for Config {
    fn default() -> (r: Self)
        ensures
            r == Config::defaults(),
            r.frequency.0 == 10_000_000,
            r.gpio_speed == Speed::Medium,
    {
        Self::new()
    }
}

} // verus!
