//! # hub75
//!
//! The core of a driver for HUB75-style LED matrix panels on STM32
//! microcontrollers. HUB75 is a standard interface for driving large, bright,
//! and colorful RGB LED displays.
//!
//! A timer generates the pixel clock and paces DMA transfers that copy
//! framebuffer words to a GPIO port. This crate holds everything about that
//! refresh loop that is not a hardware access: which bytes are streamed in
//! which order, how the descriptor chains are laid out, when a framebuffer
//! swap takes effect, and which pins form a valid data bus. Hardware is driven
//! by a thin layer on top, which performs the accesses that the functions
//! here hand out and feeds interrupts back in.
//!
//! ## Double Buffering
//!
//! The application writes to one framebuffer while the panel is refreshed
//! from another; `swap` exchanges them and hands the old one back when it is
//! no longer read.
//!
//! ## Backends
//!
//! - [`latched`]: one DMA transfer per segment repetition, restarted from the
//!   transfer-complete interrupt.
//! - [`gpdma`]: a circular chain with one linear descriptor per repetition.
//! - [`gpdma_2d`]: a circular chain with one repeating descriptor per
//!   segment.

pub mod bcm;
pub mod chain;
pub mod config;
pub mod framebuffer;
pub mod gpdma;
pub mod gpdma_2d;
pub mod latched;
pub mod laws;
pub mod pins;
pub mod setup;

pub use crate::config::{Config, Hertz, Speed};
pub use crate::pins::{AnyPin, Hub75Error, Hub75Pins, Hub75Pins16, Hub75Pins8};
