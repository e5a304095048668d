# hub75

The core of a driver for HUB75-style LED matrix panels on STM32
microcontrollers, verified with [Verus](https://github.com/verus-lang/verus).

A timer generates the pixel clock and paces DMA transfers that copy
framebuffer words to a GPIO port. Brightness comes from binary code
modulation (BCM): a framebuffer publishes one panel refresh as a sequence of
segments, and each segment is streamed as often as its repetition count says.

| Module | What it holds |
| --- | --- |
| `config` | pixel clock and GPIO speed |
| `framebuffer` | what a framebuffer exposes to the refresh engine |
| `pins` | validated groups of data pins |
| `setup` | the GPIO and clock setup shared by all backends |
| `bcm` | segment cache and BCM state machine |
| `latched` | backend with one DMA transfer per repetition |
| `gpdma` | backend with one linear descriptor per repetition |
| `gpdma_2d` | backend with one repeating descriptor per segment |
| `chain` | model of the walk through a circular descriptor chain |
| `laws` | what holds of the linked-list backends as a whole |

`src/` accesses no hardware. `app/` is the layer that does: it reads the
framebuffers of `hub75-framebuffer`, programs timer, pins and DMA through
`embassy-stm32`, and feeds the interrupts back in.

## Double buffering

`swap` exchanges the framebuffer on display for another one of the same type.
The latched backend carries the swap out at the next frame boundary. The
linked-list backends rewrite the descriptors at once and then wait for two
transfer-complete interrupts, after which the old framebuffer is no longer
read; the wait can be shortened to one interrupt or none.
