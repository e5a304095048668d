use hub75::framebuffer::WordSize;
use hub75::pins::PinSetup;
use hub75::setup::{clock_compare_value, hardware};
use hub75::{AnyPin, Config, Hertz, Hub75Error, Hub75Pins, Hub75Pins16, Hub75Pins8, Speed};

fn pin(port: u8, pin: u8) -> AnyPin {
    AnyPin { port, pin }
}

fn byte_group(p: [AnyPin; 8]) -> Result<Hub75Pins8, Hub75Error> {
    Hub75Pins8::new(p[0], p[1], p[2], p[3], p[4], p[5], p[6], p[7])
}

fn run8(port: u8, first: u8) -> [AnyPin; 8] {
    let mut pins = [pin(port, 0); 8];
    for i in 0..8u8 {
        pins[i as usize] = pin(port, first + i);
    }
    pins
}

fn run16(port: u8) -> [AnyPin; 16] {
    let mut pins = [pin(port, 0); 16];
    for i in 0..16u8 {
        pins[i as usize] = pin(port, i);
    }
    pins
}

#[test]
fn lower_byte_is_accepted() {
    let group = byte_group(run8(3, 0)).unwrap();
    assert_eq!(group.base_pin, 0);
    assert_eq!(group.pins, run8(3, 0));
}

#[test]
fn upper_byte_is_accepted() {
    let group = byte_group(run8(1, 8)).unwrap();
    assert_eq!(group.base_pin, 8);
    assert_eq!(group.pins[7], pin(1, 15));
}

#[test]
fn byte_group_must_start_at_a_byte() {
    for first in [1u8, 4, 7, 9, 15] {
        let error = byte_group(run8(0, first)).err();
        assert_eq!(
            error,
            Some(Hub75Error::PinsNotConsecutive { index: 0, expected: 0, actual: first })
        );
    }
}

#[test]
fn pin_on_other_port_is_reported() {
    let mut pins = run8(2, 8);
    pins[5] = pin(3, 13);
    assert_eq!(byte_group(pins).err(), Some(Hub75Error::PinNotOnSamePort { index: 5 }));
}

#[test]
fn pin_out_of_order_is_reported() {
    let mut pins = run8(2, 8);
    pins.swap(3, 4);
    assert_eq!(
        byte_group(pins).err(),
        Some(Hub75Error::PinsNotConsecutive { index: 3, expected: 11, actual: 12 })
    );
}

#[test]
fn first_fault_wins() {
    let mut pins = run8(2, 0);
    pins[2] = pin(2, 9);
    pins[6] = pin(7, 6);
    assert_eq!(
        byte_group(pins).err(),
        Some(Hub75Error::PinsNotConsecutive { index: 2, expected: 2, actual: 9 })
    );
    pins[2] = pin(1, 9);
    assert_eq!(byte_group(pins).err(), Some(Hub75Error::PinNotOnSamePort { index: 2 }));
}

#[test]
fn whole_port_is_accepted() {
    let group = Hub75Pins16::new(run16(4)).unwrap();
    assert_eq!(group.pins, run16(4));
}

#[test]
fn halfword_group_faults_are_reported() {
    let mut pins = run16(4);
    pins[0] = pin(4, 8);
    assert_eq!(
        Hub75Pins16::new(pins).err(),
        Some(Hub75Error::PinsNotConsecutive { index: 0, expected: 0, actual: 8 })
    );
    let mut pins = run16(4);
    pins[15] = pin(5, 15);
    assert_eq!(Hub75Pins16::new(pins).err(), Some(Hub75Error::PinNotOnSamePort { index: 15 }));
    let mut pins = run16(4);
    pins[9] = pin(4, 10);
    assert_eq!(
        Hub75Pins16::new(pins).err(),
        Some(Hub75Error::PinsNotConsecutive { index: 9, expected: 9, actual: 10 })
    );
}

#[test]
fn dma_word_matches_group_width() {
    assert_eq!(Hub75Pins8::dma_word_size(), WordSize::OneByte);
    assert_eq!(Hub75Pins16::dma_word_size(), WordSize::TwoBytes);
}

#[test]
fn byte_group_writes_its_own_byte_with_blank_high() {
    let lower = byte_group(run8(1, 0)).unwrap();
    let (odr, _) = lower.configure_and_get_odr(0x4202_0414, Speed::High);
    assert_eq!(odr, 0x4202_0414);

    let upper = byte_group(run8(1, 8)).unwrap();
    let (odr, setups) = upper.configure_and_get_odr(0x4202_0414, Speed::High);
    assert_eq!(odr, 0x4202_0415);
    assert_eq!(setups.len(), 8);
    for (i, setup) in setups.iter().enumerate() {
        let expected =
            PinSetup { pin: pin(1, 8 + i as u8), set_high: i == 7, speed: Speed::High };
        assert_eq!(*setup, expected);
    }
}

#[test]
fn halfword_group_writes_whole_register() {
    let group = Hub75Pins16::new(run16(3)).unwrap();
    let (odr, setups) = group.configure_and_get_odr(0x4202_0c14, Speed::Low);
    assert_eq!(odr, 0x4202_0c14);
    assert_eq!(setups.len(), 16);
    assert!(setups.iter().all(|s| !s.set_high && s.speed == Speed::Low && s.pin.port == 3));
    assert_eq!(setups[15].pin, pin(3, 15));
}

#[test]
fn config_defaults_and_builders() {
    let config = Config::new();
    assert_eq!(config.frequency, Hertz(10_000_000));
    assert_eq!(config.gpio_speed, Speed::Medium);
    assert_eq!(Config::default(), config);
    let fast = config.frequency(Hertz(20_000_000));
    assert_eq!(fast.frequency, Hertz(20_000_000));
    assert_eq!(fast.gpio_speed, Speed::Medium);
    let both = fast.gpio_speed(Speed::VeryHigh);
    assert_eq!(both.frequency, Hertz(20_000_000));
    assert_eq!(both.gpio_speed, Speed::VeryHigh);
}

#[test]
fn hardware_setup_follows_pins_and_config() {
    let config = Config::new().frequency(Hertz(6_000_000)).gpio_speed(Speed::VeryHigh);
    let hw = hardware(byte_group(run8(1, 8)).unwrap(), 0x100, &config);
    assert_eq!(hw.odr_addr, 0x101);
    assert_eq!(hw.frequency, Hertz(6_000_000));
    assert_eq!(hw.pins.len(), 8);
    assert_eq!(
        hw.pins[7],
        PinSetup { pin: pin(1, 15), set_high: true, speed: Speed::VeryHigh }
    );
}

#[test]
fn clock_is_four_fifths_of_the_period() {
    assert_eq!(clock_compare_value(0), 0);
    assert_eq!(clock_compare_value(1), 0);
    assert_eq!(clock_compare_value(4), 3);
    assert_eq!(clock_compare_value(25), 20);
    assert_eq!(clock_compare_value(65535), 52428);
    assert_eq!(clock_compare_value(u32::MAX), 3_435_973_836);
}
