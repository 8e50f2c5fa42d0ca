use co2_sensor::led::{
    bit_symbol, boot_flash, flash_ended, glow, pulse_ticks, set_led, wire_bytes, ws2812_write,
    Flashing, Glow, Rgb, Symbol,
};

const ONE: Symbol = Symbol { high_ns: 700, low_ns: 600 };
const ZERO: Symbol = Symbol { high_ns: 350, low_ns: 800 };

#[test]
fn frame_is_red_green_blue_msb_first() {
    let color = Rgb { r: 0b1000_0001, g: 0b0100_0000, b: 0b0000_0010 };
    let signal = ws2812_write(color);
    assert_eq!(signal.len(), 24);
    for (k, symbol) in signal.iter().enumerate() {
        let expected = if [0, 7, 9, 22].contains(&k) { ONE } else { ZERO };
        assert_eq!(*symbol, expected);
    }
    assert_eq!(wire_bytes(color), [0b1000_0001, 0b0100_0000, 0b0000_0010]);
}

#[test]
fn symbols_are_the_bits_of_the_bytes() {
    let color = Rgb { r: 0xA5, g: 0x3C, b: 0x81 };
    let signal = ws2812_write(color);
    let bytes = wire_bytes(color);
    for k in 0..24 {
        let bit = (bytes[k / 8] >> (7 - k % 8)) & 1 == 1;
        assert_eq!(signal[k], bit_symbol(bit));
    }
    assert_eq!(signal[0], ONE);
    assert_eq!(signal[1], ZERO);
}

#[test]
fn pulses_are_whole_ticks() {
    assert_eq!(bit_symbol(true), ONE);
    assert_eq!(bit_symbol(false), ZERO);
    assert_eq!(pulse_ticks(350), 3);
    assert_eq!(pulse_ticks(800), 8);
    assert_eq!(pulse_ticks(700), 7);
    assert_eq!(pulse_ticks(600), 6);
}

#[test]
fn brightness_scales_every_component() {
    let color = Rgb { r: 200, g: 50, b: 255 };
    assert_eq!(set_led(color, 100), color);
    assert_eq!(set_led(color, 50), Rgb { r: 100, g: 25, b: 127 });
    assert_eq!(set_led(color, 0), Rgb { r: 0, g: 0, b: 0 });
    assert_eq!(set_led(color, 200), Rgb { r: 144, g: 100, b: 254 });
}

#[test]
fn colour_bands_have_exact_edges() {
    let green = Glow::Steady(Rgb { r: 0, g: 120, b: 0 });
    let orange = Glow::Steady(Rgb { r: 200, g: 50, b: 0 });
    let red = Glow::Steady(Rgb { r: 220, g: 0, b: 0 });
    assert_eq!(glow(0), green);
    assert_eq!(glow(1000), green);
    assert_eq!(glow(1001), orange);
    assert_eq!(glow(2000), orange);
    assert_eq!(glow(2001), red);
    assert_eq!(glow(5000), red);
    assert_eq!(glow(5001), Glow::FlashRed);
    assert_eq!(glow(65535), Glow::FlashRed);
}

#[test]
fn flashing_alternates_and_ends() {
    let mut flashing = Flashing::start();
    let red = Some(Rgb { r: 220, g: 0, b: 0 });
    let dark = Some(Rgb { r: 0, g: 0, b: 0 });
    assert_eq!(flashing.next(0, 30), red);
    assert_eq!(flashing.next(500, 30), dark);
    assert_eq!(flashing.next(29_999, 30), red);
    assert_eq!(flashing.next(30_000, 30), None);
}

#[test]
fn flash_lasts_for_the_whole_wait() {
    assert!(!flash_ended(0, 10));
    assert!(!flash_ended(9_999, 10));
    assert!(flash_ended(10_000, 10));
    assert!(flash_ended(0, 0));
}

#[test]
fn boot_flash_is_white_for_half_a_second() {
    let flash = boot_flash();
    assert_eq!(flash.color, Rgb { r: 30, g: 30, b: 30 });
    assert_eq!((flash.brightness, flash.hold_ms), (100, 500));
    assert_eq!(flash.rest, Rgb { r: 0, g: 0, b: 0 });
}
