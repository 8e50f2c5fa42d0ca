//! The WS2812 RGB LED and what it shows.
use vstd::prelude::*;

verus! {

/// A colour of the LED.
#[derive(Clone, Copy, Debug, PartialEq, Eq, Structural)]
pub struct Rgb {
    pub r: u8,
    pub g: u8,
    pub b: u8,
}

/// How one bit goes out on the wire: a high pulse, then a low one.
#[derive(Clone, Copy, Debug, PartialEq, Eq, Structural)]
pub struct Symbol {
    pub high_ns: u32,
    pub low_ns: u32,
}

/// Ticks per second of the pulse generator.
pub const RMT_RESOLUTION_HZ: u32 = 10_000_000;

/// Bits of one frame.
pub const FRAME_BITS: u32 = 24;

/// The symbol for a bit.
pub open spec fn symbol_of(bit: bool) -> Symbol {
    if bit {
        Symbol { high_ns: 700, low_ns: 600 }
    } else {
        Symbol { high_ns: 350, low_ns: 800 }
    }
}

/// Bit `n` of a byte, counted from the least significant one.
pub open spec fn bit_of(byte: u8, n: u32) -> bool {
    (byte >> n) & 1 == 1
}

/// Bit `k` of the frame for a colour: the bytes go out in the order red,
/// green, blue, each with its most significant bit first.
pub open spec fn frame_bit(color: Rgb, k: int) -> bool {
    if k < 8 {
        bit_of(color.r, (7 - k) as u32)
    } else if k < 16 {
        bit_of(color.g, (15 - k) as u32)
    } else {
        bit_of(color.b, (23 - k) as u32)
    }
}

/// A colour component at a brightness in percent.
pub open spec fn scaled(c: u8, brightness: u32) -> u8 {
    ((c * brightness / 100) % 256) as u8
}

/// A colour at a brightness in percent.
pub open spec fn dimmed(color: Rgb, brightness: u32) -> Rgb {
    Rgb {
        r: scaled(color.r, brightness),
        g: scaled(color.g, brightness),
        b: scaled(color.b, brightness),
    }
}

/// The symbol for a bit.
pub fn bit_symbol(bit: bool) -> (symbol: Symbol)
    ensures
        symbol == symbol_of(bit),
        bit ==> symbol.high_ns == 700 && symbol.low_ns == 600,
        !bit ==> symbol.high_ns == 350 && symbol.low_ns == 800,
{
    if bit {
        Symbol { high_ns: 700, low_ns: 600 }
    } else {
        Symbol { high_ns: 350, low_ns: 800 }
    }
}

/// A pulse length in whole ticks of the pulse generator, rounded down.
pub fn pulse_ticks(ns: u32) -> (ticks: u32)
    ensures
        ticks == ns * RMT_RESOLUTION_HZ / 1_000_000_000,
        100 * ticks <= ns < 100 * (ticks + 1),
{
    assert(ns * RMT_RESOLUTION_HZ <= 0xFFFF_FFFF * 10_000_000) by (nonlinear_arith)
        requires
            RMT_RESOLUTION_HZ == 10_000_000,
    ;
    (ns as u64 * RMT_RESOLUTION_HZ as u64 / 1_000_000_000) as u32
}

/// The frame for a colour, as the bytes that go out in this order.
pub fn wire_bytes(color: Rgb) -> (bytes: [u8; 3])
    ensures
        bytes@ == seq![color.r, color.g, color.b],
        bytes@.len() == 3,
        bytes@[0] == color.r && bytes@[1] == color.g && bytes@[2] == color.b,
{
    let bytes: [u8; 3] = [color.r, color.g, color.b];
    assert(bytes@ =~= seq![color.r, color.g, color.b]);
    bytes
}

/// The frame for a colour, as the symbols that go out in this order.
pub fn ws2812_write(color: Rgb) -> (signal: Vec<Symbol>)
    ensures
        signal@.len() == FRAME_BITS,
        forall|k: int|
            0 <= k < FRAME_BITS ==> #[trigger] signal@[k] == symbol_of(frame_bit(color, k)),
        ({
            let place = |k: int, unit: int| (if signal@[k].high_ns == 700 {
                unit
            } else {
                0
            });
            let byte = |from: int|
                place(from, 128) + place(from + 1, 64) + place(from + 2, 32) + place(from + 3, 16)
                    + place(from + 4, 8) + place(from + 5, 4) + place(from + 6, 2) + place(
                    from + 7,
                    1,
                );
            byte(0) == color.r && byte(8) == color.g && byte(16) == color.b
        }),
        forall|k: int|
            0 <= k < 24 ==> ((#[trigger] signal@[k]).high_ns == 700 && signal@[k].low_ns == 600)
                || (signal@[k].high_ns == 350 && signal@[k].low_ns == 800),
{
    let (r, g, b) = (color.r, color.g, color.b);
    let word: u32 = ((r as u32) << 16) | ((g as u32) << 8) | (b as u32);
    let mut signal: Vec<Symbol> = Vec::new();
    let mut k: u32 = 0;
    while k < FRAME_BITS
        invariant
            k <= FRAME_BITS,
            r == color.r && g == color.g && b == color.b,
            word == ((r as u32) << 16) | ((g as u32) << 8) | (b as u32),
            signal@.len() == k,
            forall|j: int| 0 <= j < k ==> #[trigger] signal@[j] == symbol_of(frame_bit(color, j)),
        decreases FRAME_BITS - k,
    {
        let bit: bool = (word >> (23 - k)) & 1 == 1;
        proof {
            let hi: u32 = if k < 8 {
                (7 - k) as u32
            } else if k < 16 {
                (15 - k) as u32
            } else {
                (23 - k) as u32
            };
            let shift: u32 = (23 - k) as u32;
            assert(k < 8 ==> (((word >> shift) & 1 == 1) == ((r >> hi) & 1 == 1))) by (bit_vector)
                requires
                    word == ((r as u32) << 16) | ((g as u32) << 8) | (b as u32),
                    k < 24,
                    shift == 23 - k,
                    k < 8 ==> hi == 7 - k,
            ;
            assert(8 <= k < 16 ==> (((word >> shift) & 1 == 1) == ((g >> hi) & 1 == 1)))
                by (bit_vector)
                requires
                    word == ((r as u32) << 16) | ((g as u32) << 8) | (b as u32),
                    k < 24,
                    shift == 23 - k,
                    8 <= k < 16 ==> hi == 15 - k,
            ;
            assert(16 <= k ==> (((word >> shift) & 1 == 1) == ((b >> hi) & 1 == 1))) by (bit_vector)
                requires
                    word == ((r as u32) << 16) | ((g as u32) << 8) | (b as u32),
                    k < 24,
                    shift == 23 - k,
                    16 <= k ==> hi == 23 - k,
            ;
            assert(bit == frame_bit(color, k as int));
        }
        signal.push(bit_symbol(bit));
        k += 1;
    }
    proof {
        frame_spells_the_colour(color, signal@);
    }
    signal
}

fn scale(c: u8, brightness: u32) -> (scaled_c: u8)
    requires
        c * brightness <= u32::MAX,
    ensures
        scaled_c == scaled(c, brightness),
{
    (c as u32 * brightness / 100 % 256) as u8
}

/// The colour to send for `color` at a brightness in percent.
pub fn set_led(color: Rgb, brightness: u32) -> (out: Rgb)
    requires
        color.r * brightness <= u32::MAX,
        color.g * brightness <= u32::MAX,
        color.b * brightness <= u32::MAX,
    ensures
        out == dimmed(color, brightness),
        out.r == color.r * brightness / 100 % 256,
        out.g == color.g * brightness / 100 % 256,
        out.b == color.b * brightness / 100 % 256,
{
    Rgb {
        r: scale(color.r, brightness),
        g: scale(color.g, brightness),
        b: scale(color.b, brightness),
    }
}

/// What the LED shows for a CO2 value.
#[derive(Clone, Copy, Debug, PartialEq, Eq, Structural)]
pub enum Glow {
    /// One colour until the next reading.
    Steady(Rgb),
    /// Red, flashing until the next reading: dangerous.
    FlashRed,
}

/// The colour of a CO2 value: green is good, orange fair to poor, red bad,
/// and flashing red dangerous.
pub open spec fn glow_of(ppm: int) -> Glow {
    if ppm > 5000 {
        Glow::FlashRed
    } else if ppm <= 1000 {
        Glow::Steady(Rgb { r: 0, g: 120, b: 0 })
    } else if ppm <= 2000 {
        Glow::Steady(Rgb { r: 200, g: 50, b: 0 })
    } else {
        Glow::Steady(Rgb { r: 220, g: 0, b: 0 })
    }
}

/// What the LED shows for a CO2 value.
pub fn glow(ppm: u16) -> (shown: Glow)
    ensures
        shown == glow_of(ppm as int),
        ppm <= 1000 ==> shown == Glow::Steady(Rgb { r: 0, g: 120, b: 0 }),
        1001 <= ppm <= 2000 ==> shown == Glow::Steady(Rgb { r: 200, g: 50, b: 0 }),
        2001 <= ppm <= 5000 ==> shown == Glow::Steady(Rgb { r: 220, g: 0, b: 0 }),
        ppm >= 5001 ==> shown == Glow::FlashRed,
{
    if ppm > 5000 {
        return Glow::FlashRed;
    }
    match ppm {
        0..=1000 => Glow::Steady(Rgb { r: 0, g: 120, b: 0 }),
        1001..=2000 => Glow::Steady(Rgb { r: 200, g: 50, b: 0 }),
        _ => Glow::Steady(Rgb { r: 220, g: 0, b: 0 }),
    }
}

/// Time between two changes of a flashing LED, in milliseconds.
pub const FLASH_PERIOD_MS: u64 = 500;

/// Whether a flash that is to last `wait_s` seconds is over after so many
/// milliseconds.
pub fn flash_ended(elapsed_ms: u64, wait_s: u64) -> (ended: bool)
    ensures
        ended == (elapsed_ms >= 1000 * wait_s),
{
    elapsed_ms / 1000 >= wait_s
}

/// A flashing LED.
#[derive(Clone, Copy, Debug, PartialEq, Eq, Structural)]
pub struct Flashing {
    /// Whether the LED lights up next.
    pub on: bool,
}

impl Flashing {
    /// A flash begins with the light on.
    pub fn start() -> (flashing: Flashing)
        ensures
            flashing == (Flashing { on: true }),
    {
        Flashing { on: true }
    }

    /// The colour of the next [`FLASH_PERIOD_MS`], so many milliseconds after
    /// the flash began, or none once it has lasted for `wait_s` seconds. Red
    /// and dark take turns.
    pub fn next(&mut self, elapsed_ms: u64, wait_s: u64) -> (color: Option<Rgb>)
        ensures
            elapsed_ms >= 1000 * wait_s ==> color is None && *final(self) == *old(self),
            elapsed_ms < 1000 * wait_s ==> {
                &&& color == Some(
                    if old(self).on {
                        Rgb { r: 220, g: 0, b: 0 }
                    } else {
                        Rgb { r: 0, g: 0, b: 0 }
                    },
                )
                &&& final(self).on == !old(self).on
            },
    {
        if flash_ended(elapsed_ms, wait_s) {
            return None;
        }
        let color = if self.on {
            Rgb { r: 220, g: 0, b: 0 }
        } else {
            Rgb { r: 0, g: 0, b: 0 }
        };
        self.on = !self.on;
        Some(color)
    }
}

/// A flash changes twice a second.
pub proof fn flash_changes_twice_a_second(wait_s: u64)
    ensures
        1000 * wait_s == 2 * wait_s * FLASH_PERIOD_MS,
{
    assert(2 * wait_s * 500 == 1000 * wait_s) by (nonlinear_arith);
}

/// A colour shown once at boot.
#[derive(Clone, Copy, Debug, PartialEq, Eq, Structural)]
pub struct BootFlash {
    pub color: Rgb,
    pub brightness: u32,
    pub hold_ms: u64,
    /// The colour afterwards.
    pub rest: Rgb,
}

/// At boot the LED lights up white, briefly.
pub fn boot_flash() -> (flash: BootFlash)
    ensures
        flash == (BootFlash {
            color: Rgb { r: 30, g: 30, b: 30 },
            brightness: 100,
            hold_ms: 500,
            rest: Rgb { r: 0, g: 0, b: 0 },
        }),
{
    BootFlash {
        color: Rgb { r: 30, g: 30, b: 30 },
        brightness: 100,
        hold_ms: 500,
        rest: Rgb { r: 0, g: 0, b: 0 },
    }
}

/// The two forms of a frame agree: its symbols are the bits of its bytes, byte
/// by byte, each from the most significant bit down.
pub proof fn frame_is_the_wire_bytes(color: Rgb, bytes: Seq<u8>, k: int)
    requires
        bytes == seq![color.r, color.g, color.b],
        0 <= k < FRAME_BITS,
    ensures
        frame_bit(color, k) == bit_of(bytes[k / 8], (7 - k % 8) as u32),
{
}

/// Which eight bits a byte has: with the weights of their places they add up
/// to it.
proof fn bits_add_up(byte: u8)
    ensures
        (if bit_of(byte, 7) {
            128int
        } else {
            0
        }) + (if bit_of(byte, 6) {
            64int
        } else {
            0
        }) + (if bit_of(byte, 5) {
            32int
        } else {
            0
        }) + (if bit_of(byte, 4) {
            16int
        } else {
            0
        }) + (if bit_of(byte, 3) {
            8int
        } else {
            0
        }) + (if bit_of(byte, 2) {
            4int
        } else {
            0
        }) + (if bit_of(byte, 1) {
            2int
        } else {
            0
        }) + (if bit_of(byte, 0) {
            1int
        } else {
            0
        }) == byte,
{
    assert(byte == 128 * ((byte >> 7) & 1) + 64 * ((byte >> 6) & 1) + 32 * ((byte >> 5) & 1) + 16
        * ((byte >> 4) & 1) + 8 * ((byte >> 3) & 1) + 4 * ((byte >> 2) & 1) + 2 * ((byte >> 1) & 1)
        + ((byte >> 0) & 1)) by (bit_vector);
    assert((byte >> 7) & 1 <= 1 && (byte >> 6) & 1 <= 1 && (byte >> 5) & 1 <= 1 && (byte >> 4) & 1
        <= 1 && (byte >> 3) & 1 <= 1 && (byte >> 2) & 1 <= 1 && (byte >> 1) & 1 <= 1 && (byte >> 0)
        & 1 <= 1) by (bit_vector);
}

/// A frame spells its colour: read as binary digits, a high pulse of 700 ns
/// for 1 and one of 350 ns for 0, its 24 symbols are the components red, green and
/// blue, each from its highest bit down. So no two colours have the same
/// frame.
pub proof fn frame_spells_the_colour(color: Rgb, signal: Seq<Symbol>)
    requires
        signal.len() == 24,
        forall|k: int| 0 <= k < 24 ==> #[trigger] signal[k] == symbol_of(frame_bit(color, k)),
    ensures
        ({
            let place = |k: int, unit: int| (if signal[k].high_ns == 700 {
                unit
            } else {
                0
            });
            let byte = |from: int|
                place(from, 128) + place(from + 1, 64) + place(from + 2, 32) + place(from + 3, 16)
                    + place(from + 4, 8) + place(from + 5, 4) + place(from + 6, 2) + place(
                    from + 7,
                    1,
                );
            byte(0) == color.r && byte(8) == color.g && byte(16) == color.b
        }),
        forall|k: int|
            0 <= k < 24 ==> ((#[trigger] signal[k]).high_ns == 700 && signal[k].low_ns == 600)
                || (signal[k].high_ns == 350 && signal[k].low_ns == 800),
{
    bits_add_up(color.r);
    bits_add_up(color.g);
    bits_add_up(color.b);
}

/// Every reading has its colour: up to 1000 ppm green, up to 2000 orange, up
/// to 5000 red, and beyond it flashes red. There is no other.
pub proof fn bands_have_their_colours(ppm: int)
    requires
        0 <= ppm,
    ensures
        ppm <= 1000 <==> glow_of(ppm) == Glow::Steady(Rgb { r: 0, g: 120, b: 0 }),
        1001 <= ppm <= 2000 <==> glow_of(ppm) == Glow::Steady(Rgb { r: 200, g: 50, b: 0 }),
        2001 <= ppm <= 5000 <==> glow_of(ppm) == Glow::Steady(Rgb { r: 220, g: 0, b: 0 }),
        ppm >= 5001 <==> glow_of(ppm) == Glow::FlashRed,
{
}

/// Each component is dimmed by itself, to its share in percent rounded down.
pub proof fn components_are_dimmed_alike(color: Rgb, brightness: u32)
    requires
        brightness <= 100,
    ensures
        ({
            let out = dimmed(color, brightness);
            &&& 100 * out.r <= color.r * brightness < 100 * (out.r + 1)
            &&& 100 * out.g <= color.g * brightness < 100 * (out.g + 1)
            &&& 100 * out.b <= color.b * brightness < 100 * (out.b + 1)
        }),
{
    dimming_is_proportional(color.r, brightness, 100);
    dimming_is_proportional(color.g, brightness, 100);
    dimming_is_proportional(color.b, brightness, 100);
}

/// Dimming never brightens a colour: up to full brightness no component
/// exceeds the one asked for, a brighter setting never gives less, full
/// brightness leaves the colour as it is, and brightness 0 is dark. No such
/// brightness is too large to compute with.
pub proof fn dimming_is_proportional(c: u8, brightness: u32, brighter: u32)
    requires
        brightness <= brighter <= 100,
    ensures
        scaled(c, brightness) == c * brightness / 100,
        scaled(c, brightness) <= c,
        scaled(c, brightness) <= scaled(c, brighter),
        scaled(c, 100) == c,
        scaled(c, 0) == 0,
        c * brightness <= u32::MAX,
{
    assert(c * brightness <= c * brighter) by (nonlinear_arith)
        requires
            brightness <= brighter,
    ;
    assert(c * brighter <= c * 100) by (nonlinear_arith)
        requires
            brighter <= 100,
    ;
}

/// The four bands of CO2 values are in order and leave no gap: a worse value
/// never shows a better colour.
pub proof fn worse_air_never_looks_better(ppm: int, worse: int)
    requires
        0 <= ppm <= worse,
    ensures
        glow_of(ppm) is FlashRed ==> glow_of(worse) is FlashRed,
        glow_of(ppm) == Glow::Steady(Rgb { r: 220, g: 0, b: 0 }) ==> glow_of(worse) == glow_of(ppm)
            || glow_of(worse) is FlashRed,
        glow_of(worse) == Glow::Steady(Rgb { r: 0, g: 120, b: 0 }) ==> glow_of(ppm) == glow_of(
            worse,
        ),
{
}

} // verus!
