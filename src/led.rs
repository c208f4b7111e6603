//! Pulse encoding for a single-wire RGB LED of the WS2812 family, and the
//! hue wheel used for status colors.

use vstd::prelude::*;
use crate::error::NodeError;

verus! {

/// The pixel type of the rgb crate, a plain struct whose three public
/// channels the encoder reads.
#[verifier::external_type_specification]
#[verifier::reject_recursive_types(T)]
pub struct ExRgb<T>(rgb::Rgb<T>);

/// Logic level of the data line during one phase of a bit.
#[derive(Clone, Copy, Debug, PartialEq, Eq, Structural)]
pub enum PinLevel {
    High,
    Low,
}

/// One segment of the waveform: a level held for a duration.
#[derive(Clone, Copy, Debug, PartialEq, Eq, Structural)]
pub struct Pulse {
    pub level: PinLevel,
    pub duration_ns: u32,
}

/// Duration of the short phase of a bit, in nanoseconds.
pub const SHORT_NS: u32 = 350;

/// Duration of the long phase of a bit, in nanoseconds.
pub const LONG_NS: u32 = 1000;

/// Number of bits sent for one color.
pub const COLOR_BITS: usize = 24;

/// Bit `i` of a byte is set.
pub open spec fn byte_bit(x: u8, i: u8) -> bool {
    (x >> i) & 1u8 == 1u8
}

/// Bit `i` of a word is set.
pub open spec fn word_bit(x: u32, i: u32) -> bool {
    (x >> i) & 1u32 == 1u32
}

/// Bit `i` of `x` moved to position `7 - i`, for every `i`.
pub open spec fn rev8(x: u8) -> u8 {
    ((x & 1u8) << 7u8) | (((x >> 1u8) & 1u8) << 6u8) | (((x >> 2u8) & 1u8) << 5u8) | (((x
        >> 3u8) & 1u8) << 4u8) | (((x >> 4u8) & 1u8) << 3u8) | (((x >> 5u8) & 1u8) << 2u8) | (((x
        >> 6u8) & 1u8) << 1u8) | ((x >> 7u8) & 1u8)
}

/// The 24-bit word sent for a color: reversed blue in the high byte,
/// reversed red in the middle byte, reversed green in the low byte.
pub open spec fn composite(c: rgb::RGB8) -> u32 {
    ((rev8(c.b) as u32) << 16u32) | ((rev8(c.r) as u32) << 8u32) | (rev8(c.g) as u32)
}

/// The high and low phase that encode one bit.
pub open spec fn bit_pulses(one: bool) -> (Pulse, Pulse) {
    if one {
        (
            Pulse { level: PinLevel::High, duration_ns: LONG_NS },
            Pulse { level: PinLevel::Low, duration_ns: SHORT_NS },
        )
    } else {
        (
            Pulse { level: PinLevel::High, duration_ns: SHORT_NS },
            Pulse { level: PinLevel::Low, duration_ns: LONG_NS },
        )
    }
}

/// The waveform of a color: one pulse pair per bit of its composite word,
/// from the least significant bit up.
pub open spec fn encoding(c: rgb::RGB8) -> Seq<(Pulse, Pulse)> {
    Seq::new(COLOR_BITS as nat, |i: int| bit_pulses(word_bit(composite(c), i as u32)))
}

/// Reverses the order of the bits of a byte.
pub fn reverse_byte(x: u8) -> (r: u8)
    ensures
        r == rev8(x),
        forall|i: u8| i < 8 ==> #[trigger] byte_bit(r, i) == byte_bit(x, (7 - i) as u8),
{
    let r: u8 = ((x & 1) << 7) | (((x >> 1) & 1) << 6) | (((x >> 2) & 1) << 5) | (((x >> 3) & 1)
        << 4) | (((x >> 4) & 1) << 3) | (((x >> 5) & 1) << 2) | (((x >> 6) & 1) << 1) | ((x >> 7)
        & 1);
    assert(forall|i: u8| i < 8 ==> ((r >> i) & 1u8 == 1u8) == ((x >> ((7 - i) as u8)) & 1u8 == 1u8)) by (bit_vector)
        requires
            r == ((x & 1u8) << 7u8) | (((x >> 1u8) & 1u8) << 6u8) | (((x >> 2u8) & 1u8) << 5u8) | (((x
                >> 3u8) & 1u8) << 4u8) | (((x >> 4u8) & 1u8) << 3u8) | (((x >> 5u8) & 1u8) << 2u8) | (((x
                >> 6u8) & 1u8) << 1u8) | ((x >> 7u8) & 1u8),
    ;
    r
}

/// The composite word of a color.
pub fn composite_value(color: rgb::RGB8) -> (r: u32)
    ensures
        r == composite(color),
{
    let b = reverse_byte(color.b) as u32;
    let r = reverse_byte(color.r) as u32;
    let g = reverse_byte(color.g) as u32;
    (b << 16) | (r << 8) | g
}

/// The pulse pair of one bit.
pub fn pulses_for_bit(one: bool) -> (r: (Pulse, Pulse))
    ensures
        r == bit_pulses(one),
{
    if one {
        (
            Pulse { level: PinLevel::High, duration_ns: LONG_NS },
            Pulse { level: PinLevel::Low, duration_ns: SHORT_NS },
        )
    } else {
        (
            Pulse { level: PinLevel::High, duration_ns: SHORT_NS },
            Pulse { level: PinLevel::Low, duration_ns: LONG_NS },
        )
    }
}

/// The waveform that sets the LED to `color`: 24 pulse pairs, bit 0 of the
/// composite word first.
pub fn encode(color: rgb::RGB8) -> (r: Vec<(Pulse, Pulse)>)
    ensures
        r@ == encoding(color),
        r@.len() == COLOR_BITS,
{
    let word = composite_value(color);
    let mut out: Vec<(Pulse, Pulse)> = Vec::new();
    let mut i: u32 = 0;
    while i < 24
        invariant
            i <= 24,
            word == composite(color),
            out@.len() == i,
            forall|j: int| 0 <= j < i ==> out@[j] == bit_pulses(word_bit(word, j as u32)),
        decreases 24 - i,
    {
        let one = (word >> i) & 1 == 1;
        out.push(pulses_for_bit(one));
        i = i + 1;
    }
    assert(out@ =~= encoding(color));
    out
}

/// A pulse pair reads as a one bit when its high phase is the longer one.
pub open spec fn reads_as_one(p: (Pulse, Pulse)) -> bool {
    p.0.duration_ns > p.1.duration_ns
}

/// The word that a waveform carries, its first pulse pair giving bit 0.
pub open spec fn decoding(s: Seq<(Pulse, Pulse)>) -> u32
    decreases s.len(),
{
    if s.len() == 0 {
        0
    } else {
        decoding(s.drop_last()) | (if reads_as_one(s.last()) {
            1u32 << ((s.len() - 1) as u32)
        } else {
            0u32
        })
    }
}

/// Reads back the word carried by a waveform of at most 32 pulse pairs.
pub fn decode(pulses: &Vec<(Pulse, Pulse)>) -> (r: u32)
    requires
        pulses@.len() <= 32,
    ensures
        r == decoding(pulses@),
{
    let mut acc: u32 = 0;
    let mut i: usize = 0;
    while i < pulses.len()
        invariant
            i <= pulses@.len() <= 32,
            acc == decoding(pulses@.take(i as int)),
        decreases pulses@.len() - i,
    {
        let p = pulses[i];
        assert(pulses@.take(i + 1).drop_last() =~= pulses@.take(i as int));
        assert(pulses@.take(i + 1).last() == p);
        let prev = acc;
        if p.0.duration_ns > p.1.duration_ns {
            acc = acc | (1u32 << (i as u32));
        } else {
            assert(prev | 0u32 == prev) by (bit_vector);
        }
        i = i + 1;
    }
    assert(pulses@.take(i as int) =~= pulses@);
    acc
}

proof fn lemma_low_bits_step(w: u32, k: u32)
    requires
        k < 31,
    ensures
        (w & !(0xffffffffu32 << k)) | (if (w >> k) & 1u32 == 1u32 {
            1u32 << k
        } else {
            0u32
        }) == w & !((0xffffffffu32 << k) << 1u32),
{
    if (w >> k) & 1u32 == 1u32 {
        assert((w & !(0xffffffffu32 << k)) | (1u32 << k) == w & !((0xffffffffu32 << k) << 1u32))
            by (bit_vector)
            requires
                k < 32,
                (w >> k) & 1u32 == 1u32,
        ;
    } else {
        assert((w & !(0xffffffffu32 << k)) | 0u32 == w & !((0xffffffffu32 << k) << 1u32))
            by (bit_vector)
            requires
                k < 32,
                (w >> k) & 1u32 != 1u32,
        ;
    }
}

proof fn lemma_decoding_prefix(c: rgb::RGB8, k: nat)
    requires
        k <= COLOR_BITS,
    ensures
        decoding(encoding(c).take(k as int)) == composite(c) & !(0xffffffffu32 << (k as u32)),
    decreases k,
{
    let w = composite(c);
    if k == 0 {
        assert(encoding(c).take(0) =~= Seq::<(Pulse, Pulse)>::empty());
        assert(w & !(0xffffffffu32 << 0u32) == 0u32) by (bit_vector);
    } else {
        let j = (k - 1) as nat;
        lemma_decoding_prefix(c, j);
        let t = encoding(c).take(k as int);
        assert(t.drop_last() =~= encoding(c).take(j as int));
        assert(reads_as_one(t.last()) == word_bit(w, j as u32));
        lemma_low_bits_step(w, j as u32);
        let jj = j as u32;
        let kk = k as u32;
        assert((0xffffffffu32 << jj) << 1u32 == 0xffffffffu32 << kk) by (bit_vector)
            requires
                jj < 31u32,
                kk == jj + 1u32,
        ;
    }
}

proof fn lemma_rev8_involution(x: u8)
    ensures
        rev8(rev8(x)) == x,
{
    let y = rev8(x);
    assert(((y & 1u8) << 7u8) | (((y >> 1u8) & 1u8) << 6u8) | (((y >> 2u8) & 1u8) << 5u8) | (((y
        >> 3u8) & 1u8) << 4u8) | (((y >> 4u8) & 1u8) << 3u8) | (((y >> 5u8) & 1u8) << 2u8) | (((y
        >> 6u8) & 1u8) << 1u8) | ((y >> 7u8) & 1u8) == x) by (bit_vector)
        requires
            y == ((x & 1u8) << 7u8) | (((x >> 1u8) & 1u8) << 6u8) | (((x >> 2u8) & 1u8) << 5u8)
                | (((x >> 3u8) & 1u8) << 4u8) | (((x >> 4u8) & 1u8) << 3u8) | (((x >> 5u8) & 1u8)
                << 2u8) | (((x >> 6u8) & 1u8) << 1u8) | ((x >> 7u8) & 1u8),
    ;
}

/// Encoding a color gives 24 pulse pairs, and reading them back (a pair whose
/// high phase is longer is a one) gives its composite word; reversing the
/// bits of the high, middle and low byte of that word gives back blue, red
/// and green.
pub proof fn lemma_encode_decode(c: rgb::RGB8)
    ensures
        encoding(c).len() == COLOR_BITS,
        decoding(encoding(c)) == composite(c),
        rev8(((composite(c) >> 16u32) & 0xffu32) as u8) == c.b,
        rev8(((composite(c) >> 8u32) & 0xffu32) as u8) == c.r,
        rev8((composite(c) & 0xffu32) as u8) == c.g,
{
    let w = composite(c);
    let b = rev8(c.b);
    let r = rev8(c.r);
    let g = rev8(c.g);
    lemma_decoding_prefix(c, COLOR_BITS as nat);
    assert(encoding(c).take(COLOR_BITS as int) =~= encoding(c));
    assert(w & !(0xffffffffu32 << 24u32) == w && ((w >> 16u32) & 0xffu32) as u8 == b && ((w
        >> 8u32) & 0xffu32) as u8 == r && (w & 0xffu32) as u8 == g) by (bit_vector)
        requires
            w == ((b as u32) << 16u32) | ((r as u32) << 8u32) | (g as u32),
    ;
    lemma_rev8_involution(c.b);
    lemma_rev8_involution(c.r);
    lemma_rev8_involution(c.g);
}

/// The sector of the hue wheel that a hue falls in, 0 to 5.
pub open spec fn hue_sector(hue: u8) -> int {
    (hue as int * 6) / 256
}

/// How far a hue has gone into its sector, 0 to 255.
pub open spec fn hue_ramp(hue: u8) -> int {
    (hue as int * 6) % 256
}

/// The red, green and blue channels of a hue.
pub open spec fn hue_channels(hue: u8) -> (int, int, int) {
    let v = hue_ramp(hue);
    let s = hue_sector(hue);
    if s == 0 {
        (255, v, 0)
    } else if s == 1 {
        (255 - v, 255, 0)
    } else if s == 2 {
        (0, 255, v)
    } else if s == 3 {
        (0, 255 - v, 255)
    } else if s == 4 {
        (v, 0, 255)
    } else {
        (255, 0, 255 - v)
    }
}

/// `c` has the channels of `hue`.
pub open spec fn is_hue_color(c: rgb::RGB8, hue: u8) -> bool {
    c.r as int == hue_channels(hue).0 && c.g as int == hue_channels(hue).1 && c.b as int
        == hue_channels(hue).2
}

/// The color of a hue on a wheel of six sectors: within a sector one channel
/// ramps while the other two stay at full and zero.
pub fn hue_to_color(hue: u8) -> (r: rgb::RGB8)
    ensures
        is_hue_color(r, hue),
{
    let scaled: u16 = hue as u16 * 6;
    let value: u8 = (scaled % 256) as u8;
    let sector: u16 = scaled / 256;
    if sector == 0 {
        rgb::RGB8 { r: 255, g: value, b: 0 }
    } else if sector == 1 {
        rgb::RGB8 { r: 255 - value, g: 255, b: 0 }
    } else if sector == 2 {
        rgb::RGB8 { r: 0, g: 255, b: value }
    } else if sector == 3 {
        rgb::RGB8 { r: 0, g: 255 - value, b: 255 }
    } else if sector == 4 {
        rgb::RGB8 { r: value, g: 0, b: 255 }
    } else {
        assert(sector == 5);
        rgb::RGB8 { r: 255, g: 0, b: 255 - value }
    }
}

/// `a` and `b` are at most `d` apart.
pub open spec fn within(a: int, b: int, d: int) -> bool {
    a - b <= d && b - a <= d
}

/// The hue wheel has no jumps: from a hue to the next one (255 wraps to 0)
/// no channel moves by more than 6, the ramp step of one hue, and where the
/// sector changes no channel moves by more than 5.
pub proof fn lemma_hue_continuity(hue: u8)
    ensures
        ({
            let next = ((hue as int + 1) % 256) as u8;
            let a = hue_channels(hue);
            let b = hue_channels(next);
            &&& within(a.0, b.0, 6)
            &&& within(a.1, b.1, 6)
            &&& within(a.2, b.2, 6)
            &&& hue_sector(next) != hue_sector(hue) ==> {
                &&& within(a.0, b.0, 5)
                &&& within(a.1, b.1, 5)
                &&& within(a.2, b.2, 5)
            }
        }),
{
}

/// An LED that can be set to a color; an implementation sends the waveform
/// that `encode` gives for it.
pub trait LedDriver {
    fn set_color(&mut self, color: rgb::RGB8) -> Result<(), NodeError>;
}

/// The phases of the node that the LED shows.
#[derive(Clone, Copy, Debug, PartialEq, Eq, Structural)]
pub enum NodeStatus {
    /// Powered up, joining the network and waiting for the clock.
    Starting,
    /// Sampling and serving charts.
    Running,
}

/// Dim red while starting, dim green while running.
pub open spec fn is_status_color(c: rgb::RGB8, status: NodeStatus) -> bool {
    match status {
        NodeStatus::Starting => c.r == 10 && c.g == 0 && c.b == 0,
        NodeStatus::Running => c.r == 0 && c.g == 10 && c.b == 0,
    }
}

/// The color that shows a status.
pub fn status_color(status: NodeStatus) -> (r: rgb::RGB8)
    ensures
        is_status_color(r, status),
{
    match status {
        NodeStatus::Starting => rgb::RGB8 { r: 10, g: 0, b: 0 },
        NodeStatus::Running => rgb::RGB8 { r: 0, g: 10, b: 0 },
    }
}

} // verus!
