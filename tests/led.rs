use rgb::RGB8;
use sensor_node::led::{
    composite_value, decode, encode, hue_to_color, reverse_byte, status_color, NodeStatus,
    PinLevel, Pulse, COLOR_BITS, LONG_NS, SHORT_NS,
};

fn one() -> (Pulse, Pulse) {
    (
        Pulse { level: PinLevel::High, duration_ns: LONG_NS },
        Pulse { level: PinLevel::Low, duration_ns: SHORT_NS },
    )
}

fn zero() -> (Pulse, Pulse) {
    (
        Pulse { level: PinLevel::High, duration_ns: SHORT_NS },
        Pulse { level: PinLevel::Low, duration_ns: LONG_NS },
    )
}

#[test]
fn reverse_byte_values() {
    assert_eq!(reverse_byte(0b0000_0001), 0b1000_0000);
    assert_eq!(reverse_byte(0xF0), 0x0F);
    assert_eq!(reverse_byte(0b1010_0000), 0b0000_0101);
    assert_eq!(reverse_byte(0), 0);
    assert_eq!(reverse_byte(0xFF), 0xFF);
    for x in 0..=255u8 {
        assert_eq!(reverse_byte(x), x.reverse_bits());
    }
}

#[test]
fn composite_puts_reversed_blue_red_green() {
    let c = RGB8 { r: 1, g: 2, b: 3 };
    assert_eq!(composite_value(c), (192 << 16) | (128 << 8) | 64);
    assert_eq!(composite_value(RGB8 { r: 10, g: 0, b: 0 }), 80 << 8);
}

#[test]
fn encode_gives_24_pulse_pairs_with_nominal_timing() {
    let w = encode(RGB8 { r: 10, g: 0, b: 0 });
    assert_eq!(w.len(), COLOR_BITS);
    assert_eq!(w.len(), 24);
    for (i, p) in w.iter().enumerate() {
        if i == 12 || i == 14 {
            assert_eq!(*p, one());
        } else {
            assert_eq!(*p, zero());
        }
    }
    assert_eq!(SHORT_NS, 350);
    assert_eq!(LONG_NS, 1000);
}

#[test]
fn decode_of_encode_is_composite_for_all_colors_sampled() {
    for r in (0..=255u8).step_by(17) {
        for g in (0..=255u8).step_by(51) {
            for b in [0u8, 1, 128, 200, 255] {
                let c = RGB8 { r, g, b };
                let w = encode(c);
                assert_eq!(w.len(), 24);
                let v = decode(&w);
                assert_eq!(v, composite_value(c));
                assert_eq!(((v >> 16) as u8).reverse_bits(), b);
                assert_eq!(((v >> 8) as u8).reverse_bits(), r);
                assert_eq!((v as u8).reverse_bits(), g);
            }
        }
    }
}

#[test]
fn decode_reads_longer_high_phase_as_one() {
    assert_eq!(decode(&vec![]), 0);
    assert_eq!(decode(&vec![one(), zero(), one()]), 0b101);
}

#[test]
fn hue_sectors_exact() {
    assert_eq!(hue_to_color(0), RGB8 { r: 255, g: 0, b: 0 });
    assert_eq!(hue_to_color(42), RGB8 { r: 255, g: 252, b: 0 });
    assert_eq!(hue_to_color(43), RGB8 { r: 253, g: 255, b: 0 });
    assert_eq!(hue_to_color(85), RGB8 { r: 1, g: 255, b: 0 });
    assert_eq!(hue_to_color(86), RGB8 { r: 0, g: 255, b: 4 });
    assert_eq!(hue_to_color(127), RGB8 { r: 0, g: 255, b: 250 });
    assert_eq!(hue_to_color(128), RGB8 { r: 0, g: 255, b: 255 });
    assert_eq!(hue_to_color(171), RGB8 { r: 2, g: 0, b: 255 });
    assert_eq!(hue_to_color(214), RGB8 { r: 255, g: 0, b: 251 });
    assert_eq!(hue_to_color(255), RGB8 { r: 255, g: 0, b: 5 });
}

#[test]
fn hue_wheel_has_no_jumps() {
    fn close(a: u8, b: u8, d: i32) -> bool {
        (a as i32 - b as i32).abs() <= d
    }
    for h in 0..=255u8 {
        let next = h.wrapping_add(1);
        let a = hue_to_color(h);
        let b = hue_to_color(next);
        assert!(close(a.r, b.r, 6) && close(a.g, b.g, 6) && close(a.b, b.b, 6));
        if (h as u16 * 6) / 256 != (next as u16 * 6) / 256 {
            assert!(close(a.r, b.r, 5) && close(a.g, b.g, 5) && close(a.b, b.b, 5));
        }
    }
}

#[test]
fn status_colors() {
    assert_eq!(status_color(NodeStatus::Starting), RGB8 { r: 10, g: 0, b: 0 });
    assert_eq!(status_color(NodeStatus::Running), RGB8 { r: 0, g: 10, b: 0 });
}
