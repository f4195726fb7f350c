use wmkit::color::{Color, CHANNEL_MAX};

#[test]
fn white_is_full_and_opaque() {
    let c = Color::from_packed(0xffffffff);
    assert_eq!(c, Color { r: 255, g: 255, b: 255, a: 255 });
    assert!(c.is_opaque());
    assert_eq!(c.r, CHANNEL_MAX);
}

#[test]
fn zero_is_transparent_black() {
    let c = Color::from_packed(0x00000000);
    assert_eq!(c, Color { r: 0, g: 0, b: 0, a: 0 });
    assert!(!c.is_opaque());
}

#[test]
fn channels_come_in_the_order_red_green_blue_alpha() {
    let c = Color::from_packed(0x12345678);
    assert_eq!(c.r, 0x12);
    assert_eq!(c.g, 0x34);
    assert_eq!(c.b, 0x56);
    assert_eq!(c.a, 0x78);
}

#[test]
fn packing_puts_red_highest() {
    let c = Color { r: 0xcc, g: 0x24, b: 0x1d, a: 0xff };
    assert_eq!(c.to_packed(), 0xcc241dff);
    assert_eq!(Color { r: 1, g: 0, b: 0, a: 0 }.to_packed(), 0x01000000);
    assert_eq!(Color { r: 0, g: 0, b: 0, a: 1 }.to_packed(), 1);
}

#[test]
fn decoding_then_encoding_keeps_every_bit() {
    let samples: [u32; 10] = [
        0x282828ff, 0x3c3836ff, 0xebdbb2ff, 0xb16286ff, 0x458588ff, 0xcc241dff, 0, 0xffffffff,
        0x01020304, 0x80000001,
    ];
    for packed in samples {
        assert_eq!(Color::from_packed(packed).to_packed(), packed);
    }
}

#[test]
fn encoding_then_decoding_keeps_every_channel() {
    for r in [0u8, 1, 127, 128, 254, 255] {
        for a in [0u8, 17, 255] {
            let c = Color { r, g: 200, b: 3, a };
            assert_eq!(Color::from_packed(c.to_packed()), c);
        }
    }
}

#[test]
fn every_channel_is_a_fraction_of_the_full_value() {
    let c = Color::from_packed(0xebdbb2ff);
    for channel in [c.r, c.g, c.b, c.a] {
        let intensity = channel as f64 / CHANNEL_MAX as f64;
        assert!((0.0..=1.0).contains(&intensity));
        assert_eq!((intensity * 255.0).round() as u8, channel);
    }
}
