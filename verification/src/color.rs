//! Colours as four 8-bit channels, packed as `0xRRGGBBAA`.

use vstd::prelude::*;

verus! {

/// An RGBA colour with 8 bits per channel.
///
/// A channel value `c` stands for the intensity `c / 255`, so every channel
/// lies between 0 (none) and 1 (full) and no precision of the packed form is lost.
#[derive(Clone, Copy, Debug, PartialEq, Eq, Structural)]
pub struct Color {
    pub r: u8,
    pub g: u8,
    pub b: u8,
    pub a: u8,
}

/// The channel value that stands for full intensity.
pub const CHANNEL_MAX: u8 = 255;

/// The packed form `0xRRGGBBAA` of four channel values.
pub open spec fn pack(r: u8, g: u8, b: u8, a: u8) -> int {
    r as int * 0x100_0000 + g as int * 0x1_0000 + b as int * 0x100 + a as int
}

/// The byte of `packed` that starts at bit `8 * place`, counted from the low end.
pub open spec fn byte_at(packed: u32, place: nat) -> int {
    if place == 0 {
        packed as int % 0x100
    } else if place == 1 {
        (packed as int / 0x100) % 0x100
    } else if place == 2 {
        (packed as int / 0x1_0000) % 0x100
    } else {
        (packed as int / 0x100_0000) % 0x100
    }
}

impl Color {
    /// The colour that `packed` encodes: red in the highest byte, alpha in the lowest.
    pub open spec fn unpacked(packed: u32) -> Color {
        Color {
            r: byte_at(packed, 3) as u8,
            g: byte_at(packed, 2) as u8,
            b: byte_at(packed, 1) as u8,
            a: byte_at(packed, 0) as u8,
        }
    }

    /// The packed form of this colour.
    pub open spec fn packed(self) -> int {
        pack(self.r, self.g, self.b, self.a)
    }

    /// Decodes `0xRRGGBBAA`. Every 32-bit value is a colour.
    pub fn from_packed(packed: u32) -> (c: Color)
        ensures
            c == Color::unpacked(packed),
            c.packed() == packed,
    {
        let r: u32 = packed >> 24;
        let g: u32 = (packed >> 16) & 0xff;
        let b: u32 = (packed >> 8) & 0xff;
        let a: u32 = packed & 0xff;
        assert(r == (packed as int / 0x100_0000) % 0x100 && r < 0x100) by (bit_vector)
            requires
                r == packed >> 24,
        ;
        assert(g == (packed as int / 0x1_0000) % 0x100 && g < 0x100) by (bit_vector)
            requires
                g == (packed >> 16) & 0xff,
        ;
        assert(b == (packed as int / 0x100) % 0x100 && b < 0x100) by (bit_vector)
            requires
                b == (packed >> 8) & 0xff,
        ;
        assert(a == packed as int % 0x100 && a < 0x100) by (bit_vector)
            requires
                a == packed & 0xff,
        ;
        proof {
            lemma_unpack_then_pack(packed);
        }
        Color { r: r as u8, g: g as u8, b: b as u8, a: a as u8 }
    }

    /// Encodes the colour as `0xRRGGBBAA`.
    pub fn to_packed(&self) -> (packed: u32)
        ensures
            packed == self.packed(),
            Color::unpacked(packed) == *self,
    {
        let r: u32 = self.r as u32;
        let g: u32 = self.g as u32;
        let b: u32 = self.b as u32;
        let a: u32 = self.a as u32;
        proof {
            lemma_pack_then_unpack(*self);
        }
        r * 0x100_0000 + g * 0x1_0000 + b * 0x100 + a
    }

    /// Whether the colour hides what lies beneath it entirely.
    pub fn is_opaque(&self) -> (opaque: bool)
        ensures
            opaque == (self.a == CHANNEL_MAX),
    {
        self.a == CHANNEL_MAX
    }
}

/// Decoding a packed value and encoding the result gives the value back, bit for bit.
pub proof fn lemma_unpack_then_pack(packed: u32)
    ensures
        Color::unpacked(packed).packed() == packed,
{
    let p = packed as int;
    assert(p == (p / 0x100) * 0x100 + p % 0x100);
    assert(p / 0x100 == (p / 0x1_0000) * 0x100 + (p / 0x100) % 0x100);
    assert(p / 0x1_0000 == (p / 0x100_0000) * 0x100 + (p / 0x1_0000) % 0x100);
    assert(p / 0x100_0000 < 0x100);
}

/// Encoding a colour and decoding the result gives the colour back.
pub proof fn lemma_pack_then_unpack(c: Color)
    ensures
        0 <= c.packed() <= u32::MAX,
        Color::unpacked(c.packed() as u32) == c,
{
    let p = c.packed();
    assert(p % 0x100 == c.a as int);
    assert((p / 0x100) % 0x100 == c.b as int);
    assert((p / 0x1_0000) % 0x100 == c.g as int);
    assert((p / 0x100_0000) % 0x100 == c.r as int);
}

} // verus!
