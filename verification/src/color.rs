//! Colors with four 8-bit channels, packed into one 32-bit word.

use vstd::prelude::*;

verus! {

/// A color: alpha in bits 24..32 of `data`, red in bits 16..24, green in
/// bits 8..16 and blue in bits 0..8. Two colors are equal exactly when all
/// four channels are.
#[derive(Clone, Copy, Debug, PartialEq, Eq, Structural)]
pub struct Color {
    pub data: u32,
}

/// The word that holds the four channels `r`, `g`, `b`, `a`.
pub open spec fn pack(r: u8, g: u8, b: u8, a: u8) -> u32 {
    ((a as u32) << 24) | ((r as u32) << 16) | ((g as u32) << 8) | (b as u32)
}

/// `orbclient::Color::rgb`, read back through its public field `data`: the
/// three channels in the low 24 bits, below a top byte of `0xFF`.
#[verifier::external_body]
fn packed_rgb(r: u8, g: u8, b: u8) -> (data: u32)
    ensures
        data == 0xFF000000u32 | ((r as u32) << 16) | ((g as u32) << 8) | (b as u32),
{
    orbclient::Color::rgb(r, g, b).data
}

/// `orbclient::Color::rgba`, read back through its public field `data`: the
/// alpha channel in the top byte, above red, green and blue.
#[verifier::external_body]
fn packed_rgba(r: u8, g: u8, b: u8, a: u8) -> (data: u32)
    ensures
        data == ((a as u32) << 24) | ((r as u32) << 16) | ((g as u32) << 8) | (b as u32),
{
    orbclient::Color::rgba(r, g, b, a).data
}

impl Color {
    /// The color with the given channels.
    pub open spec fn spec_rgba(r: u8, g: u8, b: u8, a: u8) -> Color {
        Color { data: pack(r, g, b, a) }
    }

    /// The opaque color with the given channels.
    pub open spec fn spec_rgb(r: u8, g: u8, b: u8) -> Color {
        Color::spec_rgba(r, g, b, 0xFF)
    }

    /// The red channel.
    pub open spec fn red(self) -> u8 {
        ((self.data >> 16) & 0xFF) as u8
    }

    /// The green channel.
    pub open spec fn green(self) -> u8 {
        ((self.data >> 8) & 0xFF) as u8
    }

    /// The blue channel.
    pub open spec fn blue(self) -> u8 {
        (self.data & 0xFF) as u8
    }

    /// The alpha channel: 0 is transparent, 255 opaque.
    pub open spec fn alpha(self) -> u8 {
        ((self.data >> 24) & 0xFF) as u8
    }

    /// An opaque color: alpha is 255.
    pub fn rgb(r: u8, g: u8, b: u8) -> (c: Color)
        ensures
            c == Color::spec_rgb(r, g, b),
    {
        let data: u32 = packed_rgb(r, g, b);
        assert(0xFF000000u32 | ((r as u32) << 16) | ((g as u32) << 8) | (b as u32) == pack(
            r,
            g,
            b,
            0xFF,
        )) by (bit_vector);
        Color { data }
    }

    /// A color with an alpha channel of its own.
    pub fn rgba(r: u8, g: u8, b: u8, a: u8) -> (c: Color)
        ensures
            c == Color::spec_rgba(r, g, b, a),
    {
        Color { data: packed_rgba(r, g, b, a) }
    }
}

/// A color built from four channels has these channels.
pub proof fn lemma_channels(r: u8, g: u8, b: u8, a: u8)
    ensures
        Color::spec_rgba(r, g, b, a).red() == r,
        Color::spec_rgba(r, g, b, a).green() == g,
        Color::spec_rgba(r, g, b, a).blue() == b,
        Color::spec_rgba(r, g, b, a).alpha() == a,
{
    let data: u32 = pack(r, g, b, a);
    assert(((data >> 16) & 0xFF) as u8 == r && ((data >> 8) & 0xFF) as u8 == g && (data & 0xFF) as u8
        == b && ((data >> 24) & 0xFF) as u8 == a) by (bit_vector)
        requires
            data == ((a as u32) << 24) | ((r as u32) << 16) | ((g as u32) << 8) | (b as u32),
    ;
}

/// Two colors are the same color exactly when they agree in all four
/// channels.
pub proof fn lemma_equal_by_channels(c: Color, d: Color)
    ensures
        c == d <==> c.red() == d.red() && c.green() == d.green() && c.blue() == d.blue()
            && c.alpha() == d.alpha(),
{
    let x: u32 = c.data;
    let y: u32 = d.data;
    assert(x == y <==> ((x >> 16) & 0xFF) as u8 == ((y >> 16) & 0xFF) as u8 && ((x >> 8) & 0xFF) as u8
        == ((y >> 8) & 0xFF) as u8 && (x & 0xFF) as u8 == (y & 0xFF) as u8 && ((x >> 24)
        & 0xFF) as u8 == ((y >> 24) & 0xFF) as u8) by (bit_vector);
}

} // verus!
