//! Two-dimensional image data: colors, pixel and image formats, and the
//! concrete image container.  These are plain example kinds; rasterization
//! and windowing live outside the library.

use vstd::prelude::*;

use crate::codec::{hex_digit, hex_digit_char, push_char};

verus! {

/// The hexadecimal rendering of a number, most significant digit first,
/// without leading zeroes.
pub open spec fn spec_hex(v: nat) -> Seq<char>
    decreases v,
{
    if v < 16 {
        seq![hex_digit(v as int)]
    } else {
        spec_hex(v / 16).push(hex_digit((v % 16) as int))
    }
}

/// Appends the hexadecimal rendering of one byte.
fn append_hex_byte(s: &mut String, v: u8)
    ensures
        final(s)@ == old(s)@ + spec_hex(v as nat),
{
    if v < 16 {
        push_char(s, hex_digit_char(v));
        proof {
            assert(s@ =~= old(s)@ + spec_hex(v as nat));
        }
    } else {
        push_char(s, hex_digit_char(v / 16));
        push_char(s, hex_digit_char(v % 16));
        proof {
            let n = v as nat;
            assert(n / 16 < 16);
            assert(spec_hex(n / 16) =~= seq![hex_digit((n / 16) as int)]);
            assert(spec_hex(n) == spec_hex(n / 16).push(hex_digit((n % 16) as int)));
            assert((v / 16) as int == (n / 16) as int);
            assert((v % 16) as int == (n % 16) as int);
            assert(s@ =~= old(s)@ + spec_hex(n));
        }
    }
}

/// A conversion to a hex color string.
pub trait ToHexColor {
    /// The string the conversion promises.
    spec fn spec_hex_color(&self) -> Seq<char>;

    /// Performs the conversion.
    fn to_hex_color(&self) -> (s: String)
        ensures
            s@ == self.spec_hex_color(),
    ;
}

/// Indicates that a type is a pixel format for image data.
pub trait PixelFormat {

}

/// A standard 24-bit-depth RGB color with an 8-bit alpha channel.
#[derive(Clone, Copy, Debug, PartialEq, Eq, Structural)]
pub struct Color {
    /// Red channel data.
    pub r: u8,
    /// Green channel data.
    pub g: u8,
    /// Blue channel data.
    pub b: u8,
    /// Alpha channel data.
    pub a: u8,
}

impl Color {
    /// Sets the alpha channel byte.
    pub fn with_alpha(self, alpha: u8) -> (c: Color)
        ensures
            c == (Color { a: alpha, ..self }),
    {
        Color { a: alpha, ..self }
    }

    /// A fully opaque black color.
    pub fn black() -> (c: Color)
        ensures
            c == (Color { r: 0, g: 0, b: 0, a: 255 }),
    {
        Color { r: 0, g: 0, b: 0, a: 255 }
    }

    /// A fully opaque white color.
    pub fn white() -> (c: Color)
        ensures
            c == (Color { r: 255, g: 255, b: 255, a: 255 }),
    {
        Color { r: 255, g: 255, b: 255, a: 255 }
    }
}

impl Default for Color {
    /// The default color is fully transparent black.
    fn default() -> (c: Color)
        ensures
            c == (Color { r: 0, g: 0, b: 0, a: 0 }),
    {
        Color { r: 0, g: 0, b: 0, a: 0 }
    }
}

impl ToHexColor for Color {
    /// A hash sign followed by the four channel bytes in hex, in r, g, b,
    /// a order.
    open spec fn spec_hex_color(&self) -> Seq<char> {
        "#"@ + spec_hex(self.r as nat) + spec_hex(self.g as nat) + spec_hex(self.b as nat)
            + spec_hex(self.a as nat)
    }

    fn to_hex_color(&self) -> (s: String)
        ensures
            s@ == self.spec_hex_color(),
    {
        let mut s = String::from_str("#");
        append_hex_byte(&mut s, self.r);
        append_hex_byte(&mut s, self.g);
        append_hex_byte(&mut s, self.b);
        append_hex_byte(&mut s, self.a);
        s
    }
}

impl PixelFormat for Color {

}

/// Indicates that a type is an organizational format for image data.
pub trait ImageFormat {

}

/// A typical two-dimensional grid image format with square pixels.
#[derive(Clone, Copy, Debug, PartialEq, Eq, Structural)]
pub struct Texture2D {
    /// Width of the image in pixels.
    pub width: u32,
    /// Height of the image in pixels.
    pub height: u32,
}

impl ImageFormat for Texture2D {

}

/// A concrete image composed of format data and a flat vector of pixels.
#[derive(Clone, Debug)]
pub struct Image<T: PixelFormat, U: ImageFormat> {
    /// Pixel data.
    pub pixels: Vec<T>,
    /// Format of this image.
    pub format: U,
}

} // verus!
