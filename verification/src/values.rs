//! Concrete style values: lengths and colors.

use vstd::prelude::*;

verus! {

/// The unit of a length.
#[derive(Clone, Copy, Debug, PartialEq, Eq, Hash, Structural)]
pub enum Unit {
    Px,
    Rem,
    Em,
    Cm,
    Vw,
    Vh,
}

/// A whole number of some unit.
#[derive(Clone, Copy, Debug, PartialEq, Eq, Hash, Structural)]
pub struct Length {
    pub value: u32,
    pub unit: Unit,
}

/// A concrete color.
#[derive(Clone, Copy, Debug, PartialEq, Eq, Hash, Structural)]
pub enum ColorValue {
    /// Red, green and blue packed into the low 24 bits.
    Hex(u32),
    /// Hue in degrees, saturation and lightness in percent.
    Hsl { hue: u16, saturation: u8, lightness: u8 },
    /// Red, green and blue.
    Rgb { red: u8, green: u8, blue: u8 },
}

/// `value` pixels.
pub fn px(value: u32) -> (r: Length)
    ensures
        r == (Length { value, unit: Unit::Px }),
{
    Length { value, unit: Unit::Px }
}

/// `value` times the root font size.
pub fn rem(value: u32) -> (r: Length)
    ensures
        r == (Length { value, unit: Unit::Rem }),
{
    Length { value, unit: Unit::Rem }
}

/// `value` times the current font size.
pub fn em(value: u32) -> (r: Length)
    ensures
        r == (Length { value, unit: Unit::Em }),
{
    Length { value, unit: Unit::Em }
}

/// The color with the given hue, saturation and lightness.
pub fn hsl(hue: u16, saturation: u8, lightness: u8) -> (r: ColorValue)
    ensures
        r == (ColorValue::Hsl { hue, saturation, lightness }),
{
    ColorValue::Hsl { hue, saturation, lightness }
}

/// The color with the given red, green and blue parts.
pub fn rgb(red: u8, green: u8, blue: u8) -> (r: ColorValue)
    ensures
        r == (ColorValue::Rgb { red, green, blue }),
{
    ColorValue::Rgb { red, green, blue }
}

} // verus!
