//! Text styles: a font, its size, colours and padding.

use vstd::prelude::*;
use crate::color::Color;

verus! {

/// How many units of length make one pixel. Lengths that need not be whole
/// pixels (padding, the extent of a text, what is drawn) are counted in units.
pub const UNITS_PER_PIXEL: u32 = 1024;

/// The length of `pixels` pixels, in units.
pub fn units_of(pixels: u32) -> (units: u64)
    ensures
        units == pixels * UNITS_PER_PIXEL,
{
    assert(pixels * UNITS_PER_PIXEL <= u64::MAX) by (nonlinear_arith)
        requires
            pixels <= u32::MAX,
            UNITS_PER_PIXEL == 1024,
    ;
    pixels as u64 * UNITS_PER_PIXEL as u64
}

/// Space left around a text, in units.
#[derive(Clone, Copy, Debug, PartialEq, Eq, Structural)]
pub struct Padding {
    pub horizontal: u32,
    pub vertical: u32,
}

/// Why a style could not be made.
#[derive(Clone, Copy, Debug, PartialEq, Eq, Structural)]
pub enum StyleError {
    /// The point size is zero or negative.
    InvalidSize,
}

/// How a text is drawn.
#[derive(Debug, PartialEq, Eq)]
pub struct Style {
    font: String,
    size: i32,
    fg: Color,
    bg: Option<Color>,
    padding: Padding,
}

/// A style as a value.
pub struct StyleModel {
    pub font: Seq<char>,
    pub size: int,
    pub fg: Color,
    pub bg: Option<Color>,
    pub padding: Padding,
}

impl View for Style {
    type V = StyleModel;

    closed spec fn view(&self) -> StyleModel {
        StyleModel {
            font: self.font@,
            size: self.size as int,
            fg: self.fg,
            bg: self.bg,
            padding: self.padding,
        }
    }
}

impl Clone for Style {
    fn clone(&self) -> (copy: Self)
        ensures
            copy@ == self@,
    {
        proof {
            use_type_invariant(self);
        }
        Style {
            font: self.font.clone(),
            size: self.size,
            fg: self.fg,
            bg: self.bg,
            padding: self.padding,
        }
    }
}

impl Style {
    /// The point size is positive.
    #[verifier::type_invariant]
    pub closed spec fn sound(self) -> bool {
        self.size > 0
    }

    /// The style with exactly what is given. It is made whenever `size` is
    /// positive, whatever the font is called: whether there is such a font is
    /// found out when it is registered.
    pub fn new(font: &str, size: i32, fg: Color, bg: Option<Color>, padding: Padding) -> (style:
        Result<Style, StyleError>)
        ensures
            match style {
                Ok(s) => size > 0 && s@ == (StyleModel {
                    font: font@,
                    size: size as int,
                    fg,
                    bg,
                    padding,
                }),
                Err(e) => size <= 0 && e == StyleError::InvalidSize,
            },
    {
        if size <= 0 {
            Err(StyleError::InvalidSize)
        } else {
            Ok(Style { font: String::from_str(font), size, fg, bg, padding })
        }
    }

    /// The name of the font.
    pub fn font(&self) -> (font: &str)
        ensures
            font@ == self@.font,
    {
        self.font.as_str()
    }

    /// The point size, which is positive.
    pub fn size(&self) -> (size: i32)
        ensures
            size == self@.size,
            size > 0,
    {
        proof {
            use_type_invariant(self);
        }
        self.size
    }

    /// The colour of the text.
    pub fn fg(&self) -> (fg: Color)
        ensures
            fg == self@.fg,
    {
        self.fg
    }

    /// The colour behind the text, if the style sets one.
    pub fn bg(&self) -> (bg: Option<Color>)
        ensures
            bg == self@.bg,
    {
        self.bg
    }

    /// The space left around the text.
    pub fn padding(&self) -> (padding: Padding)
        ensures
            padding == self@.padding,
    {
        self.padding
    }
}

} // verus!
