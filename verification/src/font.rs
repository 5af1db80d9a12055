//! The label's typeface: a monospace bitmap font whose glyphs are twelve
//! pixels wide and sixteen high.

use vstd::prelude::*;
use embedded_graphics::fonts::{Font12x16, MonoFont};

verus! {

/// Width of a glyph cell in pixels.
pub const GLYPH_WIDTH: u32 = 12;

/// Height of a glyph cell in pixels.
pub const GLYPH_HEIGHT: u32 = 16;

/// Whether the glyph of `c` has a stroke at column `x`, row `y` of its cell.
pub uninterp spec fn glyph_bit(c: char, x: u32, y: u32) -> bool;

/// `MonoFont::character_pixel` of embedded-graphics' `Font12x16`: the bit
/// of the font's bitmap for the given character at the given place of its
/// cell. A character without a glyph is shown as a question mark.
#[verifier::external_body]
pub(crate) fn glyph_pixel(c: char, x: u32, y: u32) -> (on: bool)
    requires
        x < 12,
        y < 16,
    ensures
        on == glyph_bit(c, x, y),
{
    Font12x16::character_pixel(c, x, y)
}

} // verus!
