//! The 16-bit packed colour of the panel: five bits of red, six of green,
//! five of blue, red uppermost.

use vstd::prelude::*;

verus! {

/// A colour as the controller stores it. Two colours are equal exactly when
/// their sixteen bits are.
#[derive(Clone, Copy, Debug, PartialEq, Eq, Structural)]
pub struct Rgb565 {
    /// The packed value: `rrrrrggg gggbbbbb`.
    pub raw: u16,
}

/// The packed value of three channels, each cut to its width.
pub open spec fn pack(r: u8, g: u8, b: u8) -> u16 {
    (((r & 0x1f) as u16) << 11) | (((g & 0x3f) as u16) << 5) | ((b & 0x1f) as u16)
}

/// The upper byte of a word.
pub open spec fn high_byte(word: u16) -> u8 {
    (word >> 8) as u8
}

/// The lower byte of a word.
pub open spec fn low_byte(word: u16) -> u8 {
    (word & 0xff) as u8
}

impl Rgb565 {
    /// Packs three channels; bits above a channel's width are dropped.
    pub fn new(r: u8, g: u8, b: u8) -> (c: Rgb565)
        ensures
            c.raw == pack(r, g, b),
    {
        let rs: u16 = ((r & 0x1f) as u16) << 11;
        let gs: u16 = ((g & 0x3f) as u16) << 5;
        let bs: u16 = (b & 0x1f) as u16;
        Rgb565 { raw: rs | gs | bs }
    }

    /// The colour with the given packed value.
    pub fn from_raw(raw: u16) -> (c: Rgb565)
        ensures
            c.raw == raw,
    {
        Rgb565 { raw }
    }

    /// All channels off.
    pub fn black() -> (c: Rgb565)
        ensures
            c.raw == 0,
            c.raw == pack(0, 0, 0),
    {
        assert(pack(0, 0, 0) == 0) by (bit_vector);
        Rgb565 { raw: 0 }
    }

    /// All channels at their maximum.
    pub fn white() -> (c: Rgb565)
        ensures
            c.raw == 0xffff,
            c.raw == pack(31, 63, 31),
    {
        assert(pack(31, 63, 31) == 0xffff) by (bit_vector);
        Rgb565 { raw: 0xffff }
    }

    /// The red channel, `0..=31`.
    pub fn r(&self) -> (v: u8)
        ensures
            v == ((self.raw >> 11) & 0x1f) as u8,
            v <= 31,
    {
        let raw: u16 = self.raw;
        assert(((raw >> 11) & 0x1f) <= 31) by (bit_vector);
        ((raw >> 11) & 0x1f) as u8
    }

    /// The green channel, `0..=63`.
    pub fn g(&self) -> (v: u8)
        ensures
            v == ((self.raw >> 5) & 0x3f) as u8,
            v <= 63,
    {
        let raw: u16 = self.raw;
        assert(((raw >> 5) & 0x3f) <= 63) by (bit_vector);
        ((raw >> 5) & 0x3f) as u8
    }

    /// The blue channel, `0..=31`.
    pub fn b(&self) -> (v: u8)
        ensures
            v == (self.raw & 0x1f) as u8,
            v <= 31,
    {
        let raw: u16 = self.raw;
        assert((raw & 0x1f) <= 31) by (bit_vector);
        (raw & 0x1f) as u8
    }

    /// The two bytes in the order in which they travel: upper byte first.
    pub fn to_be_bytes(&self) -> (bytes: (u8, u8))
        ensures
            bytes.0 == high_byte(self.raw),
            bytes.1 == low_byte(self.raw),
    {
        split_word(self.raw)
    }
}

/// A word as two bytes, upper byte first.
pub fn split_word(word: u16) -> (bytes: (u8, u8))
    ensures
        bytes.0 == high_byte(word),
        bytes.1 == low_byte(word),
        word == bytes.0 * 256 + bytes.1,
{
    assert((word >> 8) <= 0xff) by (bit_vector);
    assert((word & 0xff) <= 0xff) by (bit_vector);
    assert(word == (word >> 8) * 256 + (word & 0xff)) by (bit_vector);
    ((word >> 8) as u8, (word & 0xff) as u8)
}

/// Packing and reading back gives each channel, cut to its width.
pub proof fn lemma_channels_of_pack(r: u8, g: u8, b: u8)
    ensures
        ((pack(r, g, b) >> 11) & 0x1f) as u8 == r & 0x1f,
        ((pack(r, g, b) >> 5) & 0x3f) as u8 == g & 0x3f,
        (pack(r, g, b) & 0x1f) as u8 == b & 0x1f,
{
    assert(((((((r & 0x1f) as u16) << 11) | (((g & 0x3f) as u16) << 5) | ((b & 0x1f) as u16))
        >> 11) & 0x1f) as u8 == r & 0x1f) by (bit_vector);
    assert(((((((r & 0x1f) as u16) << 11) | (((g & 0x3f) as u16) << 5) | ((b & 0x1f) as u16))
        >> 5) & 0x3f) as u8 == g & 0x3f) by (bit_vector);
    assert((((((r & 0x1f) as u16) << 11) | (((g & 0x3f) as u16) << 5) | ((b & 0x1f) as u16))
        & 0x1f) as u8 == b & 0x1f) by (bit_vector);
}

} // verus!
