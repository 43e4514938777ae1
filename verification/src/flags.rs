use vstd::prelude::*;

verus! {

/// Bit set of per-cell attributes.
///
/// Four of the bits describe how a cell takes part in the layout of a row
/// (`WRAPLINE`, `WIDE_CHAR`, `WIDE_CHAR_SPACER`, `LEADING_WIDE_CHAR_SPACER`);
/// the others describe how its content is drawn.
#[derive(Clone, Copy, Debug, PartialEq, Eq, Structural)]
pub struct Flags {
    pub bits: u16,
}

impl Flags {
    pub const INVERSE: u16 = 0x0001;
    pub const BOLD: u16 = 0x0002;
    pub const ITALIC: u16 = 0x0004;
    pub const UNDERLINE: u16 = 0x0008;
    /// The row that holds this cell continues on the next row.
    pub const WRAPLINE: u16 = 0x0010;
    /// The cell holds a character that is two columns wide.
    pub const WIDE_CHAR: u16 = 0x0020;
    /// The cell is the right half of a wide character.
    pub const WIDE_CHAR_SPACER: u16 = 0x0040;
    pub const DIM: u16 = 0x0080;
    pub const HIDDEN: u16 = 0x0100;
    pub const STRIKEOUT: u16 = 0x0200;
    /// The cell stays empty because the wide character that would have
    /// started here did not fit and moved to the next row.
    pub const LEADING_WIDE_CHAR_SPACER: u16 = 0x0400;
    pub const DOUBLE_UNDERLINE: u16 = 0x0800;
    /// All bits that describe layout rather than appearance.
    pub const LAYOUT_MASK: u16 = 0x0470;
    /// All bits that describe appearance.
    pub const STYLE_MASK: u16 = 0xFB8F;

    /// Every bit of `mask` is set.
    pub open spec fn has(self, mask: u16) -> bool {
        self.bits & mask == mask
    }

    /// No layout bit is set.
    pub open spec fn is_style_only(self) -> bool {
        self.bits & Flags::LAYOUT_MASK == 0
    }

    /// The appearance bits of these flags.
    pub open spec fn style_part(self) -> Flags {
        Flags { bits: self.bits & Flags::STYLE_MASK }
    }

    pub open spec fn with(self, mask: u16) -> Flags {
        Flags { bits: self.bits | mask }
    }

    pub fn empty() -> (f: Flags)
        ensures
            f.bits == 0,
    {
        Flags { bits: 0 }
    }

    pub fn from_bits(bits: u16) -> (f: Flags)
        ensures
            f.bits == bits,
    {
        Flags { bits }
    }

    pub fn contains(&self, mask: u16) -> (r: bool)
        ensures
            r == self.has(mask),
    {
        self.bits & mask == mask
    }

    pub fn intersects(&self, mask: u16) -> (r: bool)
        ensures
            r == (self.bits & mask != 0),
    {
        self.bits & mask != 0
    }

    pub fn insert(&mut self, mask: u16)
        ensures
            final(self).bits == old(self).bits | mask,
    {
        self.bits = self.bits | mask;
    }

    pub fn remove(&mut self, mask: u16)
        ensures
            final(self).bits == old(self).bits & !mask,
    {
        self.bits = self.bits & !mask;
    }

    /// The appearance bits of these flags.
    pub fn style_flags(&self) -> (f: Flags)
        ensures
            f == self.style_part(),
    {
        Flags { bits: self.bits & Flags::STYLE_MASK }
    }
}

/// What the layout of a row relies on from the bit values.
pub proof fn lemma_flag_bits(s: u16, x: u16)
    ensures
        (s & 0xFB8F) & 0x0470 == 0,
        s & 0x0470 == 0 ==> {
            &&& (s | 0x0020) & 0x0020 == 0x0020
            &&& (s | 0x0020) & 0x0040 != 0x0040
            &&& (s | 0x0020) & 0x0400 != 0x0400
            &&& (s | 0x0020) & 0xFB8F == s
            &&& (s | 0x0040) & 0x0040 == 0x0040
            &&& (s | 0x0040) & 0x0020 != 0x0020
            &&& (s | 0x0040) & 0xFB8F == s
            &&& (s | 0x0040) & 0x0010 != 0x0010
            &&& (s | 0x0040) & 0x0400 != 0x0400
            &&& (s | 0x0020) & 0x0010 != 0x0010
            &&& s & 0x0020 != 0x0020
            &&& s & 0x0040 != 0x0040
            &&& s & 0x0400 != 0x0400
            &&& s & 0x0010 != 0x0010
            &&& s & 0xFB8F == s
            &&& (s | 0x0010) & 0x0020 != 0x0020
            &&& (s | 0x0010) & 0x0040 != 0x0040
            &&& (s | 0x0010) & 0x0400 != 0x0400
            &&& (s | 0x0010) & 0xFB8F == s
        },
        (x | 0x0010) & 0x0010 == 0x0010,
        ((x | 0x0010) & 0x0020 == 0x0020) == (x & 0x0020 == 0x0020),
        ((x | 0x0010) & 0x0040 == 0x0040) == (x & 0x0040 == 0x0040),
        ((x | 0x0010) & 0x0400 == 0x0400) == (x & 0x0400 == 0x0400),
        (x | 0x0010) & 0xFB8F == x & 0xFB8F,
        (0u16 | 0x0400) & 0x0400 == 0x0400,
        (0u16 | 0x0400) & 0x0020 != 0x0020,
        0u16 & 0x0020 != 0x0020,
        0x0400u16 & 0x0020 != 0x0020,
        0u16 & 0x0470 == 0,
        0x0400u16 & 0x0400 == 0x0400,
        0u16 & 0x0040 != 0x0040,
        0u16 & 0x0400 != 0x0400,
        0u16 & 0x0010 != 0x0010,
{
    assert((s & 0xFB8F) & 0x0470 == 0) by (bit_vector);
    assert(s & 0x0470 == 0 ==> {
        &&& (s | 0x0020) & 0x0020 == 0x0020
        &&& (s | 0x0020) & 0x0040 != 0x0040
        &&& (s | 0x0020) & 0x0400 != 0x0400
        &&& (s | 0x0020) & 0xFB8F == s
        &&& (s | 0x0040) & 0x0040 == 0x0040
        &&& (s | 0x0040) & 0x0020 != 0x0020
        &&& (s | 0x0040) & 0xFB8F == s
        &&& (s | 0x0040) & 0x0010 != 0x0010
        &&& (s | 0x0040) & 0x0400 != 0x0400
        &&& (s | 0x0020) & 0x0010 != 0x0010
        &&& s & 0x0020 != 0x0020
        &&& s & 0x0040 != 0x0040
        &&& s & 0x0400 != 0x0400
        &&& s & 0x0010 != 0x0010
        &&& s & 0xFB8F == s
        &&& (s | 0x0010) & 0x0020 != 0x0020
        &&& (s | 0x0010) & 0x0040 != 0x0040
        &&& (s | 0x0010) & 0x0400 != 0x0400
        &&& (s | 0x0010) & 0xFB8F == s
    }) by (bit_vector);
    assert((x | 0x0010) & 0x0010 == 0x0010) by (bit_vector);
    assert(((x | 0x0010) & 0x0020 == 0x0020) == (x & 0x0020 == 0x0020)) by (bit_vector);
    assert(((x | 0x0010) & 0x0040 == 0x0040) == (x & 0x0040 == 0x0040)) by (bit_vector);
    assert(((x | 0x0010) & 0x0400 == 0x0400) == (x & 0x0400 == 0x0400)) by (bit_vector);
    assert((x | 0x0010) & 0xFB8F == x & 0xFB8F) by (bit_vector);
    assert((0u16 | 0x0400) & 0x0400 == 0x0400) by (bit_vector);
    assert((0u16 | 0x0400) & 0x0020 != 0x0020) by (bit_vector);
    assert(0u16 & 0x0020 != 0x0020) by (bit_vector);
    assert(0x0400u16 & 0x0020 != 0x0020) by (bit_vector);
    assert(0u16 & 0x0470 == 0) by (bit_vector);
    assert(0x0400u16 & 0x0400 == 0x0400) by (bit_vector);
    assert(0u16 & 0x0040 != 0x0040) by (bit_vector);
    assert(0u16 & 0x0400 != 0x0400) by (bit_vector);
    assert(0u16 & 0x0010 != 0x0010) by (bit_vector);
}

} // verus!
