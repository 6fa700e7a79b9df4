//! Values of the syntax tree that the pattern compiler consumes.

use crate::bits::admits;
use vstd::prelude::*;

verus! {

/// A byte of a hex pattern in which some bits may be left open.
///
/// The bits set in `mask` are fixed to the corresponding bits of `value`; the
/// other bits may take any value. The nibble notation `3?` is the masked byte
/// with value `0x30` and mask `0xF0`.
#[derive(Clone, Copy, Debug, PartialEq, Eq, Structural)]
pub struct HexByte {
    pub value: u8,
    pub mask: u8,
}

impl HexByte {
    /// A masked byte is well formed when no open bit is set in its value.
    pub open spec fn well_formed(&self) -> bool {
        self.value & !self.mask == 0
    }

    /// Tells whether `byte` is a byte that agrees with this masked byte on
    /// every fixed bit.
    pub open spec fn admits(&self, byte: int) -> bool {
        admits(self.value, self.mask, byte)
    }

    /// The greatest byte that this masked byte admits: every open bit is 1.
    pub open spec fn greatest(&self) -> u8 {
        self.value | !self.mask
    }

    /// The masked byte with the given value and mask, if no open bit is set
    /// in the value.
    pub fn new(value: u8, mask: u8) -> (r: Option<HexByte>)
        ensures
            r == if value & !mask == 0 {
                Some(HexByte { value, mask })
            } else {
                None
            },
    {
        if value & !mask == 0 {
            Some(HexByte { value, mask })
        } else {
            None
        }
    }

    /// Tells whether no open bit is set in the value.
    pub fn is_well_formed(&self) -> (r: bool)
        ensures
            r == self.well_formed(),
    {
        self.value & !self.mask == 0
    }
}

} // verus!
