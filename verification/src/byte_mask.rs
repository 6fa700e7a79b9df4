//! Enumeration of the bytes that a masked byte stands for.

use crate::bits::admits;
use vstd::prelude::*;

verus! {

/// Goes through the bytes that agree with a value on the bits of a mask, in
/// ascending order, each once.
pub struct ByteMaskCombinator {
    value: u8,
    mask: u8,
    /// The least byte not yet looked at; 256 when all have been.
    next: u16,
}

impl ByteMaskCombinator {
    #[verifier::type_invariant]
    spec fn in_range(&self) -> bool {
        self.next <= 256
    }

    /// The value that the bytes agree with.
    pub closed spec fn value(&self) -> u8 {
        self.value
    }

    /// The bits on which the bytes agree with the value.
    pub closed spec fn mask(&self) -> u8 {
        self.mask
    }

    /// The number of bytes, from 0 upwards, that are behind the enumeration.
    pub closed spec fn position(&self) -> nat {
        self.next as nat
    }

    /// Starts an enumeration of the bytes `b` with `b & mask == value`.
    pub fn new(value: u8, mask: u8) -> (it: Self)
        ensures
            it.value() == value,
            it.mask() == mask,
            it.position() == 0,
    {
        ByteMaskCombinator { value, mask, next: 0 }
    }

    /// Hands out the next byte: the least one not yet behind the enumeration
    /// that agrees with the value on the bits of the mask. Returns `None`
    /// when no such byte is left.
    pub fn next(&mut self) -> (r: Option<u8>)
        ensures
            final(self).value() == old(self).value(),
            final(self).mask() == old(self).mask(),
            old(self).position() <= final(self).position() <= 256,
            match r {
                Some(b) => {
                    &&& old(self).position() <= b
                    &&& final(self).position() == b + 1
                    &&& admits(old(self).value(), old(self).mask(), b as int)
                    &&& forall|x: int|
                        old(self).position() <= x < b ==> !admits(
                            old(self).value(),
                            old(self).mask(),
                            x,
                        )
                },
                None => {
                    &&& final(self).position() == 256
                    &&& forall|x: int|
                        old(self).position() <= x < 256 ==> !admits(
                            old(self).value(),
                            old(self).mask(),
                            x,
                        )
                },
            },
    {
        proof {
            use_type_invariant(&*self);
        }
        while self.next < 256
            invariant
                self.value == old(self).value,
                self.mask == old(self).mask,
                old(self).next <= self.next <= 256,
                forall|x: int| old(self).next <= x < self.next ==> !admits(self.value, self.mask, x),
            decreases 256 - self.next,
        {
            let byte: u8 = self.next as u8;
            self.next = self.next + 1;
            if byte & self.mask == self.value {
                return Some(byte);
            }
        }
        None
    }
}

} // verus!
