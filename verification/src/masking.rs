//! Conversion between masked bytes and byte classes.
//!
//! A masked byte such as `3?` stands for a set of bytes, here `30` to `3F`.
//! [`hex_byte_to_class`] builds the class of these bytes, and
//! [`class_to_hex_byte`] finds the masked byte that a class stands for.

use crate::ast::HexByte;
use crate::bits::{
    admits, lemma_admitted_count, lemma_count_agrees, lemma_count_bound, lemma_ones_bound,
    popcount,
};
use crate::byte_mask::ByteMaskCombinator;
use crate::class::{
    byte_ranges, canonical, class_bytes_empty, class_bytes_push, class_bytes_ranges, covers,
    lemma_canonical_prefix, lemma_covers_within, lemma_total_len_counts, total_len,
};
use regex_syntax::hir::ClassBytes;
use vstd::arithmetic::power2::{lemma2_to64, lemma_pow2_strictly_increases, pow2};
use vstd::bits::lemma_u32_shl_is_mul;
use vstd::prelude::*;

verus! {

/// The masked byte that `ranges` stand for, if they stand for one.
///
/// The value is the least byte and the mask leaves open the bits in which the
/// least and the greatest byte differ. The ranges are taken for a masked byte
/// if the least byte has no bit set that the greatest lacks, and if they hold
/// as many bytes as the open bits can take values.
pub open spec fn classify(ranges: Seq<(u8, u8)>) -> Option<HexByte> {
    if ranges.len() == 0 {
        None
    } else {
        let smallest = ranges.first().0;
        let largest = ranges.last().1;
        let neg_mask = largest ^ smallest;
        if largest & smallest != smallest {
            None
        } else if pow2(popcount(neg_mask)) != total_len(ranges) {
            None
        } else {
            Some(HexByte { value: smallest, mask: !neg_mask })
        }
    }
}

/// Tells whether `ranges` are the class of the masked byte `b`: its bytes, and
/// no others, in canonical form.
pub open spec fn expands(b: HexByte, ranges: Seq<(u8, u8)>) -> bool {
    &&& canonical(ranges)
    &&& forall|x: int| covers(ranges, x) <==> b.admits(x)
}

/// Returns the masked byte that the class `c` stands for, or `None` if it
/// stands for none.
///
/// This does the opposite of [`hex_byte_to_class`].
pub fn class_to_hex_byte(c: &ClassBytes) -> (r: Option<HexByte>)
    ensures
        r == classify(byte_ranges(*c)),
        r matches Some(b) ==> b.well_formed(),
{
    let ranges = class_bytes_ranges(c);
    if ranges.len() == 0 {
        return None;
    }
    // The ranges ascend, so the least byte starts the first range and the
    // greatest byte ends the last one.
    let smallest_byte: u8 = ranges[0].0;
    let largest_byte: u8 = ranges[ranges.len() - 1].1;

    // In the class of a masked byte the least byte has all open bits at 0
    // and the greatest has them at 1, so the two differ in the open bits.
    let neg_mask: u8 = largest_byte ^ smallest_byte;

    if largest_byte & smallest_byte != smallest_byte {
        return None;
    }
    let mut num_bytes: u32 = 0;
    for i in 0..ranges.len()
        invariant
            canonical(ranges@),
            num_bytes == total_len(ranges@.take(i as int)),
            num_bytes <= 256,
    {
        proof {
            let upto = ranges@.take(i + 1);
            assert(upto.drop_last() =~= ranges@.take(i as int));
            lemma_canonical_prefix(ranges@, i + 1);
            lemma_total_len_counts(upto);
            lemma_count_bound(|b: int| covers(upto, b), 256);
        }
        num_bytes += (ranges[i].1 - ranges[i].0) as u32 + 1;
    }
    proof {
        assert(ranges@.take(ranges.len() as int) =~= ranges@);
        lemma_ones_bound(neg_mask, 8);
        lemma2_to64();
        if popcount(neg_mask) < 8 {
            lemma_pow2_strictly_increases(popcount(neg_mask), 8);
        }
        lemma_u32_shl_is_mul(1, popcount(neg_mask) as u32);
    }
    // A masked byte with N open bits stands for 2^N bytes.
    if 1u32 << neg_mask.count_ones() != num_bytes {
        return None;
    }
    proof {
        lemma_classified(ranges@, HexByte { value: smallest_byte, mask: !neg_mask });
    }
    Some(HexByte { value: smallest_byte, mask: !neg_mask })
}

/// Returns the class of the bytes that the masked byte `b` stands for.
///
/// An open bit of the mask must be 0 in the value. The class is one that
/// [`class_to_hex_byte`] takes for `b` again.
pub fn hex_byte_to_class(b: HexByte) -> (class: ClassBytes)
    requires
        b.well_formed(),
    ensures
        expands(b, byte_ranges(class)),
        classify(byte_ranges(class)) == Some(b),
{
    let mut class = class_bytes_empty();
    let mut combinations = ByteMaskCombinator::new(b.value, b.mask);
    loop
        invariant_except_break
            combinations.value() == b.value,
            combinations.mask() == b.mask,
            combinations.position() <= 256,
            canonical(byte_ranges(class)),
            forall|x: int|
                covers(byte_ranges(class), x) <==> admits(b.value, b.mask, x) && x
                    < combinations.position(),
        ensures
            expands(b, byte_ranges(class)),
        decreases 256 - combinations.position(),
    {
        match combinations.next() {
            Some(byte) => class_bytes_push(&mut class, byte, byte),
            None => break ,
        }
    }
    proof {
        lemma_round_trip(b, byte_ranges(class));
    }
    class
}

/// Expanding a masked byte and classifying the class gives the masked byte
/// back.
pub proof fn lemma_round_trip(b: HexByte, ranges: Seq<(u8, u8)>)
    requires
        b.well_formed(),
        expands(b, ranges),
    ensures
        classify(ranges) == Some(b),
{
    let value = b.value;
    let mask = b.mask;
    let top = b.greatest();
    let smallest = ranges.first().0;
    let largest = ranges.last().1;
    // The value and the byte with all open bits set are admitted, so the
    // ranges hold them.
    assert(value & mask == value && top & mask == value) by (bit_vector)
        requires
            value & !mask == 0,
            top == value | !mask,
    ;
    assert(b.admits(value as int) && b.admits(top as int));
    lemma_covers_within(ranges, value as int);
    lemma_covers_within(ranges, top as int);
    // The ends of the ranges are held, so they are admitted, and no admitted
    // byte lies below the value or above the byte with all open bits set.
    assert(covers(ranges, smallest as int)) by {
        assert(ranges[0].0 <= smallest <= ranges[0].1);
    }
    assert(covers(ranges, largest as int)) by {
        let last = ranges.len() - 1;
        assert(ranges[last].0 <= largest <= ranges[last].1);
    }
    assert(value <= smallest && largest <= top) by (bit_vector)
        requires
            smallest & mask == value,
            largest & mask == value,
            top == value | !mask,
    ;
    // The ranges hold as many bytes as are admitted.
    lemma_total_len_counts(ranges);
    lemma_count_agrees(|x: int| covers(ranges, x), |x: int| admits(value, mask, x), 256);
    lemma_admitted_count(value, mask);
    lemma_classified(ranges, b);
}

/// When ranges are taken for a masked byte, and for which: the masked byte is
/// well formed, its least and its greatest byte are those of the ranges, and
/// it admits as many bytes as the ranges hold. Ranges for which no masked
/// byte does all this are taken for none.
pub proof fn lemma_classified(ranges: Seq<(u8, u8)>, b: HexByte)
    ensures
        classify(ranges) == Some(b) <==> {
            &&& ranges.len() > 0
            &&& b.well_formed()
            &&& ranges.first().0 == b.value
            &&& ranges.last().1 == b.greatest()
            &&& total_len(ranges) == pow2(popcount(!b.mask))
        },
{
    if ranges.len() > 0 {
        let smallest = ranges.first().0;
        let largest = ranges.last().1;
        let value = b.value;
        let mask = b.mask;
        assert((largest & smallest == smallest && value == smallest && mask == !(largest
            ^ smallest)) <==> (value & !mask == 0 && smallest == value && largest == value
            | !mask)) by (bit_vector);
        assert(mask == !(largest ^ smallest) ==> !mask == largest ^ smallest) by (bit_vector);
    }
}

/// The range of all bytes is taken for the masked byte with every bit open.
pub proof fn lemma_wildcard()
    ensures
        classify(seq![(0u8, 255u8)]) == Some(HexByte { value: 0, mask: 0 }),
{
    let all = seq![(0u8, 255u8)];
    let open = HexByte { value: 0, mask: 0 };
    assert(0u8 & !0u8 == 0) by (bit_vector);
    assert forall|x: int| covers(all, x) <==> open.admits(x) by {
        if 0 <= x < 256 {
            let byte = x as u8;
            assert(byte & 0 == 0) by (bit_vector);
            assert(all[0].0 <= x <= all[0].1);
        }
    }
    lemma_round_trip(open, all);
}

/// Ranges that do not hold a power of two many bytes stand for no masked
/// byte.
pub proof fn lemma_rejected(ranges: Seq<(u8, u8)>)
    requires
        forall|n: nat| total_len(ranges) != #[trigger] pow2(n),
    ensures
        classify(ranges) is None,
{
}

} // verus!
