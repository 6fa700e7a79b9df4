use regex_syntax::hir::{Class, ClassBytes, ClassBytesRange, Dot, Hir, HirKind};
use yara_x::ast::HexByte;
use yara_x::byte_mask::ByteMaskCombinator;
use yara_x::masking::{class_to_hex_byte, hex_byte_to_class};

fn ranges_of(class: &ClassBytes) -> Vec<(u8, u8)> {
    class.ranges().iter().map(|r| (r.start(), r.end())).collect()
}

fn class_of(ranges: &[(u8, u8)]) -> ClassBytes {
    ClassBytes::new(ranges.iter().map(|r| ClassBytesRange::new(r.0, r.1)))
}

#[test]
fn mask() {
    assert_eq!(
        class_to_hex_byte(&hex_byte_to_class(HexByte { value: 0x30, mask: 0xF0 })),
        Some(HexByte { value: 0x30, mask: 0xF0 })
    );

    assert_eq!(
        class_to_hex_byte(&hex_byte_to_class(HexByte { value: 0x05, mask: 0x0F })),
        Some(HexByte { value: 0x05, mask: 0x0F })
    );

    assert_eq!(
        class_to_hex_byte(&hex_byte_to_class(HexByte { value: 0x08, mask: 0xAA })),
        Some(HexByte { value: 0x08, mask: 0xAA })
    );

    assert_eq!(
        class_to_hex_byte(&ClassBytes::new(vec![
            ClassBytesRange::new(3, 4),
            ClassBytesRange::new(8, 8),
        ])),
        None,
    );

    assert_eq!(
        class_to_hex_byte(&ClassBytes::new(vec![
            ClassBytesRange::new(0, 0),
            ClassBytesRange::new(2, 2),
            ClassBytesRange::new(4, 4),
        ])),
        None,
    );

    let hir = Hir::dot(Dot::AnyByte);

    if let HirKind::Class(Class::Bytes(class)) = hir.kind() {
        assert_eq!(class_to_hex_byte(class), Some(HexByte { value: 0x00, mask: 0x00 }));
    } else {
        unreachable!()
    }
}

#[test]
fn every_masked_byte_comes_back_from_its_class() {
    let mut seen = 0;
    for mask in 0..=255u8 {
        for value in 0..=255u8 {
            if value & !mask != 0 {
                continue;
            }
            let b = HexByte { value, mask };
            assert!(b.is_well_formed());
            assert_eq!(class_to_hex_byte(&hex_byte_to_class(b)), Some(b));
            seen += 1;
        }
    }
    assert_eq!(seen, 6561);
}

#[test]
fn the_class_of_a_masked_byte_holds_its_bytes() {
    assert_eq!(
        ranges_of(&hex_byte_to_class(HexByte { value: 0x30, mask: 0xF0 })),
        vec![(0x30, 0x3F)]
    );
    assert_eq!(
        ranges_of(&hex_byte_to_class(HexByte { value: 0x05, mask: 0x0F })),
        (0..16u8).map(|high| (high << 4 | 0x05, high << 4 | 0x05)).collect::<Vec<_>>()
    );
    assert_eq!(
        ranges_of(&hex_byte_to_class(HexByte { value: 0x08, mask: 0xAA })),
        vec![
            (0x08, 0x09),
            (0x0C, 0x0D),
            (0x18, 0x19),
            (0x1C, 0x1D),
            (0x48, 0x49),
            (0x4C, 0x4D),
            (0x58, 0x59),
            (0x5C, 0x5D),
        ]
    );
    assert_eq!(
        ranges_of(&hex_byte_to_class(HexByte { value: 0xAB, mask: 0xFF })),
        vec![(0xAB, 0xAB)]
    );
    assert_eq!(ranges_of(&hex_byte_to_class(HexByte { value: 0, mask: 0 })), vec![(0, 255)]);
    assert_eq!(
        ranges_of(&hex_byte_to_class(HexByte { value: 0x80, mask: 0x81 })),
        (0..64u8).map(|i| (0x80 + 2 * i, 0x80 + 2 * i)).collect::<Vec<_>>()
    );
}

#[test]
fn the_whole_byte_range_is_the_fully_open_byte() {
    assert_eq!(class_to_hex_byte(&class_of(&[(0, 255)])), Some(HexByte { value: 0, mask: 0 }));
}

#[test]
fn an_empty_class_is_no_masked_byte() {
    assert_eq!(class_to_hex_byte(&ClassBytes::empty()), None);
}

#[test]
fn a_single_byte_is_a_masked_byte_without_open_bits() {
    for byte in 0..=255u8 {
        assert_eq!(
            class_to_hex_byte(&class_of(&[(byte, byte)])),
            Some(HexByte { value: byte, mask: 0xFF })
        );
    }
}

#[test]
fn a_class_with_a_wrong_number_of_bytes_is_no_masked_byte() {
    // The least and the greatest byte differ in two bits, which makes four
    // bytes, not three and not five.
    assert_eq!(class_to_hex_byte(&class_of(&[(0x10, 0x11), (0x13, 0x13)])), None);
    assert_eq!(class_to_hex_byte(&class_of(&[(0x10, 0x13)])), Some(HexByte {
        value: 0x10,
        mask: 0xFC
    }));
    assert_eq!(class_to_hex_byte(&class_of(&[(0x00, 0x02)])), None);
    assert_eq!(class_to_hex_byte(&class_of(&[(0x00, 0xFE)])), None);
}

#[test]
fn a_class_whose_least_byte_has_a_bit_that_the_greatest_lacks_is_no_masked_byte() {
    assert_eq!(class_to_hex_byte(&class_of(&[(1, 2)])), None);
    assert_eq!(class_to_hex_byte(&class_of(&[(0x0F, 0x10)])), None);
    assert_eq!(class_to_hex_byte(&class_of(&[(3, 4), (8, 8)])), None);
}

#[test]
fn classification_goes_by_the_extremes_and_the_count() {
    // Four bytes between 0 and 5, which differ in two bits.
    assert_eq!(
        class_to_hex_byte(&class_of(&[(0, 2), (5, 5)])),
        Some(HexByte { value: 0, mask: 0xFA })
    );
}

#[test]
fn the_combinator_yields_the_admitted_bytes_in_order() {
    let collect = |value: u8, mask: u8| {
        let mut combinator = ByteMaskCombinator::new(value, mask);
        let mut bytes = Vec::new();
        while let Some(b) = combinator.next() {
            bytes.push(b);
        }
        assert_eq!(combinator.next(), None);
        bytes
    };
    assert_eq!(collect(0x30, 0xF0), (0x30..=0x3F).collect::<Vec<u8>>());
    assert_eq!(collect(0x08, 0xAA), vec![
        0x08, 0x09, 0x0C, 0x0D, 0x18, 0x19, 0x1C, 0x1D, 0x48, 0x49, 0x4C, 0x4D, 0x58, 0x59, 0x5C,
        0x5D
    ]);
    assert_eq!(collect(0x7F, 0xFF), vec![0x7F]);
    assert_eq!(collect(0, 0), (0..=255).collect::<Vec<u8>>());
    // A value with an open bit set is admitted by no byte.
    assert_eq!(collect(0x01, 0xF0), Vec::<u8>::new());
}

#[test]
fn a_mask_admits_two_to_the_number_of_its_open_bits() {
    for mask in 0..=255u8 {
        let mut combinator = ByteMaskCombinator::new(0, mask);
        let mut count = 0u32;
        while let Some(b) = combinator.next() {
            assert_eq!(b & mask, 0);
            count += 1;
        }
        assert_eq!(count, 1 << (!mask).count_ones());
    }
}

#[test]
fn well_formed_means_no_open_bit_is_set() {
    assert!(HexByte { value: 0x30, mask: 0xF0 }.is_well_formed());
    assert!(HexByte { value: 0x00, mask: 0x00 }.is_well_formed());
    assert!(!HexByte { value: 0x31, mask: 0xF0 }.is_well_formed());
    assert!(!HexByte { value: 0x01, mask: 0x00 }.is_well_formed());
}

#[test]
fn a_masked_byte_is_made_only_without_open_bits_in_the_value() {
    assert_eq!(HexByte::new(0x30, 0xF0), Some(HexByte { value: 0x30, mask: 0xF0 }));
    assert_eq!(HexByte::new(0x00, 0x00), Some(HexByte { value: 0x00, mask: 0x00 }));
    assert_eq!(HexByte::new(0xFF, 0xFF), Some(HexByte { value: 0xFF, mask: 0xFF }));
    assert_eq!(HexByte::new(0x31, 0xF0), None);
    assert_eq!(HexByte::new(0x80, 0x7F), None);
}
