//! Byte and character classes.
//!
//! A class is a set of bytes (or of characters) kept as a sorted sequence of
//! inclusive ranges. The containers are those of `regex_syntax`; this module
//! names what they hold and states what their operations do to it.

use crate::bits::{count_below, lemma_count_agrees, lemma_count_all, lemma_count_none};
use regex_syntax::hir::{ClassBytes, ClassBytesRange, ClassUnicode};
use vstd::prelude::*;

verus! {

/// `regex_syntax::hir::ClassBytes`, a set of bytes held as ranges.
#[verifier::external_type_specification]
#[verifier::external_body]
pub struct ExClassBytes(regex_syntax::hir::ClassBytes);

/// `regex_syntax::hir::ClassUnicode`, a set of characters held as ranges.
#[verifier::external_type_specification]
#[verifier::external_body]
pub struct ExClassUnicode(regex_syntax::hir::ClassUnicode);

/// The ranges of a byte class, in the order in which the class holds them.
/// Each range is a pair of its first and its last byte.
pub uninterp spec fn byte_ranges(class: ClassBytes) -> Seq<(u8, u8)>;

/// The ranges of a character class, in the order in which the class holds
/// them. Each range is a pair of its first and its last character.
pub uninterp spec fn char_ranges(class: ClassUnicode) -> Seq<(char, char)>;

/// Tells whether `byte` lies in one of `ranges`.
pub open spec fn covers(ranges: Seq<(u8, u8)>, byte: int) -> bool {
    exists|i: int| 0 <= i < ranges.len() && (#[trigger] ranges[i]).0 <= byte <= ranges[i].1
}

/// The canonical form of a sequence of ranges: no range is empty, the ranges
/// ascend, and between two neighbours at least one byte is left out.
pub open spec fn canonical(ranges: Seq<(u8, u8)>) -> bool {
    &&& forall|i: int| 0 <= i < ranges.len() ==> (#[trigger] ranges[i]).0 <= ranges[i].1
    &&& forall|i: int, j: int|
        0 <= i < j < ranges.len() ==> (#[trigger] ranges[i]).1 + 1 < (#[trigger] ranges[j]).0
}

/// The number of bytes that `ranges` hold, each range counted by its length.
pub open spec fn total_len(ranges: Seq<(u8, u8)>) -> int
    decreases ranges.len(),
{
    if ranges.len() == 0 {
        0
    } else {
        total_len(ranges.drop_last()) + (ranges.last().1 - ranges.last().0 + 1)
    }
}

/// `ClassBytes::empty`: the class without any range.
#[verifier::external_body]
pub(crate) fn class_bytes_empty() -> (class: ClassBytes)
    ensures
        byte_ranges(class) == Seq::<(u8, u8)>::empty(),
{
    ClassBytes::empty()
}

/// `ClassBytes::push` of the range from `start` to `end`: the class then holds
/// the bytes it held before and those of the range, and no others, again in
/// canonical form.
#[verifier::external_body]
pub(crate) fn class_bytes_push(class: &mut ClassBytes, start: u8, end: u8)
    requires
        start <= end,
    ensures
        canonical(byte_ranges(*final(class))),
        forall|b: int|
            covers(byte_ranges(*final(class)), b) <==> (covers(byte_ranges(*old(class)), b) || start
                <= b <= end),
{
    class.push(ClassBytesRange::new(start, end));
}

/// `ClassBytes::ranges`: the ranges of the class, each as the pair of
/// `ClassBytesRange::start` and `ClassBytesRange::end`. A class keeps its
/// ranges in canonical form.
#[verifier::external_body]
pub(crate) fn class_bytes_ranges(class: &ClassBytes) -> (ranges: Vec<(u8, u8)>)
    ensures
        ranges@ == byte_ranges(*class),
        canonical(ranges@),
{
    class.ranges().iter().map(|r| (r.start(), r.end())).collect()
}

/// `ClassUnicode::ranges`: the ranges of the class, each as the pair of
/// `ClassUnicodeRange::start` and `ClassUnicodeRange::end`.
#[verifier::external_body]
pub(crate) fn class_unicode_ranges(class: &ClassUnicode) -> (ranges: Vec<(char, char)>)
    ensures
        ranges@ == char_ranges(*class),
{
    class.ranges().iter().map(|r| (r.start(), r.end())).collect()
}

/// The first ranges of a canonical sequence are a canonical sequence.
pub proof fn lemma_canonical_prefix(ranges: Seq<(u8, u8)>, n: int)
    requires
        canonical(ranges),
        0 <= n <= ranges.len(),
    ensures
        canonical(ranges.take(n)),
{
}

/// The ranges of a canonical sequence hold each byte once: their lengths add
/// up to the number of bytes that lie in one of them.
pub proof fn lemma_total_len_counts(ranges: Seq<(u8, u8)>)
    requires
        canonical(ranges),
    ensures
        total_len(ranges) == count_below(|b: int| covers(ranges, b), 256),
    decreases ranges.len(),
{
    let p = |b: int| covers(ranges, b);
    if ranges.len() == 0 {
        lemma_count_none(p, 0, 256);
    } else {
        let front = ranges.drop_last();
        let f = |b: int| covers(front, b);
        let last = ranges.len() - 1;
        let s = ranges[last].0 as nat;
        let e = ranges[last].1 as nat;
        lemma_canonical_prefix(ranges, last);
        lemma_total_len_counts(front);
        assert forall|b: int| 0 <= b < s implies #[trigger] p(b) == f(b) by {
            if covers(ranges, b) {
                let i = choose|i: int|
                    0 <= i < ranges.len() && (#[trigger] ranges[i]).0 <= b <= ranges[i].1;
                assert(front[i] == ranges[i]);
            }
            if covers(front, b) {
                let i = choose|i: int|
                    0 <= i < front.len() && (#[trigger] front[i]).0 <= b <= front[i].1;
                assert(front[i] == ranges[i]);
            }
        }
        assert forall|b: int| s <= b < 256 implies !#[trigger] f(b) by {
            if covers(front, b) {
                let i = choose|i: int|
                    0 <= i < front.len() && (#[trigger] front[i]).0 <= b <= front[i].1;
                assert(front[i] == ranges[i]);
            }
        }
        assert forall|b: int| s <= b < e + 1 implies #[trigger] p(b) by {
            assert(ranges[last].0 <= b <= ranges[last].1);
        }
        assert forall|b: int| e + 1 <= b < 256 implies !#[trigger] p(b) by {
            if covers(ranges, b) {
                let i = choose|i: int|
                    0 <= i < ranges.len() && (#[trigger] ranges[i]).0 <= b <= ranges[i].1;
                if i < last {
                    assert(ranges[i].1 + 1 < ranges[last].0);
                }
            }
        }
        lemma_count_none(f, s, 256);
        lemma_count_agrees(p, f, s);
        lemma_count_all(p, s, e + 1);
        lemma_count_none(p, e + 1, 256);
    }
}

/// The canonical ranges that hold every byte are the one range of all bytes.
pub proof fn lemma_all_bytes(ranges: Seq<(u8, u8)>)
    requires
        canonical(ranges),
        forall|b: int| 0 <= b < 256 ==> covers(ranges, b),
    ensures
        ranges == seq![(0u8, 255u8)],
{
    assert(covers(ranges, 0));
    let i = choose|i: int| 0 <= i < ranges.len() && (#[trigger] ranges[i]).0 <= 0 <= ranges[i].1;
    assert(i == 0) by {
        if i > 0 {
            assert(ranges[0].1 + 1 < ranges[i].0);
        }
    }
    let e = ranges[0].1 as int;
    if e < 255 {
        assert(covers(ranges, e + 1));
        let j = choose|j: int|
            0 <= j < ranges.len() && (#[trigger] ranges[j]).0 <= e + 1 <= ranges[j].1;
        assert(ranges[0].1 + 1 < ranges[j].0);
    }
    if ranges.len() > 1 {
        assert(ranges[0].1 + 1 < ranges[1].0);
    }
    assert(ranges =~= seq![(0u8, 255u8)]);
}

/// Without its last range a canonical sequence holds the bytes below that
/// range, and no others.
proof fn lemma_covers_front(ranges: Seq<(u8, u8)>, b: int)
    requires
        canonical(ranges),
        ranges.len() > 0,
    ensures
        covers(ranges.drop_last(), b) <==> covers(ranges, b) && b < ranges.last().0,
{
    let front = ranges.drop_last();
    let last = ranges.len() - 1;
    if covers(front, b) {
        let i = choose|i: int| 0 <= i < front.len() && (#[trigger] front[i]).0 <= b <= front[i].1;
        assert(front[i] == ranges[i]);
        assert(ranges[i].1 + 1 < ranges[last].0);
    }
    if covers(ranges, b) && b < ranges.last().0 {
        let i = choose|i: int|
            0 <= i < ranges.len() && (#[trigger] ranges[i]).0 <= b <= ranges[i].1;
        assert(front[i] == ranges[i]);
    }
}

/// A byte that a canonical sequence holds lies between the start of the
/// first range and the end of the last.
pub proof fn lemma_covers_within(ranges: Seq<(u8, u8)>, b: int)
    requires
        canonical(ranges),
        covers(ranges, b),
    ensures
        ranges.len() > 0,
        ranges.first().0 <= b <= ranges.last().1,
{
    let last = ranges.len() - 1;
    let i = choose|i: int| 0 <= i < ranges.len() && (#[trigger] ranges[i]).0 <= b <= ranges[i].1;
    if i < last {
        assert(ranges[i].1 + 1 < ranges[last].0);
    }
    if 0 < i {
        assert(ranges[0].1 + 1 < ranges[i].0);
    }
}

/// A set of bytes has one canonical sequence of ranges only: two canonical
/// sequences that hold the same bytes are equal.
pub proof fn lemma_canonical_unique(r1: Seq<(u8, u8)>, r2: Seq<(u8, u8)>)
    requires
        canonical(r1),
        canonical(r2),
        forall|b: int| covers(r1, b) <==> covers(r2, b),
    ensures
        r1 == r2,
    decreases r1.len(),
{
    if r1.len() == 0 {
        if r2.len() > 0 {
            assert(r2[0].0 <= r2[0].0 <= r2[0].1);
            assert(covers(r2, r2[0].0 as int));
        }
        assert(r1 =~= r2);
    } else {
        let l1 = r1.len() - 1;
        assert(r1[l1].0 <= r1[l1].1 <= r1[l1].1);
        assert(covers(r1, r1[l1].1 as int));
        lemma_covers_within(r2, r1[l1].1 as int);
        let l2 = r2.len() - 1;
        assert(r2[l2].0 <= r2[l2].1 <= r2[l2].1);
        assert(covers(r2, r2[l2].1 as int));
        lemma_covers_within(r1, r2[l2].1 as int);
        assert(r1[l1].1 == r2[l2].1);
        if r1[l1].0 < r2[l2].0 {
            let b = r2[l2].0 - 1;
            assert(r1[l1].0 <= b <= r1[l1].1);
            assert(covers(r1, b));
            lemma_covers_front(r2, b);
            lemma_covers_within(r2.drop_last(), b);
            let j = r2.drop_last().len() - 1;
            assert(r2.drop_last()[j] == r2[j]);
            assert(r2[j].1 + 1 < r2[l2].0);
        }
        if r2[l2].0 < r1[l1].0 {
            let b = r1[l1].0 - 1;
            assert(r2[l2].0 <= b <= r2[l2].1);
            assert(covers(r2, b));
            lemma_covers_front(r1, b);
            lemma_covers_within(r1.drop_last(), b);
            let j = r1.drop_last().len() - 1;
            assert(r1.drop_last()[j] == r1[j]);
            assert(r1[j].1 + 1 < r1[l1].0);
        }
        assert(r1[l1] == r2[l2]);
        assert forall|b: int| covers(r1.drop_last(), b) <==> covers(r2.drop_last(), b) by {
            lemma_covers_front(r1, b);
            lemma_covers_front(r2, b);
        }
        lemma_canonical_prefix(r1, l1);
        lemma_canonical_prefix(r2, l2);
        lemma_canonical_unique(r1.drop_last(), r2.drop_last());
        assert(r1 =~= r1.drop_last().push(r1[l1]));
        assert(r2 =~= r2.drop_last().push(r2[l2]));
    }
}

} // verus!
