//! Splitting of a pattern at its large jumps.
//!
//! A pattern such as `{ 01 02 03 [0-2000] 04 05 06 }` is matched faster as
//! two patterns, `{ 01 02 03 }` and `{ 04 05 06 }`, of which the second is
//! chained to the first: it counts only where it follows the first at a
//! distance that the jump allows.

use crate::class::{class_bytes_ranges, class_unicode_ranges};
use crate::hir::{
    concat_view, hir_views, lemma_view_of_children, proper, Class, ClassView, Hir, HirKind,
    HirView,
};
use std::ops::RangeInclusive;
use vstd::prelude::*;
use vstd::std_specs::range::RangeInclusiveView;

verus! {

/// A jump splits the pattern only if it may be longer than its shortest
/// length by more than this number of bytes.
pub const PATTERN_CHAINING_THRESHOLD: u32 = 200;

/// A piece of a split pattern that follows another piece.
#[derive(Debug, PartialEq)]
pub struct TrailingPattern {
    /// The number of bytes that may lie between the end of the piece before
    /// and the start of this one.
    pub gap: RangeInclusive<u32>,
    /// The piece itself.
    pub hir: Hir,
}

/// Tells whether a node is a class whose first range is all bytes, or all
/// characters. Only the first range is looked at.
pub open spec fn is_any_byte(kind: HirView) -> bool {
    match kind {
        HirView::Class(ClassView::Bytes(ranges)) => ranges.len() > 0 && ranges[0] == (0u8, 255u8),
        HirView::Class(ClassView::Unicode(ranges)) => ranges.len() > 0 && ranges[0] == (
            '\0',
            '\u{10FFFF}',
        ),
        _ => false,
    }
}

/// The greatest length of a repetition with the upper bound `max`.
pub open spec fn max_or_unbounded(max: Option<u32>) -> u32 {
    match max {
        Some(m) => m,
        None => u32::MAX,
    }
}

/// Tells whether a node is a jump at which a pattern is split: a non-greedy
/// repetition of any byte whose length may vary by more than the threshold.
/// A repetition whose upper bound lies below its lower bound is none.
pub open spec fn is_large_gap(item: HirView) -> bool {
    match item {
        HirView::Repetition { min, max, greedy, sub } => {
            &&& max_or_unbounded(max) - min > PATTERN_CHAINING_THRESHOLD
            &&& !greedy
            &&& is_any_byte(*sub)
        },
        _ => false,
    }
}

/// The least and the greatest length of the jump `item`. For an item that is
/// no repetition it is the range from 0 to 0.
pub open spec fn gap_of(item: HirView) -> RangeInclusiveView<u32> {
    match item {
        HirView::Repetition { min, max, greedy, sub } => RangeInclusiveView {
            start: min,
            end: max_or_unbounded(max),
            exhausted: false,
        },
        _ => RangeInclusiveView { start: 0, end: 0, exhausted: false },
    }
}

/// The positions of the large jumps among `items`, in ascending order.
pub open spec fn cuts(items: Seq<HirView>) -> Seq<int>
    decreases items.len(),
{
    if items.len() == 0 {
        Seq::empty()
    } else if is_large_gap(items.last()) {
        cuts(items.drop_last()).push(items.len() - 1)
    } else {
        cuts(items.drop_last())
    }
}

/// The items of piece `k`: those after large jump `k - 1` (from the start for
/// the first piece) and before large jump `k` (to the end for the last).
pub open spec fn piece(items: Seq<HirView>, k: int) -> Seq<HirView> {
    let c = cuts(items);
    let from = if k == 0 {
        0
    } else {
        c[k - 1] + 1
    };
    let to = if k < c.len() {
        c[k]
    } else {
        items.len() as int
    };
    items.subrange(from, to)
}

/// Returns true if `hir_kind` is a class that contains all bytes, as `??` in
/// a hex pattern, or all characters.
pub fn any_byte(hir_kind: &HirKind) -> (r: bool)
    ensures
        r == is_any_byte(hir_kind@),
{
    match hir_kind {
        HirKind::Class(Class::Bytes(class)) => {
            let ranges = class_bytes_ranges(class);
            if ranges.len() > 0 {
                ranges[0].0 == 0 && ranges[0].1 == u8::MAX
            } else {
                false
            }
        },
        HirKind::Class(Class::Unicode(class)) => {
            let ranges = class_unicode_ranges(class);
            if ranges.len() > 0 {
                ranges[0].0 == '\0' && ranges[0].1 == '\u{10FFFF}'
            } else {
                false
            }
        },
        _ => false,
    }
}

/// The mathematical value of a trailing pattern.
pub struct TrailingPatternView {
    pub gap: RangeInclusiveView<u32>,
    pub hir: HirView,
}

impl View for TrailingPattern {
    type V = TrailingPatternView;

    open spec fn view(&self) -> TrailingPatternView {
        TrailingPatternView { gap: self.gap@, hir: self.hir@ }
    }
}

/// The values of the trailing patterns in `trailing`, in the same order.
pub open spec fn trailing_views(trailing: Seq<TrailingPattern>) -> Seq<TrailingPatternView> {
    Seq::new(trailing.len(), |k: int| trailing[k]@)
}

/// The pieces into which a pattern is split: the leading piece, and the
/// pieces that follow it, each with the jump that stands before it.
///
/// Only a concatenation is split, and only at the large jumps among its
/// children. A piece is the concatenation of the children between two
/// neighbouring large jumps.
pub open spec fn split_view(hir: HirView) -> (HirView, Seq<TrailingPatternView>) {
    match hir {
        HirView::Concat(items) => (
            concat_view(piece(items, 0)),
            Seq::new(
                cuts(items).len(),
                |k: int|
                    TrailingPatternView {
                        gap: gap_of(items[cuts(items)[k]]),
                        hir: concat_view(piece(items, k + 1)),
                    },
            ),
        ),
        _ => (hir, Seq::empty()),
    }
}

/// Tells whether a pattern is a concatenation with a large jump among its
/// children.
pub open spec fn has_large_gap(hir: HirView) -> bool {
    hir matches HirView::Concat(items) && exists|i: int|
        0 <= i < items.len() && is_large_gap(#[trigger] items[i])
}

/// The cuts of a sequence are exactly the positions of its large jumps, each
/// once and in ascending order.
pub proof fn lemma_cuts(items: Seq<HirView>)
    ensures
        forall|k: int|
            0 <= k < cuts(items).len() ==> 0 <= #[trigger] cuts(items)[k] < items.len()
                && is_large_gap(items[cuts(items)[k]]),
        forall|j: int, k: int|
            0 <= j < k < cuts(items).len() ==> #[trigger] cuts(items)[j] < #[trigger] cuts(
                items,
            )[k],
        forall|i: int|
            0 <= i < items.len() && is_large_gap(#[trigger] items[i]) ==> cuts(items).contains(i),
    decreases items.len(),
{
    if items.len() > 0 {
        let front = items.drop_last();
        lemma_cuts(front);
        let c = cuts(items);
        assert forall|i: int| 0 <= i < items.len() && is_large_gap(
            #[trigger] items[i],
        ) implies c.contains(i) by {
            if i < items.len() - 1 {
                assert(front[i] == items[i]);
                let k = choose|k: int| 0 <= k < cuts(front).len() && cuts(front)[k] == i;
                assert(c[k] == i);
            } else {
                assert(c[c.len() - 1] == i);
            }
        }
        assert forall|k: int| 0 <= k < c.len() implies 0 <= #[trigger] c[k] < items.len()
            && is_large_gap(items[c[k]]) by {
            if k < cuts(front).len() {
                assert(c[k] == cuts(front)[k]);
                assert(front[c[k]] == items[c[k]]);
            }
        }
    }
}

/// A pattern that is no concatenation, or a concatenation without a large
/// jump, is not split: it is the leading piece, and no piece follows.
pub proof fn lemma_unsplit(hir: HirView)
    requires
        proper(hir),
        !has_large_gap(hir),
    ensures
        split_view(hir) == (hir, Seq::<TrailingPatternView>::empty()),
{
    if let HirView::Concat(items) = hir {
        lemma_cuts(items);
        let c = cuts(items);
        if c.len() > 0 {
            assert(is_large_gap(items[c[0]]));
        }
        assert(piece(items, 0) =~= items);
        assert(split_view(hir).1 =~= Seq::<TrailingPatternView>::empty());
    }
}

/// The first pieces of a split pattern, up to piece `k`, with the large jumps
/// between them put back.
pub open spec fn rejoined(items: Seq<HirView>, k: int) -> Seq<HirView>
    decreases k,
{
    if k <= 0 {
        piece(items, 0)
    } else {
        rejoined(items, k - 1).push(items[cuts(items)[k - 1]]) + piece(items, k)
    }
}

/// Nothing is lost in a split: the pieces, with the large jumps put back
/// between them, are the children of the pattern in their order.
pub proof fn lemma_rejoined(items: Seq<HirView>)
    ensures
        rejoined(items, cuts(items).len() as int) == items,
{
    lemma_rejoined_upto(items, cuts(items).len() as int);
    assert(items.take(items.len() as int) =~= items);
}

/// The first pieces, up to piece `k`, with the large jumps put back between
/// them, are the children up to the end of piece `k`.
proof fn lemma_rejoined_upto(items: Seq<HirView>, k: int)
    requires
        0 <= k <= cuts(items).len(),
    ensures
        rejoined(items, k) == items.take(
            if k < cuts(items).len() {
                cuts(items)[k]
            } else {
                items.len() as int
            },
        ),
    decreases k,
{
    lemma_cuts(items);
    let c = cuts(items);
    let to = if k < c.len() {
        c[k]
    } else {
        items.len() as int
    };
    if k == 0 {
        assert(piece(items, 0) =~= items.take(to));
    } else {
        lemma_rejoined_upto(items, k - 1);
        if k < c.len() {
            assert(c[k - 1] < c[k]);
        }
        assert(items.take(c[k - 1]).push(items[c[k - 1]]) + piece(items, k) =~= items.take(to));
    }
}

/// No piece of a split pattern holds a large jump.
pub proof fn lemma_pieces_hold_no_large_gap(items: Seq<HirView>, k: int)
    requires
        0 <= k <= cuts(items).len(),
    ensures
        forall|i: int|
            0 <= i < piece(items, k).len() ==> !is_large_gap(#[trigger] piece(items, k)[i]),
{
    lemma_cuts(items);
    let c = cuts(items);
    let from = if k == 0 {
        0
    } else {
        c[k - 1] + 1
    };
    assert forall|i: int| 0 <= i < piece(items, k).len() implies !is_large_gap(
        #[trigger] piece(items, k)[i],
    ) by {
        if is_large_gap(items[from + i]) {
            let m = choose|m: int| 0 <= m < c.len() && c[m] == from + i;
            if m < k {
                if m < k - 1 {
                    assert(c[m] < c[k - 1]);
                }
            } else if k < m {
                assert(c[k] < c[m]);
            }
        }
    }
}

/// The jump that `item` stands for, if it is a large one.
fn large_gap(item: &Hir) -> (gap: Option<RangeInclusive<u32>>)
    ensures
        gap is Some <==> is_large_gap(item@),
        gap matches Some(g) ==> g@ == gap_of(item@),
{
    match item.kind() {
        HirKind::Repetition(repetition) => {
            let max: u32 = match repetition.max {
                Some(m) => m,
                None => u32::MAX,
            };
            if max >= repetition.min && max - repetition.min > PATTERN_CHAINING_THRESHOLD
                && !repetition.greedy && any_byte(repetition.sub.kind()) {
                Some(RangeInclusive::new(repetition.min, max))
            } else {
                None
            }
        },
        _ => None,
    }
}

/// Splits a pattern into pieces where it contains jumps that are larger than
/// [`PATTERN_CHAINING_THRESHOLD`]. The jumps must be non-greedy repetitions
/// of any byte.
///
/// Returns the leading piece of the pattern and the pieces that follow it. A
/// pattern without such a jump is returned whole, with no trailing piece.
pub fn split_at_large_gaps(hir: Hir) -> (r: (Hir, Vec<TrailingPattern>))
    ensures
        r.0@ == split_view(hir@).0,
        trailing_views(r.1@) == split_view(hir@).1,
        r.1@.len() == split_view(hir@).1.len(),
        !has_large_gap(hir@) ==> r.0@ == hir@ && r.1@.len() == 0,
{
    if !matches!(hir.kind(), HirKind::Concat(_)) {
        return (hir, Vec::new());
    }
    let items: Vec<Hir> = match hir.into_kind() {
        HirKind::Concat(items) => items,
        _ => unreached(),
    };
    let ghost all = hir_views(items@);
    proof {
        lemma_view_of_children(items);
        if !has_large_gap(hir@) {
            lemma_unsplit(hir@);
        }
    }

    let mut heading: Option<Hir> = None;
    let mut trailing: Vec<TrailingPattern> = Vec::new();
    let mut prev_gap: Option<RangeInclusive<u32>> = None;
    let mut pattern_chunk: Vec<Hir> = Vec::new();
    proof {
        assert(all.take(0) =~= Seq::<HirView>::empty());
        assert(hir_views(pattern_chunk@) =~= all.subrange(0, 0));
    }

    for item in it: items
        invariant
            all == hir_views(it.seq()),
            split_so_far(all, it.index() as int, heading, trailing@, prev_gap, pattern_chunk@),
    {
        let ghost i = it.index() as int;
        proof {
            assert(all.take(i + 1).drop_last() =~= all.take(i));
        }
        match large_gap(&item) {
            Some(gap) => {
                let fragment = Hir::concat(pattern_chunk);
                match prev_gap {
                    Some(before) => trailing.push(TrailingPattern { gap: before, hir: fragment }),
                    None => heading = Some(fragment),
                }
                prev_gap = Some(gap);
                pattern_chunk = Vec::new();
                proof {
                    assert(hir_views(pattern_chunk@) =~= all.subrange(i + 1, i + 1));
                }
            },
            None => {
                let ghost before = pattern_chunk@;
                let ghost pushed = item@;
                pattern_chunk.push(item);
                proof {
                    assert(pushed == all[i]);
                    assert(pattern_chunk@ == before.push(item));
                    assert(hir_views(pattern_chunk@) =~= hir_views(before).push(pushed));
                    let c = cuts(all.take(i));
                    let from = if c.len() == 0 { 0 } else { c.last() + 1 };
                    assert(0 <= from <= i);
                    assert(hir_views(before) == all.subrange(from, i));
                    assert(hir_views(pattern_chunk@) =~= all.subrange(from, i + 1));
                }
            },
        }
    }

    proof {
        assert(all.take(all.len() as int) =~= all);
    }
    let fragment = Hir::concat(pattern_chunk);
    match prev_gap {
        Some(before) => {
            trailing.push(TrailingPattern { gap: before, hir: fragment });
            let lead = heading.unwrap();
            proof {
                assert(trailing_views(trailing@) =~= split_view(HirView::Concat(all)).1);
            }
            (lead, trailing)
        },
        None => {
            proof {
                assert(trailing_views(trailing@) =~= split_view(HirView::Concat(all)).1);
            }
            (fragment, trailing)
        },
    }
}

/// What the split has produced when the first `i` of `all` are behind it.
spec fn split_so_far(
    all: Seq<HirView>,
    i: int,
    heading: Option<Hir>,
    trailing: Seq<TrailingPattern>,
    prev_gap: Option<RangeInclusive<u32>>,
    pattern_chunk: Seq<Hir>,
) -> bool {
    let c = cuts(all.take(i));
    &&& 0 <= i <= all.len()
    &&& forall|k: int| 0 <= k < c.len() ==> 0 <= #[trigger] c[k] < i
    &&& (c.len() == 0 <==> heading is None)
    &&& (c.len() == 0 <==> prev_gap is None)
    &&& c.len() == 0 ==> trailing.len() == 0 && hir_views(pattern_chunk) == all.subrange(0, i)
    &&& c.len() > 0 ==> {
        &&& heading.unwrap()@ == concat_view(all.subrange(0, c[0]))
        &&& trailing.len() == c.len() - 1
        &&& forall|k: int|
            0 <= k < trailing.len() ==> (#[trigger] trailing[k])@ == (TrailingPatternView {
                gap: gap_of(all[c[k]]),
                hir: concat_view(all.subrange(c[k] + 1, c[k + 1])),
            })
        &&& prev_gap.unwrap()@ == gap_of(all[c.last()])
        &&& hir_views(pattern_chunk) == all.subrange(c.last() + 1, i)
    }
}

} // verus!
