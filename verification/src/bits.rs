//! Counting the ones of a byte, and counting the bytes with a property.

use vstd::arithmetic::power2::{lemma2_to64, lemma_pow2_unfold, pow2};
use vstd::prelude::*;

verus! {

/// The number of ones among the `n` lowest bits of `x`.
pub open spec fn ones(x: u8, n: nat) -> nat
    decreases n,
{
    if n == 0 {
        0
    } else {
        (x & 1) as nat + ones(x >> 1, (n - 1) as nat)
    }
}

/// The number of ones in the binary representation of `x`.
pub open spec fn popcount(x: u8) -> nat {
    ones(x, 8)
}

/// `u8::count_ones`: the number of ones in the binary representation.
pub assume_specification[ <u8>::count_ones ](x: u8) -> (n: u32)
    ensures
        n == popcount(x),
;

/// The number of integers from 0 up to, but not including, `n` that have the
/// property `p`.
pub open spec fn count_below(p: spec_fn(int) -> bool, n: nat) -> nat
    decreases n,
{
    if n == 0 {
        0
    } else {
        count_below(p, (n - 1) as nat) + if p(n - 1) {
            1nat
        } else {
            0nat
        }
    }
}

/// Tells whether `byte` is a byte that agrees with `value` on the bits of
/// `mask`.
pub open spec fn admits(value: u8, mask: u8, byte: int) -> bool {
    0 <= byte < 256 && (byte as u8) & mask == value
}

/// A byte has at most as many ones among its `n` lowest bits as `n`.
pub proof fn lemma_ones_bound(x: u8, n: nat)
    ensures
        ones(x, n) <= n,
    decreases n,
{
    if n > 0 {
        lemma_ones_bound(x >> 1, (n - 1) as nat);
        assert(x & 1 <= 1) by (bit_vector);
    }
}

/// Two properties that agree below `n` are had by equally many integers
/// below `n`.
pub proof fn lemma_count_agrees(p: spec_fn(int) -> bool, q: spec_fn(int) -> bool, n: nat)
    requires
        forall|x: int| 0 <= x < n ==> #[trigger] p(x) == q(x),
    ensures
        count_below(p, n) == count_below(q, n),
    decreases n,
{
    if n > 0 {
        lemma_count_agrees(p, q, (n - 1) as nat);
    }
}

/// Where every integer from `lo` up to `hi` has the property, the count
/// grows by their number.
pub proof fn lemma_count_all(p: spec_fn(int) -> bool, lo: nat, hi: nat)
    requires
        lo <= hi,
        forall|x: int| lo <= x < hi ==> #[trigger] p(x),
    ensures
        count_below(p, hi) == count_below(p, lo) + (hi - lo),
    decreases hi,
{
    if lo < hi {
        lemma_count_all(p, lo, (hi - 1) as nat);
    }
}

/// Where no integer from `lo` up to `hi` has the property, the count does
/// not grow.
pub proof fn lemma_count_none(p: spec_fn(int) -> bool, lo: nat, hi: nat)
    requires
        lo <= hi,
        forall|x: int| lo <= x < hi ==> !#[trigger] p(x),
    ensures
        count_below(p, hi) == count_below(p, lo),
    decreases hi,
{
    if lo < hi {
        lemma_count_none(p, lo, (hi - 1) as nat);
    }
}

/// The count never exceeds the bound.
pub proof fn lemma_count_bound(p: spec_fn(int) -> bool, n: nat)
    ensures
        count_below(p, n) <= n,
    decreases n,
{
    if n > 0 {
        lemma_count_bound(p, (n - 1) as nat);
    }
}

/// Counting by pairs: where each pair `2y`, `2y + 1` holds as many integers
/// with the property `p` as `y` counts for `q` (once, or twice if `twice`),
/// the count of `p` below `2n` is that of `q` below `n`, once or twice.
proof fn lemma_count_pairs(p: spec_fn(int) -> bool, q: spec_fn(int) -> bool, n: nat, twice: bool)
    requires
        forall|y: int|
            0 <= y < n ==> (if p(2 * y) {
                1int
            } else {
                0int
            }) + (if p(2 * y + 1) {
                1int
            } else {
                0int
            }) == (if #[trigger] q(y) {
                if twice {
                    2int
                } else {
                    1int
                }
            } else {
                0int
            }),
    ensures
        count_below(p, 2 * n) == if twice {
            2 * count_below(q, n)
        } else {
            count_below(q, n)
        },
    decreases n,
{
    if n > 0 {
        lemma_count_pairs(p, q, (n - 1) as nat, twice);
        let y = n - 1;
        assert(q(y) || !q(y));
        assert(count_below(p, 2 * n) == count_below(p, (2 * n - 1) as nat) + if p(2 * n - 1) {
            1nat
        } else {
            0nat
        });
        assert(count_below(p, (2 * n - 1) as nat) == count_below(p, (2 * n - 2) as nat) + if p(
            2 * n - 2,
        ) {
            1nat
        } else {
            0nat
        });
    }
}

/// Among the bytes below two to the `n`, those that agree with `value` on
/// the bits of `mask` are two to the number of open bits among the `n`
/// lowest.
proof fn lemma_admitted_below(value: u8, mask: u8, n: nat)
    requires
        n <= 8,
        value & !mask == 0,
        value < pow2(n),
    ensures
        count_below(|b: int| admits(value, mask, b), pow2(n)) == pow2(ones(!mask, n)),
    decreases n,
{
    lemma2_to64();
    let p = |b: int| admits(value, mask, b);
    if n == 0 {
        assert(0u8 & mask == 0u8) by (bit_vector);
        assert(count_below(p, 1) == count_below(p, 0) + 1);
    } else {
        let half = (n - 1) as nat;
        let v2: u8 = value >> 1;
        let m2: u8 = (mask >> 1) | 0x80;
        let q = |b: int| admits(v2, m2, b);
        lemma_pow2_unfold(n);
        assert(v2 == value / 2) by (bit_vector)
            requires
                v2 == value >> 1,
        ;
        assert(v2 & !m2 == 0 && !m2 == (!mask) >> 1) by (bit_vector)
            requires
                value & !mask == 0,
                v2 == value >> 1,
                m2 == (mask >> 1) | 0x80,
        ;
        lemma_admitted_below(v2, m2, half);
        let open = (!mask) & 1 == 1;
        assert((!mask) & 1 == 0 || (!mask) & 1 == 1) by (bit_vector);
        assert forall|y: int| 0 <= y < pow2(half) implies (if p(2 * y) {
            1int
        } else {
            0int
        }) + (if p(2 * y + 1) {
            1int
        } else {
            0int
        }) == (if #[trigger] q(y) {
            if open {
                2int
            } else {
                1int
            }
        } else {
            0int
        }) by {
            let yb: u8 = y as u8;
            let even: u8 = (2 * y) as u8;
            let odd: u8 = (2 * y + 1) as u8;
            assert(((!mask) & 1 == 1) ==> ((even & mask == value) == (yb & m2 == v2)) && ((odd
                & mask == value) == (yb & m2 == v2))) by (bit_vector)
                requires
                    yb < 128,
                    even == 2 * yb,
                    odd == 2 * yb + 1,
                    value & !mask == 0,
                    v2 == value >> 1,
                    m2 == (mask >> 1) | 0x80,
            ;
            assert(((!mask) & 1 == 0) ==> !((even & mask == value) && (odd & mask == value)) && ((
            even & mask == value) || (odd & mask == value)) == (yb & m2 == v2)) by (bit_vector)
                requires
                    yb < 128,
                    even == 2 * yb,
                    odd == 2 * yb + 1,
                    value & !mask == 0,
                    v2 == value >> 1,
                    m2 == (mask >> 1) | 0x80,
            ;
        }
        lemma_count_pairs(p, q, pow2(half), open);
        if open {
            lemma_pow2_unfold(ones(!mask, n));
        }
    }
}

/// A mask admits two to the number of its open bits many bytes, if the value
/// has no open bit set.
pub proof fn lemma_admitted_count(value: u8, mask: u8)
    requires
        value & !mask == 0,
    ensures
        count_below(|b: int| admits(value, mask, b), 256) == pow2(popcount(!mask)),
{
    lemma2_to64();
    lemma_admitted_below(value, mask, 8);
}

} // verus!
