//! Bit masks over the 64 squares, and how bit operations act on the sets of
//! squares they stand for.

use vstd::prelude::*;
use vstd::std_specs::bits::{axiom_u64_trailing_zeros, u64_trailing_zeros};

verus! {

/// A 64-bit occupancy mask with one bit per square of the board.
///
/// Bit `i` is set exactly when square `i` belongs to the category the mask
/// stands for. Square 0 is a1, square 7 is h1 and square 63 is h8.
#[derive(PartialEq, Eq, Structural, PartialOrd, Clone, Copy, Debug, Default, Hash)]
pub struct BitBoard(pub u64);

/// Whether bit `sq` of `mask` is set. False for every `sq` off the board.
pub open spec fn has_bit(mask: u64, sq: int) -> bool {
    0 <= sq < 64 && (mask >> (sq as u64)) & 1 == 1
}

impl View for BitBoard {
    type V = Set<int>;

    /// The set of squares whose bit is set.
    open spec fn view(&self) -> Set<int> {
        Set::new(|sq: int| has_bit(self.0, sq))
    }
}

/// The lowest square of a mask, 64 for the empty mask.
pub open spec fn lowest_square(mask: u64) -> int {
    u64_trailing_zeros(mask) as int
}

/// The mask that holds square `sq` alone.
pub proof fn lemma_mask_single(sq: u64)
    requires
        sq < 64,
    ensures
        BitBoard(1u64 << sq)@ == set![sq as int],
{
    let mask = 1u64 << sq;
    assert forall|t: int| has_bit(mask, t) <==> t == sq as int by {
        if 0 <= t < 64 {
            let tt = t as u64;
            assert(tt < 64 && sq < 64 ==> ((((1u64 << sq) >> tt) & 1 == 1) <==> tt == sq))
                by (bit_vector);
        }
    }
    assert(BitBoard(mask)@ =~= set![sq as int]);
}

/// Masking with a single bit tests membership of that square.
pub proof fn lemma_mask_test(mask: u64, sq: u64)
    requires
        sq < 64,
    ensures
        (mask & (1u64 << sq)) != 0 <==> BitBoard(mask)@.contains(sq as int),
{
    assert(sq < 64 ==> (((mask & (1u64 << sq)) != 0) <==> ((mask >> sq) & 1 == 1)))
        by (bit_vector);
}

/// Clearing a bit removes its square from the set.
pub proof fn lemma_mask_clear(mask: u64, sq: u64)
    requires
        sq < 64,
    ensures
        BitBoard(mask & !(1u64 << sq))@ == BitBoard(mask)@.remove(sq as int),
{
    let cleared = mask & !(1u64 << sq);
    assert forall|t: int| has_bit(cleared, t) <==> (has_bit(mask, t) && t != sq as int) by {
        if 0 <= t < 64 {
            let tt = t as u64;
            assert(tt < 64 && sq < 64 ==> (((((mask & !(1u64 << sq)) >> tt) & 1) == 1) <==> (((mask
                >> tt) & 1) == 1 && tt != sq))) by (bit_vector);
        }
    }
    assert(BitBoard(cleared)@ =~= BitBoard(mask)@.remove(sq as int));
}

/// Setting a bit adds its square to the set.
pub proof fn lemma_mask_set(mask: u64, sq: u64)
    requires
        sq < 64,
    ensures
        BitBoard(mask | (1u64 << sq))@ == BitBoard(mask)@.insert(sq as int),
{
    let raised = mask | (1u64 << sq);
    assert forall|t: int| has_bit(raised, t) <==> (has_bit(mask, t) || t == sq as int) by {
        if 0 <= t < 64 {
            let tt = t as u64;
            assert(tt < 64 && sq < 64 ==> (((((mask | (1u64 << sq)) >> tt) & 1) == 1) <==> (((mask
                >> tt) & 1) == 1 || tt == sq))) by (bit_vector);
        }
    }
    assert(BitBoard(raised)@ =~= BitBoard(mask)@.insert(sq as int));
}

/// The bitwise or of two masks is the union of their sets.
pub proof fn lemma_mask_union(a: u64, b: u64)
    ensures
        BitBoard(a | b)@ == BitBoard(a)@.union(BitBoard(b)@),
{
    assert forall|t: int| has_bit(a | b, t) <==> (has_bit(a, t) || has_bit(b, t)) by {
        if 0 <= t < 64 {
            let tt = t as u64;
            assert(tt < 64 ==> (((((a | b) >> tt) & 1) == 1) <==> (((a >> tt) & 1) == 1 || ((b
                >> tt) & 1) == 1))) by (bit_vector);
        }
    }
    assert(BitBoard(a | b)@ =~= BitBoard(a)@.union(BitBoard(b)@));
}

/// The zero mask is the empty set, and a mask's set lies on the board.
pub proof fn lemma_mask_empty(mask: u64)
    ensures
        BitBoard(0)@ == Set::<int>::empty(),
        forall|t: int| BitBoard(mask)@.contains(t) ==> 0 <= t < 64,
{
    assert forall|t: int| !has_bit(0u64, t) by {
        if 0 <= t < 64 {
            let tt = t as u64;
            assert(((0u64 >> tt) & 1) == 0) by (bit_vector);
        }
    }
    assert(BitBoard(0)@ =~= Set::<int>::empty());
}

/// The trailing-zero count of a non-zero mask is its lowest square, and
/// `mask & (mask - 1)` removes exactly that square.
pub proof fn lemma_mask_lowest(mask: u64)
    requires
        mask != 0,
    ensures
        0 <= lowest_square(mask) < 64,
        BitBoard(mask)@.contains(lowest_square(mask)),
        forall|t: int| BitBoard(mask)@.contains(t) ==> lowest_square(mask) <= t,
        BitBoard(mask & ((mask - 1) as u64))@ == BitBoard(mask)@.remove(lowest_square(mask)),
        (mask & ((mask - 1) as u64)) < mask,
{
    axiom_u64_trailing_zeros(mask);
    assert(mask != 0 ==> (mask & ((mask - 1) as u64)) < mask) by (bit_vector);
    let low = u64_trailing_zeros(mask) as u64;
    assert(low < 64);
    assert forall|t: int| BitBoard(mask)@.contains(t) implies low <= t by {
        if 0 <= t < low {
            let tt = t as u64;
            assert((mask >> tt) & 1u64 == 0u64);
        }
    }
    let high_zero = (mask << ((64 - low) as u64)) == 0;
    let rest = mask & ((mask - 1) as u64);
    assert forall|t: int| has_bit(rest, t) <==> (has_bit(mask, t) && t != low as int) by {
        if 0 <= t < 64 {
            let tt = t as u64;
            if tt < low {
                assert((mask >> tt) & 1u64 == 0u64);
            }
            assert(high_zero);
            assert(low < 64 && tt < 64 && mask != 0 && (mask >> low) & 1 == 1 && (mask << ((64
                - low) as u64)) == 0 ==> (((((mask & ((mask - 1) as u64)) >> tt) & 1) == 1) <==> (((
            mask >> tt) & 1) == 1 && tt != low))) by (bit_vector);
        }
    }
    assert(BitBoard(rest)@ =~= BitBoard(mask)@.remove(low as int));
}

/// A mask is zero exactly when its set is empty.
pub proof fn lemma_mask_zero(mask: u64)
    ensures
        mask == 0 <==> BitBoard(mask)@ == Set::<int>::empty(),
{
    lemma_mask_empty(mask);
    if mask != 0 {
        lemma_mask_lowest(mask);
    }
}

/// Two masks that hold the same squares are the same mask.
pub proof fn lemma_mask_determined(a: u64, b: u64)
    requires
        BitBoard(a)@ == BitBoard(b)@,
    ensures
        a == b,
{
    if a != b {
        let diff = a ^ b;
        assert(a != b ==> (a ^ b) != 0) by (bit_vector);
        axiom_u64_trailing_zeros(diff);
        let t = u64_trailing_zeros(diff) as u64;
        assert(t < 64 && ((a ^ b) >> t) & 1 == 1 ==> ((a >> t) & 1 == 1) != ((b >> t) & 1 == 1))
            by (bit_vector);
        assert(BitBoard(a)@.contains(t as int) == has_bit(a, t as int));
        assert(BitBoard(b)@.contains(t as int) == has_bit(b, t as int));
    }
}

/// Two squares are free of both masks exactly when the complement of the
/// masks' union covers the pair of their bits.
pub proof fn lemma_mask_free_pair(a: u64, b: u64, s1: u64, s2: u64)
    requires
        s1 < 64,
        s2 < 64,
    ensures
        ((!(a | b)) & ((1u64 << s1) | (1u64 << s2))) == ((1u64 << s1) | (1u64 << s2)) <==> (
        !BitBoard(a)@.contains(s1 as int) && !BitBoard(b)@.contains(s1 as int) && !BitBoard(
            a,
        )@.contains(s2 as int) && !BitBoard(b)@.contains(s2 as int)),
{
    assert(s1 < 64 && s2 < 64 ==> ((((!(a | b)) & ((1u64 << s1) | (1u64 << s2))) == ((1u64 << s1)
        | (1u64 << s2))) <==> (((a >> s1) & 1) != 1 && ((b >> s1) & 1) != 1 && ((a >> s2) & 1)
        != 1 && ((b >> s2) & 1) != 1))) by (bit_vector);
}

/// Three squares are free of both masks exactly when the complement of the
/// masks' union covers the triple of their bits.
pub proof fn lemma_mask_free_triple(a: u64, b: u64, s1: u64, s2: u64, s3: u64)
    requires
        s1 < 64,
        s2 < 64,
        s3 < 64,
    ensures
        ((!(a | b)) & ((1u64 << s1) | (1u64 << s2) | (1u64 << s3))) == ((1u64 << s1) | (1u64
            << s2) | (1u64 << s3)) <==> (!BitBoard(a)@.contains(s1 as int) && !BitBoard(
            b,
        )@.contains(s1 as int) && !BitBoard(a)@.contains(s2 as int) && !BitBoard(b)@.contains(
            s2 as int,
        ) && !BitBoard(a)@.contains(s3 as int) && !BitBoard(b)@.contains(s3 as int)),
{
    assert(s1 < 64 && s2 < 64 && s3 < 64 ==> ((((!(a | b)) & ((1u64 << s1) | (1u64 << s2) | (1u64
        << s3))) == ((1u64 << s1) | (1u64 << s2) | (1u64 << s3))) <==> (((a >> s1) & 1) != 1 && ((
    b >> s1) & 1) != 1 && ((a >> s2) & 1) != 1 && ((b >> s2) & 1) != 1 && ((a >> s3) & 1) != 1
        && ((b >> s3) & 1) != 1))) by (bit_vector);
}

} // verus!
