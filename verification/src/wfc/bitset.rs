//! The bit sets of `fixedbitset` that hold the alternatives of a cell and the tiles that fit
//! next to a tile, and what the library relies on of their methods.
use fixedbitset::FixedBitSet;
use vstd::prelude::*;

verus! {

/// A set of small natural numbers, stored as bits.
#[verifier::external_type_specification]
#[verifier::external_body]
pub struct ExFixedBitSet(FixedBitSet);

/// The bits that are set in `bits`.
pub uninterp spec fn bitset_ones(bits: FixedBitSet) -> Set<nat>;

/// The number of bits of `bits`, set or not.
pub uninterp spec fn bitset_len(bits: FixedBitSet) -> nat;

/// Only bits below the length are set.
pub open spec fn bitset_wf(bits: FixedBitSet) -> bool {
    &&& bitset_ones(bits).finite()
    &&& forall|i: nat| #[trigger] bitset_ones(bits).contains(i) ==> i < bitset_len(bits)
}

/// The numbers below `n`.
pub open spec fn below(n: nat) -> Set<nat> {
    Set::new(|i: nat| i < n)
}

/// The number of members of `s` below `x`.
pub open spec fn rank(s: Set<nat>, x: nat) -> nat {
    s.filter(|y: nat| y < x).len()
}

/// `FixedBitSet::with_capacity`: `bits` bits, none of them set.
#[verifier::external_body]
pub(crate) fn bitset_with_capacity(bits: usize) -> (b: FixedBitSet)
    ensures
        bitset_len(b) == bits,
        bitset_ones(b) == Set::<nat>::empty(),
        bitset_wf(b),
{
    FixedBitSet::with_capacity(bits)
}

/// `FixedBitSet::set_range` over the whole set, enabling: every bit below the length is set.
#[verifier::external_body]
pub(crate) fn bitset_fill(bits: &mut FixedBitSet)
    ensures
        bitset_len(*final(bits)) == bitset_len(*old(bits)),
        bitset_ones(*final(bits)) == below(bitset_len(*old(bits))),
        bitset_wf(*final(bits)),
{
    bits.set_range(.., true)
}

/// `FixedBitSet::count_ones` over the whole set: the number of set bits.
#[verifier::external_body]
pub(crate) fn bitset_count(bits: &FixedBitSet) -> (n: usize)
    requires
        bitset_wf(*bits),
    ensures
        n == bitset_ones(*bits).len(),
{
    bits.count_ones(..)
}

/// `FixedBitSet::intersect_with`: the bits set in both; the length stays.
#[verifier::external_body]
pub(crate) fn bitset_intersect(bits: &mut FixedBitSet, other: &FixedBitSet)
    requires
        bitset_wf(*old(bits)),
    ensures
        bitset_len(*final(bits)) == bitset_len(*old(bits)),
        bitset_ones(*final(bits)) == bitset_ones(*old(bits)).intersect(bitset_ones(*other)),
        bitset_wf(*final(bits)),
{
    bits.intersect_with(other)
}

/// `FixedBitSet::set` to `false`: the bit is cleared. It panics on a bit beyond the length.
#[verifier::external_body]
pub(crate) fn bitset_clear(bits: &mut FixedBitSet, bit: usize)
    requires
        bit < bitset_len(*old(bits)),
        bitset_wf(*old(bits)),
    ensures
        bitset_len(*final(bits)) == bitset_len(*old(bits)),
        bitset_ones(*final(bits)) == bitset_ones(*old(bits)).remove(bit as nat),
        bitset_wf(*final(bits)),
{
    bits.set(bit, false)
}

/// `FixedBitSet::ones` then `nth`: the set bits come in increasing order, so this is the set bit
/// with `n` set bits below it, if there are more than `n` set bits.
#[verifier::external_body]
pub(crate) fn bitset_nth_one(bits: &FixedBitSet, n: usize) -> (one: Option<usize>)
    requires
        bitset_wf(*bits),
    ensures
        match one {
            Some(x) => bitset_ones(*bits).contains(x as nat) && rank(bitset_ones(*bits), x as nat) == n,
            None => n >= bitset_ones(*bits).len(),
        },
{
    bits.ones().nth(n)
}

/// `Extend::extend` of `FixedBitSet` with bits below the length: they are set as well.
#[verifier::external_body]
pub(crate) fn bitset_extend(bits: &mut FixedBitSet, ones: Vec<usize>)
    requires
        bitset_wf(*old(bits)),
        forall|k: int| 0 <= k < ones@.len() ==> #[trigger] ones@[k] < bitset_len(*old(bits)),
    ensures
        bitset_len(*final(bits)) == bitset_len(*old(bits)),
        forall|i: nat| #[trigger] bitset_ones(*final(bits)).contains(i) <==> (bitset_ones(*old(bits)).contains(i)
            || exists|k: int| 0 <= k < ones@.len() && ones@[k] == i),
        bitset_wf(*final(bits)),
{
    bits.extend(ones)
}

/// `FixedBitSet::len`: the number of bits, set or not.
#[verifier::external_body]
pub(crate) fn bitset_bit_count(bits: &FixedBitSet) -> (n: usize)
    ensures
        n == bitset_len(*bits),
{
    bits.len()
}

/// `Clone::clone` of `FixedBitSet`: the same bits.
#[verifier::external_body]
pub(crate) fn bitset_clone(bits: &FixedBitSet) -> (copy: FixedBitSet)
    ensures
        bitset_len(copy) == bitset_len(*bits),
        bitset_ones(copy) == bitset_ones(*bits),
{
    bits.clone()
}

} // verus!
