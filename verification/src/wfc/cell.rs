//! The cells of a map being generated: a chosen tile, or the tiles still possible.
use super::bitset::{
    below, bitset_clone, bitset_count, bitset_fill, bitset_intersect, bitset_len, bitset_nth_one,
    bitset_ones, bitset_wf, bitset_with_capacity, rank,
};
use super::TileId;
use fixedbitset::FixedBitSet;
use rand::Rng;
use rand_xoshiro::Xoshiro256PlusPlus;
use vstd::prelude::*;

verus! {

/// The random number generator that map generation draws from.
#[verifier::external_type_specification]
#[verifier::external_body]
pub struct ExXoshiro256PlusPlus(Xoshiro256PlusPlus);

/// The generator was made by `SeedableRng::seed_from_u64`, and only `gen_range` over `0..n`
/// was drawn from it since.
pub uninterp spec fn rng_seeded(rng: Xoshiro256PlusPlus) -> bool;

/// The seed that a seeded generator was made from.
pub uninterp spec fn rng_seed(rng: Xoshiro256PlusPlus) -> u64;

/// The bounds `n` of the numbers drawn from a seeded generator since it was made, in order.
pub uninterp spec fn rng_draws(rng: Xoshiro256PlusPlus) -> Seq<usize>;

/// The number below `n` that `gen_range(0..n)` draws from the generator made from `seed`
/// after numbers below each of `bounds` were drawn from it, in order. Xoshiro256++ and its
/// seeding are deterministic, so this depends on these values alone.
pub uninterp spec fn seeded_draw(seed: u64, bounds: Seq<usize>, n: usize) -> usize;

/// `Rng::gen_range` over `0..n`: a number below `n`. It panics on an empty range. From a seeded
/// generator it draws the number that the seed and the earlier draws decide, and records the
/// draw.
#[verifier::external_body]
pub(crate) fn random_below(rng: &mut Xoshiro256PlusPlus, n: usize) -> (choice: usize)
    requires
        n > 0,
    ensures
        choice < n,
        rng_seeded(*old(rng)) ==> {
            &&& rng_seeded(*final(rng))
            &&& rng_seed(*final(rng)) == rng_seed(*old(rng))
            &&& rng_draws(*final(rng)) == rng_draws(*old(rng)).push(n)
            &&& choice == seeded_draw(rng_seed(*old(rng)), rng_draws(*old(rng)), n)
        },
{
    rng.gen_range(0..n)
}

/// A cell of a map: either the tile chosen for it, or the number of tiles still possible there
/// together with the set of those tiles.
#[derive(Debug, Eq, PartialEq)]
pub enum Cell {
    Collapsed(TileId),
    Alternatives(usize, FixedBitSet),
}

impl Cell {
    /// The count of alternatives is the number of tiles in the set.
    pub open spec fn wf(&self) -> bool {
        match self {
            Cell::Collapsed(_) => true,
            Cell::Alternatives(n, alts) => bitset_wf(*alts) && *n == bitset_ones(*alts).len(),
        }
    }

    /// The tiles still possible; none for a collapsed cell.
    pub open spec fn alternatives(&self) -> Set<nat> {
        match self {
            Cell::Collapsed(_) => Set::empty(),
            Cell::Alternatives(_, alts) => bitset_ones(*alts),
        }
    }

    /// The number of tiles that the set of alternatives has room for.
    pub open spec fn capacity(&self) -> nat {
        match self {
            Cell::Collapsed(_) => 0,
            Cell::Alternatives(_, alts) => bitset_len(*alts),
        }
    }

    /// Two cells hold the same: the same tile, or the same alternatives in sets of the same size.
    pub open spec fn same(&self, other: &Cell) -> bool {
        match (self, other) {
            (Cell::Collapsed(a), Cell::Collapsed(b)) => a == b,
            (Cell::Alternatives(n, a), Cell::Alternatives(m, b)) => n == m && bitset_ones(*a)
                == bitset_ones(*b) && bitset_len(*a) == bitset_len(*b),
            _ => false,
        }
    }

    /// A cell where every one of `num_alts` tiles is still possible.
    pub fn empty(num_alts: usize) -> (cell: Self)
        ensures
            cell is Alternatives,
            cell.wf(),
            cell.alternatives() == below(num_alts as nat),
            cell.capacity() == num_alts,
            cell->Alternatives_0 == num_alts,
    {
        let mut alts = bitset_with_capacity(num_alts);
        bitset_fill(&mut alts);
        proof {
            lemma_below_len(num_alts as nat);
        }
        Cell::Alternatives(num_alts, alts)
    }

    /// The alternative with `choice` alternatives below it, if the cell has that many.
    pub fn select_nth(&self, choice: usize) -> (tile: Option<TileId>)
        requires
            self.wf(),
        ensures
            match tile {
                Some(t) => self.alternatives().contains(t as nat) && rank(self.alternatives(), t as nat)
                    == choice,
                None => choice >= self.alternatives().len(),
            },
    {
        match self {
            Cell::Collapsed(_) => None,
            Cell::Alternatives(_, alts) => bitset_nth_one(alts, choice),
        }
    }

    /// One of the alternatives, chosen at random; `None` for a collapsed cell or one without
    /// alternatives.
    pub fn select(&self, rng: &mut Xoshiro256PlusPlus) -> (tile: Option<TileId>)
        requires
            self.wf(),
        ensures
            match tile {
                Some(t) => self.alternatives().contains(t as nat),
                None => self.alternatives().len() == 0,
            },
            self.alternatives().len() == 0 ==> *final(rng) == *old(rng),
            self.alternatives().len() > 0 && rng_seeded(*old(rng)) ==> {
                &&& rng_seeded(*final(rng))
                &&& rng_seed(*final(rng)) == rng_seed(*old(rng))
                &&& rng_draws(*final(rng)) == rng_draws(*old(rng)).push(self.alternatives().len() as usize)
                &&& tile matches Some(t) && rank(self.alternatives(), t as nat) == seeded_draw(
                    rng_seed(*old(rng)),
                    rng_draws(*old(rng)),
                    self.alternatives().len() as usize,
                )
            },
    {
        if let Cell::Alternatives(num_alts, _) = self {
            if *num_alts == 0usize {
                return None;
            }
            let choice = random_below(rng, *num_alts);
            self.select_nth(choice)
        } else {
            None
        }
    }

    /// The cell becomes the given tile.
    pub fn collapse(&mut self, tile_id: TileId)
        ensures
            *final(self) == Cell::Collapsed(tile_id),
    {
        *self = Cell::Collapsed(tile_id);
    }

    /// Replaces the alternatives of a cell that has alternatives.
    pub fn set_alternatives(&mut self, alternatives: FixedBitSet)
        requires
            old(self).wf(),
            bitset_wf(alternatives),
        ensures
            final(self).wf(),
            match *old(self) {
                Cell::Collapsed(t) => *final(self) == Cell::Collapsed(t),
                Cell::Alternatives(_, _) => *final(self) is Alternatives && final(self).alternatives()
                    == bitset_ones(alternatives) && final(self).capacity() == bitset_len(alternatives),
            },
    {
        if let Cell::Alternatives(num_alts, alts) = self {
            *alts = alternatives;
            *num_alts = bitset_count(alts);
        }
    }

    /// Keeps of a cell's alternatives those that are also in `compatible`.
    pub fn retain(&mut self, compatible: &FixedBitSet)
        requires
            old(self).wf(),
        ensures
            final(self).wf(),
            match *old(self) {
                Cell::Collapsed(t) => *final(self) == Cell::Collapsed(t),
                Cell::Alternatives(_, _) => *final(self) is Alternatives && final(self).alternatives()
                    == old(self).alternatives().intersect(bitset_ones(*compatible))
                    && final(self).capacity() == old(self).capacity(),
            },
    {
        if let Cell::Alternatives(num_alts, alts) = self {
            bitset_intersect(alts, compatible);
            *num_alts = bitset_count(alts);
        }
    }
}

impl Clone for Cell {
    fn clone(&self) -> (copy: Self)
        ensures
            copy.same(self),
            self.wf() ==> copy.wf(),
    {
        match self {
            Cell::Collapsed(t) => Cell::Collapsed(*t),
            Cell::Alternatives(n, alts) => Cell::Alternatives(*n, bitset_clone(alts)),
        }
    }
}

/// There are `n` numbers below `n`.
pub proof fn lemma_below_len(n: nat)
    ensures
        below(n).finite(),
        below(n).len() == n,
    decreases n,
{
    if n == 0 {
        assert(below(0) =~= Set::<nat>::empty());
    } else {
        lemma_below_len((n - 1) as nat);
        assert(below(n) =~= below((n - 1) as nat).insert((n - 1) as nat));
    }
}

} // verus!
