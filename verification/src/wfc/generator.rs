//! The generator: the state of collapsing the cells of a map one by one, choosing among the
//! tiles of a template, and going back when a cell is left without tiles.
use super::bitset::{
    below, bitset_clear, rank, bitset_count, bitset_fill, bitset_intersect, bitset_len, bitset_ones,
    bitset_wf, bitset_with_capacity,
};
use super::cell::{lemma_below_len, rng_draws, rng_seed, rng_seeded, seeded_draw, Cell};
use super::seed::{Seed, SeedLayout, SeedType};
use super::template::{compatible_ids, Template};
use super::tile::{compatible_values, Tile};
use super::TileId;
use crate::hexgrid::coord::{
    hex, lemma_opposite_direction, neighbour_offset, opposite_direction, HexCoord,
};
use crate::hexgrid::grid::{lemma_set_elsewhere, Grid};
use crate::hexgrid::layout::GridLayout;
use fixedbitset::FixedBitSet;
use rand::SeedableRng;
use std::collections::HashMap;
use vstd::std_specs::iter::IteratorSpec;
use rand_xoshiro::Xoshiro256PlusPlus;
use vstd::prelude::*;

verus! {

/// `SeedableRng::seed_from_u64` for `Xoshiro256PlusPlus`: a generator seeded from `seed`,
/// nothing drawn from it yet.
#[verifier::external_body]
fn rng_from_seed(seed: u64) -> (rng: Xoshiro256PlusPlus)
    ensures
        rng_seeded(rng),
        rng_seed(rng) == seed,
        rng_draws(rng) == Seq::<usize>::empty(),
{
    Xoshiro256PlusPlus::seed_from_u64(seed)
}

/// The neighbour of `p` in direction `d`.
pub open spec fn neighbour(p: HexCoord, d: int) -> HexCoord {
    hex(p.q + neighbour_offset(d).q, p.r + neighbour_offset(d).r)
}

/// The layout holds `p`, and can locate it.
pub open spec fn holds<L: GridLayout>(layout: L, p: HexCoord) -> bool {
    layout.can_locate(p) && layout.spec_contains(p)
}

/// The key of a position in the map of pending positions: its two components, each shifted to
/// be non-negative, side by side in one number.
pub open spec fn coord_key(p: HexCoord) -> u64 {
    ((p.q + 0x8000_0000) * 0x1_0000_0000 + (p.r + 0x8000_0000)) as u64
}

/// The position whose key is `k`.
pub open spec fn key_coord(k: u64) -> HexCoord {
    hex(k / 0x1_0000_0000 - 0x8000_0000, k % 0x1_0000_0000 - 0x8000_0000)
}

/// Keys and positions correspond one to one.
pub proof fn lemma_coord_key(p: HexCoord, k: u64)
    ensures
        key_coord(coord_key(p)) == p,
        coord_key(key_coord(k)) == k,
{
    let a = p.q + 0x8000_0000;
    let b = p.r + 0x8000_0000;
    assert(0 <= a * 0x1_0000_0000 + b <= u64::MAX) by (nonlinear_arith)
        requires
            0 <= a < 0x1_0000_0000,
            0 <= b < 0x1_0000_0000,
    ;
    let n = a * 0x1_0000_0000 + b;
    assert(n / 0x1_0000_0000 == a && n % 0x1_0000_0000 == b) by (nonlinear_arith)
        requires
            0 <= a < 0x1_0000_0000,
            0 <= b < 0x1_0000_0000,
            n == a * 0x1_0000_0000 + b,
    ;
    assert(k == (k / 0x1_0000_0000) * 0x1_0000_0000 + k % 0x1_0000_0000 && k / 0x1_0000_0000 < 0x1_0000_0000) by (
    nonlinear_arith)
        requires
            0 <= k <= u64::MAX,
    ;
}

/// The entries of a map of pending positions are finitely many.
pub open spec fn entries_ok(entries: Map<u64, usize>) -> bool {
    entries.dom().finite()
}

/// The entries as a map from positions to scores.
pub open spec fn entry_map(entries: Map<u64, usize>) -> Map<HexCoord, usize> {
    Map::new(|p: HexCoord| entries.contains_key(coord_key(p)), |p: HexCoord| entries[coord_key(p)])
}

/// Entry `a` is to be collapsed before entry `b`: it has fewer alternatives, or as many and a
/// greater `q`, or the same `q` and a greater `r`.
pub open spec fn comes_first(a: (HexCoord, usize), b: (HexCoord, usize)) -> bool {
    a.1 < b.1 || (a.1 == b.1 && (a.0.q > b.0.q || (a.0.q == b.0.q && a.0.r > b.0.r)))
}

/// The key of position `p`.
pub fn position_key(p: HexCoord) -> (k: u64)
    ensures
        k == coord_key(p),
{
    proof {
        lemma_coord_key(p, 0);
    }
    let a = (p.q as i64 + 0x8000_0000) as u64;
    let b = (p.r as i64 + 0x8000_0000) as u64;
    assert(a * 0x1_0000_0000 + b <= u64::MAX) by (nonlinear_arith)
        requires
            0 <= a < 0x1_0000_0000,
            0 <= b < 0x1_0000_0000,
    ;
    a * 0x1_0000_0000 + b
}

/// The position whose key is `k`.
fn key_position(k: u64) -> (p: HexCoord)
    ensures
        p == key_coord(k),
{
    let q = (k / 0x1_0000_0000) as i64 - 0x8000_0000;
    let r = (k % 0x1_0000_0000) as i64 - 0x8000_0000;
    HexCoord::new(q as i32, r as i32)
}

/// Sets the score of position `key`, adding an entry for it if it has none.
pub fn insert_entry(entries: &mut HashMap<u64, usize>, key: HexCoord, score: usize)
    requires
        entries_ok(old(entries)@),
    ensures
        entries_ok(final(entries)@),
        entry_map(final(entries)@) == entry_map(old(entries)@).insert(key, score),
{
    broadcast use vstd::std_specs::hash::group_hash_axioms;

    let ghost before = entries@;
    let k = position_key(key);
    entries.insert(k, score);
    proof {
        assert forall|p: HexCoord| #![trigger coord_key(p)] coord_key(p) == k <==> p == key by {
            lemma_coord_key(p, 0);
            lemma_coord_key(key, 0);
        }
        assert(entry_map(entries@) =~= entry_map(before).insert(key, score));
    }
}

/// Removes the entry of position `key`, if there is one.
pub fn remove_entry(entries: &mut HashMap<u64, usize>, key: HexCoord)
    requires
        entries_ok(old(entries)@),
    ensures
        entries_ok(final(entries)@),
        entry_map(final(entries)@) == entry_map(old(entries)@).remove(key),
{
    broadcast use vstd::std_specs::hash::group_hash_axioms;

    let ghost before = entries@;
    let k = position_key(key);
    entries.remove(&k);
    proof {
        assert forall|p: HexCoord| #![trigger coord_key(p)] coord_key(p) == k <==> p == key by {
            lemma_coord_key(p, 0);
            lemma_coord_key(key, 0);
        }
        assert(entry_map(entries@) =~= entry_map(before).remove(key));
    }
}

/// The position of the entry that comes first, if there are entries.
pub fn first_entry(entries: &HashMap<u64, usize>) -> (first: Option<HexCoord>)
    requires
        entries_ok(entries@),
    ensures
        match first {
            Some(p) => entry_map(entries@).contains_key(p) && forall|k: HexCoord| #[trigger]
                entry_map(entries@).contains_key(k) && k != p ==> comes_first(
                (p, entry_map(entries@)[p]),
                (k, entry_map(entries@)[k]),
            ),
            None => entries@.len() == 0,
        },
{
    broadcast use vstd::std_specs::hash::group_hash_axioms;

    let mut best: Option<(HexCoord, usize)> = None;
    let iter = entries.iter();
    let ghost all = iter.remaining();
    for item in it: iter
        invariant
            it.seq() == all,
            all == entries.iter().remaining(),
            all.len() == entries@.dom().len(),
            forall|i: int| 0 <= i < all.len() ==> entries@.contains_key(*(#[trigger] all[i]).0) && entries@[*all[i].0]
                == *all[i].1,
            match best {
                Some((b, t)) => {
                    &&& entries@.contains_key(coord_key(b))
                    &&& entries@[coord_key(b)] == t
                    &&& forall|j: int| 0 <= j < it.index() ==> key_coord(*(#[trigger] all[j]).0) == b || comes_first(
                        (b, t),
                        (key_coord(*all[j].0), *all[j].1),
                    )
                },
                None => it.index() == 0,
            },
    {
        let ghost j = it.index();
        let p = key_position(*item.0);
        let s = *item.1;
        proof {
            lemma_coord_key(p, *item.0);
            assert(all[j] == item);
        }
        match best {
            Some((b, t)) => {
                if s < t || (s == t && (p.q > b.q || (p.q == b.q && p.r > b.r))) {
                    best = Some((p, s));
                }
            },
            None => {
                best = Some((p, s));
            },
        }
    }
    match best {
        Some((p, _)) => {
            proof {
                assert forall|k: HexCoord| #[trigger] entry_map(entries@).contains_key(k) && k != p implies comes_first(
                    (p, entry_map(entries@)[p]),
                    (k, entry_map(entries@)[k]),
                ) by {
                    let key = coord_key(k);
                    assert(entries@.contains_key(key));
                    assert(all.contains((&key, &entries@[key])));
                    let j = choose|j: int| 0 <= j < all.len() && all[j] == (&key, &entries@[key]);
                    lemma_coord_key(k, 0);
                    assert(key_coord(*all[j].0) == k);
                }
            }
            Some(p)
        },
        None => {
            proof {
                assert(entries@.dom().len() == 0);
            }
            None
        },
    }
}

/// `p` is one of the six neighbours of `coord`.
pub open spec fn is_neighbour(coord: HexCoord, p: HexCoord) -> bool {
    exists|d: int| 0 <= d < 6 && #[trigger] neighbour(coord, d) == p
}

/// The six neighbours of a position are distinct.
proof fn lemma_neighbours_distinct(coord: HexCoord)
    requires
        i32::MIN < coord.q < i32::MAX,
        i32::MIN < coord.r < i32::MAX,
    ensures
        forall|a: int, b: int| 0 <= a < 6 && 0 <= b < 6 && a != b ==> #[trigger] neighbour(coord, a)
            != #[trigger] neighbour(coord, b),
{
}

/// Going one step in a direction and one step in the opposite direction comes back.
proof fn lemma_neighbour_back(p: HexCoord, d: int)
    requires
        0 <= d < 6,
        i32::MIN < p.q < i32::MAX,
        i32::MIN < p.r < i32::MAX,
    ensures
        0 <= opposite_direction(d) < 6,
        neighbour(neighbour(p, d), opposite_direction(d)) == p,
{
    lemma_opposite_direction(d);
}

/// Generator is the state of the iterative process for generating a map using WFC
pub struct Generator<'a, Layout: GridLayout, Item> {
    pub template: &'a Template<Item>,
    pub grid: Grid<Layout, Cell>,
    /// Coordinate, selected tile, rejected tiles
    pub collapsed: Vec<(HexCoord, TileId, Vec<TileId>)>,
    /// The positions whose alternatives were narrowed, with their number of alternatives.
    pub pending: HashMap<u64, usize>,
    pub rejected: Option<Vec<TileId>>,
    /// The position collapsed next.
    pub next: Option<HexCoord>,
    /// The random numbers that choose among the alternatives.
    pub rand: Xoshiro256PlusPlus,
}

/// Cell `new` is cell `old` after keeping of its alternatives those in `compatible`.
pub open spec fn retained(old: Cell, new: Cell, compatible: Set<nat>) -> bool {
    match old {
        Cell::Collapsed(t) => new == Cell::Collapsed(t),
        Cell::Alternatives(_, _) => {
            &&& new is Alternatives
            &&& new.wf()
            &&& new.alternatives() == old.alternatives().intersect(compatible)
            &&& new.capacity() == old.capacity()
        },
    }
}

impl<'a, Layout: GridLayout, Item> Generator<'a, Layout, Item> {
    /// The number of tiles of the template.
    pub open spec fn tile_count(&self) -> nat {
        self.template.tile_count()
    }

    /// The cell at `p`.
    pub open spec fn cell_at(&self, p: HexCoord) -> Cell {
        self.grid.spec_at(p)->0
    }

    /// The position that is collapsed next, if any.
    pub open spec fn next_position(&self) -> Option<HexCoord> {
        self.next
    }

    /// A cell is consistent and refers only to tiles of the template.
    pub open spec fn cell_ok(&self, c: Cell) -> bool {
        &&& c.wf()
        &&& match c {
            Cell::Collapsed(t) => t < self.tile_count(),
            Cell::Alternatives(_, _) => c.capacity() == self.tile_count() && forall|x: nat| #[trigger]
                c.alternatives().contains(x) ==> x < self.tile_count(),
        }
    }

    /// The template and the grid are well formed, and so is every cell.
    pub open spec fn cells_ok(&self) -> bool {
        &&& self.template.wf()
        &&& self.grid.wf()
        &&& self.grid.layout.well_shaped()
        &&& forall|p: HexCoord| holds(self.grid.layout, p) ==> #[trigger] self.cell_ok(self.cell_at(p))
    }

    /// The tiles that the collapsed neighbours of `coord` leave possible there: those that fit,
    /// for each collapsed neighbour, next to its tile in the direction of `coord`.
    pub open spec fn allowed(&self, coord: HexCoord) -> Set<nat> {
        Set::new(
            |j: nat|
                j < self.tile_count() && forall|d: int| 0 <= d < 6 ==> #[trigger] self.fits_from(coord, d, j),
        )
    }

    /// Tile `j` at `coord` fits next to the neighbour in direction `d`, if that neighbour is
    /// collapsed.
    pub open spec fn fits_from(&self, coord: HexCoord, d: int, j: nat) -> bool {
        let nb = neighbour(coord, d);
        (holds(self.grid.layout, nb) && self.cell_at(nb) is Collapsed) ==> forall|e: int|
            0 <= e < 6 && #[trigger] neighbour(nb, e) == coord ==> self.template.compatible_set(
                self.cell_at(nb)->Collapsed_0 as int,
                e,
            ).contains(j)
    }

    /// Every entry of `collapsed` is a collapsed cell of the grid with its tile, none of the
    /// tiles rejected before it, and every collapsed cell has exactly one entry.
    pub open spec fn collapsed_ok(&self) -> bool {
        &&& forall|k: int| #![trigger self.collapsed@[k]] 0 <= k < self.collapsed@.len() ==> {
            &&& holds(self.grid.layout, self.collapsed@[k].0)
            &&& self.cell_at(self.collapsed@[k].0) == Cell::Collapsed(self.collapsed@[k].1)
            &&& !self.collapsed@[k].2@.contains(self.collapsed@[k].1)
            &&& forall|x: int| 0 <= x < self.collapsed@[k].2@.len() ==> #[trigger] self.collapsed@[k].2@[x]
                < self.tile_count()
        }
        &&& forall|i: int, j: int| 0 <= i < j < self.collapsed@.len() ==> (#[trigger] self.collapsed@[i]).0
            != (#[trigger] self.collapsed@[j]).0
        &&& forall|p: HexCoord| holds(self.grid.layout, p) && (#[trigger] self.cell_at(p)) is Collapsed
            ==> exists|k: int| 0 <= k < self.collapsed@.len() && (#[trigger] self.collapsed@[k]).0 == p
    }

    /// Every pending position is a cell with alternatives, with their number as its score, and
    /// every cell with fewer alternatives than there are tiles is pending.
    pub open spec fn pending_ok(&self) -> bool {
        &&& entries_ok(self.pending@)
        &&& forall|p: HexCoord| #[trigger] entry_map(self.pending@).contains_key(p) ==> {
            &&& holds(self.grid.layout, p)
            &&& self.cell_at(p) is Alternatives
            &&& entry_map(self.pending@)[p] == self.cell_at(p)->Alternatives_0
        }
        &&& forall|p: HexCoord| holds(self.grid.layout, p) && (#[trigger] self.cell_at(p)) is Alternatives
            && self.cell_at(p)->Alternatives_0 < self.tile_count() ==> entry_map(self.pending@).contains_key(p)
    }

    /// The rejected tiles are tiles of the template, and the cell collapsed next has
    /// alternatives, none of them rejected.
    pub open spec fn next_ok(&self) -> bool {
        &&& self.rejected is Some
        &&& forall|x: int| 0 <= x < self.rejected->0@.len() ==> #[trigger] self.rejected->0@[x] < self.tile_count()
        &&& self.next matches Some(c) ==> {
            &&& self.grid.layout.can_locate(c)
            &&& self.grid.layout.spec_contains(c) ==> {
                &&& self.cell_at(c) is Alternatives
                &&& forall|x: int| 0 <= x < self.rejected->0@.len() ==> !self.cell_at(c).alternatives().contains(
                    #[trigger] self.rejected->0@[x] as nat,
                )
            }
        }
    }

    /// Every collapsed cell holds a tile that its collapsed neighbours allow, and every cell with
    /// alternatives offers only tiles that its collapsed neighbours allow.
    pub open spec fn tiles_fit(&self) -> bool {
        forall|p: HexCoord| #![trigger self.allowed(p)] holds(self.grid.layout, p) ==> match self.cell_at(p) {
            Cell::Collapsed(t) => self.allowed(p).contains(t as nat),
            Cell::Alternatives(_, _) => self.cell_at(p).alternatives().subset_of(self.allowed(p)),
        }
    }

    /// The state of the generator is consistent.
    pub open spec fn inv(&self) -> bool {
        &&& self.cells_ok()
        &&& self.collapsed_ok()
        &&& self.pending_ok()
        &&& self.next_ok()
        &&& self.tiles_fit()
    }

    /// A state with at least the collapsed neighbours of `coord` that `other` has, holding the
    /// same tiles, allows there at most the tiles that `other` allows.
    pub proof fn lemma_allowed_grows(&self, other: &Self, coord: HexCoord)
        requires
            self.template == other.template,
            self.grid.layout == other.grid.layout,
            forall|d: int| #![trigger neighbour(coord, d)] 0 <= d < 6 && holds(self.grid.layout, neighbour(coord, d))
                && other.cell_at(neighbour(coord, d)) is Collapsed ==> self.cell_at(neighbour(coord, d))
                == other.cell_at(neighbour(coord, d)),
        ensures
            self.allowed(coord).subset_of(other.allowed(coord)),
    {
        assert forall|j: nat| self.allowed(coord).contains(j) implies other.allowed(coord).contains(j) by {
            assert forall|d: int| 0 <= d < 6 implies #[trigger] other.fits_from(coord, d, j) by {
                assert(self.fits_from(coord, d, j));
                let nb = neighbour(coord, d);
                if holds(self.grid.layout, nb) && other.cell_at(nb) is Collapsed {
                    assert(self.cell_at(nb) == other.cell_at(nb));
                }
            }
        }
    }

    /// The tiles allowed at `coord` depend only on which of its neighbours are collapsed, and to
    /// which tiles.
    pub proof fn lemma_allowed_frame(&self, other: &Self, coord: HexCoord)
        requires
            self.template == other.template,
            self.grid.layout == other.grid.layout,
            forall|d: int| #![trigger neighbour(coord, d)] 0 <= d < 6 && holds(self.grid.layout, neighbour(coord, d)) ==> {
                &&& (self.cell_at(neighbour(coord, d)) is Collapsed <==> other.cell_at(neighbour(coord, d)) is Collapsed)
                &&& self.cell_at(neighbour(coord, d)) is Collapsed ==> self.cell_at(neighbour(coord, d))
                    == other.cell_at(neighbour(coord, d))
            },
        ensures
            self.allowed(coord) == other.allowed(coord),
    {
        assert forall|j: nat, d: int| 0 <= d < 6 implies #[trigger] self.fits_from(coord, d, j) == other.fits_from(coord, d, j) by {
            let nb = neighbour(coord, d);
            if holds(self.grid.layout, nb) {
                assert(self.cell_at(nb) is Collapsed <==> other.cell_at(nb) is Collapsed);
            }
        }
        assert forall|j: nat| self.allowed(coord).contains(j) <==> other.allowed(coord).contains(j) by {
            if self.allowed(coord).contains(j) {
                assert forall|d: int| 0 <= d < 6 implies #[trigger] other.fits_from(coord, d, j) by {
                    assert(self.fits_from(coord, d, j));
                }
            }
            if other.allowed(coord).contains(j) {
                assert forall|d: int| 0 <= d < 6 implies #[trigger] self.fits_from(coord, d, j) by {
                    assert(other.fits_from(coord, d, j));
                }
            }
        }
        assert(self.allowed(coord) =~= other.allowed(coord));
    }

    /// Narrows the alternatives of the neighbours of `coord`, where `tile` was chosen, to the
    /// tiles that fit next to it, and makes those that keep alternatives pending with their new
    /// number of alternatives.
    pub fn propagate(&mut self, coord: HexCoord, tile: TileId)
        requires
            old(self).cells_ok(),
            holds(old(self).grid.layout, coord),
            tile < old(self).tile_count(),
            entries_ok(old(self).pending@),
        ensures
            final(self).template == old(self).template,
            final(self).grid.layout == old(self).grid.layout,
            final(self).collapsed@ == old(self).collapsed@,
            final(self).rand == old(self).rand,
            final(self).rejected == old(self).rejected,
            final(self).next == old(self).next,
            final(self).cells_ok(),
            entries_ok(final(self).pending@),
            forall|d: int| 0 <= d < 6 && holds(old(self).grid.layout, #[trigger] neighbour(coord, d)) ==> retained(
                old(self).cell_at(neighbour(coord, d)),
                final(self).cell_at(neighbour(coord, d)),
                old(self).template.compatible_set(tile as int, d),
            ),
            forall|p: HexCoord| #![trigger final(self).cell_at(p)] holds(old(self).grid.layout, p) && !is_neighbour(coord, p)
                ==> final(self).cell_at(p) == old(self).cell_at(p),
            forall|d: int| 0 <= d < 6 && holds(old(self).grid.layout, #[trigger] neighbour(coord, d))
                && final(self).cell_at(neighbour(coord, d)) is Alternatives ==> {
                &&& entry_map(final(self).pending@).contains_key(neighbour(coord, d))
                &&& entry_map(final(self).pending@)[neighbour(coord, d)] == final(self).cell_at(
                    neighbour(coord, d),
                )->Alternatives_0
            },
            forall|p: HexCoord| #![trigger entry_map(final(self).pending@).contains_key(p)]
                !is_neighbour(coord, p) || !holds(old(self).grid.layout, p) || final(self).cell_at(p) is Collapsed ==> {
                &&& entry_map(final(self).pending@).contains_key(p) == entry_map(old(self).pending@).contains_key(p)
                &&& entry_map(final(self).pending@).contains_key(p) ==> entry_map(final(self).pending@)[p]
                    == entry_map(old(self).pending@)[p]
            },
    {
        let template = self.template;
        let pairs = template.compatible_tiles(tile);
        let ghost old_self = *self;
        let mut d: usize = 0;
        while d < 6
            invariant
                old_self.cells_ok(),
                holds(old_self.grid.layout, coord),
                tile < old_self.tile_count(),
                template == old_self.template,
                self.template == old_self.template,
                self.grid.layout == old_self.grid.layout,
                self.collapsed@ == old_self.collapsed@,
                self.rand == old_self.rand,
                self.rejected == old_self.rejected,
                self.next == old_self.next,
                self.cells_ok(),
                entries_ok(self.pending@),
                pairs@.len() == 6,
                forall|i: int| 0 <= i < 6 ==> {
                    &&& (#[trigger] pairs@[i]).0 == neighbour_offset(i)
                    &&& bitset_ones(*pairs@[i].1) == template.compatible_set(tile as int, i)
                    &&& bitset_wf(*pairs@[i].1)
                },
                d <= 6,
                forall|i: int| 0 <= i < d && holds(old_self.grid.layout, #[trigger] neighbour(coord, i)) ==> retained(
                    old_self.cell_at(neighbour(coord, i)),
                    self.cell_at(neighbour(coord, i)),
                    template.compatible_set(tile as int, i),
                ),
                forall|p: HexCoord| #![trigger self.cell_at(p)] holds(old_self.grid.layout, p) && (forall|i: int|
                    0 <= i < d ==> p != #[trigger] neighbour(coord, i)) ==> self.cell_at(p) == old_self.cell_at(p),
                forall|i: int| 0 <= i < d && holds(old_self.grid.layout, #[trigger] neighbour(coord, i))
                    && self.cell_at(neighbour(coord, i)) is Alternatives ==> {
                    &&& entry_map(self.pending@).contains_key(neighbour(coord, i))
                    &&& entry_map(self.pending@)[neighbour(coord, i)] == self.cell_at(neighbour(coord, i))->Alternatives_0
                },
                forall|p: HexCoord| #![trigger entry_map(self.pending@).contains_key(p)]
                    (forall|i: int| 0 <= i < d && holds(old_self.grid.layout, #[trigger] neighbour(coord, i))
                        && self.cell_at(p) is Alternatives ==> p != neighbour(coord, i)) ==> {
                    &&& entry_map(self.pending@).contains_key(p) == entry_map(old_self.pending@).contains_key(p)
                    &&& entry_map(self.pending@).contains_key(p) ==> entry_map(self.pending@)[p]
                        == entry_map(old_self.pending@)[p]
                },
            decreases 6 - d,
        {
            let (offset, compatible) = pairs[d];
            proof {
                old_self.grid.layout.lemma_neighbour_locatable(coord, d as int);
                lemma_neighbours_distinct(coord);
            }
            let nb = coord.plus(offset);
            assert(nb == neighbour(coord, d as int));
            let ghost before = *self;
            match self.grid.get(nb) {
                Some(current) => {
                    proof {
                        self.grid.layout.lemma_coord_of_offset(nb);
                        assert(self.cell_ok(self.cell_at(nb)));
                    }
                    let mut cell = current.clone();
                    cell.retain(compatible);
                    let num = match &cell {
                        Cell::Alternatives(num, _) => Some(*num),
                        Cell::Collapsed(_) => None,
                    };
                    self.grid.set(nb, cell);
                    if let Some(num) = num {
                        insert_entry(&mut self.pending, nb, num);
                    }
                    proof {
                        assert forall|p: HexCoord| holds(self.grid.layout, p) implies #[trigger] self.cell_ok(self.cell_at(p)) by {
                            lemma_set_elsewhere(before.grid, self.grid, nb, cell, p);
                            if p != nb {
                                assert(before.cell_ok(before.cell_at(p)));
                            }
                        }
                        assert forall|p: HexCoord| #![trigger self.cell_at(p)] holds(old_self.grid.layout, p) && (forall|i: int|
                            0 <= i < d + 1 ==> p != #[trigger] neighbour(coord, i)) implies self.cell_at(p) == old_self.cell_at(p) by {
                            lemma_set_elsewhere(before.grid, self.grid, nb, cell, p);
                            assert(p != neighbour(coord, d as int));
                            assert(forall|i: int| 0 <= i < d ==> p != #[trigger] neighbour(coord, i));
                            assert(before.cell_at(p) == old_self.cell_at(p));
                        }
                        assert forall|i: int| 0 <= i < d + 1 && holds(old_self.grid.layout, #[trigger] neighbour(coord, i))
                            implies retained(
                            old_self.cell_at(neighbour(coord, i)),
                            self.cell_at(neighbour(coord, i)),
                            template.compatible_set(tile as int, i),
                        ) by {
                            lemma_set_elsewhere(before.grid, self.grid, nb, cell, neighbour(coord, i));
                            if i == d {
                                assert forall|i2: int| 0 <= i2 < d implies nb != #[trigger] neighbour(coord, i2) by {}
                                assert(before.cell_at(nb) == old_self.cell_at(nb));
                            }
                        }
                    }
                },
                None => {
                    proof {
                        self.grid.layout.lemma_coord_of_offset(nb);
                    }
                },
            }
            proof {
                assert forall|i: int| 0 <= i < d + 1 && holds(old_self.grid.layout, #[trigger] neighbour(coord, i))
                    && self.cell_at(neighbour(coord, i)) is Alternatives implies {
                    &&& entry_map(self.pending@).contains_key(neighbour(coord, i))
                    &&& entry_map(self.pending@)[neighbour(coord, i)] == self.cell_at(neighbour(coord, i))->Alternatives_0
                } by {
                    if i < d {
                        assert(neighbour(coord, i) != nb);
                        lemma_set_elsewhere(before.grid, self.grid, nb, self.cell_at(nb), neighbour(coord, i));
                    }
                }
            }
            d = d + 1;
        }
        proof {
            assert forall|p: HexCoord| #![trigger self.cell_at(p)] holds(old_self.grid.layout, p) && !is_neighbour(coord, p)
                implies self.cell_at(p) == old_self.cell_at(p) by {
                assert forall|i: int| 0 <= i < 6 implies p != #[trigger] neighbour(coord, i) by {}
            }
        }
    }

    /// Takes back the last choice of a tile: its cell gets back the tiles that its collapsed
    /// neighbours allow, but for the tiles rejected there so far and the one taken back, which
    /// now count as rejected; the neighbours that have alternatives get back the tiles that their
    /// collapsed neighbours allow; and the cell is collapsed next.
    pub fn rewind(&mut self)
        requires
            old(self).inv(),
            old(self).collapsed@.len() > 0,
        ensures
            final(self).inv(),
            final(self).template == old(self).template,
            final(self).grid.layout == old(self).grid.layout,
            final(self).collapsed@ == old(self).collapsed@.drop_last(),
            final(self).rand == old(self).rand,
            ({
                let last = old(self).collapsed@.last();
                let rejected = last.2@.push(last.1);
                &&& final(self).next == Some(last.0)
                &&& final(self).rejected == Some(final(self).rejected->0)
                &&& final(self).rejected->0@ == rejected
                &&& final(self).cell_at(last.0) is Alternatives
                &&& forall|x: nat| #[trigger] final(self).cell_at(last.0).alternatives().contains(x) <==> (old(self).allowed(
                    last.0,
                ).contains(x) && forall|k: int| 0 <= k < rejected.len() ==> #[trigger] rejected[k] as nat != x)
                &&& forall|d: int| 0 <= d < 6 && holds(old(self).grid.layout, #[trigger] neighbour(last.0, d))
                    && old(self).cell_at(neighbour(last.0, d)) is Alternatives ==> final(self).cell_at(
                    neighbour(last.0, d),
                ).alternatives() == final(self).allowed(neighbour(last.0, d))
                &&& forall|p: HexCoord| #![trigger final(self).cell_at(p)] holds(old(self).grid.layout, p) && p != last.0
                    && (!is_neighbour(last.0, p) || old(self).cell_at(p) is Collapsed) ==> final(self).cell_at(p)
                    == old(self).cell_at(p)
            }),
    {
        let ghost old_self = *self;
        let n = self.template.available_tiles();
        let entry = self.collapsed.pop().unwrap();
        let (last_coord, last_tile, mut last_rejected) = entry;
        proof {
            let k = old_self.collapsed@.len() - 1;
            assert(old_self.collapsed@[k] == entry);
            assert(old_self.cell_ok(old_self.cell_at(last_coord)));
        }
        last_rejected.push(last_tile);
        proof {
            assert forall|p: HexCoord| holds(self.grid.layout, p) implies #[trigger] self.cell_ok(self.cell_at(p)) by {
                assert(old_self.cell_ok(old_self.cell_at(p)));
            }
        }
        let mut alternatives = self.alternatives(last_coord);
        proof {
            self.lemma_allowed_frame(&old_self, last_coord);
        }
        let mut i: usize = 0;
        while i < last_rejected.len()
            invariant
                n == old_self.tile_count(),
                forall|x: int| 0 <= x < last_rejected@.len() ==> #[trigger] last_rejected@[x] < n,
                i <= last_rejected@.len(),
                bitset_wf(alternatives),
                bitset_len(alternatives) == n,
                forall|x: nat| #[trigger] bitset_ones(alternatives).contains(x) <==> old_self.allowed(last_coord).contains(x)
                    && forall|k: int| 0 <= k < i ==> #[trigger] last_rejected@[k] as nat != x,
            decreases last_rejected@.len() - i,
        {
            let ghost before = bitset_ones(alternatives);
            bitset_clear(&mut alternatives, last_rejected[i]);
            proof {
                assert forall|x: nat| #[trigger] bitset_ones(alternatives).contains(x) <==> old_self.allowed(last_coord).contains(x)
                    && forall|k: int| 0 <= k < i + 1 ==> #[trigger] last_rejected@[k] as nat != x by {
                    if bitset_ones(alternatives).contains(x) {
                        assert(before.contains(x));
                        assert forall|k: int| 0 <= k < i + 1 implies #[trigger] last_rejected@[k] as nat != x by {
                            if k < i {
                                assert(before.contains(x));
                            }
                        }
                    }
                }
            }
            i = i + 1;
        }
        let count = bitset_count(&alternatives);
        insert_entry(&mut self.pending, last_coord, count);
        let mut cell = Cell::empty(n);
        cell.set_alternatives(alternatives);
        let ghost before_set = *self;
        self.grid.set(last_coord, cell);
        let ghost c = last_coord;
        let ghost rejected = last_rejected@;
        self.rejected = Some(last_rejected);
        self.next = Some(last_coord);
        proof {
            old_self.grid.layout.lemma_coord_of_offset(c);
            lemma_set_elsewhere(before_set.grid, self.grid, c, cell, c);
            assert forall|p: HexCoord| #![trigger self.cell_at(p)] holds(self.grid.layout, p) && p != c implies self.cell_at(p)
                == old_self.cell_at(p) by {
                lemma_set_elsewhere(before_set.grid, self.grid, c, cell, p);
            }
            assert forall|p: HexCoord| holds(self.grid.layout, p) implies #[trigger] self.cell_ok(self.cell_at(p)) by {
                if p != c {
                    assert(old_self.cell_ok(old_self.cell_at(p)));
                }
            }
        }
        let ghost s1 = *self;
        proof {
            old_self.grid.layout.lemma_neighbour_locatable(c, 0);
            lemma_neighbours_distinct(c);
        }
        let neighbours = last_coord.neighbours();
        let mut d: usize = 0;
        while d < 6
            invariant
                n == s1.tile_count(),
                self.template == s1.template,
                self.grid.layout == s1.grid.layout,
                self.collapsed@ == s1.collapsed@,
                self.rand == s1.rand,
                self.rejected == s1.rejected,
                self.next == s1.next,
                self.cells_ok(),
                entries_ok(self.pending@),
                holds(s1.grid.layout, c),
                neighbours@.len() == 6,
                forall|i: int| 0 <= i < 6 ==> #[trigger] neighbours@[i] == neighbour(c, i),
                forall|a: int, b: int| 0 <= a < 6 && 0 <= b < 6 && a != b ==> #[trigger] neighbour(c, a)
                    != #[trigger] neighbour(c, b),
                forall|i: int| 0 <= i < 6 ==> #[trigger] neighbour(c, i) != c,
                d <= 6,
                forall|p: HexCoord| #![trigger self.cell_at(p)] holds(s1.grid.layout, p) ==> {
                    &&& (self.cell_at(p) is Collapsed <==> s1.cell_at(p) is Collapsed)
                    &&& (s1.cell_at(p) is Collapsed ==> self.cell_at(p) == s1.cell_at(p))
                },
                forall|p: HexCoord| #![trigger self.cell_at(p)] holds(s1.grid.layout, p) && (forall|i: int| 0 <= i < d
                    ==> p != #[trigger] neighbour(c, i)) ==> self.cell_at(p) == s1.cell_at(p),
                forall|i: int| 0 <= i < d && holds(s1.grid.layout, #[trigger] neighbour(c, i)) && s1.cell_at(
                    neighbour(c, i),
                ) is Alternatives ==> {
                    &&& self.cell_at(neighbour(c, i)).alternatives() == s1.allowed(neighbour(c, i))
                    &&& entry_map(self.pending@).contains_key(neighbour(c, i))
                    &&& entry_map(self.pending@)[neighbour(c, i)] == self.cell_at(neighbour(c, i))->Alternatives_0
                },
                forall|p: HexCoord| #![trigger entry_map(self.pending@).contains_key(p)]
                    (forall|i: int| 0 <= i < d ==> p != #[trigger] neighbour(c, i)) ==> {
                    &&& entry_map(self.pending@).contains_key(p) == entry_map(s1.pending@).contains_key(p)
                    &&& entry_map(self.pending@).contains_key(p) ==> entry_map(self.pending@)[p]
                        == entry_map(s1.pending@)[p]
                },
                forall|i: int| 0 <= i < d && !(holds(s1.grid.layout, #[trigger] neighbour(c, i)) && s1.cell_at(
                    neighbour(c, i),
                ) is Alternatives) ==> {
                    &&& entry_map(self.pending@).contains_key(neighbour(c, i)) == entry_map(s1.pending@).contains_key(neighbour(c, i))
                    &&& entry_map(self.pending@).contains_key(neighbour(c, i)) ==> entry_map(self.pending@)[neighbour(c, i)]
                        == entry_map(s1.pending@)[neighbour(c, i)]
                },
            decreases 6 - d,
        {
            let nb = neighbours[d];
            proof {
                s1.grid.layout.lemma_neighbour_locatable(c, d as int);
            }
            let ghost before = *self;
            let is_open = match self.grid.get(nb) {
                Some(Cell::Alternatives(_, _)) => true,
                _ => false,
            };
            proof {
                s1.grid.layout.lemma_coord_of_offset(nb);
                assert(forall|i: int| 0 <= i < d ==> nb != #[trigger] neighbour(c, i));
                assert(self.cell_at(nb) == s1.cell_at(nb));
            }
            if is_open {
                let alts = self.alternatives(nb);
                proof {
                    self.lemma_allowed_frame(&s1, nb);
                }
                let count = bitset_count(&alts);
                insert_entry(&mut self.pending, nb, count);
                let ghost mid = *self;
                self.grid.set(nb, Cell::Alternatives(count, alts));
                proof {
                    lemma_set_elsewhere(mid.grid, self.grid, nb, Cell::Alternatives(count, alts), nb);
                    assert forall|p: HexCoord| #![trigger self.cell_at(p)] holds(s1.grid.layout, p) && p != nb implies self.cell_at(p)
                        == before.cell_at(p) by {
                        lemma_set_elsewhere(mid.grid, self.grid, nb, Cell::Alternatives(count, alts), p);
                    }
                    assert forall|p: HexCoord| holds(self.grid.layout, p) implies #[trigger] self.cell_ok(self.cell_at(p)) by {
                        if p != nb {
                            assert(before.cell_ok(before.cell_at(p)));
                        } else {
                            assert forall|x: nat| #[trigger] self.cell_at(p).alternatives().contains(x) implies x < n by {
                                assert(s1.allowed(nb).contains(x));
                            }
                        }
                    }
                }
            }
            proof {
                assert forall|p: HexCoord| #![trigger self.cell_at(p)] holds(s1.grid.layout, p) && (forall|i: int| 0 <= i < d + 1
                    ==> p != #[trigger] neighbour(c, i)) implies self.cell_at(p) == s1.cell_at(p) by {
                    assert(p != neighbour(c, d as int));
                    assert(forall|i: int| 0 <= i < d ==> p != #[trigger] neighbour(c, i));
                    assert(before.cell_at(p) == s1.cell_at(p));
                }
                assert forall|i: int| 0 <= i < d + 1 && holds(s1.grid.layout, #[trigger] neighbour(c, i)) && s1.cell_at(
                    neighbour(c, i),
                ) is Alternatives implies {
                    &&& self.cell_at(neighbour(c, i)).alternatives() == s1.allowed(neighbour(c, i))
                    &&& entry_map(self.pending@).contains_key(neighbour(c, i))
                    &&& entry_map(self.pending@)[neighbour(c, i)] == self.cell_at(neighbour(c, i))->Alternatives_0
                } by {
                    if i < d {
                        assert(neighbour(c, i) != nb);
                        assert(before.cell_at(neighbour(c, i)).alternatives() == s1.allowed(neighbour(c, i)));
                    }
                }
                assert forall|p: HexCoord| #![trigger entry_map(self.pending@).contains_key(p)]
                    (forall|i: int| 0 <= i < d + 1 ==> p != #[trigger] neighbour(c, i)) implies {
                    &&& entry_map(self.pending@).contains_key(p) == entry_map(s1.pending@).contains_key(p)
                    &&& entry_map(self.pending@).contains_key(p) ==> entry_map(self.pending@)[p]
                        == entry_map(s1.pending@)[p]
                } by {
                    assert(p != neighbour(c, d as int));
                    assert(forall|i: int| 0 <= i < d ==> p != #[trigger] neighbour(c, i));
                    assert(entry_map(before.pending@).contains_key(p) == entry_map(s1.pending@).contains_key(p));
                }
                assert forall|i: int| 0 <= i < d + 1 && !(holds(s1.grid.layout, #[trigger] neighbour(c, i)) && s1.cell_at(
                    neighbour(c, i),
                ) is Alternatives) implies {
                    &&& entry_map(self.pending@).contains_key(neighbour(c, i)) == entry_map(s1.pending@).contains_key(neighbour(c, i))
                    &&& entry_map(self.pending@).contains_key(neighbour(c, i)) ==> entry_map(self.pending@)[neighbour(c, i)]
                        == entry_map(s1.pending@)[neighbour(c, i)]
                } by {
                    if i == d {
                        assert(forall|i2: int| 0 <= i2 < d ==> nb != #[trigger] neighbour(c, i2));
                        assert(entry_map(before.pending@).contains_key(nb) == entry_map(s1.pending@).contains_key(nb));
                    } else {
                        assert(neighbour(c, i) != nb);
                    }
                }
            }
            d = d + 1;
        }
        proof {
            self.lemma_rewind_inv(old_self, s1, c, rejected);
            assert forall|p: HexCoord| #![trigger self.cell_at(p)] holds(s1.grid.layout, p) && p != c implies {
                &&& (self.cell_at(p) is Collapsed <==> old_self.cell_at(p) is Collapsed)
                &&& (old_self.cell_at(p) is Collapsed ==> self.cell_at(p) == old_self.cell_at(p))
            } by {
                assert(s1.cell_at(p) == old_self.cell_at(p));
            }
            self.lemma_rewind_fit(old_self, c);
        }
    }

    /// After a choice was taken back, the state is consistent again.
    proof fn lemma_rewind_inv(&self, g0: Self, s1: Self, c: HexCoord, rejected: Seq<usize>)
        requires
            g0.inv(),
            g0.collapsed@.len() > 0,
            c == g0.collapsed@.last().0,
            rejected == g0.collapsed@.last().2@.push(g0.collapsed@.last().1),
            s1.template == g0.template,
            s1.grid.layout == g0.grid.layout,
            s1.collapsed@ == g0.collapsed@.drop_last(),
            s1.cells_ok(),
            holds(g0.grid.layout, c),
            s1.cell_at(c) is Alternatives,
            forall|x: nat| #[trigger] s1.cell_at(c).alternatives().contains(x) <==> (g0.allowed(c).contains(x)
                && forall|k: int| 0 <= k < rejected.len() ==> #[trigger] rejected[k] as nat != x),
            forall|p: HexCoord| #![trigger s1.cell_at(p)] holds(g0.grid.layout, p) && p != c ==> s1.cell_at(p) == g0.cell_at(p),
            entries_ok(s1.pending@),
            entry_map(s1.pending@) == entry_map(g0.pending@).insert(c, s1.cell_at(c)->Alternatives_0),
            self.template == s1.template,
            self.grid.layout == s1.grid.layout,
            self.collapsed@ == s1.collapsed@,
            self.rejected == Some(self.rejected->0),
            self.rejected->0@ == rejected,
            self.next == Some(c),
            self.cells_ok(),
            entries_ok(self.pending@),
            forall|a: int, b: int| 0 <= a < 6 && 0 <= b < 6 && a != b ==> #[trigger] neighbour(c, a)
                != #[trigger] neighbour(c, b),
            forall|i: int| 0 <= i < 6 ==> #[trigger] neighbour(c, i) != c,
            forall|p: HexCoord| #![trigger self.cell_at(p)] holds(s1.grid.layout, p) ==> {
                &&& (self.cell_at(p) is Collapsed <==> s1.cell_at(p) is Collapsed)
                &&& (s1.cell_at(p) is Collapsed ==> self.cell_at(p) == s1.cell_at(p))
            },
            forall|p: HexCoord| #![trigger self.cell_at(p)] holds(s1.grid.layout, p) && (forall|i: int| 0 <= i < 6
                ==> p != #[trigger] neighbour(c, i)) ==> self.cell_at(p) == s1.cell_at(p),
            forall|i: int| 0 <= i < 6 && holds(s1.grid.layout, #[trigger] neighbour(c, i)) && s1.cell_at(
                neighbour(c, i),
            ) is Alternatives ==> {
                &&& self.cell_at(neighbour(c, i)).alternatives() == s1.allowed(neighbour(c, i))
                &&& entry_map(self.pending@).contains_key(neighbour(c, i))
                &&& entry_map(self.pending@)[neighbour(c, i)] == self.cell_at(neighbour(c, i))->Alternatives_0
            },
            forall|p: HexCoord| #![trigger entry_map(self.pending@).contains_key(p)]
                (forall|i: int| 0 <= i < 6 ==> p != #[trigger] neighbour(c, i)) ==> {
                &&& entry_map(self.pending@).contains_key(p) == entry_map(s1.pending@).contains_key(p)
                &&& entry_map(self.pending@).contains_key(p) ==> entry_map(self.pending@)[p] == entry_map(s1.pending@)[p]
            },
            forall|i: int| 0 <= i < 6 && !(holds(s1.grid.layout, #[trigger] neighbour(c, i)) && s1.cell_at(
                neighbour(c, i),
            ) is Alternatives) ==> {
                &&& entry_map(self.pending@).contains_key(neighbour(c, i)) == entry_map(s1.pending@).contains_key(neighbour(c, i))
                &&& entry_map(self.pending@).contains_key(neighbour(c, i)) ==> entry_map(self.pending@)[neighbour(c, i)]
                    == entry_map(s1.pending@)[neighbour(c, i)]
            },
        ensures
            self.cells_ok(),
            self.collapsed_ok(),
            self.pending_ok(),
            self.next_ok(),
            self.cell_at(c) is Alternatives,
            forall|x: nat| #[trigger] self.cell_at(c).alternatives().contains(x) <==> (g0.allowed(c).contains(x)
                && forall|k: int| 0 <= k < rejected.len() ==> #[trigger] rejected[k] as nat != x),
            forall|d: int| 0 <= d < 6 && holds(g0.grid.layout, #[trigger] neighbour(c, d)) && g0.cell_at(neighbour(c, d))
                is Alternatives ==> self.cell_at(neighbour(c, d)).alternatives() == self.allowed(neighbour(c, d)),
            forall|p: HexCoord| #![trigger self.cell_at(p)] holds(g0.grid.layout, p) && p != c && (!is_neighbour(c, p)
                || g0.cell_at(p) is Collapsed) ==> self.cell_at(p) == g0.cell_at(p),
    {
        let n = g0.tile_count();
        let last = g0.collapsed@.last();
        let lk = g0.collapsed@.len() - 1;
        assert(g0.collapsed@[lk] == last);
        // The cell at `c` is untouched by the neighbours' recomputation.
        assert(self.cell_at(c) == s1.cell_at(c));
        // Positions that are not neighbours, or collapsed ones, keep their cells.
        assert forall|p: HexCoord| #![trigger self.cell_at(p)] holds(g0.grid.layout, p) && p != c && (!is_neighbour(c, p)
            || g0.cell_at(p) is Collapsed) implies self.cell_at(p) == g0.cell_at(p) by {
            assert(s1.cell_at(p) == g0.cell_at(p));
            if !is_neighbour(c, p) {
                assert(forall|i: int| 0 <= i < 6 ==> p != #[trigger] neighbour(c, i));
            }
        }
        // The allowed tiles of the neighbours are those of the final state.
        assert forall|d: int| 0 <= d < 6 && holds(g0.grid.layout, #[trigger] neighbour(c, d)) && g0.cell_at(neighbour(c, d))
            is Alternatives implies self.cell_at(neighbour(c, d)).alternatives() == self.allowed(neighbour(c, d)) by {
            let nb = neighbour(c, d);
            assert(s1.cell_at(nb) == g0.cell_at(nb));
            assert forall|e: int| #![trigger neighbour(nb, e)] 0 <= e < 6 && holds(self.grid.layout, neighbour(nb, e)) implies {
                &&& (self.cell_at(neighbour(nb, e)) is Collapsed <==> s1.cell_at(neighbour(nb, e)) is Collapsed)
                &&& self.cell_at(neighbour(nb, e)) is Collapsed ==> self.cell_at(neighbour(nb, e)) == s1.cell_at(neighbour(nb, e))
            } by {}
            self.lemma_allowed_frame(&s1, nb);
        }
        // collapsed_ok
        assert forall|k: int| #![trigger self.collapsed@[k]] 0 <= k < self.collapsed@.len() implies {
            &&& holds(self.grid.layout, self.collapsed@[k].0)
            &&& self.cell_at(self.collapsed@[k].0) == Cell::Collapsed(self.collapsed@[k].1)
            &&& !self.collapsed@[k].2@.contains(self.collapsed@[k].1)
            &&& forall|x: int| 0 <= x < self.collapsed@[k].2@.len() ==> #[trigger] self.collapsed@[k].2@[x]
                < self.tile_count()
        } by {
            assert(self.collapsed@[k] == g0.collapsed@[k]);
            let p = g0.collapsed@[k].0;
            assert(p != c) by {
                assert(g0.collapsed@[k].0 != g0.collapsed@[lk].0);
            }
            assert(s1.cell_at(p) == g0.cell_at(p));
        }
        assert forall|i: int, j: int| 0 <= i < j < self.collapsed@.len() implies (#[trigger] self.collapsed@[i]).0
            != (#[trigger] self.collapsed@[j]).0 by {
            assert(self.collapsed@[i] == g0.collapsed@[i]);
            assert(self.collapsed@[j] == g0.collapsed@[j]);
        }
        assert forall|p: HexCoord| holds(self.grid.layout, p) && (#[trigger] self.cell_at(p)) is Collapsed
            implies exists|k: int| 0 <= k < self.collapsed@.len() && (#[trigger] self.collapsed@[k]).0 == p by {
            assert(s1.cell_at(p) is Collapsed);
            assert(p != c);
            assert(g0.cell_at(p) is Collapsed);
            let k = choose|k: int| 0 <= k < g0.collapsed@.len() && (#[trigger] g0.collapsed@[k]).0 == p;
            assert(k != lk);
            assert(self.collapsed@[k] == g0.collapsed@[k]);
        }
        // pending_ok
        assert forall|p: HexCoord| #[trigger] entry_map(self.pending@).contains_key(p) implies {
            &&& holds(self.grid.layout, p)
            &&& self.cell_at(p) is Alternatives
            &&& entry_map(self.pending@)[p] == self.cell_at(p)->Alternatives_0
        } by {
            if exists|i: int| 0 <= i < 6 && p == #[trigger] neighbour(c, i) {
                let i = choose|i: int| 0 <= i < 6 && p == #[trigger] neighbour(c, i);
                if holds(s1.grid.layout, p) && s1.cell_at(p) is Alternatives {
                } else if holds(s1.grid.layout, p) {
                    assert(s1.cell_at(neighbour(c, i)) is Collapsed);
                    assert(entry_map(self.pending@).contains_key(neighbour(c, i)) == entry_map(s1.pending@).contains_key(
                        neighbour(c, i),
                    ));
                    assert(entry_map(s1.pending@).contains_key(p));
                    assert(p != c);
                    assert(entry_map(g0.pending@).contains_key(p));
                    assert(g0.cell_at(p) is Alternatives);
                    assert(s1.cell_at(p) == g0.cell_at(p));
                } else {
                    assert(entry_map(self.pending@).contains_key(neighbour(c, i)) == entry_map(s1.pending@).contains_key(
                        neighbour(c, i),
                    ));
                    assert(entry_map(s1.pending@).contains_key(p));
                    assert(entry_map(g0.pending@).contains_key(p));
                }
            } else {
                assert(forall|i: int| 0 <= i < 6 ==> p != #[trigger] neighbour(c, i));
                assert(entry_map(s1.pending@).contains_key(p));
                if p != c {
                    assert(entry_map(g0.pending@).contains_key(p));
                    assert(s1.cell_at(p) == g0.cell_at(p));
                }
            }
        }
        assert forall|p: HexCoord| holds(self.grid.layout, p) && (#[trigger] self.cell_at(p)) is Alternatives
            && self.cell_at(p)->Alternatives_0 < self.tile_count() implies entry_map(self.pending@).contains_key(p) by {
            if exists|i: int| 0 <= i < 6 && p == #[trigger] neighbour(c, i) {
                let i = choose|i: int| 0 <= i < 6 && p == #[trigger] neighbour(c, i);
                assert(s1.cell_at(p) is Alternatives);
            } else {
                assert(forall|i: int| 0 <= i < 6 ==> p != #[trigger] neighbour(c, i));
                assert(self.cell_at(p) == s1.cell_at(p));
                if p != c {
                    assert(s1.cell_at(p) == g0.cell_at(p));
                    assert(entry_map(g0.pending@).contains_key(p));
                }
                assert(entry_map(s1.pending@).contains_key(p));
            }
        }
        // next_ok
        assert(g0.cell_ok(g0.cell_at(c)));
        assert forall|x: int| 0 <= x < self.rejected->0@.len() implies #[trigger] self.rejected->0@[x] < self.tile_count() by {
            if x < last.2@.len() {
                assert(last.2@[x] < n);
            }
        }
        assert forall|x: int| 0 <= x < self.rejected->0@.len() implies !self.cell_at(c).alternatives().contains(
            #[trigger] self.rejected->0@[x] as nat,
        ) by {
            assert(rejected[x] as nat == self.rejected->0@[x] as nat);
        }
    }

    /// After a choice was taken back, the tiles still fit: no cell became collapsed, and the cells
    /// that got new alternatives got only tiles that their collapsed neighbours allow.
    proof fn lemma_rewind_fit(&self, g0: Self, c: HexCoord)
        requires
            g0.inv(),
            holds(g0.grid.layout, c),
            self.template == g0.template,
            self.grid.layout == g0.grid.layout,
            self.cell_at(c) is Alternatives,
            forall|x: nat| #[trigger] self.cell_at(c).alternatives().contains(x) ==> g0.allowed(c).contains(x),
            forall|p: HexCoord| #![trigger self.cell_at(p)] holds(g0.grid.layout, p) && p != c ==> {
                &&& (self.cell_at(p) is Collapsed <==> g0.cell_at(p) is Collapsed)
                &&& (g0.cell_at(p) is Collapsed ==> self.cell_at(p) == g0.cell_at(p))
            },
            forall|d: int| 0 <= d < 6 && holds(g0.grid.layout, #[trigger] neighbour(c, d)) && g0.cell_at(neighbour(c, d))
                is Alternatives ==> self.cell_at(neighbour(c, d)).alternatives() == self.allowed(neighbour(c, d)),
            forall|p: HexCoord| #![trigger self.cell_at(p)] holds(g0.grid.layout, p) && p != c && (!is_neighbour(c, p)
                || g0.cell_at(p) is Collapsed) ==> self.cell_at(p) == g0.cell_at(p),
        ensures
            self.tiles_fit(),
    {
        let layout = g0.grid.layout;
        assert forall|p: HexCoord| holds(self.grid.layout, p) implies match self.cell_at(p) {
            Cell::Collapsed(t) => self.allowed(p).contains(t as nat),
            Cell::Alternatives(_, _) => self.cell_at(p).alternatives().subset_of(self.allowed(p)),
        } by {
            assert forall|d: int| #![trigger neighbour(p, d)] 0 <= d < 6 && holds(layout, neighbour(p, d))
                && self.cell_at(neighbour(p, d)) is Collapsed implies g0.cell_at(neighbour(p, d)) == self.cell_at(
                neighbour(p, d),
            ) by {
                assert(neighbour(p, d) != c);
            }
            g0.lemma_allowed_grows(self, p);
            if p != c {
                match self.cell_at(p) {
                    Cell::Collapsed(t) => {
                        assert(g0.cell_at(p) == self.cell_at(p));
                        assert(g0.allowed(p).contains(t as nat));
                    },
                    Cell::Alternatives(_, _) => {
                        if is_neighbour(c, p) && g0.cell_at(p) is Alternatives {
                            let d = choose|d: int| 0 <= d < 6 && #[trigger] neighbour(c, d) == p;
                            assert(self.cell_at(neighbour(c, d)).alternatives() == self.allowed(neighbour(c, d)));
                        } else {
                            assert(self.cell_at(p) == g0.cell_at(p));
                            assert(g0.cell_at(p).alternatives().subset_of(g0.allowed(p)));
                        }
                    },
                }
            }
        }
    }

    /// The consistency of the state does not depend on the random numbers.
    proof fn lemma_inv_other_rand(&self, other: &Self)
        requires
            other.inv(),
            self.template == other.template,
            self.grid == other.grid,
            self.collapsed == other.collapsed,
            self.pending == other.pending,
            self.rejected == other.rejected,
            self.next == other.next,
        ensures
            self.inv(),
    {
        assert forall|p: HexCoord| holds(self.grid.layout, p) implies #[trigger] self.cell_ok(self.cell_at(p)) by {
            assert(other.cell_ok(other.cell_at(p)));
        }
        assert forall|p: HexCoord| holds(self.grid.layout, p) && (#[trigger] self.cell_at(p)) is Collapsed
            implies exists|k: int| 0 <= k < self.collapsed@.len() && (#[trigger] self.collapsed@[k]).0 == p by {
            assert(other.cell_at(p) is Collapsed);
        }
        assert forall|p: HexCoord| holds(self.grid.layout, p) && (#[trigger] self.cell_at(p)) is Alternatives
            && self.cell_at(p)->Alternatives_0 < self.tile_count() implies entry_map(self.pending@).contains_key(p) by {
            assert(other.cell_at(p) is Alternatives);
        }
        assert forall|p: HexCoord| holds(self.grid.layout, p) implies match self.cell_at(p) {
            Cell::Collapsed(t) => self.allowed(p).contains(t as nat),
            Cell::Alternatives(_, _) => self.cell_at(p).alternatives().subset_of(self.allowed(p)),
        } by {
            self.lemma_allowed_frame(other, p);
        }
    }

    /// After a cell was collapsed to one of its alternatives and its neighbours were narrowed to
    /// the tiles that fit next to it, the tiles still fit.
    proof fn lemma_step_fit(&self, g0: Self, c: HexCoord, tile: TileId)
        requires
            g0.inv(),
            holds(g0.grid.layout, c),
            g0.cell_at(c).alternatives().contains(tile as nat),
            self.template == g0.template,
            self.grid.layout == g0.grid.layout,
            self.cell_at(c) == Cell::Collapsed(tile),
            forall|d: int| 0 <= d < 6 && holds(g0.grid.layout, #[trigger] neighbour(c, d)) ==> retained(
                g0.cell_at(neighbour(c, d)),
                self.cell_at(neighbour(c, d)),
                g0.template.compatible_set(tile as int, d),
            ),
            forall|p: HexCoord| #![trigger self.cell_at(p)] holds(g0.grid.layout, p) && p != c && !is_neighbour(c, p)
                ==> self.cell_at(p) == g0.cell_at(p),
        ensures
            self.tiles_fit(),
    {
        let layout = g0.grid.layout;
        let template = g0.template;
        layout.lemma_neighbour_locatable(c, 0);
        lemma_neighbours_distinct(c);
        assert(g0.cell_ok(g0.cell_at(c)));
        assert(g0.cell_at(c) is Alternatives);
        // Cells other than `c` keep whether they are collapsed, and collapsed ones their tile.
        assert forall|p: HexCoord| #![trigger self.cell_at(p)] holds(layout, p) && p != c implies {
            &&& (self.cell_at(p) is Collapsed <==> g0.cell_at(p) is Collapsed)
            &&& (g0.cell_at(p) is Collapsed ==> self.cell_at(p) == g0.cell_at(p))
        } by {
            if is_neighbour(c, p) {
                let d = choose|d: int| 0 <= d < 6 && #[trigger] neighbour(c, d) == p;
                assert(retained(g0.cell_at(neighbour(c, d)), self.cell_at(neighbour(c, d)), template.compatible_set(tile as int, d)));
            }
        }
        assert(g0.cell_at(c).alternatives().subset_of(g0.allowed(c)));
        assert forall|d: int| #![trigger neighbour(c, d)] 0 <= d < 6 && holds(layout, neighbour(c, d)) implies {
            &&& (self.cell_at(neighbour(c, d)) is Collapsed <==> g0.cell_at(neighbour(c, d)) is Collapsed)
            &&& self.cell_at(neighbour(c, d)) is Collapsed ==> self.cell_at(neighbour(c, d)) == g0.cell_at(neighbour(c, d))
        } by {
            assert(neighbour(c, d) != c);
        }
        self.lemma_allowed_frame(&g0, c);
        assert forall|p: HexCoord| holds(self.grid.layout, p) implies match self.cell_at(p) {
            Cell::Collapsed(t) => self.allowed(p).contains(t as nat),
            Cell::Alternatives(_, _) => self.cell_at(p).alternatives().subset_of(self.allowed(p)),
        } by {
            if p != c {
                layout.lemma_neighbour_locatable(p, 0);
                assert(g0.cell_ok(g0.cell_at(p)));
                match self.cell_at(p) {
                    Cell::Collapsed(t) => {
                        assert(g0.cell_at(p) == Cell::Collapsed(t));
                        assert(g0.allowed(p).contains(t as nat));
                        assert forall|d2: int| 0 <= d2 < 6 implies #[trigger] self.fits_from(p, d2, t as nat) by {
                            assert(g0.fits_from(p, d2, t as nat));
                            let nb = neighbour(p, d2);
                            if nb == c {
                                lemma_neighbour_back(p, d2);
                                let e = opposite_direction(d2);
                                assert(neighbour(c, e) == p);
                                assert(g0.fits_from(c, e, tile as nat));
                                assert(template.compatible_set(t as int, d2).contains(tile as nat));
                                template.lemma_fits_both_ways(t as int, tile as int, d2);
                                assert forall|e2: int| 0 <= e2 < 6 && #[trigger] neighbour(c, e2) == p implies
                                    template.compatible_set(tile as int, e2).contains(t as nat) by {
                                    assert(e2 == e);
                                }
                            } else if holds(layout, nb) {
                                assert(self.cell_at(nb) is Collapsed <==> g0.cell_at(nb) is Collapsed);
                            }
                        }
                    },
                    Cell::Alternatives(_, _) => {
                        assert(g0.cell_at(p).alternatives().subset_of(g0.allowed(p)));
                        if is_neighbour(c, p) {
                            let d = choose|d: int| 0 <= d < 6 && #[trigger] neighbour(c, d) == p;
                            assert(retained(g0.cell_at(neighbour(c, d)), self.cell_at(neighbour(c, d)), template.compatible_set(tile as int, d)));
                            assert forall|x: nat| self.cell_at(p).alternatives().contains(x) implies self.allowed(p).contains(x) by {
                                assert(g0.allowed(p).contains(x));
                                assert forall|d2: int| 0 <= d2 < 6 implies #[trigger] self.fits_from(p, d2, x) by {
                                    assert(g0.fits_from(p, d2, x));
                                    let nb = neighbour(p, d2);
                                    if nb == c {
                                        assert forall|e2: int| 0 <= e2 < 6 && #[trigger] neighbour(c, e2) == p implies
                                            template.compatible_set(tile as int, e2).contains(x) by {
                                            assert(e2 == d);
                                        }
                                    } else if holds(layout, nb) {
                                        assert(self.cell_at(nb) is Collapsed <==> g0.cell_at(nb) is Collapsed);
                                    }
                                }
                            }
                        } else {
                            assert forall|d2: int| #![trigger neighbour(p, d2)] 0 <= d2 < 6 && holds(layout, neighbour(p, d2)) implies {
                                &&& (self.cell_at(neighbour(p, d2)) is Collapsed <==> g0.cell_at(neighbour(p, d2)) is Collapsed)
                                &&& self.cell_at(neighbour(p, d2)) is Collapsed ==> self.cell_at(neighbour(p, d2))
                                    == g0.cell_at(neighbour(p, d2))
                            } by {
                                if neighbour(p, d2) == c {
                                    lemma_neighbour_back(p, d2);
                                    assert(neighbour(c, opposite_direction(d2)) == p);
                                }
                            }
                            self.lemma_allowed_frame(&g0, p);
                        }
                    },
                }
            }
        }
    }

    /// Every two neighbouring collapsed cells of a consistent state hold tiles that fit together:
    /// the tile of the neighbour in direction `d` is among those that fit next to the cell's tile
    /// in that direction, and the cell's tile among those that fit next to the neighbour's tile
    /// in the opposite direction.
    pub proof fn lemma_neighbours_fit(&self, p: HexCoord, d: int)
        requires
            self.inv(),
            0 <= d < 6,
            holds(self.grid.layout, p),
            holds(self.grid.layout, neighbour(p, d)),
            self.cell_at(p) is Collapsed,
            self.cell_at(neighbour(p, d)) is Collapsed,
        ensures
            self.template.compatible_set(self.cell_at(p)->Collapsed_0 as int, d).contains(
                self.cell_at(neighbour(p, d))->Collapsed_0 as nat,
            ),
            self.template.compatible_set(self.cell_at(neighbour(p, d))->Collapsed_0 as int, opposite_direction(d)).contains(
                self.cell_at(p)->Collapsed_0 as nat,
            ),
    {
        let q = neighbour(p, d);
        self.grid.layout.lemma_neighbour_locatable(p, 0);
        lemma_neighbour_back(p, d);
        lemma_neighbours_distinct(p);
        assert(self.allowed(q).contains(self.cell_at(q)->Collapsed_0 as nat));
        assert(self.fits_from(q, opposite_direction(d), self.cell_at(q)->Collapsed_0 as nat));
        assert(self.cell_ok(self.cell_at(p)));
        assert(self.cell_ok(self.cell_at(q)));
        self.template.lemma_fits_both_ways(
            self.cell_at(p)->Collapsed_0 as int,
            self.cell_at(q)->Collapsed_0 as int,
            d,
        );
    }

    /// In a consistent state, which the constructors make and every step keeps, every collapsed
    /// cell has an entry in the history, and every cell with fewer alternatives than there are
    /// tiles is pending.
    pub proof fn lemma_history_and_pending(&self, p: HexCoord)
        requires
            self.inv(),
            holds(self.grid.layout, p),
        ensures
            self.cell_at(p) is Collapsed ==> exists|k: int| 0 <= k < self.collapsed@.len() && (
            #[trigger] self.collapsed@[k]).0 == p,
            self.cell_at(p) is Alternatives && self.cell_at(p)->Alternatives_0 < self.tile_count() ==> entry_map(
                self.pending@,
            ).contains_key(p),
    {
    }

    /// Where the template describes `tiles`, every two neighbouring collapsed cells of a
    /// consistent state hold tiles whose values agree wherever the tiles overlap.
    pub proof fn lemma_neighbour_tiles_agree<'b, L: GridLayout>(
        &self,
        tiles: Seq<Tile<'b, L, Item>>,
        p: HexCoord,
        d: int,
    )
        requires
            self.inv(),
            self.template.describes(tiles),
            0 <= d < 6,
            holds(self.grid.layout, p),
            holds(self.grid.layout, neighbour(p, d)),
            self.cell_at(p) is Collapsed,
            self.cell_at(neighbour(p, d)) is Collapsed,
        ensures
            compatible_values(
                tiles[self.cell_at(p)->Collapsed_0 as int].values(),
                tiles[self.cell_at(neighbour(p, d))->Collapsed_0 as int].values(),
                neighbour_offset(d),
            ),
    {
        self.lemma_neighbours_fit(p, d);
        assert(self.cell_ok(self.cell_at(p)));
        let t = self.cell_at(p)->Collapsed_0 as int;
        assert(self.template.compatible_set(t, d) == compatible_ids(tiles, t, neighbour_offset(d)));
    }

    /// The generator cannot go on: the cell to collapse next has no alternatives, and there is
    /// no choice left to take back.
    pub open spec fn stuck(&self) -> bool {
        &&& self.next is Some
        &&& self.cell_at(self.next->0).alternatives().len() == 0
        &&& self.collapsed@.len() == 0
    }

    /// After a cell was collapsed, its neighbours narrowed and the next cell chosen, the state is
    /// consistent again.
    proof fn lemma_step_inv(&self, g0: Self, s1: Self, mid: Self, c: HexCoord, tile: TileId)
        requires
            g0.inv(),
            g0.next == Some(c),
            holds(g0.grid.layout, c),
            g0.cell_at(c).alternatives().contains(tile as nat),
            s1.template == g0.template,
            s1.grid.layout == g0.grid.layout,
            s1.cells_ok(),
            s1.cell_at(c) == Cell::Collapsed(tile),
            forall|p: HexCoord| #![trigger s1.cell_at(p)] holds(g0.grid.layout, p) && p != c ==> s1.cell_at(p) == g0.cell_at(p),
            s1.pending@ == g0.pending@,
            mid.template == g0.template,
            mid.grid.layout == g0.grid.layout,
            mid.collapsed@ == g0.collapsed@.push((c, tile, g0.rejected->0)),
            mid.cells_ok(),
            entries_ok(mid.pending@),
            forall|d: int| 0 <= d < 6 && holds(g0.grid.layout, #[trigger] neighbour(c, d)) ==> retained(
                s1.cell_at(neighbour(c, d)),
                mid.cell_at(neighbour(c, d)),
                g0.template.compatible_set(tile as int, d),
            ),
            forall|p: HexCoord| #![trigger mid.cell_at(p)] holds(g0.grid.layout, p) && !is_neighbour(c, p) ==> mid.cell_at(p)
                == s1.cell_at(p),
            forall|d: int| 0 <= d < 6 && holds(g0.grid.layout, #[trigger] neighbour(c, d)) && mid.cell_at(neighbour(c, d))
                is Alternatives ==> {
                &&& entry_map(mid.pending@).contains_key(neighbour(c, d))
                &&& entry_map(mid.pending@)[neighbour(c, d)] == mid.cell_at(neighbour(c, d))->Alternatives_0
            },
            forall|p: HexCoord| #![trigger entry_map(mid.pending@).contains_key(p)]
                !is_neighbour(c, p) || !holds(g0.grid.layout, p) || mid.cell_at(p) is Collapsed ==> {
                &&& entry_map(mid.pending@).contains_key(p) == entry_map(s1.pending@).contains_key(p)
                &&& entry_map(mid.pending@).contains_key(p) ==> entry_map(mid.pending@)[p] == entry_map(s1.pending@)[p]
            },
            self.template == g0.template,
            self.grid == mid.grid,
            self.collapsed@ == mid.collapsed@,
            entries_ok(self.pending@),
            entry_map(self.pending@) == entry_map(mid.pending@).remove(c),
            self.rejected == Some(self.rejected->0),
            self.rejected->0@.len() == 0,
            self.next matches Some(x) ==> entry_map(self.pending@).contains_key(x),
        ensures
            self.cells_ok(),
            self.collapsed_ok(),
            self.pending_ok(),
            self.next_ok(),
    {
        let n = g0.tile_count();
        assert(i32::MIN < c.q < i32::MAX && i32::MIN < c.r < i32::MAX) by {
            g0.grid.layout.lemma_neighbour_locatable(c, 0);
        }
        lemma_neighbours_distinct(c);
        assert(!is_neighbour(c, c));
        assert(mid.cell_at(c) == s1.cell_at(c));
        assert(self.cell_at(c) == Cell::Collapsed(tile));
        assert(g0.cell_ok(g0.cell_at(c)));
        // cells_ok
        assert forall|p: HexCoord| holds(self.grid.layout, p) implies #[trigger] self.cell_ok(self.cell_at(p)) by {
            assert(mid.cell_ok(mid.cell_at(p)));
        }
        // Cells keep whether they are collapsed, but for the cell at `c`.
        assert forall|p: HexCoord| #![trigger self.cell_at(p)] holds(g0.grid.layout, p) && p != c implies {
            &&& (self.cell_at(p) is Collapsed <==> g0.cell_at(p) is Collapsed)
            &&& (g0.cell_at(p) is Collapsed ==> self.cell_at(p) == g0.cell_at(p))
        } by {
            assert(s1.cell_at(p) == g0.cell_at(p));
            if is_neighbour(c, p) {
                let d = choose|d: int| 0 <= d < 6 && #[trigger] neighbour(c, d) == p;
                assert(retained(s1.cell_at(neighbour(c, d)), mid.cell_at(neighbour(c, d)), g0.template.compatible_set(tile as int, d)));
            } else {
                assert(mid.cell_at(p) == s1.cell_at(p));
            }
        }
        // collapsed_ok
        let lk = self.collapsed@.len() - 1;
        assert forall|k: int| #![trigger self.collapsed@[k]] 0 <= k < self.collapsed@.len() implies {
            &&& holds(self.grid.layout, self.collapsed@[k].0)
            &&& self.cell_at(self.collapsed@[k].0) == Cell::Collapsed(self.collapsed@[k].1)
            &&& !self.collapsed@[k].2@.contains(self.collapsed@[k].1)
            &&& forall|x: int| 0 <= x < self.collapsed@[k].2@.len() ==> #[trigger] self.collapsed@[k].2@[x]
                < self.tile_count()
        } by {
            if k < lk {
                assert(self.collapsed@[k] == g0.collapsed@[k]);
                let p = g0.collapsed@[k].0;
                assert(g0.cell_at(p) is Collapsed);
                assert(p != c);
            } else {
                assert(self.collapsed@[k] == (c, tile, g0.rejected->0));
                if g0.rejected->0@.contains(tile) {
                    let x = choose|x: int| 0 <= x < g0.rejected->0@.len() && g0.rejected->0@[x] == tile;
                    assert(!g0.cell_at(c).alternatives().contains(g0.rejected->0@[x] as nat));
                }
            }
        }
        assert forall|i: int, j: int| 0 <= i < j < self.collapsed@.len() implies (#[trigger] self.collapsed@[i]).0
            != (#[trigger] self.collapsed@[j]).0 by {
            assert(self.collapsed@[i] == g0.collapsed@[i]);
            if j < lk {
                assert(self.collapsed@[j] == g0.collapsed@[j]);
            } else {
                assert(g0.cell_at(g0.collapsed@[i].0) is Collapsed);
            }
        }
        assert forall|p: HexCoord| holds(self.grid.layout, p) && (#[trigger] self.cell_at(p)) is Collapsed
            implies exists|k: int| 0 <= k < self.collapsed@.len() && (#[trigger] self.collapsed@[k]).0 == p by {
            if p == c {
                assert(self.collapsed@[lk].0 == p);
            } else {
                assert(g0.cell_at(p) is Collapsed);
                let k = choose|k: int| 0 <= k < g0.collapsed@.len() && (#[trigger] g0.collapsed@[k]).0 == p;
                assert(self.collapsed@[k] == g0.collapsed@[k]);
            }
        }
        // pending_ok
        assert forall|p: HexCoord| #[trigger] entry_map(self.pending@).contains_key(p) implies {
            &&& holds(self.grid.layout, p)
            &&& self.cell_at(p) is Alternatives
            &&& entry_map(self.pending@)[p] == self.cell_at(p)->Alternatives_0
        } by {
            assert(p != c);
            assert(entry_map(mid.pending@).contains_key(p));
            if is_neighbour(c, p) && holds(g0.grid.layout, p) && mid.cell_at(p) is Alternatives {
                let d = choose|d: int| 0 <= d < 6 && #[trigger] neighbour(c, d) == p;
                assert(entry_map(mid.pending@)[neighbour(c, d)] == mid.cell_at(neighbour(c, d))->Alternatives_0);
            } else {
                assert(entry_map(g0.pending@).contains_key(p));
                assert(holds(g0.grid.layout, p));
                assert(g0.cell_at(p) is Alternatives);
                assert(s1.cell_at(p) == g0.cell_at(p));
                if is_neighbour(c, p) {
                    let d = choose|d: int| 0 <= d < 6 && #[trigger] neighbour(c, d) == p;
                    assert(retained(s1.cell_at(neighbour(c, d)), mid.cell_at(neighbour(c, d)), g0.template.compatible_set(tile as int, d)));
                } else {
                    assert(mid.cell_at(p) == s1.cell_at(p));
                }
            }
        }
        assert forall|p: HexCoord| holds(self.grid.layout, p) && (#[trigger] self.cell_at(p)) is Alternatives
            && self.cell_at(p)->Alternatives_0 < self.tile_count() implies entry_map(self.pending@).contains_key(p) by {
            assert(p != c);
            if is_neighbour(c, p) {
                let d = choose|d: int| 0 <= d < 6 && #[trigger] neighbour(c, d) == p;
                assert(entry_map(mid.pending@).contains_key(neighbour(c, d)));
            } else {
                assert(mid.cell_at(p) == s1.cell_at(p));
                assert(s1.cell_at(p) == g0.cell_at(p));
                assert(entry_map(g0.pending@).contains_key(p));
                assert(entry_map(mid.pending@).contains_key(p));
            }
        }
    }

    /// Collapses the cell chosen next to one of its alternatives, chosen at random, narrows its
    /// neighbours and chooses the pending cell with the fewest alternatives to collapse next; or,
    /// if that cell has no alternatives left, takes back the last choice. `None` when no cell is
    /// left to collapse.
    pub fn step(&mut self) -> (res: Option<()>)
        requires
            old(self).inv(),
            old(self).next matches Some(c) ==> old(self).grid.layout.spec_contains(c),
            !old(self).stuck(),
        ensures
            final(self).inv(),
            final(self).template == old(self).template,
            final(self).grid.layout == old(self).grid.layout,
            res is None <==> old(self).next is None,
            res is None ==> *final(self) == *old(self),
            res is Some ==> (final(self).next is None <==> (old(self).cell_at(old(self).next->0).alternatives().len() > 0
                && final(self).pending@.len() == 0)),
            old(self).next matches Some(c) ==> if old(self).cell_at(c).alternatives().len() > 0 {
                &&& final(self).collapsed@.len() == old(self).collapsed@.len() + 1
                &&& final(self).collapsed@.drop_last() == old(self).collapsed@
                &&& final(self).collapsed@.last().0 == c
                &&& old(self).cell_at(c).alternatives().contains(final(self).collapsed@.last().1 as nat)
                &&& final(self).collapsed@.last().2@ == old(self).rejected->0@
                &&& final(self).cell_at(c) == Cell::Collapsed(final(self).collapsed@.last().1)
                &&& forall|d: int| 0 <= d < 6 && holds(old(self).grid.layout, #[trigger] neighbour(c, d)) ==> retained(
                    old(self).cell_at(neighbour(c, d)),
                    final(self).cell_at(neighbour(c, d)),
                    old(self).template.compatible_set(final(self).collapsed@.last().1 as int, d),
                )
                &&& forall|p: HexCoord| #![trigger final(self).cell_at(p)] holds(old(self).grid.layout, p) && p != c
                    && !is_neighbour(c, p) ==> final(self).cell_at(p) == old(self).cell_at(p)
                &&& final(self).rejected->0@.len() == 0
                &&& match final(self).next {
                    Some(x) => entry_map(final(self).pending@).contains_key(x) && forall|k: HexCoord| #[trigger]
                        entry_map(final(self).pending@).contains_key(k) && k != x ==> comes_first(
                        (x, entry_map(final(self).pending@)[x]),
                        (k, entry_map(final(self).pending@)[k]),
                    ),
                    None => final(self).pending@.len() == 0,
                }
            } else {
                &&& final(self).collapsed@ == old(self).collapsed@.drop_last()
                &&& final(self).next == Some(old(self).collapsed@.last().0)
                &&& final(self).rand == old(self).rand
            },
            rng_seeded(old(self).rand) ==> (old(self).next matches Some(c) ==> {
                let alts = old(self).cell_at(c).alternatives();
                &&& rng_seeded(final(self).rand)
                &&& rng_seed(final(self).rand) == rng_seed(old(self).rand)
                &&& alts.len() > 0 ==> {
                    &&& rng_draws(final(self).rand) == rng_draws(old(self).rand).push(alts.len() as usize)
                    &&& rank(alts, final(self).collapsed@.last().1 as nat) == seeded_draw(
                        rng_seed(old(self).rand),
                        rng_draws(old(self).rand),
                        alts.len() as usize,
                    )
                }
            }),
    {
        let coord = match self.next {
            Some(coord) => coord,
            None => {
                return None;
            },
        };
        let ghost g0 = *self;
        proof {
            self.grid.layout.lemma_coord_of_offset(coord);
            assert(self.cell_ok(self.cell_at(coord)));
        }
        let selected = self.grid.index(coord).select(&mut self.rand);
        proof {
            assert forall|p: HexCoord| holds(self.grid.layout, p) implies #[trigger] self.cell_ok(self.cell_at(p)) by {
                assert(g0.cell_ok(g0.cell_at(p)));
            }
        }
        match selected {
            Some(tile) => {
                let ghost before_set = *self;
                self.grid.set(coord, Cell::Collapsed(tile));
                let rejected = self.rejected.take().unwrap();
                self.rejected = Some(Vec::new());
                self.collapsed.push((coord, tile, rejected));
                proof {
                    lemma_set_elsewhere(before_set.grid, self.grid, coord, Cell::Collapsed(tile), coord);
                    assert forall|p: HexCoord| #![trigger self.cell_at(p)] holds(g0.grid.layout, p) && p != coord implies self.cell_at(p)
                        == g0.cell_at(p) by {
                        lemma_set_elsewhere(before_set.grid, self.grid, coord, Cell::Collapsed(tile), p);
                    }
                    assert forall|p: HexCoord| holds(self.grid.layout, p) implies #[trigger] self.cell_ok(self.cell_at(p)) by {
                        if p != coord {
                            assert(g0.cell_ok(g0.cell_at(p)));
                        }
                    }
                }
                let ghost s1 = *self;
                self.propagate(coord, tile);
                let ghost mid = *self;
                remove_entry(&mut self.pending, coord);
                self.next = first_entry(&self.pending);
                proof {
                    self.lemma_step_inv(g0, s1, mid, coord, tile);
                    g0.grid.layout.lemma_neighbour_locatable(coord, 0);
                    lemma_neighbours_distinct(coord);
                    assert forall|d: int| 0 <= d < 6 && holds(g0.grid.layout, #[trigger] neighbour(coord, d)) implies retained(
                        g0.cell_at(neighbour(coord, d)),
                        self.cell_at(neighbour(coord, d)),
                        g0.template.compatible_set(tile as int, d),
                    ) by {
                        assert(neighbour(coord, d) != coord);
                        assert(s1.cell_at(neighbour(coord, d)) == g0.cell_at(neighbour(coord, d)));
                        assert(mid.cell_at(neighbour(coord, d)) == self.cell_at(neighbour(coord, d)));
                    }
                    assert forall|p: HexCoord| #![trigger self.cell_at(p)] holds(g0.grid.layout, p) && p != coord
                        && !is_neighbour(coord, p) implies self.cell_at(p) == g0.cell_at(p) by {
                        assert(mid.cell_at(p) == s1.cell_at(p));
                        assert(s1.cell_at(p) == g0.cell_at(p));
                    }
                    assert(self.cell_at(coord) == Cell::Collapsed(tile)) by {
                        assert(!is_neighbour(coord, coord));
                        assert(mid.cell_at(coord) == s1.cell_at(coord));
                    }
                    self.lemma_step_fit(g0, coord, tile);
                }
            },
            None => {
                proof {
                    self.lemma_inv_other_rand(&g0);
                }
                self.rewind();
            },
        }
        Some(())
    }

    /// The set of tiles that the collapsed neighbours of `coord` leave possible there.
    pub fn alternatives(&self, coord: HexCoord) -> (alts: FixedBitSet)
        requires
            self.cells_ok(),
            holds(self.grid.layout, coord),
        ensures
            bitset_wf(alts),
            bitset_len(alts) == self.tile_count(),
            bitset_ones(alts) == self.allowed(coord),
    {
        let n = self.template.available_tiles();
        let mut alts = bitset_with_capacity(n);
        bitset_fill(&mut alts);
        proof {
            self.grid.layout.lemma_neighbour_locatable(coord, 0);
        }
        let neighbours = coord.neighbours();
        let mut d: usize = 0;
        while d < 6
            invariant
                self.cells_ok(),
                holds(self.grid.layout, coord),
                n == self.tile_count(),
                neighbours@.len() == 6,
                forall|i: int| 0 <= i < 6 ==> #[trigger] neighbours@[i] == neighbour(coord, i),
                d <= 6,
                bitset_wf(alts),
                bitset_len(alts) == n,
                bitset_ones(alts) == Set::new(
                    |j: nat| j < n && forall|d2: int| 0 <= d2 < d ==> #[trigger] self.fits_from(coord, d2, j),
                ),
            decreases 6 - d,
        {
            let nb = neighbours[d];
            proof {
                self.grid.layout.lemma_neighbour_locatable(coord, d as int);
            }
            let ghost before = bitset_ones(alts);
            match self.grid.get(nb) {
                Some(Cell::Collapsed(tile)) => {
                    let tile = *tile;
                    proof {
                        self.grid.layout.lemma_coord_of_offset(nb);
                        assert(self.cell_ok(self.cell_at(nb)));
                    }
                    let pairs = self.template.compatible_tiles(tile);
                    let mut e: usize = 0;
                    while e < 6
                        invariant
                            self.cells_ok(),
                            holds(self.grid.layout, coord),
                            holds(self.grid.layout, nb),
                            nb == neighbour(coord, d as int),
                            self.cell_at(nb) == Cell::Collapsed(tile),
                            tile < self.tile_count(),
                            n == self.tile_count(),
                            pairs@.len() == 6,
                            forall|i: int| 0 <= i < 6 ==> {
                                &&& (#[trigger] pairs@[i]).0 == neighbour_offset(i)
                                &&& bitset_ones(*pairs@[i].1) == self.template.compatible_set(tile as int, i)
                                &&& bitset_wf(*pairs@[i].1)
                            },
                            e <= 6,
                            bitset_wf(alts),
                            bitset_len(alts) == n,
                            bitset_ones(alts) == Set::new(
                                |j: nat| before.contains(j) && forall|e2: int| 0 <= e2 < e && #[trigger] neighbour(nb, e2)
                                    == coord ==> self.template.compatible_set(tile as int, e2).contains(j),
                            ),
                        decreases 6 - e,
                    {
                        let (offset, compatible) = pairs[e];
                        proof {
                            self.grid.layout.lemma_neighbour_locatable(nb, e as int);
                        }
                        let ghost inner = bitset_ones(alts);
                        if nb.plus(offset) == coord {
                            bitset_intersect(&mut alts, compatible);
                        }
                        proof {
                            let target = Set::new(
                                |j: nat| before.contains(j) && forall|e2: int| 0 <= e2 < e + 1 && #[trigger] neighbour(nb, e2)
                                    == coord ==> self.template.compatible_set(tile as int, e2).contains(j),
                            );
                            assert(pairs@[e as int].0 == offset);
                            assert(bitset_ones(*compatible) == self.template.compatible_set(tile as int, e as int));
                            assert forall|j: nat| bitset_ones(alts).contains(j) <==> target.contains(j) by {
                                if bitset_ones(alts).contains(j) {
                                    assert(inner.contains(j));
                                    assert forall|e2: int| 0 <= e2 < e + 1 && #[trigger] neighbour(nb, e2) == coord
                                        implies self.template.compatible_set(tile as int, e2).contains(j) by {
                                        if e2 < e {
                                            assert(inner.contains(j));
                                        }
                                    }
                                }
                                if target.contains(j) {
                                    assert(inner.contains(j));
                                    if neighbour(nb, e as int) == coord {
                                        assert(self.template.compatible_set(tile as int, e as int).contains(j));
                                    }
                                }
                            }
                            assert(bitset_ones(alts) =~= target);
                        }
                        e = e + 1;
                    }
                },
                _ => {
                    proof {
                        self.grid.layout.lemma_coord_of_offset(nb);
                    }
                },
            }
            proof {
                assert(bitset_ones(alts) =~= Set::new(
                    |j: nat| j < n && forall|d2: int| 0 <= d2 < d + 1 ==> #[trigger] self.fits_from(coord, d2, j),
                )) by {
                    assert forall|j: nat| bitset_ones(alts).contains(j) implies j < n && forall|d2: int|
                        0 <= d2 < d + 1 ==> #[trigger] self.fits_from(coord, d2, j) by {
                        assert forall|d2: int| 0 <= d2 < d + 1 implies #[trigger] self.fits_from(coord, d2, j) by {
                            if d2 < d {
                                assert(before.contains(j));
                            }
                        }
                    }
                    assert forall|j: nat| j < n && (forall|d2: int| 0 <= d2 < d + 1 ==> #[trigger] self.fits_from(
                        coord,
                        d2,
                        j,
                    )) implies bitset_ones(alts).contains(j) by {
                        assert(self.fits_from(coord, d as int, j));
                        assert(before.contains(j));
                    }
                }
            }
            d = d + 1;
        }
        proof {
            assert(bitset_ones(alts) =~= self.allowed(coord));
        }
        alts
    }
}

impl<'a, Layout: SeedLayout, Item> Generator<'a, Layout, Item> {
    /// A generator for the given layout, with random numbers from a new random seed: every cell
    /// can take every tile, and the center is collapsed first.
    pub fn new_with_layout(template: &'a Template<Item>, layout: Layout) -> (g: Self)
        requires
            template.wf(),
            layout.valid(),
            layout.well_shaped(),
            layout.can_locate(layout.spec_center()),
        ensures
            g.inv(),
            g.template == template,
            g.grid.layout == layout,
            g.collapsed@.len() == 0,
            g.pending@.len() == 0,
            g.next == Some(layout.spec_center()),
            forall|p: HexCoord| holds(layout, p) ==> (#[trigger] g.cell_at(p)) is Alternatives && g.cell_at(p).alternatives()
                == below(template.tile_count()),
            rng_seeded(g.rand),
            rng_draws(g.rand) == Seq::<usize>::empty(),
    {
        let seed = Seed::new(layout.to_seed_type());
        Self::with_seed_and_layout(template, seed, layout)
    }

    /// A generator for the layout of `seed`, with random numbers seeded from it, or an error if
    /// the seed is for another kind of layout.
    pub fn new_with_seed(template: &'a Template<Item>, seed: Seed) -> (res: Result<Self, &'static str>)
        requires
            template.wf(),
            Layout::layout_of(seed.seed_type) matches Some(l) ==> {
                &&& l.valid()
                &&& l.well_shaped()
                &&& l.can_locate(l.spec_center())
            },
        ensures
            match res {
                Ok(g) => {
                    &&& Layout::layout_of(seed.seed_type) == Some(g.grid.layout)
                    &&& g.inv()
                    &&& g.template == template
                    &&& g.collapsed@.len() == 0
                    &&& g.pending@.len() == 0
                    &&& g.next == Some(g.grid.layout.spec_center())
                    &&& forall|p: HexCoord| holds(g.grid.layout, p) ==> (#[trigger] g.cell_at(p)) is Alternatives
                        && g.cell_at(p).alternatives() == below(template.tile_count())
                    &&& rng_seeded(g.rand)
                    &&& rng_seed(g.rand) == seed.rng_seed
                    &&& rng_draws(g.rand) == Seq::<usize>::empty()
                },
                Err(e) => Layout::layout_of(seed.seed_type) is None && e@ == "Incompatible seed"@,
            },
    {
        proof {
            reveal_strlit("Incompatible seed");
        }
        let layout = Layout::from_seed_type(seed.seed_type)?;
        Ok(Self::with_seed_and_layout(template, seed, layout))
    }

    /// A generator for `layout` with random numbers seeded from `seed`.
    fn with_seed_and_layout(template: &'a Template<Item>, seed: Seed, layout: Layout) -> (g: Self)
        requires
            template.wf(),
            layout.valid(),
            layout.well_shaped(),
            layout.can_locate(layout.spec_center()),
        ensures
            g.inv(),
            g.template == template,
            g.grid.layout == layout,
            g.collapsed@.len() == 0,
            g.pending@.len() == 0,
            g.next == Some(layout.spec_center()),
            forall|p: HexCoord| holds(layout, p) ==> (#[trigger] g.cell_at(p)) is Alternatives && g.cell_at(p).alternatives()
                == below(template.tile_count()),
            rng_seeded(g.rand),
            rng_seed(g.rand) == seed.rng_seed,
            rng_draws(g.rand) == Seq::<usize>::empty(),
    {
        let default_cell = Cell::empty(template.available_tiles());
        let grid = Grid::with_fill(layout, default_cell);
        let collapsed: Vec<(HexCoord, TileId, Vec<TileId>)> = Vec::with_capacity(grid.layout.size());
        let g = Generator {
            template,
            grid,
            collapsed,
            pending: HashMap::new(),
            next: Some(layout.center()),
            rejected: Some(Vec::new()),
            rand: rng_from_seed(seed.rng_seed),
        };
        proof {
            assert forall|p: HexCoord| holds(layout, p) implies (#[trigger] g.cell_at(p)) is Alternatives && g.cell_at(
                p,
            ).alternatives() == below(template.tile_count()) && g.cell_ok(g.cell_at(p)) by {
                layout.lemma_coord_of_offset(p);
                let o = layout.spec_offset(p)->0;
                assert(g.grid.cells()[o].same(&default_cell));
            }
        }
        g
    }
}

impl<'a, Layout: GridLayout, Item> Generator<'a, Layout, Item> {
    /// The random number generator, as it stands.
    pub fn rand(self) -> (rng: Xoshiro256PlusPlus)
        ensures
            rng == self.rand,
    {
        self.rand
    }
}

impl<'a, Layout: GridLayout, Item: Copy> Generator<'a, Layout, Item> {
    /// Every cell of the grid is collapsed.
    pub open spec fn all_collapsed(&self) -> bool {
        forall|i: int| 0 <= i < self.grid.cells().len() ==> (#[trigger] self.grid.cells()[i]) is Collapsed
    }

    /// The map: for each cell, the value that its tile contributes; an error if a cell is not
    /// collapsed yet.
    pub fn export(&self) -> (res: Result<Grid<Layout, Item>, &'static str>)
        requires
            self.cells_ok(),
        ensures
            match res {
                Ok(g) => {
                    &&& self.all_collapsed()
                    &&& g.wf()
                    &&& g.layout == self.grid.layout
                    &&& g.cells().len() == self.grid.cells().len()
                    &&& forall|i: int| 0 <= i < g.cells().len() ==> #[trigger] g.cells()[i]
                        == self.template.contribution_of(self.grid.cells()[i]->Collapsed_0 as int)
                },
                Err(e) => !self.all_collapsed() && e@ == "Cell not collapsed"@,
            },
    {
        proof {
            reveal_strlit("Cell not collapsed");
        }
        let cells = self.grid.iter_data();
        let mut data: Vec<Item> = Vec::new();
        let mut i: usize = 0;
        while i < cells.len()
            invariant
                self.cells_ok(),
                cells@ == self.grid.cells(),
                i <= cells@.len(),
                data@.len() == i,
                forall|k: int| 0 <= k < i ==> (#[trigger] cells@[k]) is Collapsed,
                forall|k: int| 0 <= k < i ==> #[trigger] data@[k] == self.template.contribution_of(
                    cells@[k]->Collapsed_0 as int,
                ),
            decreases cells@.len() - i,
        {
            proof {
                self.grid.layout.lemma_offset_of_coord(i as int);
                let p = self.grid.layout.coord_at(i as int);
                assert(self.cell_ok(self.cell_at(p)));
            }
            match &cells[i] {
                Cell::Collapsed(tile) => {
                    data.push(self.template.contribution(*tile));
                },
                Cell::Alternatives(_, _) => {
                    return Err("Cell not collapsed");
                },
            }
            i = i + 1;
        }
        Ok(Grid::with_data(self.grid.layout, data))
    }
}

} // verus!
