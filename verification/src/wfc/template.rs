//! Templates: the tiles that a map is made of, and which of them fit next to each other.
use super::bitset::{bitset_bit_count, bitset_extend, bitset_len, bitset_ones, bitset_wf, bitset_with_capacity};
use super::order::{lemma_lex_irreflexive, lemma_lex_transitive, lex_less, lex_lt, well_ordered};
use super::tile::{
    compatible_values, lemma_compatible_symmetric, lemma_tile_coords, small_offset, tile_coord, Tile,
};
use super::TileId;
use crate::hexgrid::coord::{
    hex, lemma_opposite_direction, neighbour_offset, opposite_direction, HexCoord,
};
use crate::hexgrid::layout::GridLayout;
use crate::hexgrid::neighbours::Neighbours;
use fixedbitset::FixedBitSet;
use vstd::laws_eq::obeys_concrete_eq;
use vstd::prelude::*;

verus! {

broadcast use vstd::seq_lib::group_to_multiset_ensures, vstd::seq_lib::to_multiset_insert;

/// What a template knows of a tile: the value it puts in a map, and for each direction the
/// tiles that fit next to it in that direction.
pub struct TileDetails<Item> {
    contribution: Item,
    compatible: Neighbours<FixedBitSet>,
}

/// A Template holds the rules for how tiles can be combined
pub struct Template<Item> {
    details: Vec<TileDetails<Item>>,
}

/// Every tile looks at positions its grid holds.
pub open spec fn tiles_ok<'a, Layout: GridLayout, Item>(tiles: Seq<Tile<'a, Layout, Item>>) -> bool {
    forall|i: int| 0 <= i < tiles.len() ==> (#[trigger] tiles[i]).ok()
}

/// No tile's values come before those of a tile before it.
pub open spec fn lex_sorted<'a, Layout: GridLayout, Item: PartialOrd>(
    tiles: Seq<Tile<'a, Layout, Item>>,
) -> bool {
    forall|i: int, j: int| 0 <= i < j < tiles.len() ==> !lex_lt(
        (#[trigger] tiles[j]).values(),
        (#[trigger] tiles[i]).values(),
    )
}

/// The indices of the tiles that fit with tile `i` placed at `offset` from it.
pub open spec fn compatible_ids<'a, Layout: GridLayout, Item>(
    tiles: Seq<Tile<'a, Layout, Item>>,
    i: int,
    offset: HexCoord,
) -> Set<nat> {
    Set::new(
        |j: nat| j < tiles.len() && compatible_values(tiles[i].values(), tiles[j as int].values(), offset),
    )
}

/// The value at the center of a tile.
pub open spec fn center_value<'a, Layout: GridLayout, Item>(tile: Tile<'a, Layout, Item>) -> Item {
    tile.values()[3]
}

/// Inserting a value that comes before the value at `p` and after none before `p` keeps tiles
/// sorted.
proof fn lemma_insert_sorted<'a, Layout: GridLayout, Item: Ord>(
    s: Seq<Tile<'a, Layout, Item>>,
    p: int,
    x: Tile<'a, Layout, Item>,
)
    requires
        well_ordered::<Item>(),
        lex_sorted(s),
        0 <= p <= s.len(),
        forall|q: int| 0 <= q < p ==> !lex_lt(x.values(), #[trigger] s[q].values()),
        p < s.len() ==> lex_lt(x.values(), s[p].values()),
    ensures
        lex_sorted(s.insert(p, x)),
{
    let n = s.insert(p, x);
    s.insert_ensures(p, x);
    assert forall|a: int, b: int| 0 <= a < b < n.len() implies !lex_lt(
        (#[trigger] n[b]).values(),
        (#[trigger] n[a]).values(),
    ) by {
        if a < p && b < p {
            assert(n[a] == s[a] && n[b] == s[b]);
        } else if a < p && b == p {
            assert(n[a] == s[a]);
        } else if a < p {
            assert(n[a] == s[a] && n[b] == s[b - 1]);
        } else if a == p {
            assert(n[b] == s[b - 1]);
            if lex_lt(s[b - 1].values(), x.values()) {
                lemma_lex_transitive(s[b - 1].values(), x.values(), s[p].values(), 0);
                if b - 1 == p {
                    lemma_lex_irreflexive(s[p].values(), 0);
                }
            }
        } else {
            assert(n[a] == s[a - 1] && n[b] == s[b - 1]);
        }
    }
}

/// The tiles in lexicographic order of their values; tiles with the same values keep their
/// order.
pub fn sort_tiles<'a, Layout: GridLayout, Item: Copy + Ord>(tiles: &Vec<Tile<'a, Layout, Item>>) -> (sorted: Vec<
    Tile<'a, Layout, Item>,
>)
    requires
        well_ordered::<Item>(),
        tiles_ok(tiles@),
    ensures
        sorted@.to_multiset() == tiles@.to_multiset(),
        lex_sorted(sorted@),
        tiles_ok(sorted@),
        sorted@.len() == tiles@.len(),
{
    let mut sorted: Vec<Tile<'a, Layout, Item>> = Vec::new();
    let mut keys: Vec<Vec<Item>> = Vec::new();
    let mut i: usize = 0;
    while i < tiles.len()
        invariant
            well_ordered::<Item>(),
            tiles_ok(tiles@),
            i <= tiles@.len(),
            keys@.len() == sorted@.len(),
            sorted@.len() == i,
            forall|k: int| 0 <= k < keys@.len() ==> (#[trigger] keys@[k])@ == sorted@[k].values(),
            sorted@.to_multiset() == tiles@.subrange(0, i as int).to_multiset(),
            lex_sorted(sorted@),
            tiles_ok(sorted@),
        decreases tiles@.len() - i,
    {
        let tile = tiles[i];
        assert(tiles@[i as int].ok());
        let key = tile.iter();
        let mut p: usize = 0;
        let mut found = false;
        while p < sorted.len() && !found
            invariant
                well_ordered::<Item>(),
                keys@.len() == sorted@.len(),
                forall|k: int| 0 <= k < keys@.len() ==> (#[trigger] keys@[k])@ == sorted@[k].values(),
                p <= sorted@.len(),
                found ==> p < sorted@.len() && lex_lt(key@, sorted@[p as int].values()),
                forall|q: int| 0 <= q < p ==> !lex_lt(key@, #[trigger] sorted@[q].values()),
            decreases sorted@.len() - p + (if found { 0int } else { 1int }),
        {
            if lex_less(&key, &keys[p]) {
                found = true;
            } else {
                p = p + 1;
            }
        }
        proof {
            lemma_insert_sorted(sorted@, p as int, tile);
            sorted@.insert_ensures(p as int, tile);
            assert(tiles@.subrange(0, i + 1) =~= tiles@.subrange(0, i as int).push(tile));
        }
        let ghost old_keys = keys@;
        let ghost old_sorted = sorted@;
        sorted.insert(p, tile);
        keys.insert(p, key);
        proof {
            old_keys.insert_ensures(p as int, key);
            assert forall|k: int| 0 <= k < keys@.len() implies (#[trigger] keys@[k])@ == sorted@[k].values() by {
                if k > p {
                    assert(keys@[k] == old_keys[k - 1]);
                    assert(sorted@[k] == old_sorted[k - 1]);
                }
            }
            assert forall|k: int| 0 <= k < sorted@.len() implies (#[trigger] sorted@[k]).ok() by {
                if k < p {
                    assert(sorted@[k] == old_sorted[k]);
                } else if k > p {
                    assert(sorted@[k] == old_sorted[k - 1]);
                }
            }
        }
        i = i + 1;
    }
    assert(tiles@.subrange(0, tiles@.len() as int) =~= tiles@);
    sorted
}

/// The bit set of the tiles that fit with tile `i` placed at `offset` from it.
fn compatible_bitset<'a, Layout: GridLayout, Item: Copy + PartialEq>(
    tiles: &Vec<Tile<'a, Layout, Item>>,
    i: usize,
    offset: HexCoord,
) -> (bits: FixedBitSet)
    requires
        i < tiles@.len(),
        tiles_ok(tiles@),
        small_offset(offset),
        obeys_concrete_eq::<Item>(),
    ensures
        bitset_wf(bits),
        bitset_len(bits) == tiles@.len(),
        bitset_ones(bits) == compatible_ids(tiles@, i as int, offset),
{
    let mut ids: Vec<usize> = Vec::new();
    let mut j: usize = 0;
    assert(tiles@[i as int].ok());
    while j < tiles.len()
        invariant
            i < tiles@.len(),
            tiles_ok(tiles@),
            small_offset(offset),
            obeys_concrete_eq::<Item>(),
            j <= tiles@.len(),
            forall|k: int| 0 <= k < ids@.len() ==> #[trigger] ids@[k] < j,
            forall|x: nat| #![trigger compatible_ids(tiles@, i as int, offset).contains(x)]
                compatible_ids(tiles@, i as int, offset).contains(x) && x < j <==> exists|k: int|
                    0 <= k < ids@.len() && ids@[k] == x,
        decreases tiles@.len() - j,
    {
        assert(tiles@[j as int].ok());
        let fits = tiles[i].compatible_with(&tiles[j], offset);
        let ghost before = ids@;
        if fits {
            ids.push(j);
        }
        proof {
            assert forall|x: nat| #![trigger compatible_ids(tiles@, i as int, offset).contains(x)]
                compatible_ids(tiles@, i as int, offset).contains(x) && x < j + 1 <==> exists|k: int|
                    0 <= k < ids@.len() && ids@[k] == x by {
                if x < j {
                    if exists|k: int| 0 <= k < before.len() && before[k] == x {
                        let k = choose|k: int| 0 <= k < before.len() && before[k] == x;
                        assert(ids@[k] == x);
                    }
                    if exists|k: int| 0 <= k < ids@.len() && ids@[k] == x {
                        let k = choose|k: int| 0 <= k < ids@.len() && ids@[k] == x;
                        assert(k < before.len());
                        assert(before[k] == x);
                    }
                } else if x == j {
                    if fits {
                        assert(ids@[before.len() as int] == x);
                    } else {
                        if exists|k: int| 0 <= k < ids@.len() && ids@[k] == x {
                            let k = choose|k: int| 0 <= k < ids@.len() && ids@[k] == x;
                            assert(before[k] < j);
                        }
                    }
                } else {
                    if exists|k: int| 0 <= k < ids@.len() && ids@[k] == x {
                        let k = choose|k: int| 0 <= k < ids@.len() && ids@[k] == x;
                        if k < before.len() {
                            assert(before[k] < j);
                        }
                    }
                }
            }
        }
        j = j + 1;
    }
    let mut bits = bitset_with_capacity(tiles.len());
    bitset_extend(&mut bits, ids);
    proof {
        assert forall|x: nat| bitset_ones(bits).contains(x) <==> compatible_ids(tiles@, i as int, offset).contains(
            x,
        ) by {
            if compatible_ids(tiles@, i as int, offset).contains(x) {
                assert(x < j);
            }
        }
        assert(bitset_ones(bits) =~= compatible_ids(tiles@, i as int, offset));
    }
    bits
}

impl<Item> Template<Item> {
    /// The number of tiles.
    pub closed spec fn tile_count(&self) -> nat {
        self.details@.len()
    }

    /// The value that tile `t` puts in a map.
    pub closed spec fn contribution_of(&self, t: int) -> Item {
        self.details@[t].contribution
    }

    /// The tiles that fit next to tile `t` in direction `d`.
    pub closed spec fn compatible_set(&self, t: int, d: int) -> Set<nat> {
        bitset_ones(self.details@[t].compatible.view_values()[d])
    }

    /// Each tile has a set of compatible tiles for each direction, with room for every tile, and
    /// a tile fits next to another in a direction only if that one fits next to it in the
    /// opposite direction.
    pub closed spec fn wf(&self) -> bool {
        &&& forall|t: int, d: int| #![trigger self.details@[t].compatible.view_values()[d]]
            0 <= t < self.details@.len() && 0 <= d < 6 ==> {
                &&& self.details@[t].compatible.view_values().len() == 6
                &&& bitset_wf(self.details@[t].compatible.view_values()[d])
                &&& bitset_len(self.details@[t].compatible.view_values()[d]) == self.details@.len()
            }
        &&& forall|t: int, j: nat, d: int| #![trigger self.compatible_set(t, d).contains(j)]
            0 <= t < self.details@.len() && j < self.details@.len() && 0 <= d < 6
                && self.compatible_set(t, d).contains(j) ==> self.compatible_set(j as int, opposite_direction(d)).contains(
                t as nat,
            )
    }

    /// Tile `j` fits next to tile `t` in direction `d` exactly when `t` fits next to `j` in the
    /// opposite direction.
    pub proof fn lemma_fits_both_ways(&self, t: int, j: int, d: int)
        requires
            self.wf(),
            0 <= t < self.tile_count(),
            0 <= j < self.tile_count(),
            0 <= d < 6,
        ensures
            self.compatible_set(t, d).contains(j as nat) <==> self.compatible_set(j, opposite_direction(d)).contains(
                t as nat,
            ),
    {
        lemma_opposite_direction(d);
        if self.compatible_set(j, opposite_direction(d)).contains(t as nat) {
            assert(self.compatible_set(t, opposite_direction(opposite_direction(d))).contains(j as nat));
        }
    }

    /// The template describes `tiles`, in their order: tile `t` of the template is `tiles[t]`,
    /// contributes its center value, and has as compatible tiles in each direction those that
    /// fit next to it there.
    pub open spec fn describes<'a, Layout: GridLayout>(&self, tiles: Seq<Tile<'a, Layout, Item>>) -> bool {
        &&& self.tile_count() == tiles.len()
        &&& forall|t: int| 0 <= t < tiles.len() ==> #[trigger] self.contribution_of(t) == center_value(tiles[t])
        &&& forall|t: int, d: int| 0 <= t < tiles.len() && 0 <= d < 6 ==> #[trigger] self.compatible_set(t, d)
            == compatible_ids(tiles, t, neighbour_offset(d))
    }

    /// The number of tiles.
    pub fn available_tiles(&self) -> (n: usize)
        ensures
            n == self.tile_count(),
    {
        self.details.len()
    }

    /// The offset of each direction with the set of tiles that fit next to `tile_id` in it.
    pub fn compatible_tiles(&self, tile_id: TileId) -> (pairs: Vec<(HexCoord, &FixedBitSet)>)
        requires
            self.wf(),
            tile_id < self.tile_count(),
        ensures
            pairs@.len() == 6,
            forall|d: int| 0 <= d < 6 ==> {
                &&& (#[trigger] pairs@[d]).0 == neighbour_offset(d)
                &&& bitset_ones(*pairs@[d].1) == self.compatible_set(tile_id as int, d)
                &&& bitset_wf(*pairs@[d].1)
                &&& bitset_len(*pairs@[d].1) == self.tile_count()
            },
    {
        let pairs = self.details[tile_id].compatible.iter();
        proof {
            assert forall|d: int| 0 <= d < 6 implies bitset_wf(*(#[trigger] pairs@[d]).1) && bitset_len(
                *pairs@[d].1,
            ) == self.tile_count() by {
                assert(bitset_wf(self.details@[tile_id as int].compatible.view_values()[d]));
            }
        }
        pairs
    }
}

impl<Item> Template<Item> {
    /// The size of each tile's set of compatible tiles in each direction, counted in bits, tile
    /// by tile and direction by direction: each is the number of tiles.
    pub fn connections(&self) -> (counts: Vec<u32>)
        requires
            self.wf(),
            6 * self.tile_count() <= usize::MAX,
            self.tile_count() <= u32::MAX,
        ensures
            counts@.len() == 6 * self.tile_count(),
            forall|i: int| 0 <= i < counts@.len() ==> #[trigger] counts@[i] == self.tile_count(),
    {
        let n = self.details.len();
        let mut counts: Vec<u32> = Vec::new();
        let mut t: usize = 0;
        while t < n
            invariant
                self.wf(),
                n == self.tile_count(),
                n <= u32::MAX,
                t <= n,
                counts@.len() == 6 * t,
                forall|i: int| 0 <= i < counts@.len() ==> #[trigger] counts@[i] == n,
            decreases n - t,
        {
            let compatible = self.details[t].compatible.iter();
            let mut d: usize = 0;
            while d < 6
                invariant
                    self.wf(),
                    n == self.tile_count(),
                    n <= u32::MAX,
                    t < n,
                    d <= 6,
                    compatible@.len() == 6,
                    forall|k: int| 0 <= k < 6 ==> *(#[trigger] compatible@[k]).1 == self.details@[t as int].compatible.view_values()[k],
                    counts@.len() == 6 * t + d,
                    forall|i: int| 0 <= i < counts@.len() ==> #[trigger] counts@[i] == n,
                decreases 6 - d,
            {
                assert(bitset_len(self.details@[t as int].compatible.view_values()[d as int]) == n);
                let bits = bitset_bit_count(compatible[d].1);
                counts.push(bits as u32);
                d = d + 1;
            }
            t = t + 1;
        }
        counts
    }
}

/// The least and the greatest of `values`, or `None` if there are none.
pub fn min_max(values: &Vec<u32>) -> (bounds: Option<(u32, u32)>)
    ensures
        match bounds {
            Some((lo, hi)) => {
                &&& values@.contains(lo)
                &&& values@.contains(hi)
                &&& forall|i: int| 0 <= i < values@.len() ==> lo <= #[trigger] values@[i] <= hi
            },
            None => values@.len() == 0,
        },
{
    if values.len() == 0 {
        return None;
    }
    let mut lo = values[0];
    let mut hi = values[0];
    let mut i: usize = 1;
    while i < values.len()
        invariant
            1 <= i <= values@.len(),
            values@.contains(lo),
            values@.contains(hi),
            forall|k: int| 0 <= k < i ==> lo <= #[trigger] values@[k] <= hi,
        decreases values@.len() - i,
    {
        if values[i] < lo {
            lo = values[i];
        }
        if values[i] > hi {
            hi = values[i];
        }
        i = i + 1;
    }
    Some((lo, hi))
}

impl<Item: Copy> Template<Item> {
    /// The value that tile `tile_id` puts in a map.
    pub fn contribution(&self, tile_id: TileId) -> (item: Item)
        requires
            tile_id < self.tile_count(),
        ensures
            item == self.contribution_of(tile_id as int),
    {
        self.details[tile_id].contribution
    }
}

impl<Item: Copy + Ord> Template<Item> {
    /// The template of the given tiles: they are ordered by their values, and tile `t` of the
    /// template is the `t`-th of them.
    pub fn from_tiles<'a, Layout: GridLayout>(tiles: Vec<Tile<'a, Layout, Item>>) -> (template: Self)
        requires
            well_ordered::<Item>(),
            tiles_ok(tiles@),
        ensures
            template.wf(),
            template.tile_count() == tiles@.len(),
            exists|sorted: Seq<Tile<'a, Layout, Item>>| {
                &&& sorted.to_multiset() == tiles@.to_multiset()
                &&& lex_sorted(sorted)
                &&& #[trigger] template.describes(sorted)
            },
    {
        proof {
            reveal(obeys_concrete_eq);
        }
        let sorted = sort_tiles(&tiles);
        let n = sorted.len();
        let mut details: Vec<TileDetails<Item>> = Vec::new();
        let mut t: usize = 0;
        while t < n
            invariant
                n == sorted@.len(),
                tiles_ok(sorted@),
                obeys_concrete_eq::<Item>(),
                t <= n,
                details@.len() == t,
                forall|k: int| 0 <= k < t ==> (#[trigger] details@[k]).contribution == center_value(sorted@[k]),
                forall|k: int, d: int| #![trigger details@[k].compatible.view_values()[d]]
                    0 <= k < t && 0 <= d < 6 ==> {
                        &&& details@[k].compatible.view_values().len() == 6
                        &&& bitset_wf(details@[k].compatible.view_values()[d])
                        &&& bitset_len(details@[k].compatible.view_values()[d]) == n
                        &&& bitset_ones(details@[k].compatible.view_values()[d]) == compatible_ids(
                            sorted@,
                            k,
                            neighbour_offset(d),
                        )
                    },
            decreases n - t,
        {
            assert(sorted@[t as int].ok());
            proof {
                lemma_tile_coords(hex(0, 0));
                assert(tile_coord(3) == hex(0, 0));
            }
            let contribution = *sorted[t].index(HexCoord::zero());
            let b0 = compatible_bitset(&sorted, t, HexCoord::neighbour_offset(0));
            let b1 = compatible_bitset(&sorted, t, HexCoord::neighbour_offset(1));
            let b2 = compatible_bitset(&sorted, t, HexCoord::neighbour_offset(2));
            let b3 = compatible_bitset(&sorted, t, HexCoord::neighbour_offset(3));
            let b4 = compatible_bitset(&sorted, t, HexCoord::neighbour_offset(4));
            let b5 = compatible_bitset(&sorted, t, HexCoord::neighbour_offset(5));
            let compatible = Neighbours::new([b0, b1, b2, b3, b4, b5]);
            details.push(TileDetails { contribution, compatible });
            proof {
                assert forall|k: int, d: int| #![trigger details@[k].compatible.view_values()[d]]
                    0 <= k < t + 1 && 0 <= d < 6 implies {
                        &&& details@[k].compatible.view_values().len() == 6
                        &&& bitset_wf(details@[k].compatible.view_values()[d])
                        &&& bitset_len(details@[k].compatible.view_values()[d]) == n
                        &&& bitset_ones(details@[k].compatible.view_values()[d]) == compatible_ids(
                            sorted@,
                            k,
                            neighbour_offset(d),
                        )
                    } by {
                    if k == t {
                        assert(d == 0 || d == 1 || d == 2 || d == 3 || d == 4 || d == 5);
                    }
                }
            }
            t = t + 1;
        }
        let template = Template { details };
        assert(template.describes(sorted@));
        proof {
            assert forall|t: int, j: nat, d: int| #![trigger template.compatible_set(t, d).contains(j)]
                0 <= t < n && j < n && 0 <= d < 6 && template.compatible_set(t, d).contains(j)
                implies template.compatible_set(j as int, opposite_direction(d)).contains(t as nat) by {
                lemma_opposite_direction(d);
                let off = neighbour_offset(d);
                assert(compatible_ids(sorted@, t, off).contains(j));
                lemma_compatible_symmetric(sorted@[t].values(), sorted@[j as int].values(), off);
                assert(compatible_ids(sorted@, j as int, neighbour_offset(opposite_direction(d))).contains(t as nat));
            }
        }
        template
    }
}

} // verus!
