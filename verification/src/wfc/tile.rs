//! Tiles: the seven positions around a center of a grid, seen through a rotation or reflection.
use crate::hexgrid::coord::{hex, in_i32, HexCoord};
use crate::hexgrid::grid::Grid;
use crate::hexgrid::layout::{GridLayout, HexagonalGridLayout};
use crate::hexgrid::imat3::is_signed_perm;
use crate::hexgrid::transform::{
    lemma_signed_perm_apply, matrix_apply, transform_matrix, transforms_matrix, Transform,
    TransformMatrix,
};
use vstd::laws_eq::obeys_concrete_eq;
use vstd::math::abs;
use vstd::prelude::*;

verus! {

/// The seven positions of a tile, in the order in which its values are listed.
pub open spec fn tile_coord(k: int) -> HexCoord {
    if k == 0 { hex(0, -1) }
    else if k == 1 { hex(1, -1) }
    else if k == 2 { hex(-1, 0) }
    else if k == 3 { hex(0, 0) }
    else if k == 4 { hex(1, 0) }
    else if k == 5 { hex(-1, 1) }
    else { hex(0, 1) }
}

/// The index among the seven positions of a tile of a position at most one step from the center.
pub open spec fn tile_index(c: HexCoord) -> int {
    if c == hex(0, -1) { 0 }
    else if c == hex(1, -1) { 1 }
    else if c == hex(-1, 0) { 2 }
    else if c == hex(0, 0) { 3 }
    else if c == hex(1, 0) { 4 }
    else if c == hex(-1, 1) { 5 }
    else { 6 }
}

/// The seven positions of a tile are exactly those at most one step from its center.
pub proof fn lemma_tile_coords(c: HexCoord)
    ensures
        c.spec_length() <= 1 <==> (exists|k: int| 0 <= k < 7 && c == #[trigger] tile_coord(k)),
        c.spec_length() <= 1 ==> 0 <= tile_index(c) < 7 && tile_coord(tile_index(c)) == c,
        forall|k: int| 0 <= k < 7 ==> #[trigger] tile_index(tile_coord(k)) == k && tile_coord(k).spec_length() <= 1,
{
    if c.spec_length() <= 1 {
        assert(c == tile_coord(tile_index(c)));
    }
    if exists|k: int| 0 <= k < 7 && c == #[trigger] tile_coord(k) {
        let k = choose|k: int| 0 <= k < 7 && c == #[trigger] tile_coord(k);
        assert(k == 0 || k == 1 || k == 2 || k == 3 || k == 4 || k == 5 || k == 6);
    }
    assert forall|k: int| 0 <= k < 7 implies #[trigger] tile_index(tile_coord(k)) == k && tile_coord(k).spec_length() <= 1 by {
        assert(k == 0 || k == 1 || k == 2 || k == 3 || k == 4 || k == 5 || k == 6);
    }
}

/// The exec form of `tile_coord`.
pub fn tile_coord_exec(k: usize) -> (c: HexCoord)
    requires
        k < 7,
    ensures
        c == tile_coord(k as int),
{
    if k == 0 { HexCoord::new(0, -1) }
    else if k == 1 { HexCoord::new(1, -1) }
    else if k == 2 { HexCoord::new(-1, 0) }
    else if k == 3 { HexCoord::new(0, 0) }
    else if k == 4 { HexCoord::new(1, 0) }
    else if k == 5 { HexCoord::new(-1, 1) }
    else { HexCoord::new(0, 1) }
}

/// Two tiles, given by their values, fit together with the second placed at `offset` from the
/// first: wherever they overlap, their values agree.
pub open spec fn compatible_values<Item>(a: Seq<Item>, b: Seq<Item>, offset: HexCoord) -> bool {
    forall|k: int| 0 <= k < 7 ==> {
        let d = hex(tile_coord(k).q - offset.q, tile_coord(k).r - offset.r);
        d.spec_length() > 1 || #[trigger] a[k] == b[tile_index(d)]
    }
}

/// An offset small enough that the arithmetic of comparing tiles stays within range.
pub open spec fn small_offset(offset: HexCoord) -> bool {
    -0x1000_0000 <= offset.q <= 0x1000_0000 && -0x1000_0000 <= offset.r <= 0x1000_0000
}

/// A Tile acts as a lense into a grid where a possibly rotated or reflected subsection can be
/// accessed. The transform is applied to coordinates, so in effect the tile is rotated in the
/// opposite direction.
#[derive(Copy, Clone)]
pub struct Tile<'a, Layout: GridLayout, Item> {
    pub grid: &'a Grid<Layout, Item>,
    pub offset: HexCoord,
    pub transform: &'a TransformMatrix,
}

impl<'a, Layout: GridLayout, Item> Tile<'a, Layout, Item> {
    /// The grid position that position `c` of the tile looks at.
    pub open spec fn position(&self, c: HexCoord) -> HexCoord {
        let m = matrix_apply(self.transform.matrix(), c);
        hex(m.q + self.offset.q, m.r + self.offset.r)
    }

    /// All seven positions of the tile look at positions that the grid holds.
    pub open spec fn ok(&self) -> bool {
        &&& self.grid.wf()
        &&& small_offset(self.offset)
        &&& forall|c: HexCoord| #![trigger self.position(c)] c.spec_length() <= 1 ==> {
            &&& self.grid.layout.can_locate(self.position(c))
            &&& self.grid.layout.spec_offset(self.position(c)) is Some
        }
    }

    /// The value that position `c` of the tile shows.
    pub open spec fn value_at(&self, c: HexCoord) -> Item {
        self.grid.spec_at(self.position(c))->0
    }

    /// The seven values of the tile, in the order of `tile_coord`.
    pub open spec fn values(&self) -> Seq<Item> {
        Seq::new(7, |k: int| self.value_at(tile_coord(k)))
    }

    /// The value at a position at most one step from the tile's center.
    pub fn index(&self, position: HexCoord) -> (v: &Item)
        requires
            self.ok(),
            position.spec_length() <= 1,
        ensures
            *v == self.value_at(position),
    {
        let moved = self.transform.apply(position);
        let at = moved.plus(self.offset);
        assert(at == self.position(position));
        self.grid.index(at)
    }
}

impl<'a, Layout: GridLayout, Item: Copy + PartialEq> Tile<'a, Layout, Item> {
    /// The seven values of the tile.
    pub fn iter(&self) -> (values: Vec<Item>)
        requires
            self.ok(),
        ensures
            values@ == self.values(),
    {
        let mut values: Vec<Item> = Vec::new();
        let mut k: usize = 0;
        while k < 7
            invariant
                self.ok(),
                k <= 7,
                values@ == self.values().subrange(0, k as int),
            decreases 7 - k,
        {
            let c = tile_coord_exec(k);
            proof {
                lemma_tile_coords(c);
            }
            values.push(*self.index(c));
            k = k + 1;
        }
        assert(values@ =~= self.values());
        values
    }

    /// The tiles fit together with `other` placed at `offset` from `self`: wherever they overlap,
    /// their values agree.
    pub fn compatible_with(&self, other: &Tile<Layout, Item>, offset: HexCoord) -> (b: bool)
        requires
            self.ok(),
            other.ok(),
            small_offset(offset),
            obeys_concrete_eq::<Item>(),
        ensures
            b == compatible_values(self.values(), other.values(), offset),
    {
        proof {
            reveal(obeys_concrete_eq);
        }
        let mut k: usize = 0;
        while k < 7
            invariant
                self.ok(),
                other.ok(),
                small_offset(offset),
                obeys_concrete_eq::<Item>(),
                k <= 7,
                forall|j: int| 0 <= j < k ==> {
                    let d = hex(tile_coord(j).q - offset.q, tile_coord(j).r - offset.r);
                    d.spec_length() > 1 || #[trigger] self.values()[j] == other.values()[tile_index(d)]
                },
            decreases 7 - k,
        {
            let coord = tile_coord_exec(k);
            let d = coord.minus(offset);
            proof {
                reveal(obeys_concrete_eq);
                lemma_tile_coords(coord);
                lemma_tile_coords(d);
            }
            if d.length() <= 1 {
                let a = *self.index(coord);
                let b = *other.index(d);
                if !(a == b) {
                    assert(self.values()[k as int] == a);
                    assert(other.values()[tile_index(d)] == b);
                    return false;
                }
                assert(self.values()[k as int] == other.values()[tile_index(d)]);
            }
            k = k + 1;
        }
        true
    }
}

/// One half of `lemma_compatible_symmetric`.
proof fn lemma_compatible_flip<Item>(a: Seq<Item>, b: Seq<Item>, offset: HexCoord)
    requires
        small_offset(offset),
        compatible_values(a, b, offset),
    ensures
        compatible_values(b, a, hex(-offset.q, -offset.r)),
{
    let back = hex(-offset.q, -offset.r);
    assert forall|k: int| 0 <= k < 7 implies {
        let d = hex(tile_coord(k).q - back.q, tile_coord(k).r - back.r);
        d.spec_length() > 1 || #[trigger] b[k] == a[tile_index(d)]
    } by {
        let d = hex(tile_coord(k).q - back.q, tile_coord(k).r - back.r);
        lemma_tile_coords(d);
        lemma_tile_coords(tile_coord(k));
        if d.spec_length() <= 1 {
            let k2 = tile_index(d);
            assert(tile_coord(k2) == d);
            assert(hex(tile_coord(k2).q - offset.q, tile_coord(k2).r - offset.r) == tile_coord(k));
            assert(a[k2] == b[tile_index(tile_coord(k))]);
        }
    }
}

/// Two tiles fit together with the second placed at `offset` from the first exactly when they
/// fit together with the first placed at the opposite offset from the second.
pub proof fn lemma_compatible_symmetric<Item>(a: Seq<Item>, b: Seq<Item>, offset: HexCoord)
    requires
        small_offset(offset),
    ensures
        compatible_values(a, b, offset) <==> compatible_values(b, a, hex(-offset.q, -offset.r)),
{
    let back = hex(-offset.q, -offset.r);
    if compatible_values(a, b, offset) {
        lemma_compatible_flip(a, b, offset);
    }
    if compatible_values(b, a, back) {
        lemma_compatible_flip(b, a, back);
        assert(hex(-back.q, -back.r) == offset);
    }
}

/// A tile fits with itself placed on it.
pub proof fn lemma_compatible_reflexive<Item>(a: Seq<Item>)
    ensures
        compatible_values(a, a, hex(0, 0)),
{
    assert forall|k: int| 0 <= k < 7 implies {
        let d = hex(tile_coord(k).q - 0, tile_coord(k).r - 0);
        d.spec_length() > 1 || #[trigger] a[k] == a[tile_index(d)]
    } by {
        lemma_tile_coords(tile_coord(k));
        assert(hex(tile_coord(k).q - 0, tile_coord(k).r - 0) == tile_coord(k));
    }
}

/// Tiles placed three or more steps apart do not overlap, so they always fit.
pub proof fn lemma_compatible_far<Item>(a: Seq<Item>, b: Seq<Item>, offset: HexCoord)
    requires
        small_offset(offset),
        offset.spec_length() >= 3,
    ensures
        compatible_values(a, b, offset),
{
    assert forall|k: int| 0 <= k < 7 implies {
        let d = hex(tile_coord(k).q - offset.q, tile_coord(k).r - offset.r);
        d.spec_length() > 1 || #[trigger] a[k] == b[tile_index(d)]
    } by {
        lemma_tile_coords(tile_coord(k));
        let c = tile_coord(k);
        let d = hex(c.q - offset.q, c.r - offset.r);
        let back = hex(-d.q, -d.r);
        lemma_length_add(c, back);
        assert(hex(c.q + back.q, c.r + back.r) == offset);
        assert(back.spec_length() == d.spec_length());
    }
}

impl<'a, Layout: GridLayout, Item> Tile<'a, Layout, Item> {
    /// The laws of `compatible_with`, whose result is `compatible_values` of the tiles' values:
    /// `a` fits with `b` at `offset` exactly when `b` fits with `a` at the opposite offset; a
    /// tile fits with itself placed on it; and tiles three or more steps apart always fit.
    pub proof fn lemma_compatible_with_laws(a: Self, b: Self, offset: HexCoord)
        requires
            small_offset(offset),
        ensures
            compatible_values(a.values(), b.values(), offset) <==> compatible_values(
                b.values(),
                a.values(),
                hex(-offset.q, -offset.r),
            ),
            compatible_values(a.values(), a.values(), hex(0, 0)),
            offset.spec_length() >= 3 ==> compatible_values(a.values(), b.values(), offset),
    {
        lemma_compatible_symmetric(a.values(), b.values(), offset);
        lemma_compatible_reflexive(a.values());
        if offset.spec_length() >= 3 {
            lemma_compatible_far(a.values(), b.values(), offset);
        }
    }
}

/// Steps add up: the position `a + b` is at most as far from the origin as `a` and `b` together.
pub proof fn lemma_length_add(a: HexCoord, b: HexCoord)
    requires
        in_i32(a.q + b.q),
        in_i32(a.r + b.r),
    ensures
        hex(a.q + b.q, a.r + b.r).spec_length() <= a.spec_length() + b.spec_length(),
{
}

/// The tile at `offset` through `transform` in `grid`.
pub open spec fn tile_at<'a, Item>(
    grid: &'a Grid<HexagonalGridLayout, Item>,
    offset: HexCoord,
    transform: &'a TransformMatrix,
) -> Tile<'a, HexagonalGridLayout, Item> {
    Tile { grid, offset, transform }
}

/// The layout of the positions that tiles can be centered on: all but the outermost ring.
pub open spec fn inner_layout(outer: HexagonalGridLayout) -> HexagonalGridLayout {
    HexagonalGridLayout { radius: (outer.radius - 1) as i32 }
}

/// The tile centered on inner position `i` through transform `j`.
pub open spec fn candidate<'a, Item>(
    grid: &'a Grid<HexagonalGridLayout, Item>,
    transforms: &'a [TransformMatrix],
    i: int,
    j: int,
) -> Tile<'a, HexagonalGridLayout, Item> {
    tile_at(grid, inner_layout(grid.layout).coord_at(i), &transforms@[j])
}

/// `t` is one of the candidate tiles.
pub open spec fn is_candidate<'a, Item>(
    grid: &'a Grid<HexagonalGridLayout, Item>,
    transforms: &'a [TransformMatrix],
    t: Tile<'a, HexagonalGridLayout, Item>,
) -> bool {
    exists|i: int, j: int| 0 <= i < inner_layout(grid.layout).spec_size() && 0 <= j < transforms@.len()
        && t == #[trigger] candidate(grid, transforms, i, j)
}

/// The two sequences of values are equal.
fn same_values<Item: Copy + PartialEq>(a: &Vec<Item>, b: &Vec<Item>) -> (same: bool)
    requires
        obeys_concrete_eq::<Item>(),
    ensures
        same == (a@ == b@),
{
    proof {
        reveal(obeys_concrete_eq);
    }
    if a.len() != b.len() {
        return false;
    }
    let mut k: usize = 0;
    while k < a.len()
        invariant
            obeys_concrete_eq::<Item>(),
            a@.len() == b@.len(),
            k <= a@.len(),
            forall|j: int| 0 <= j < k ==> a@[j] == b@[j],
        decreases a@.len() - k,
    {
        proof {
            reveal(obeys_concrete_eq);
        }
        if !(a[k] == b[k]) {
            return false;
        }
        k = k + 1;
    }
    assert(a@ =~= b@);
    true
}

/// No two of the tiles show the same values.
pub open spec fn distinct_values<'a, Item>(tiles: Seq<Tile<'a, HexagonalGridLayout, Item>>) -> bool {
    forall|t1: int, t2: int| 0 <= t1 < t2 < tiles.len() ==> (#[trigger] tiles[t1]).values()
        != (#[trigger] tiles[t2]).values()
}

/// Some tile shows the values of `tile`.
pub open spec fn shows<'a, Item>(tiles: Seq<Tile<'a, HexagonalGridLayout, Item>>, values: Seq<Item>) -> bool {
    exists|t: int| 0 <= t < tiles.len() && (#[trigger] tiles[t]).values() == values
}

/// Adds `tile` to `tiles` unless one of them shows the same values; `seen` holds the values of
/// `tiles`.
fn insert_distinct<'a, Item: Copy + PartialEq>(
    tiles: &mut Vec<Tile<'a, HexagonalGridLayout, Item>>,
    seen: &mut Vec<Vec<Item>>,
    tile: Tile<'a, HexagonalGridLayout, Item>,
)
    requires
        tile.ok(),
        obeys_concrete_eq::<Item>(),
        old(seen)@.len() == old(tiles)@.len(),
        forall|t: int| 0 <= t < old(tiles)@.len() ==> (#[trigger] old(seen)@[t])@ == old(tiles)@[t].values(),
        distinct_values(old(tiles)@),
    ensures
        final(seen)@.len() == final(tiles)@.len(),
        forall|t: int| 0 <= t < final(tiles)@.len() ==> (#[trigger] final(seen)@[t])@ == final(tiles)@[t].values(),
        distinct_values(final(tiles)@),
        shows(final(tiles)@, tile.values()),
        final(tiles)@ == old(tiles)@ || final(tiles)@ == old(tiles)@.push(tile),
{
    let values = tile.iter();
    let mut t: usize = 0;
    let mut found = false;
    while t < seen.len() && !found
        invariant
            obeys_concrete_eq::<Item>(),
            t <= seen@.len(),
            seen@.len() == tiles@.len(),
            forall|u: int| 0 <= u < tiles@.len() ==> (#[trigger] seen@[u])@ == tiles@[u].values(),
            values@ == tile.values(),
            found ==> exists|u: int| 0 <= u < seen@.len() && seen@[u]@ == values@,
            !found ==> forall|u: int| 0 <= u < t ==> seen@[u]@ != values@,
        decreases seen@.len() - t,
    {
        if same_values(&seen[t], &values) {
            found = true;
        }
        t = t + 1;
    }
    if found {
        let ghost u = choose|u: int| 0 <= u < seen@.len() && seen@[u]@ == values@;
        assert(tiles@[u].values() == tile.values());
    } else {
        tiles.push(tile);
        seen.push(values);
        assert(tiles@[tiles@.len() - 1].values() == tile.values());
        assert forall|t1: int, t2: int| 0 <= t1 < t2 < tiles@.len() implies (#[trigger] tiles@[t1]).values()
            != (#[trigger] tiles@[t2]).values() by {
            if t2 == tiles@.len() - 1 {
                assert(seen@[t1]@ == tiles@[t1].values());
            }
        }
    }
}

/// A hexagonal layout one ring smaller than a valid one is valid.
proof fn lemma_inner_layout_valid(outer: HexagonalGridLayout)
    requires
        outer.valid(),
        outer.radius >= 2,
    ensures
        inner_layout(outer).valid(),
        inner_layout(outer).radius == outer.radius - 1,
{
    let r = outer.radius as int;
    assert((r - 2) * (r - 1) <= (r - 1) * r) by (nonlinear_arith)
        requires
            r >= 2,
    ;
}

/// The tile centered on an inner position through a transform matrix shows positions that the
/// grid holds.
proof fn lemma_candidate_ok<'a, Item>(
    grid: &'a Grid<HexagonalGridLayout, Item>,
    transforms: &'a [TransformMatrix],
    i: int,
    j: int,
)
    requires
        grid.wf(),
        grid.layout.radius >= 2,
        0 <= i < inner_layout(grid.layout).spec_size(),
        0 <= j < transforms@.len(),
        is_signed_perm(transforms@[j].matrix()),
    ensures
        candidate(grid, transforms, i, j).ok(),
{
    let inner = inner_layout(grid.layout);
    lemma_inner_layout_valid(grid.layout);
    inner.lemma_offset_of_coord(i);
    assert(inner.coord_at(i).spec_length() <= grid.layout.radius - 2);
    let tile = candidate(grid, transforms, i, j);
    let offset = inner.coord_at(i);
    let m = transforms@[j].matrix();
    let (p, positive) = choose|p: int, positive: bool| 0 <= p < 6 && m == crate::hexgrid::imat3::signed_perm(p, positive);
    crate::hexgrid::layout::hex_size_facts(grid.layout);
    assert forall|c: HexCoord| #![trigger tile.position(c)] c.spec_length() <= 1 implies {
        &&& grid.layout.can_locate(tile.position(c))
        &&& grid.layout.spec_offset(tile.position(c)) is Some
    } by {
        lemma_position_held(grid.layout, offset, p, positive, c);
    }
}

/// A position at most one step from the center, moved by a signed permutation and then by an
/// inner offset, lands in the layout.
#[verifier::spinoff_prover]
proof fn lemma_position_held(layout: HexagonalGridLayout, offset: HexCoord, p: int, positive: bool, c: HexCoord)
    requires
        layout.valid(),
        layout.radius >= 2,
        offset.spec_length() <= layout.radius - 2,
        0 <= p < 6,
        c.spec_length() <= 1,
    ensures
        ({
            let mc = matrix_apply(crate::hexgrid::imat3::signed_perm(p, positive), c);
            let at = hex(mc.q + offset.q, mc.r + offset.r);
            layout.can_locate(at) && layout.spec_offset(at) is Some
        }),
{
    crate::hexgrid::layout::hex_size_facts(layout);
    lemma_signed_perm_apply(p, positive, c);
    let mc = matrix_apply(crate::hexgrid::imat3::signed_perm(p, positive), c);
    lemma_sum_held(layout, mc, offset);
}

/// A position at most one step from the center, added to one at most `radius - 2` steps from
/// it, is held by a hexagonal layout of that radius.
#[verifier::spinoff_prover]
proof fn lemma_sum_held(layout: HexagonalGridLayout, a: HexCoord, b: HexCoord)
    requires
        layout.valid(),
        layout.radius >= 2,
        layout.radius <= 30000,
        a.spec_length() <= 1,
        b.spec_length() <= layout.radius - 2,
    ensures
        layout.can_locate(hex(a.q + b.q, a.r + b.r)),
        layout.spec_offset(hex(a.q + b.q, a.r + b.r)) is Some,
{
    assert(abs(b.q as int) <= 30000 && abs(b.r as int) <= 30000);
    assert(abs(a.q as int) <= 1 && abs(a.r as int) <= 1);
    lemma_length_add(a, b);
    let at = hex(a.q + b.q, a.r + b.r);
    assert(layout.can_locate(at));
    assert(layout.spec_contains(at));
    layout.lemma_coord_of_offset(at);
}

/// Construct tiles by iterating over the inner positions of the grid (all but its outermost
/// ring) and applying the transformations; tiles that show the same values are kept once.
pub fn extract_tiles<'a, Item: Copy + PartialEq>(
    grid: &'a Grid<HexagonalGridLayout, Item>,
    transforms: &'a [TransformMatrix],
) -> (tiles: Vec<Tile<'a, HexagonalGridLayout, Item>>)
    requires
        grid.wf(),
        grid.layout.radius >= 2,
        obeys_concrete_eq::<Item>(),
    ensures
        forall|t: int| 0 <= t < tiles@.len() ==> {
            &&& (#[trigger] tiles@[t]).ok()
            &&& tiles@[t].grid == grid
            &&& is_candidate(grid, transforms, tiles@[t])
        },
        forall|i: int, j: int| 0 <= i < inner_layout(grid.layout).spec_size() && 0 <= j < transforms@.len()
            ==> shows(tiles@, #[trigger] candidate(grid, transforms, i, j).values()),
        distinct_values(tiles@),
{
    let inner = HexagonalGridLayout { radius: grid.layout.radius - 1 };
    proof {
        lemma_inner_layout_valid(grid.layout);
    }
    let offsets = inner.iter();
    let mut tiles: Vec<Tile<'a, HexagonalGridLayout, Item>> = Vec::new();
    let mut seen: Vec<Vec<Item>> = Vec::new();
    let mut i: usize = 0;
    while i < offsets.len()
        invariant
            grid.wf(),
            grid.layout.radius >= 2,
            obeys_concrete_eq::<Item>(),
            inner == inner_layout(grid.layout),
            inner.valid(),
            offsets@.len() == inner.spec_size(),
            forall|k: int| 0 <= k < offsets@.len() ==> #[trigger] offsets@[k] == inner.coord_at(k),
            i <= offsets@.len(),
            seen@.len() == tiles@.len(),
            forall|t: int| 0 <= t < tiles@.len() ==> (#[trigger] seen@[t])@ == tiles@[t].values(),
            forall|t: int| 0 <= t < tiles@.len() ==> {
                &&& (#[trigger] tiles@[t]).ok()
                &&& tiles@[t].grid == grid
                &&& is_candidate(grid, transforms, tiles@[t])
            },
            forall|a: int, b: int| 0 <= a < i && 0 <= b < transforms@.len() ==> shows(tiles@, #[trigger] candidate(grid, transforms, a, b).values()),
            distinct_values(tiles@),
        decreases offsets@.len() - i,
    {
        let offset = offsets[i];
        let mut j: usize = 0;
        while j < transforms.len()
            invariant
                grid.wf(),
                grid.layout.radius >= 2,
                obeys_concrete_eq::<Item>(),
                inner == inner_layout(grid.layout),
                inner.valid(),
                offsets@.len() == inner.spec_size(),
                i < offsets@.len(),
                offset == inner.coord_at(i as int),
                j <= transforms@.len(),
                seen@.len() == tiles@.len(),
                forall|t: int| 0 <= t < tiles@.len() ==> (#[trigger] seen@[t])@ == tiles@[t].values(),
                forall|t: int| 0 <= t < tiles@.len() ==> {
                    &&& (#[trigger] tiles@[t]).ok()
                    &&& tiles@[t].grid == grid
                    &&& is_candidate(grid, transforms, tiles@[t])
                },
                forall|a: int, b: int| (0 <= a < i && 0 <= b < transforms@.len()) || (a == i && 0 <= b < j)
                    ==> shows(tiles@, #[trigger] candidate(grid, transforms, a, b).values()),
                distinct_values(tiles@),
            decreases transforms@.len() - j,
        {
            let transform = &transforms[j];
            let _ = transform.matrix_value();
            let tile = Tile { grid, offset, transform };
            proof {
                lemma_candidate_ok(grid, transforms, i as int, j as int);
                assert(tile == candidate(grid, transforms, i as int, j as int));
            }
            let ghost before = tiles@;
            insert_distinct(&mut tiles, &mut seen, tile);
            proof {
                assert forall|a: int, b: int| (0 <= a < i && 0 <= b < transforms@.len()) || (a == i && 0 <= b < j + 1)
                    implies shows(tiles@, #[trigger] candidate(grid, transforms, a, b).values()) by {
                    if !(a == i && b == j) {
                        assert(shows(before, candidate(grid, transforms, a, b).values()));
                        let t = choose|t: int| 0 <= t < before.len() && (#[trigger] before[t]).values()
                            == candidate(grid, transforms, a, b).values();
                        assert(tiles@[t] == before[t]);
                    }
                }
                assert forall|t: int| 0 <= t < tiles@.len() implies {
                    &&& (#[trigger] tiles@[t]).ok()
                    &&& tiles@[t].grid == grid
                    &&& is_candidate(grid, transforms, tiles@[t])
                } by {
                    if t < before.len() {
                        assert(tiles@[t] == before[t]);
                    } else {
                        assert(tiles@[t] == candidate(grid, transforms, i as int, j as int));
                    }
                }
            }
            j = j + 1;
        }
        i = i + 1;
    }
    tiles
}

/// The twelve symmetries of a tile: the six rotations, and the reflection across the S axis
/// followed by each of them.
pub fn standard_tile_transforms() -> (transforms: Vec<TransformMatrix>)
    ensures
        transforms@.len() == 12,
        transforms@[0].matrix() == transform_matrix(Transform::Identity),
        transforms@[1].matrix() == transform_matrix(Transform::RotateClockwise60),
        transforms@[2].matrix() == transform_matrix(Transform::RotateClockwise120),
        transforms@[3].matrix() == transform_matrix(Transform::RotateClockwise180),
        transforms@[4].matrix() == transform_matrix(Transform::RotateClockwise240),
        transforms@[5].matrix() == transform_matrix(Transform::RotateClockwise300),
        transforms@[6].matrix() == transform_matrix(Transform::ReflectS),
        transforms@[7].matrix() == transforms_matrix(seq![Transform::ReflectS, Transform::RotateClockwise60]),
        transforms@[8].matrix() == transforms_matrix(seq![Transform::ReflectS, Transform::RotateClockwise120]),
        transforms@[9].matrix() == transforms_matrix(seq![Transform::ReflectS, Transform::RotateClockwise180]),
        transforms@[10].matrix() == transforms_matrix(seq![Transform::ReflectS, Transform::RotateClockwise240]),
        transforms@[11].matrix() == transforms_matrix(seq![Transform::ReflectS, Transform::RotateClockwise300]),
{
    let mut transforms: Vec<TransformMatrix> = Vec::new();
    transforms.push(TransformMatrix::from_transform(Transform::Identity));
    transforms.push(TransformMatrix::from_transform(Transform::RotateClockwise60));
    transforms.push(TransformMatrix::from_transform(Transform::RotateClockwise120));
    transforms.push(TransformMatrix::from_transform(Transform::RotateClockwise180));
    transforms.push(TransformMatrix::from_transform(Transform::RotateClockwise240));
    transforms.push(TransformMatrix::from_transform(Transform::RotateClockwise300));
    transforms.push(TransformMatrix::from_transform(Transform::ReflectS));
    let a = [Transform::ReflectS, Transform::RotateClockwise60];
    transforms.push(TransformMatrix::from_transforms(&a));
    let b = [Transform::ReflectS, Transform::RotateClockwise120];
    transforms.push(TransformMatrix::from_transforms(&b));
    let c = [Transform::ReflectS, Transform::RotateClockwise180];
    transforms.push(TransformMatrix::from_transforms(&c));
    let d = [Transform::ReflectS, Transform::RotateClockwise240];
    transforms.push(TransformMatrix::from_transforms(&d));
    let e = [Transform::ReflectS, Transform::RotateClockwise300];
    transforms.push(TransformMatrix::from_transforms(&e));
    assert(a@ =~= seq![Transform::ReflectS, Transform::RotateClockwise60]);
    assert(b@ =~= seq![Transform::ReflectS, Transform::RotateClockwise120]);
    assert(c@ =~= seq![Transform::ReflectS, Transform::RotateClockwise180]);
    assert(d@ =~= seq![Transform::ReflectS, Transform::RotateClockwise240]);
    assert(e@ =~= seq![Transform::ReflectS, Transform::RotateClockwise300]);
    transforms
}

} // verus!
