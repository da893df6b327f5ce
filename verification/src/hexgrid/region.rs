//! Contiguous regions of a grid: positions joined through neighbours whose values match.
use super::coord::{hex, neighbour_offset, HexCoord};
use super::grid::Grid;
use super::layout::GridLayout;
use disjoint_hash_set::DisjointHashSet;
use vstd::prelude::*;

verus! {

#[verifier::external_type_specification]
#[verifier::external_body]
#[verifier::reject_recursive_types(K)]
pub struct ExDisjointHashSet<K>(DisjointHashSet<K>);

/// The links that a disjoint-set structure was built from, each as two `(q, r)` pairs.
pub uninterp spec fn linked_pairs(d: DisjointHashSet<HexCoord>) -> Seq<((i32, i32), (i32, i32))>;

/// The `(q, r)` pair of a position.
pub open spec fn key(c: HexCoord) -> (i32, i32) {
    (c.q, c.r)
}

/// The links as `(q, r)` pairs.
pub open spec fn link_keys(links: Seq<(HexCoord, HexCoord)>) -> Seq<((i32, i32), (i32, i32))> {
    links.map_values(|l: (HexCoord, HexCoord)| (key(l.0), key(l.1)))
}

/// `x` is an end of some link.
pub open spec fn linked(links: Seq<((i32, i32), (i32, i32))>, x: (i32, i32)) -> bool {
    exists|k: int| 0 <= k < links.len() && (#[trigger] links[k].0 == x || links[k].1 == x)
}

/// The sets are the connected components of the graph whose edges are the links: they are
/// non-empty, hold no element twice and share none, hold exactly the ends of the links, keep both
/// ends of every link together, and cannot be split without cutting a link.
pub open spec fn is_components(sets: Seq<Seq<(i32, i32)>>, links: Seq<((i32, i32), (i32, i32))>) -> bool {
    &&& forall|i: int| 0 <= i < sets.len() ==> (#[trigger] sets[i]).len() > 0 && sets[i].no_duplicates()
    &&& forall|i: int, j: int, x: (i32, i32)| 0 <= i < j < sets.len() && #[trigger] sets[i].contains(x)
        ==> !#[trigger] sets[j].contains(x)
    &&& forall|x: (i32, i32)| (exists|i: int| 0 <= i < sets.len() && (#[trigger] sets[i]).contains(x))
        <==> linked(links, x)
    &&& forall|k: int| 0 <= k < links.len() ==> exists|i: int| 0 <= i < sets.len()
        && (#[trigger] sets[i]).contains((#[trigger] links[k]).0) && sets[i].contains(links[k].1)
    &&& forall|i: int, part: Set<(i32, i32)>| 0 <= i < sets.len() && #[trigger] part.subset_of(sets[i].to_set())
        && part.len() > 0 && part != sets[i].to_set() && part.finite() ==> exists|k: int| 0 <= k < links.len() && ({
            let (a, b) = #[trigger] links[k];
            (part.contains(a) && !part.contains(b) && sets[i].contains(b))
                || (part.contains(b) && !part.contains(a) && sets[i].contains(a))
        })
}

/// `DisjointHashSet::from_iter` links, one after the other, the two positions of each pair; the
/// structure is described by the links it was built from.
#[verifier::external_body]
fn disjoint_set_from_links(links: Vec<(HexCoord, HexCoord)>) -> (d: DisjointHashSet<HexCoord>)
    ensures
        linked_pairs(d) == link_keys(links@),
{
    links.into_iter().collect()
}

/// `DisjointHashSet::sets` gives the disjoint sets of the structure, that is the connected
/// components of the graph of its links; each set comes out as a vector, in an order that the
/// hash tables decide.
#[verifier::external_body]
fn disjoint_set_sets(d: DisjointHashSet<HexCoord>) -> (sets: Vec<Vec<HexCoord>>)
    ensures
        is_components(
            sets@.map_values(|v: Vec<HexCoord>| v@.map_values(|c: HexCoord| key(c))),
            linked_pairs(d),
        ),
{
    d.sets().map(|mut set| set.drain().collect()).collect()
}

/// The `(q, r)` pairs of the members of each region.
pub open spec fn region_keys(regions: Seq<Region>) -> Seq<Seq<(i32, i32)>> {
    regions.map_values(|r: Region| r.0@.map_values(|c: HexCoord| key(c)))
}

/// Some set holds `x`.
pub open spec fn in_some_set(sets: Seq<Seq<(i32, i32)>>, x: (i32, i32)) -> bool {
    exists|r: int| 0 <= r < sets.len() && #[trigger] sets[r].contains(x)
}

/// `links` holds the link from `a` to `b`.
pub open spec fn has_link(links: Seq<(HexCoord, HexCoord)>, a: HexCoord, b: HexCoord) -> bool {
    exists|m: int| 0 <= m < links.len() && #[trigger] links[m] == (a, b)
}

/// Adding a link keeps the links there were, and holds the new one.
proof fn lemma_push_keeps_links(links: Seq<(HexCoord, HexCoord)>, l: (HexCoord, HexCoord))
    ensures
        forall|a: HexCoord, b: HexCoord| has_link(links, a, b) ==> #[trigger] has_link(links.push(l), a, b),
        has_link(links.push(l), l.0, l.1),
{
    assert forall|a: HexCoord, b: HexCoord| has_link(links, a, b) implies #[trigger] has_link(links.push(l), a, b) by {
        let m = choose|m: int| 0 <= m < links.len() && #[trigger] links[m] == (a, b);
        assert(links.push(l)[m] == (a, b));
    }
    assert(links.push(l)[links.len() as int] == l);
}

/// A contiguous region of a grid.
#[derive(Debug)]
pub struct Region(pub Vec<HexCoord>);

/// The `j`th neighbour of `c`.
pub open spec fn neighbour(c: HexCoord, j: int) -> HexCoord {
    hex(c.q + neighbour_offset(j).q, c.r + neighbour_offset(j).r)
}

/// Finds contiguous regions of a grid by a binary predicate on values.
pub struct Regions<'a, Layout: GridLayout, Item, Predicate: Fn(&Item, &Item) -> bool> {
    pub grid: &'a Grid<Layout, Item>,
    pub predicate: Predicate,
}

impl<'a, Layout: GridLayout, Item, Predicate: Fn(&Item, &Item) -> bool> Regions<'a, Layout, Item, Predicate> {
    /// Neighbour `j` of `c` is not joined to `c`: the grid has no value there, or the predicate
    /// said no.
    pub open spec fn refused(&self, c: HexCoord, item: Item, j: int) -> bool {
        match self.grid.spec_at(neighbour(c, j)) {
            None => true,
            Some(other) => call_ensures(self.predicate, (&item, &other), false),
        }
    }

    /// Neighbour `j` of `c`, whose value is `item`, is joined to `c`: the grid has a value there,
    /// and the predicate accepts the two values.
    pub open spec fn joins(&self, c: HexCoord, item: Item, j: int) -> bool {
        self.grid.spec_at(neighbour(c, j)) matches Some(other) && call_ensures(
            self.predicate,
            (&item, &other),
            true,
        )
    }

    /// A link goes from a position of the grid to itself, or to a neighbour that it joins.
    pub open spec fn link_ok(&self, l: (HexCoord, HexCoord)) -> bool {
        exists|i: int| 0 <= i < self.grid.layout.spec_size() && #[trigger] self.grid.layout.coord_at(i) == l.0 && (
        l.1 == l.0 || exists|j: int| 0 <= j < 6 && l.1 == neighbour(l.0, j) && #[trigger] self.joins(
            l.0,
            self.grid.cells()[i],
            j,
        ))
    }

    /// Position `i` of the layout is linked to itself and to every neighbour that it joins.
    pub open spec fn position_linked(&self, links: Seq<(HexCoord, HexCoord)>, i: int) -> bool {
        let c = self.grid.layout.coord_at(i);
        &&& has_link(links, c, c)
        &&& forall|j: int| 0 <= j < 6 ==> #[trigger] self.refused(c, self.grid.cells()[i], j) || has_link(
            links,
            c,
            neighbour(c, j),
        )
    }

    /// Every link is one of the grid, and every position is linked to itself and to every
    /// neighbour that it joins.
    pub open spec fn links_ok(&self, links: Seq<(HexCoord, HexCoord)>) -> bool {
        &&& forall|m: int| 0 <= m < links.len() ==> self.link_ok(#[trigger] links[m])
        &&& forall|i: int| 0 <= i < self.grid.layout.spec_size() ==> #[trigger] self.position_linked(links, i)
    }

    /// The positions of the grid, and their neighbours, can be located and stepped around.
    pub open spec fn grid_ok(&self) -> bool {
        &&& self.grid.wf()
        &&& forall|i: int| 0 <= i < self.grid.layout.spec_size() ==> {
            &&& i32::MIN < (#[trigger] self.grid.layout.coord_at(i)).q < i32::MAX
            &&& i32::MIN < self.grid.layout.coord_at(i).r < i32::MAX
        }
        &&& forall|i: int, j: int| 0 <= i < self.grid.layout.spec_size() && 0 <= j < 6
            ==> self.grid.layout.can_locate(#[trigger] neighbour(self.grid.layout.coord_at(i), j))
        &&& forall|a: Item, b: Item| call_requires(self.predicate, (&a, &b))
    }

    /// Every position of the layout is in some region.
    pub open spec fn places_all(&self, sets: Seq<Seq<(i32, i32)>>) -> bool {
        forall|i: int| 0 <= i < self.grid.layout.spec_size() ==> in_some_set(
            sets,
            key(#[trigger] self.grid.layout.coord_at(i)),
        )
    }

    /// The regions partition the positions of the layout: every position is in one, and every
    /// member of a region is a position.
    pub open spec fn covers(&self, sets: Seq<Seq<(i32, i32)>>) -> bool {
        &&& self.places_all(sets)
        &&& forall|r: int, x: (i32, i32)| 0 <= r < sets.len() && #[trigger] sets[r].contains(x) ==> exists|i: int|
            0 <= i < self.grid.layout.spec_size() && key(#[trigger] self.grid.layout.coord_at(i)) == x
    }

    /// No two different regions hold neighbours whose values the predicate accepts: where a
    /// position and its neighbour in direction `j` are in different regions, the neighbour is
    /// refused.
    pub open spec fn maximal(&self, sets: Seq<Seq<(i32, i32)>>) -> bool {
        forall|i: int, j: int, r: int, t: int|
            0 <= i < self.grid.layout.spec_size() && 0 <= j < 6 && 0 <= r < sets.len() && 0 <= t < sets.len() && r
                != t && #[trigger] sets[r].contains(key(self.grid.layout.coord_at(i))) && #[trigger] sets[t].contains(
                key(neighbour(self.grid.layout.coord_at(i), j)),
            ) ==> self.refused(self.grid.layout.coord_at(i), self.grid.cells()[i], j)
    }

    /// The regions are the connected components of the graph in which every position is joined
    /// to every neighbour whose value the predicate accepts: each is connected through accepted
    /// steps, no accepted step leads from one to another, and every position is in one. For a
    /// well-shaped layout they partition its positions; a hexagonal layout of radius 0 also
    /// gives values at positions outside it (its one cell is stored at several), and a region can
    /// hold those.
    pub open spec fn are_regions(&self, regions: Seq<Region>) -> bool {
        let sets = region_keys(regions);
        &&& exists|links: Seq<(HexCoord, HexCoord)>| self.links_ok(links) && is_components(sets, link_keys(links))
        &&& self.places_all(sets)
        &&& self.grid.layout.well_shaped() ==> self.covers(sets)
        &&& self.maximal(sets)
    }

    pub fn from(grid: &'a Grid<Layout, Item>, predicate: Predicate) -> (regions: Self)
        ensures
            regions.grid == grid,
            regions.predicate == predicate,
    {
        Regions { grid, predicate }
    }

    /// The links of every position: to itself, and to every neighbour whose value the predicate
    /// accepts, in the order of the layout.
    pub fn links(&self) -> (links: Vec<(HexCoord, HexCoord)>)
        requires
            self.grid_ok(),
        ensures
            self.links_ok(links@),
    {
        let pairs = self.grid.iter();
        let mut links: Vec<(HexCoord, HexCoord)> = Vec::new();
        let mut i: usize = 0;
        while i < pairs.len()
            invariant
                self.grid_ok(),
                pairs@.len() == self.grid.layout.spec_size(),
                forall|k: int| 0 <= k < pairs@.len() ==> (#[trigger] pairs@[k]).0 == self.grid.layout.coord_at(k)
                    && *pairs@[k].1 == self.grid.cells()[k],
                i <= pairs@.len(),
                forall|m: int| 0 <= m < links@.len() ==> self.link_ok(#[trigger] links@[m]),
                forall|k: int| 0 <= k < i ==> #[trigger] self.position_linked(links@, k),
            decreases pairs@.len() - i,
        {
            let (coord, item) = pairs[i];
            assert(coord == self.grid.layout.coord_at(i as int));
            assert(self.grid.layout.can_locate(neighbour(coord, 0)));
            let ghost before = links@;
            links.push((coord, coord));
            proof {
                lemma_push_keeps_links(before, (coord, coord));
                assert forall|m: int| 0 <= m < links@.len() implies self.link_ok(#[trigger] links@[m]) by {
                    if m == before.len() {
                        assert(self.grid.layout.coord_at(i as int) == links@[m].0);
                    } else {
                        assert(links@[m] == before[m]);
                    }
                }
                assert forall|k: int| 0 <= k < i implies #[trigger] self.position_linked(links@, k) by {
                    assert(self.position_linked(before, k));
                }
            }
            let neighbours = coord.neighbours();
            let mut j: usize = 0;
            while j < 6
                invariant
                    self.grid_ok(),
                    i < pairs@.len() == self.grid.layout.spec_size(),
                    coord == self.grid.layout.coord_at(i as int),
                    *item == self.grid.cells()[i as int],
                    neighbours@.len() == 6,
                    forall|k: int| 0 <= k < 6 ==> #[trigger] neighbours@[k] == neighbour(coord, k),
                    j <= 6,
                    forall|m: int| 0 <= m < links@.len() ==> self.link_ok(#[trigger] links@[m]),
                    forall|k: int| 0 <= k < i ==> #[trigger] self.position_linked(links@, k),
                    has_link(links@, coord, coord),
                    forall|d: int| 0 <= d < j ==> #[trigger] self.refused(coord, *item, d) || has_link(
                        links@,
                        coord,
                        neighbour(coord, d),
                    ),
                decreases 6 - j,
            {
                let n = neighbours[j];
                assert(self.grid.layout.can_locate(neighbour(coord, j as int)));
                assert(n == neighbour(coord, j as int));
                match self.grid.get(n) {
                    Some(other) => {
                        let accepted = (self.predicate)(item, other);
                        assert(self.grid.spec_at(neighbour(coord, j as int)) == Some(*other));
                        if accepted {
                            assert(self.joins(coord, *item, j as int));
                            let ghost before = links@;
                            links.push((coord, n));
                            proof {
                                lemma_push_keeps_links(before, (coord, n));
                                assert forall|m: int| 0 <= m < links@.len() implies self.link_ok(#[trigger] links@[m]) by {
                                    if m == before.len() {
                                        assert(self.grid.layout.coord_at(i as int) == links@[m].0);
                                        assert(self.joins(links@[m].0, self.grid.cells()[i as int], j as int));
                                    } else {
                                        assert(links@[m] == before[m]);
                                    }
                                }
                                assert forall|k: int| 0 <= k < i implies #[trigger] self.position_linked(links@, k) by {
                                    assert(self.position_linked(before, k));
                                }
                            }
                        } else {
                            assert(self.refused(coord, *item, j as int));
                        }
                    },
                    None => {
                        assert(self.refused(coord, *item, j as int));
                    },
                }
                j = j + 1;
            }
            proof {
                assert(self.position_linked(links@, i as int));
            }
            i = i + 1;
        }
        links
    }

    /// The contiguous regions of the grid: the connected components of the graph in which every
    /// position is joined to every neighbour whose value the predicate accepts.
    pub fn iter(self) -> (regions: Vec<Region>)
        requires
            self.grid_ok(),
        ensures
            self.are_regions(regions@),
    {
        let links = self.links();
        let ghost link_seq = links@;
        let sets = disjoint_set_sets(disjoint_set_from_links(links));
        let mut regions: Vec<Region> = Vec::new();
        let ghost set_keys = sets@.map_values(|v: Vec<HexCoord>| v@.map_values(|c: HexCoord| key(c)));
        let mut sets = sets;
        let ghost all = sets@;
        while sets.len() > 0
            invariant
                sets@.len() + regions@.len() == all.len(),
                forall|x: int| 0 <= x < regions@.len() ==> (#[trigger] regions@[x]).0@ == all[x].view(),
                forall|x: int| 0 <= x < sets@.len() ==> #[trigger] sets@[x] == all[all.len() - sets@.len() + x],
            decreases sets@.len(),
        {
            let set = sets.remove(0);
            regions.push(Region(set));
        }
        proof {
            let rk = region_keys(regions@);
            assert(rk =~= set_keys);
            self.lemma_regions_place_all(link_seq, rk);
            if self.grid.layout.well_shaped() {
                self.lemma_regions_cover(link_seq, rk);
            }
            self.lemma_regions_maximal(link_seq, rk);
        }
        regions
    }

    /// Every position is in a component of good links, for it is linked to itself.
    proof fn lemma_regions_place_all(&self, links: Seq<(HexCoord, HexCoord)>, sets: Seq<Seq<(i32, i32)>>)
        requires
            self.links_ok(links),
            is_components(sets, link_keys(links)),
        ensures
            self.places_all(sets),
    {
        let lk = link_keys(links);
        assert forall|i: int| 0 <= i < self.grid.layout.spec_size() implies in_some_set(
            sets,
            key(#[trigger] self.grid.layout.coord_at(i)),
        ) by {
            let c = self.grid.layout.coord_at(i);
            assert(self.position_linked(links, i));
            let m = choose|m: int| 0 <= m < links.len() && #[trigger] links[m] == (c, c);
            assert(lk[m] == (key(c), key(c)));
            assert(lk[m].0 == key(c));
            assert(linked(lk, key(c)));
            assert(exists|r: int| 0 <= r < sets.len() && (#[trigger] sets[r]).contains(key(c)));
        }
    }

    /// Components of good links partition the positions of a well-shaped layout.
    proof fn lemma_regions_cover(&self, links: Seq<(HexCoord, HexCoord)>, sets: Seq<Seq<(i32, i32)>>)
        requires
            self.grid_ok(),
            self.grid.layout.well_shaped(),
            self.links_ok(links),
            is_components(sets, link_keys(links)),
        ensures
            self.covers(sets),
    {
        self.lemma_regions_place_all(links, sets);
        let lk = link_keys(links);
        let layout = self.grid.layout;
        assert forall|r: int, x: (i32, i32)| 0 <= r < sets.len() && #[trigger] sets[r].contains(x) implies exists|i: int|
            0 <= i < self.grid.layout.spec_size() && key(#[trigger] self.grid.layout.coord_at(i)) == x by {
            assert(linked(lk, x));
            let m = choose|m: int| 0 <= m < lk.len() && (#[trigger] lk[m].0 == x || lk[m].1 == x);
            let l = links[m];
            assert(lk[m] == (key(l.0), key(l.1)));
            assert(self.link_ok(l));
            let i = choose|i: int| 0 <= i < layout.spec_size() && #[trigger] layout.coord_at(i) == l.0 && (
            l.1 == l.0 || exists|j: int| 0 <= j < 6 && l.1 == neighbour(l.0, j) && #[trigger] self.joins(
                l.0,
                self.grid.cells()[i],
                j,
            ));
            if key(l.0) == x {
                assert(key(layout.coord_at(i)) == x);
            } else {
                assert(key(l.1) == x);
                if l.1 != l.0 {
                    let j = choose|j: int| 0 <= j < 6 && l.1 == neighbour(l.0, j) && #[trigger] self.joins(
                        l.0,
                        self.grid.cells()[i],
                        j,
                    );
                    assert(layout.can_locate(neighbour(layout.coord_at(i), j)));
                    layout.lemma_coord_of_offset(l.1);
                    let o = layout.spec_offset(l.1)->0;
                    assert(layout.coord_at(o) == l.1);
                    assert(key(layout.coord_at(o)) == x);
                }
            }
        }
    }

    /// Positions and neighbours that the links join are in the same component.
    proof fn lemma_regions_maximal(&self, links: Seq<(HexCoord, HexCoord)>, sets: Seq<Seq<(i32, i32)>>)
        requires
            self.grid_ok(),
            self.links_ok(links),
            is_components(sets, link_keys(links)),
        ensures
            self.maximal(sets),
    {
        let lk = link_keys(links);
        let layout = self.grid.layout;
        assert forall|i: int, j: int, r: int, t: int|
            0 <= i < layout.spec_size() && 0 <= j < 6 && 0 <= r < sets.len() && 0 <= t < sets.len() && r != t
                && #[trigger] sets[r].contains(key(layout.coord_at(i))) && #[trigger] sets[t].contains(
                key(neighbour(layout.coord_at(i), j)),
            ) implies self.refused(layout.coord_at(i), self.grid.cells()[i], j) by {
            let c = layout.coord_at(i);
            let nb = neighbour(c, j);
            assert(self.position_linked(links, i));
            if !self.refused(c, self.grid.cells()[i], j) {
                let m = choose|m: int| 0 <= m < links.len() && #[trigger] links[m] == (c, nb);
                assert(lk[m] == (key(c), key(nb)));
                let s = choose|s: int| 0 <= s < sets.len() && (#[trigger] sets[s]).contains(lk[m].0) && sets[s].contains(lk[m].1);
                if r < s {
                    assert(!sets[s].contains(key(c)));
                } else if s < r {
                    assert(!sets[r].contains(key(c)));
                }
                if t < s {
                    assert(!sets[s].contains(key(nb)));
                } else if s < t {
                    assert(!sets[t].contains(key(nb)));
                }
            }
        }
    }
}

impl<L: GridLayout, T> Grid<L, T> {
    /// Find contiguous regions of the grid by the given binary predicate.
    pub fn regions<Predicate: Fn(&T, &T) -> bool>(&self, predicate: Predicate) -> (regions: Vec<Region>)
        requires
            (Regions { grid: self, predicate }).grid_ok(),
        ensures
            (Regions { grid: self, predicate }).are_regions(regions@),
    {
        Regions::from(self, predicate).iter()
    }
}

} // verus!
