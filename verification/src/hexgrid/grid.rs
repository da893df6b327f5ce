//! A grid: a value for every position of a layout.
use super::coord::HexCoord;
use super::layout::GridLayout;
use vstd::prelude::*;

verus! {

/// A value for every position of a layout, stored in the layout's order.
pub struct Grid<L: GridLayout, T> {
    pub layout: L,
    pub data: Vec<T>,
}

impl<L: GridLayout, T> Grid<L, T> {
    /// The values, in the order of the layout.
    pub open spec fn cells(&self) -> Seq<T> {
        self.data@
    }

    /// The layout is valid and there is one value for each of its positions.
    pub open spec fn wf(&self) -> bool {
        &&& self.layout.valid()
        &&& self.cells().len() == self.layout.spec_size()
    }

    /// The value at `position`, if the layout holds it.
    pub open spec fn spec_at(&self, position: HexCoord) -> Option<T> {
        match self.layout.spec_offset(position) {
            Some(o) => if 0 <= o < self.cells().len() {
                Some(self.cells()[o])
            } else {
                None
            },
            None => None,
        }
    }

    /// Create a new grid of the given layout filled with the default value of T
    pub fn new(layout: L) -> (g: Self) where T: Default + Clone
        requires
            layout.valid(),
        ensures
            g.wf(),
            g.layout == layout,
            exists|d: T| #[trigger] call_ensures(T::default, (), d) && forall|i: int| 0 <= i < g.cells().len() ==> cloned(
                d,
                #[trigger] g.cells()[i],
            ),
    {
        let fill = T::default();
        Grid::with_fill(layout, fill)
    }

    /// Create a new grid of the given layout filled with clones of the specified T
    pub fn with_fill(layout: L, fill: T) -> (g: Self) where T: Clone
        requires
            layout.valid(),
        ensures
            g.wf(),
            g.layout == layout,
            forall|i: int| 0 <= i < g.cells().len() ==> cloned(fill, #[trigger] g.cells()[i]),
    {
        Grid { layout, data: vec![fill; layout.size()] }
    }

    /// Create a new grid of the given layout with the given data, which must hold one value for
    /// each position of the layout.
    pub fn with_data(layout: L, data: Vec<T>) -> (g: Self)
        requires
            layout.valid(),
            data@.len() == layout.spec_size(),
        ensures
            g.wf(),
            g.layout == layout,
            g.cells() == data@,
    {
        Grid { layout, data }
    }

    /// All coordinate-value pairs of the grid, in the order of the layout.
    pub fn iter(&self) -> (pairs: Vec<(HexCoord, &T)>)
        requires
            self.wf(),
        ensures
            pairs@.len() == self.cells().len(),
            forall|i: int| 0 <= i < pairs@.len() ==> (#[trigger] pairs@[i]).0 == self.layout.coord_at(i)
                && *pairs@[i].1 == self.cells()[i],
    {
        let coords = self.layout.iter();
        let mut pairs: Vec<(HexCoord, &T)> = Vec::new();
        let mut i: usize = 0;
        while i < coords.len()
            invariant
                self.wf(),
                coords@.len() == self.cells().len(),
                forall|k: int| 0 <= k < coords@.len() ==> #[trigger] coords@[k] == self.layout.coord_at(k),
                i <= coords@.len(),
                pairs@.len() == i,
                forall|k: int| 0 <= k < i ==> (#[trigger] pairs@[k]).0 == self.layout.coord_at(k)
                    && *pairs@[k].1 == self.cells()[k],
            decreases coords@.len() - i,
        {
            pairs.push((coords[i], &self.data[i]));
            i = i + 1;
        }
        pairs
    }

    /// All values of the grid, in the order of the layout.
    pub fn iter_data(&self) -> (values: &[T])
        ensures
            values@ == self.cells(),
    {
        self.data.as_slice()
    }

    /// Replaces the value at `position`; a position outside the layout is ignored.
    pub fn set(&mut self, position: HexCoord, value: T)
        requires
            old(self).wf(),
            old(self).layout.can_locate(position),
        ensures
            final(self).wf(),
            final(self).layout == old(self).layout,
            final(self).cells() == match old(self).layout.spec_offset(position) {
                Some(o) => old(self).cells().update(o, value),
                None => old(self).cells(),
            },
    {
        if let Some(offset) = self.layout.offset(position) {
            proof {
                self.layout.lemma_offset_below_size(position);
            }
            self.data.set(offset, value);
        }
    }

    /// The value at `position`, if the layout holds it.
    pub fn get(&self, position: HexCoord) -> (v: Option<&T>)
        requires
            self.wf(),
            self.layout.can_locate(position),
        ensures
            match v {
                Some(x) => self.spec_at(position) == Some(*x),
                None => self.spec_at(position) is None,
            },
    {
        match self.layout.offset(position) {
            Some(offset) => if offset < self.data.len() {
                Some(&self.data[offset])
            } else {
                None
            },
            None => None,
        }
    }

    /// The value at `position`, to be changed in place, if the layout holds it.
    pub fn get_mut(&mut self, position: HexCoord) -> (v: Option<&mut T>)
        requires
            old(self).wf(),
            old(self).layout.can_locate(position),
        ensures
            final(self).layout == old(self).layout,
            match v {
                Some(x) => old(self).spec_at(position) == Some(*x) && final(self).cells()
                    == old(self).cells().update(old(self).layout.spec_offset(position)->0, *final(x)),
                None => old(self).spec_at(position) is None && final(self).cells() == old(self).cells(),
            },
    {
        match self.layout.offset(position) {
            Some(offset) => if offset < self.data.len() {
                Some(&mut self.data[offset])
            } else {
                None
            },
            None => None,
        }
    }

    /// The value at a held position, to be changed in place.
    pub fn index_mut(&mut self, position: HexCoord) -> (v: &mut T)
        requires
            old(self).wf(),
            old(self).layout.can_locate(position),
            old(self).layout.spec_offset(position) is Some,
        ensures
            final(self).layout == old(self).layout,
            old(self).spec_at(position) == Some(*v),
            final(self).cells() == old(self).cells().update(old(self).layout.spec_offset(position)->0, *final(v)),
    {
        let offset = self.layout.offset(position).unwrap();
        proof {
            self.layout.lemma_offset_below_size(position);
        }
        &mut self.data[offset]
    }

    /// The value at a held position.
    pub fn index(&self, position: HexCoord) -> (v: &T)
        requires
            self.wf(),
            self.layout.can_locate(position),
            self.layout.spec_offset(position) is Some,
        ensures
            self.spec_at(position) == Some(*v),
    {
        let offset = self.layout.offset(position).unwrap();
        proof {
            self.layout.lemma_offset_below_size(position);
        }
        &self.data[offset]
    }
}

/// Setting the value at one position gives that value there, if the layout holds the position,
/// and leaves the value at every other position.
pub proof fn lemma_set_elsewhere<L: GridLayout, T>(
    before: Grid<L, T>,
    after: Grid<L, T>,
    position: HexCoord,
    value: T,
    other: HexCoord,
)
    requires
        before.wf(),
        before.layout.well_shaped(),
        before.layout.can_locate(position),
        before.layout.can_locate(other),
        after.layout == before.layout,
        after.cells() == match before.layout.spec_offset(position) {
            Some(o) => before.cells().update(o, value),
            None => before.cells(),
        },
    ensures
        other != position ==> after.spec_at(other) == before.spec_at(other),
        before.layout.spec_offset(position) is Some ==> after.spec_at(position) == Some(value),
{
    before.layout.lemma_coord_of_offset(position);
    before.layout.lemma_coord_of_offset(other);
}

impl<L: GridLayout, T> std::ops::Index<HexCoord> for Grid<L, T> {
    type Output = T;

    fn index(&self, position: HexCoord) -> (v: &T)
        ensures
            self.spec_at(position) == Some(*v),
    {
        Grid::index(self, position)
    }
}

impl<L: GridLayout, T> vstd::std_specs::core::IndexSpecImpl<HexCoord> for Grid<L, T> {
    open spec fn index_req(&self, position: &HexCoord) -> bool {
        &&& self.wf()
        &&& self.layout.can_locate(*position)
        &&& self.layout.spec_offset(*position) is Some
    }
}

} // verus!
