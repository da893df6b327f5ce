//! A value for each of the six neighbours of a position.
use super::coord::{hex, in_i32, neighbour_offset, HexCoord};
use vstd::prelude::*;

verus! {

/// A wrapper around a fixed sized array for holding per neighbour information, in the order of
/// the neighbour directions.
#[derive(Clone, Copy)]
pub struct Neighbours<T>(pub [T; 6]);

impl<T> Neighbours<T> {
    /// The six values, in the order of the directions.
    pub open spec fn view_values(&self) -> Seq<T> {
        self.0@
    }

    pub fn new(data: [T; 6]) -> (n: Self)
        ensures
            n.view_values() == data@,
    {
        Neighbours(data)
    }

    /// The value for each direction is what `f` gives for the direction's offset.
    pub fn from_fn<F: Fn(HexCoord) -> T>(f: F) -> (n: Self)
        requires
            forall|i: int| 0 <= i < 6 ==> call_requires(f, (#[trigger] neighbour_offset(i),)),
        ensures
            n.view_values().len() == 6,
            forall|i: int| 0 <= i < 6 ==> call_ensures(f, (neighbour_offset(i),), #[trigger] n.view_values()[i]),
    {
        let a = f(HexCoord::neighbour_offset(0));
        let b = f(HexCoord::neighbour_offset(1));
        let c = f(HexCoord::neighbour_offset(2));
        let d = f(HexCoord::neighbour_offset(3));
        let e = f(HexCoord::neighbour_offset(4));
        let g = f(HexCoord::neighbour_offset(5));
        let n = Neighbours([a, b, c, d, e, g]);
        assert forall|i: int| 0 <= i < 6 implies call_ensures(f, (neighbour_offset(i),), #[trigger] n.view_values()[i]) by {
            assert(i == 0 || i == 1 || i == 2 || i == 3 || i == 4 || i == 5);
        }
        n
    }

    /// The value for each direction is what `f` gives for the neighbour of `origin` in it.
    pub fn from_fn_around<F: Fn(HexCoord) -> T>(origin: HexCoord, f: F) -> (n: Self)
        requires
            i32::MIN < origin.q < i32::MAX,
            i32::MIN < origin.r < i32::MAX,
            forall|i: int| 0 <= i < 6 ==> call_requires(f, (#[trigger] hex(
                origin.q + neighbour_offset(i).q,
                origin.r + neighbour_offset(i).r,
            ),)),
        ensures
            n.view_values().len() == 6,
            forall|i: int| 0 <= i < 6 ==> call_ensures(f, (hex(
                origin.q + neighbour_offset(i).q,
                origin.r + neighbour_offset(i).r,
            ),), #[trigger] n.view_values()[i]),
    {
        let a = f(origin.plus(HexCoord::neighbour_offset(0)));
        let b = f(origin.plus(HexCoord::neighbour_offset(1)));
        let c = f(origin.plus(HexCoord::neighbour_offset(2)));
        let d = f(origin.plus(HexCoord::neighbour_offset(3)));
        let e = f(origin.plus(HexCoord::neighbour_offset(4)));
        let g = f(origin.plus(HexCoord::neighbour_offset(5)));
        let n = Neighbours([a, b, c, d, e, g]);
        assert forall|i: int| 0 <= i < 6 implies call_ensures(f, (hex(
            origin.q + neighbour_offset(i).q,
            origin.r + neighbour_offset(i).r,
        ),), #[trigger] n.view_values()[i]) by {
            assert(i == 0 || i == 1 || i == 2 || i == 3 || i == 4 || i == 5);
        }
        n
    }

    pub fn values(&self) -> (v: &[T; 6])
        ensures
            v@ == self.view_values(),
    {
        &self.0
    }

    /// The offset of each direction with the value for it.
    pub fn iter(&self) -> (pairs: Vec<(HexCoord, &T)>)
        ensures
            pairs@.len() == 6,
            forall|i: int| 0 <= i < 6 ==> (#[trigger] pairs@[i]).0 == neighbour_offset(i) && *pairs@[i].1
                == self.view_values()[i],
    {
        let mut pairs: Vec<(HexCoord, &T)> = Vec::new();
        let mut i: usize = 0;
        while i < 6
            invariant
                i <= 6,
                pairs@.len() == i,
                forall|j: int| 0 <= j < i ==> (#[trigger] pairs@[j]).0 == neighbour_offset(j) && *pairs@[j].1
                    == self.view_values()[j],
            decreases 6 - i,
        {
            pairs.push((HexCoord::neighbour_offset(i), &self.0[i]));
            i = i + 1;
        }
        pairs
    }

    /// The values, in the order of the directions.
    pub fn iter_values(&self) -> (values: Vec<&T>)
        ensures
            values@.len() == 6,
            forall|i: int| 0 <= i < 6 ==> *(#[trigger] values@[i]) == self.view_values()[i],
    {
        let mut values: Vec<&T> = Vec::new();
        let mut i: usize = 0;
        while i < 6
            invariant
                i <= 6,
                values@.len() == i,
                forall|j: int| 0 <= j < i ==> *(#[trigger] values@[j]) == self.view_values()[j],
            decreases 6 - i,
        {
            values.push(&self.0[i]);
            i = i + 1;
        }
        values
    }

    /// The value for direction `index`.
    pub fn index(&self, index: usize) -> (v: &T)
        requires
            index < 6,
        ensures
            *v == self.view_values()[index as int],
    {
        &self.0[index]
    }

    /// Replaces the value for direction `index`.
    pub fn set(&mut self, index: usize, value: T)
        requires
            index < 6,
        ensures
            final(self).view_values() == old(self).view_values().update(index as int, value),
    {
        self.0[index] = value;
    }
}

impl<T: Copy> Neighbours<T> {
    /// The values that `f` gives for the values of each direction.
    pub fn map<U, F: Fn(T) -> U>(self, f: F) -> (n: Neighbours<U>)
        requires
            forall|i: int| 0 <= i < 6 ==> call_requires(f, (#[trigger] self.view_values()[i],)),
        ensures
            n.view_values().len() == 6,
            forall|i: int| 0 <= i < 6 ==> call_ensures(f, (self.view_values()[i],), #[trigger] n.view_values()[i]),
    {
        let v = self.0;
        assert(call_requires(f, (self.view_values()[0],)));
        assert(call_requires(f, (self.view_values()[1],)));
        assert(call_requires(f, (self.view_values()[2],)));
        assert(call_requires(f, (self.view_values()[3],)));
        assert(call_requires(f, (self.view_values()[4],)));
        assert(call_requires(f, (self.view_values()[5],)));
        let a = f(v[0]);
        let b = f(v[1]);
        let c = f(v[2]);
        let d = f(v[3]);
        let e = f(v[4]);
        let g = f(v[5]);
        let n = Neighbours([a, b, c, d, e, g]);
        assert forall|i: int| 0 <= i < 6 implies call_ensures(f, (self.view_values()[i],), #[trigger] n.view_values()[i]) by {
            assert(i == 0 || i == 1 || i == 2 || i == 3 || i == 4 || i == 5);
        }
        n
    }
}

} // verus!
