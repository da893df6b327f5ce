//! The shapes of grids: which positions they hold and in which order they store them.
use super::coord::{hex, hex_distance, in_i32, neighbour_offset, HexCoord};
use super::transform::{transform_apply, Transform};
use vstd::math::abs;
use vstd::arithmetic::div_mod::{lemma_fundamental_div_mod, lemma_fundamental_div_mod_converse};
use vstd::prelude::*;

verus! {

/// Division rounding toward zero, as Rust's `/` does on signed integers.
pub open spec fn trunc_div(a: int, b: int) -> int {
    if a >= 0 { a / b } else { -((-a) / b) }
}

/// The remainder of division rounding toward zero, as Rust's `%` on signed integers.
pub open spec fn trunc_rem(a: int, b: int) -> int {
    if a >= 0 { a % b } else { -((-a) % b) }
}

/// The shape of a grid: the positions it holds, and the order in which a grid stores them.
pub trait GridLayout: Copy + Sized {
    /// The layout has no negative dimension and its size fits in an `i32`.
    spec fn valid(&self) -> bool;

    /// The number of positions of the layout.
    spec fn spec_size(&self) -> nat;

    /// The position stored at index `i`, for `i` below the size.
    spec fn coord_at(&self, i: int) -> HexCoord;

    /// The arithmetic that locates `p` in the layout stays within `i32`.
    spec fn can_locate(&self, p: HexCoord) -> bool;

    /// The layout holds `p`.
    spec fn spec_contains(&self, p: HexCoord) -> bool;

    /// The index at which `p` is stored, if the layout holds it.
    spec fn spec_offset(&self, p: HexCoord) -> Option<int>;

    /// The position that `p` wraps around to can be found.
    spec fn can_wrap(&self, p: HexCoord) -> bool;

    /// The position that `p` wraps around to.
    spec fn spec_wrap(&self, p: HexCoord) -> HexCoord;

    /// The middle of the layout.
    spec fn spec_center(&self) -> HexCoord;

    /// The layout is a proper region of the grid: the laws of layouts hold of it.
    spec fn well_shaped(&self) -> bool;

    fn size(self) -> (n: usize)
        requires
            self.valid(),
        ensures
            n == self.spec_size();

    /// The positions of the layout, in the order in which a grid stores them.
    fn iter(&self) -> (coords: Vec<HexCoord>)
        requires
            self.valid(),
        ensures
            coords@.len() == self.spec_size(),
            forall|i: int| 0 <= i < coords@.len() ==> #[trigger] coords@[i] == self.coord_at(i);

    /// The index at which `position` is stored, if the layout holds it.
    fn offset(&self, position: HexCoord) -> (o: Option<usize>)
        requires
            self.valid(),
            self.can_locate(position),
        ensures
            match o {
                Some(i) => self.spec_offset(position) == Some(i as int),
                None => self.spec_offset(position) is None,
            };

    fn contains(&self, position: HexCoord) -> (b: bool)
        requires
            self.valid(),
            self.can_locate(position),
        ensures
            b == self.spec_contains(position);

    /// The position of the layout that `position`, outside it, stands for when the grid wraps
    /// around at its edges.
    fn wrap(&self, position: HexCoord) -> (w: HexCoord)
        requires
            self.valid(),
            self.can_wrap(position),
        ensures
            w == self.spec_wrap(position);

    fn center(&self) -> (c: HexCoord)
        requires
            self.valid(),
        ensures
            c == self.spec_center();

    /// An offset is always below the size.
    proof fn lemma_offset_below_size(&self, p: HexCoord)
        requires
            self.valid(),
        ensures
            self.spec_offset(p) matches Some(i) ==> 0 <= i < self.spec_size();

    /// Every index below the size stores a position that the layout holds, and the offset of that
    /// position is the index.
    proof fn lemma_offset_of_coord(&self, i: int)
        requires
            self.valid(),
            self.well_shaped(),
            0 <= i < self.spec_size(),
        ensures
            self.can_locate(self.coord_at(i)),
            self.spec_contains(self.coord_at(i)),
            self.spec_offset(self.coord_at(i)) == Some(i);

    /// A position is held exactly when it has an offset; the offset is below the size and stores
    /// the position.
    proof fn lemma_coord_of_offset(&self, p: HexCoord)
        requires
            self.valid(),
            self.well_shaped(),
            self.can_locate(p),
        ensures
            self.spec_contains(p) <==> self.spec_offset(p) is Some,
            self.spec_offset(p) matches Some(i) ==> 0 <= i < self.spec_size() && self.coord_at(i) == p;

    /// The neighbours of a held position can be located, and their coordinates fit in an `i32`.
    proof fn lemma_neighbour_locatable(&self, p: HexCoord, d: int)
        requires
            self.valid(),
            self.well_shaped(),
            self.can_locate(p),
            self.spec_contains(p),
            0 <= d < 6,
        ensures
            i32::MIN < p.q < i32::MAX,
            i32::MIN < p.r < i32::MAX,
            self.can_locate(hex(p.q + neighbour_offset(d).q, p.r + neighbour_offset(d).r));
}

/// A grid of `height` rows of `width` positions, every other row shifted by half a position.
#[derive(Copy, Clone, Debug, PartialEq, Eq, Structural)]
pub struct SquareGridLayout {
    pub width: i32,
    pub height: i32,
}

impl GridLayout for SquareGridLayout {
    open spec fn valid(&self) -> bool {
        self.width >= 0 && self.height >= 0 && self.width * self.height <= i32::MAX
    }

    open spec fn spec_size(&self) -> nat {
        (self.width * self.height) as nat
    }

    open spec fn coord_at(&self, i: int) -> HexCoord {
        let r = i / self.width as int;
        hex(i % self.width as int - r / 2, r)
    }

    open spec fn can_locate(&self, p: HexCoord) -> bool {
        in_i32(p.q + trunc_div(p.r as int, 2))
    }

    open spec fn spec_contains(&self, p: HexCoord) -> bool {
        let qoffset = p.q + trunc_div(p.r as int, 2);
        p.r >= 0 && p.r < self.height && qoffset >= 0 && qoffset < self.width
    }

    open spec fn spec_offset(&self, p: HexCoord) -> Option<int> {
        if self.spec_contains(p) {
            Some(p.r * self.width + p.q + p.r / 2)
        } else {
            None
        }
    }

    /// Wrapping is not implemented for this layout.
    open spec fn can_wrap(&self, p: HexCoord) -> bool {
        false
    }

    open spec fn spec_wrap(&self, p: HexCoord) -> HexCoord {
        p
    }

    open spec fn spec_center(&self) -> HexCoord {
        hex(self.width / 2 - self.height / 4, self.height / 2)
    }

    open spec fn well_shaped(&self) -> bool {
        true
    }

    fn size(self) -> (n: usize) {
        (self.width * self.height) as usize
    }

    fn iter(&self) -> (coords: Vec<HexCoord>) {
        let mut it = SquareGridLayoutIterator::new(*self);
        let mut coords: Vec<HexCoord> = Vec::new();
        loop
            invariant
                it.layout == *self,
                self.valid(),
                0 <= it.i <= self.spec_size(),
                coords@.len() == it.i,
                forall|k: int| 0 <= k < coords@.len() ==> #[trigger] coords@[k] == self.coord_at(k),
            ensures
                coords@.len() == self.spec_size(),
                forall|k: int| 0 <= k < coords@.len() ==> #[trigger] coords@[k] == self.coord_at(k),
            decreases self.spec_size() - it.i,
        {
            match it.next() {
                Some(c) => coords.push(c),
                None => break,
            }
        }
        coords
    }

    fn offset(&self, position: HexCoord) -> (o: Option<usize>) {
        if !self.contains(position) {
            return None;
        }
        proof {
            square_offset_bounds(*self, position);
        }
        let offset = position.r * self.width + position.q + position.r / 2;
        Some(offset as usize)
    }

    fn contains(&self, position: HexCoord) -> (b: bool) {
        let qoffset = position.q + position.r / 2;
        position.r >= 0 && position.r < self.height && qoffset >= 0 && qoffset < self.width
    }

    fn wrap(&self, position: HexCoord) -> (w: HexCoord) {
        position
    }

    fn center(&self) -> (c: HexCoord) {
        HexCoord { q: self.width / 2 - self.height / 4, r: self.height / 2 }
    }

    proof fn lemma_offset_below_size(&self, p: HexCoord) {
        if self.spec_contains(p) {
            square_offset_bounds(*self, p);
        }
    }

    proof fn lemma_offset_of_coord(&self, i: int) {
        let w = self.width as int;
        let h = self.height as int;
        assert(w > 0) by (nonlinear_arith)
            requires
                0 <= i < w * h,
                w >= 0,
                h >= 0,
        ;
        let r = i / w;
        let c = i % w;
        lemma_fundamental_div_mod(i, w);
        assert(0 <= c < w);
        assert(0 <= r < h) by (nonlinear_arith)
            requires
                i == w * r + c,
                0 <= c < w,
                0 <= i < w * h,
                w > 0,
        ;
        assert(r * w == w * r) by (nonlinear_arith);
    }

    proof fn lemma_neighbour_locatable(&self, p: HexCoord, d: int) {
        assert(d == 0 || d == 1 || d == 2 || d == 3 || d == 4 || d == 5);
    }

    proof fn lemma_coord_of_offset(&self, p: HexCoord) {
        if self.spec_contains(p) {
            let w = self.width as int;
            let h = self.height as int;
            let r = p.r as int;
            let c = p.q + r / 2;
            assert(r * w + c < w * h) by (nonlinear_arith)
                requires
                    0 <= r < h,
                    0 <= c < w,
            ;
            assert(r * w >= 0) by (nonlinear_arith)
                requires
                    0 <= r,
                    0 <= w,
            ;
            lemma_fundamental_div_mod_converse(r * w + c, w, r, c);
        }
    }
}

/// The index of a held position is within the size of the layout, which fits in an `i32`.
proof fn square_offset_bounds(l: SquareGridLayout, p: HexCoord)
    requires
        l.valid(),
        l.spec_contains(p),
    ensures
        0 <= p.r * l.width + p.q + p.r / 2 < l.width * l.height,
        in_i32(p.r * l.width),
        in_i32(p.r * l.width + p.q),
{
    let w = l.width as int;
    let h = l.height as int;
    let r = p.r as int;
    let c = p.q + r / 2;
    assert(0 <= r * w + c < w * h) by (nonlinear_arith)
        requires
            0 <= r < h,
            0 <= c < w,
    ;
    assert(0 <= r * w <= w * h) by (nonlinear_arith)
        requires
            0 <= r < h,
            0 <= w,
    ;
}

/// Walks through the positions of a square layout in storage order.
pub struct SquareGridLayoutIterator {
    pub layout: SquareGridLayout,
    pub i: i32,
}

impl SquareGridLayoutIterator {
    /// An iterator at the first position of the layout.
    pub fn new(layout: SquareGridLayout) -> (it: Self)
        ensures
            it.layout == layout,
            it.i == 0,
    {
        SquareGridLayoutIterator { layout, i: 0 }
    }

    /// The number of positions left, as the lower and the upper bound.
    pub fn size_hint(&self) -> (hint: (usize, Option<usize>))
        requires
            self.layout.valid(),
            0 <= self.i <= self.layout.spec_size(),
        ensures
            hint.0 == self.layout.spec_size() - self.i,
            hint.1 == Some((self.layout.spec_size() - self.i) as usize),
    {
        let remains = self.layout.size() - self.i as usize;
        (remains, Some(remains))
    }

    /// The next position, or `None` once all have been visited.
    pub fn next(&mut self) -> (res: Option<HexCoord>)
        requires
            old(self).layout.valid(),
            0 <= old(self).i,
        ensures
            final(self).layout == old(self).layout,
            old(self).i < old(self).layout.spec_size() ==> res == Some(old(self).layout.coord_at(old(self).i as int))
                && final(self).i == old(self).i + 1,
            old(self).i >= old(self).layout.spec_size() ==> res is None && final(self).i == old(self).i,
    {
        if self.i >= self.layout.size() as i32 {
            return None;
        }
        let r = self.i / self.layout.width;
        let q = self.i % self.layout.width - r / 2;
        self.i = self.i + 1;
        Some(HexCoord::new(q, r))
    }
}

/// A hexagon of positions within `radius - 1` steps of the origin.
#[derive(Copy, Clone, Debug, PartialEq, Eq, Structural)]
pub struct HexagonalGridLayout {
    pub radius: i32,
}

/// The number of positions in each of the three rhombuses that, around the origin, make up a
/// hexagonal layout.
pub open spec fn rhombus_size(radius: int) -> int {
    (radius - 1) * radius
}

/// The largest number of steps from the origin of a held position.
pub open spec fn hex_bound(radius: int) -> int {
    if radius >= 1 { radius - 1 } else { u32::MAX as int }
}

/// The offset formula of a hexagonal layout: the origin first, then the three rhombuses in turn.
pub open spec fn hex_offset_formula(radius: int, p: HexCoord) -> int {
    let h = radius - 1;
    let rs = rhombus_size(radius);
    let q = p.q as int;
    let r = p.r as int;
    let s = p.spec_s();
    if q >= 0 && r < 0 {
        q * h - r
    } else if r >= 0 && s < 0 {
        rs + r * h - s
    } else if s >= 0 && q < 0 {
        rs * 2 + s * h - q
    } else {
        0
    }
}

/// The six rotations about the origin, in the order in which mirror centers are tried.
pub open spec fn rotation(k: int) -> Transform {
    if k == 0 { Transform::Identity }
    else if k == 1 { Transform::RotateClockwise60 }
    else if k == 2 { Transform::RotateClockwise120 }
    else if k == 3 { Transform::RotateClockwise180 }
    else if k == 4 { Transform::RotateClockwise240 }
    else { Transform::RotateClockwise300 }
}

/// The centers of the six copies of the layout that surround it when the grid wraps around.
pub open spec fn mirror_candidate(radius: int, k: int) -> HexCoord {
    transform_apply(rotation(k), hex(2 * radius - 1, 1 - radius))
}

/// The index of the first candidate, among the first `k + 1`, that is nearest to `p`.
pub open spec fn nearest_candidate(radius: int, p: HexCoord, k: int) -> int
    decreases k,
{
    if k <= 0 {
        0
    } else {
        let b = nearest_candidate(radius, p, k - 1);
        if hex_distance(p, mirror_candidate(radius, k)) < hex_distance(p, mirror_candidate(radius, b)) {
            k
        } else {
            b
        }
    }
}

/// The mirror center nearest to `p` (the first of the nearest ones).
pub open spec fn mirror_center(radius: int, p: HexCoord) -> HexCoord {
    mirror_candidate(radius, nearest_candidate(radius, p, 5))
}

/// `p` minus `k` times `m`.
pub open spec fn step_back(p: HexCoord, m: HexCoord, k: int) -> HexCoord {
    hex(p.q - k * m.q, p.r - k * m.r)
}

/// The arithmetic of comparing `p` with the mirror centers stays within range.
pub open spec fn mirror_arith_ok(radius: int, p: HexCoord) -> bool {
    &&& in_i32(p.q as int)
    &&& forall|k: int| 0 <= k < 6 ==> {
        let m = #[trigger] mirror_candidate(radius, k);
        &&& in_i32(p.q - m.q)
        &&& in_i32(p.r - m.r)
        &&& in_i32(p.q - m.q + p.r - m.r)
        &&& abs(p.q - m.q) + abs(p.q - m.q + p.r - m.r) + abs(p.r - m.r) <= u32::MAX
    }
}

impl HexagonalGridLayout {
    /// Stepping back from `p` by the mirror center `k` times lands in the layout for the first
    /// time, and every step before stays within range.
    pub open spec fn lands_after(&self, p: HexCoord, m: HexCoord, k: int) -> bool {
        &&& k >= 1
        &&& forall|j: int| 1 <= j <= k ==> {
            &&& in_i32(p.q - j * m.q)
            &&& in_i32(p.r - j * m.r)
            &&& #[trigger] self.can_locate(step_back(p, m, j))
        }
        &&& forall|j: int| 1 <= j < k ==> !#[trigger] self.spec_contains(step_back(p, m, j))
        &&& self.spec_contains(step_back(p, m, k))
    }
}

impl GridLayout for HexagonalGridLayout {
    open spec fn valid(&self) -> bool {
        self.radius >= 0 && 3 * rhombus_size(self.radius as int) + 1 <= i32::MAX
    }

    open spec fn spec_size(&self) -> nat {
        (3 * rhombus_size(self.radius as int) + 1) as nat
    }

    open spec fn coord_at(&self, i: int) -> HexCoord {
        let h = self.radius - 1;
        let rs = rhombus_size(self.radius as int);
        if i == 0 {
            hex(0, 0)
        } else if i <= rs {
            let o = i - 1;
            hex(o / h, -(o % h) - 1)
        } else if i <= rs * 2 {
            let o = i - rs - 1;
            hex((o % h) + 1 - o / h, o / h)
        } else {
            let o = i - rs * 2 - 1;
            hex(-(o % h) - 1, (o % h) + 1 - o / h)
        }
    }

    open spec fn can_locate(&self, p: HexCoord) -> bool {
        &&& in_i32(p.q + p.r)
        &&& abs(p.q as int) + abs(p.q + p.r) + abs(p.r as int) <= u32::MAX
    }

    open spec fn spec_contains(&self, p: HexCoord) -> bool {
        p.spec_length() <= hex_bound(self.radius as int)
    }

    open spec fn spec_offset(&self, p: HexCoord) -> Option<int> {
        let o = hex_offset_formula(self.radius as int, p);
        if self.spec_contains(p) && 0 <= o < self.spec_size() {
            Some(o)
        } else {
            None
        }
    }

    open spec fn can_wrap(&self, p: HexCoord) -> bool {
        &&& self.radius >= 1
        &&& mirror_arith_ok(self.radius as int, p)
        &&& exists|k: int| self.lands_after(p, mirror_center(self.radius as int, p), k)
    }

    open spec fn spec_wrap(&self, p: HexCoord) -> HexCoord {
        let m = mirror_center(self.radius as int, p);
        step_back(p, m, choose|k: int| self.lands_after(p, m, k))
    }

    open spec fn spec_center(&self) -> HexCoord {
        hex(0, 0)
    }

    open spec fn well_shaped(&self) -> bool {
        self.radius >= 1
    }

    fn size(self) -> (n: usize) {
        proof {
            hex_size_facts(self);
        }
        (((self.radius - 1) * self.radius) * 3 + 1) as usize
    }

    fn iter(&self) -> (coords: Vec<HexCoord>) {
        let mut it = HexagonalGridLayoutIterator::new(*self);
        let mut coords: Vec<HexCoord> = Vec::new();
        loop
            invariant
                it.layout == *self,
                self.valid(),
                0 <= it.i <= self.spec_size(),
                coords@.len() == it.i,
                forall|k: int| 0 <= k < coords@.len() ==> #[trigger] coords@[k] == self.coord_at(k),
            ensures
                coords@.len() == self.spec_size(),
                forall|k: int| 0 <= k < coords@.len() ==> #[trigger] coords@[k] == self.coord_at(k),
            decreases self.spec_size() - it.i,
        {
            if it.i as usize == self.size() {
                break;
            }
            proof {
                hex_size_facts(*self);
            }
            match it.next() {
                Some(c) => coords.push(c),
                None => break,
            }
        }
        coords
    }

    fn offset(&self, position: HexCoord) -> (o: Option<usize>) {
        if !self.contains(position) {
            return None;
        }
        proof {
            hex_contained_bounds(*self, position);
        }
        let rhombus_size = (self.radius - 1) * self.radius;
        let offset = if position.q >= 0 && position.r < 0 {
            position.q * (self.radius - 1) - position.r
        } else if position.r >= 0 && position.s() < 0 {
            rhombus_size + position.r * (self.radius - 1) - position.s()
        } else if position.s() >= 0 && position.q < 0 {
            rhombus_size * 2 + position.s() * (self.radius - 1) - position.q
        } else {
            0
        };
        if offset >= 0 && (offset as usize) < self.size() {
            Some(offset as usize)
        } else {
            None
        }
    }

    fn contains(&self, position: HexCoord) -> (b: bool) {
        let bound: u32 = if self.radius >= 1 { (self.radius - 1) as u32 } else { u32::MAX };
        position.distance(HexCoord::zero()) <= bound
    }

    fn wrap(&self, position: HexCoord) -> (w: HexCoord) {
        proof {
            hex_size_facts(*self);
        }
        let base = HexCoord::new(2 * self.radius - 1, 1 - self.radius);
        let rotations = [
            Transform::Identity,
            Transform::RotateClockwise60,
            Transform::RotateClockwise120,
            Transform::RotateClockwise180,
            Transform::RotateClockwise240,
            Transform::RotateClockwise300,
        ];
        let ghost radius = self.radius as int;
        let mut nearest = rotations[0].apply(base);
        assert(nearest == mirror_candidate(radius, 0));
        let mut best_distance = position.distance(nearest);
        let mut k: usize = 1;
        while k < 6
            invariant
                1 <= k <= 6,
                self.valid(),
                self.radius >= 1,
                self.radius <= 30000,
                radius == self.radius,
                base == hex(2 * radius - 1, 1 - radius),
                mirror_arith_ok(radius, position),
                forall|j: int| 0 <= j < 6 ==> rotations@[j] == rotation(j),
                nearest == mirror_candidate(radius, nearest_candidate(radius, position, k - 1)),
                best_distance == hex_distance(position, nearest),
            decreases 6 - k,
        {
            assert(rotations@[k as int] == rotation(k as int));
            let candidate = rotations[k].apply(base);
            assert(candidate == mirror_candidate(radius, k as int));
            let d = position.distance(candidate);
            if d < best_distance {
                nearest = candidate;
                best_distance = d;
            }
            k = k + 1;
        }
        let ghost m = nearest;
        assert(m == mirror_center(radius, position));
        let ghost steps = choose|j: int| self.lands_after(position, m, j);
        proof {
            assert(self.lands_after(position, m, steps));
            assert(in_i32(position.q - 1 * m.q) && in_i32(position.r - 1 * m.r));
        }
        let mut result = position.minus(nearest);
        let ghost mut j: int = 1;
        assert(result == step_back(position, m, 1));
        while !self.contains(result)
            invariant
                self.valid(),
                self.radius >= 1,
                nearest == m,
                self.lands_after(position, m, steps),
                1 <= j <= steps,
                result == step_back(position, m, j),
                self.can_locate(result),
            decreases steps - j,
        {
            proof {
                if j == steps {
                    assert(false);
                }
                assert(self.can_locate(step_back(position, m, j + 1)));
                assert(in_i32(position.q - (j + 1) * m.q) && in_i32(position.r - (j + 1) * m.r));
                assert(position.q - (j + 1) * m.q == (position.q - j * m.q) - m.q) by (nonlinear_arith);
                assert(position.r - (j + 1) * m.r == (position.r - j * m.r) - m.r) by (nonlinear_arith);
                assert(self.can_locate(step_back(position, m, j + 1)));
            }
            result = result.minus(nearest);
            proof {
                j = j + 1;
            }
        }
        proof {
            if j < steps {
                assert(!self.spec_contains(step_back(position, m, j)));
            }
        }
        result
    }

    fn center(&self) -> (c: HexCoord) {
        HexCoord::zero()
    }

    proof fn lemma_offset_below_size(&self, p: HexCoord) {
    }

    proof fn lemma_offset_of_coord(&self, i: int) {
        hex_offset_of_coord(*self, i);
    }

    proof fn lemma_coord_of_offset(&self, p: HexCoord) {
        hex_coord_of_offset(*self, p);
    }

    proof fn lemma_neighbour_locatable(&self, p: HexCoord, d: int) {
        hex_contained_bounds(*self, p);
        hex_size_facts(*self);
        assert(d == 0 || d == 1 || d == 2 || d == 3 || d == 4 || d == 5);
    }
}

/// The sizes of a valid hexagonal layout are non-negative and fit in an `i32`.
pub proof fn hex_size_facts(l: HexagonalGridLayout)
    requires
        l.valid(),
    ensures
        rhombus_size(l.radius as int) >= 0,
        (l.radius - 1) * l.radius == rhombus_size(l.radius as int),
        3 * rhombus_size(l.radius as int) + 1 <= i32::MAX,
        l.radius >= 2 ==> rhombus_size(l.radius as int) >= l.radius,
        l.radius <= 1 ==> rhombus_size(l.radius as int) == 0,
        l.radius <= 30000,
{
    let rad = l.radius as int;
    assert(rhombus_size(rad) >= 0) by (nonlinear_arith)
        requires
            rad >= 0,
            rhombus_size(rad) == (rad - 1) * rad,
    ;
    assert(rad >= 2 ==> rhombus_size(rad) >= rad) by (nonlinear_arith)
        requires
            rhombus_size(rad) == (rad - 1) * rad,
    ;
    assert(rad <= 30000) by (nonlinear_arith)
        requires
            rad >= 0,
            rhombus_size(rad) == (rad - 1) * rad,
            3 * rhombus_size(rad) + 1 <= 2147483647,
    ;
    assert(rad <= 1 ==> rhombus_size(rad) == 0) by (nonlinear_arith)
        requires
            rad >= 0,
            rhombus_size(rad) == (rad - 1) * rad,
    ;
}

/// A held position has all its cube components within `radius - 1` of 0, and the arithmetic of
/// its offset stays within `i32`.
proof fn hex_contained_bounds(l: HexagonalGridLayout, p: HexCoord)
    requires
        l.valid(),
        l.can_locate(p),
        l.spec_contains(p),
    ensures
        l.radius >= 1 ==> abs(p.q as int) <= l.radius - 1 && abs(p.r as int) <= l.radius - 1
            && abs(p.spec_s()) <= l.radius - 1,
        p.q > i32::MIN,
        in_i32(p.spec_s()),
        in_i32(p.q * (l.radius - 1)),
        in_i32(p.q * (l.radius - 1) - p.r),
        in_i32(p.r * (l.radius - 1)),
        in_i32(rhombus_size(l.radius as int) + p.r * (l.radius - 1)),
        in_i32(rhombus_size(l.radius as int) + p.r * (l.radius - 1) - p.spec_s()),
        in_i32(p.spec_s() * (l.radius - 1)),
        in_i32(rhombus_size(l.radius as int) * 2),
        in_i32(rhombus_size(l.radius as int) * 2 + p.spec_s() * (l.radius - 1)),
        in_i32(rhombus_size(l.radius as int) * 2 + p.spec_s() * (l.radius - 1) - p.q),
{
    let rad = l.radius as int;
    let h = rad - 1;
    let rs = rhombus_size(rad);
    let q = p.q as int;
    let r = p.r as int;
    let s = p.spec_s();
    hex_size_facts(l);
    if rad >= 1 {
        assert(abs(q) <= h && abs(r) <= h && abs(s) <= h);
        assert(-rs <= q * h <= rs && -rs <= r * h <= rs && -rs <= s * h <= rs
            && -rs <= q * h - r <= rs && -rs <= r * h - s <= rs && -rs <= s * h - q <= rs) by (nonlinear_arith)
            requires
                abs(q) <= h,
                abs(r) <= h,
                abs(s) <= h,
                h >= 0,
                rs == h * (h + 1),
        ;
    } else {
        assert(rad == 0);
        assert(rs == 0);
        assert(q * h == -q && r * h == -r && s * h == -s) by (nonlinear_arith)
            requires
                h == -1,
        ;
    }
}

/// Facts about an index within one of the rhombuses.
proof fn rhombus_div_mod(o: int, h: int)
    requires
        h >= 1,
        0 <= o < h * (h + 1),
    ensures
        o == (o / h) * h + o % h,
        0 <= o % h < h,
        0 <= o / h <= h,
{
    lemma_fundamental_div_mod(o, h);
    assert(h * (o / h) == (o / h) * h) by (nonlinear_arith);
    assert(0 <= o / h <= h) by (nonlinear_arith)
        requires
            o == h * (o / h) + o % h,
            0 <= o % h < h,
            0 <= o < h * (h + 1),
            h >= 1,
    ;
}

proof fn hex_offset_of_coord(l: HexagonalGridLayout, i: int)
    requires
        l.valid(),
        l.radius >= 1,
        0 <= i < l.spec_size(),
    ensures
        l.can_locate(l.coord_at(i)),
        l.spec_contains(l.coord_at(i)),
        l.spec_offset(l.coord_at(i)) == Some(i),
{
    let rad = l.radius as int;
    let h = rad - 1;
    let rs = rhombus_size(rad);
    let c = l.coord_at(i);
    assert(rs == h * (h + 1)) by (nonlinear_arith)
        requires
            rs == (rad - 1) * rad,
            h == rad - 1,
    ;
    if i == 0 {
    } else if i <= rs {
        let o = i - 1;
        rhombus_div_mod(o, h);
        assert(c == hex(o / h, -(o % h) - 1));
    } else if i <= rs * 2 {
        let o = i - rs - 1;
        rhombus_div_mod(o, h);
    } else {
        let o = i - rs * 2 - 1;
        assert(o < rs);
        rhombus_div_mod(o, h);
    }
}

proof fn hex_coord_of_offset(l: HexagonalGridLayout, p: HexCoord)
    requires
        l.valid(),
        l.radius >= 1,
        l.can_locate(p),
    ensures
        l.spec_contains(p) <==> l.spec_offset(p) is Some,
        l.spec_offset(p) matches Some(i) ==> 0 <= i < l.spec_size() && l.coord_at(i) == p,
{
    if l.spec_contains(p) {
        let rad = l.radius as int;
        let h = rad - 1;
        let rs = rhombus_size(rad);
        let q = p.q as int;
        let r = p.r as int;
        let s = p.spec_s();
        hex_contained_bounds(l, p);
        assert(rs == h * (h + 1)) by (nonlinear_arith)
            requires
                rs == (rad - 1) * rad,
                h == rad - 1,
        ;
        if q >= 0 && r < 0 {
            let o = q * h + (-r - 1);
            assert(0 <= o < h * (h + 1)) by (nonlinear_arith)
                requires
                    0 <= q <= h,
                    0 <= -r - 1 < h,
                    o == q * h + (-r - 1),
            ;
            lemma_fundamental_div_mod_converse(o, h, q, -r - 1);
        } else if r >= 0 && s < 0 {
            let o = r * h + (-s - 1);
            assert(0 <= o < h * (h + 1)) by (nonlinear_arith)
                requires
                    0 <= r <= h,
                    0 <= -s - 1 < h,
                    o == r * h + (-s - 1),
            ;
            lemma_fundamental_div_mod_converse(o, h, r, -s - 1);
        } else if s >= 0 && q < 0 {
            let o = s * h + (-q - 1);
            assert(0 <= o < h * (h + 1)) by (nonlinear_arith)
                requires
                    0 <= s <= h,
                    0 <= -q - 1 < h,
                    o == s * h + (-q - 1),
            ;
            lemma_fundamental_div_mod_converse(o, h, s, -q - 1);
        } else {
            assert(q == 0 && r == 0);
        }
    }
}

/// The six mirror centers of a hexagonal layout of the given radius.
proof fn mirror_candidates(radius: int)
    requires
        1 <= radius <= 30000,
    ensures
        mirror_candidate(radius, 0) == hex(2 * radius - 1, 1 - radius),
        mirror_candidate(radius, 1) == hex(radius - 1, radius),
        mirror_candidate(radius, 2) == hex(-radius, 2 * radius - 1),
        mirror_candidate(radius, 3) == hex(1 - 2 * radius, radius - 1),
        mirror_candidate(radius, 4) == hex(1 - radius, -radius),
        mirror_candidate(radius, 5) == hex(radius, 1 - 2 * radius),
{
}

/// The nearest mirror center is at least as near as any of the six.
proof fn nearest_is_nearest(radius: int, p: HexCoord, k: int)
    requires
        0 <= k < 6,
    ensures
        0 <= nearest_candidate(radius, p, k) <= k,
        forall|j: int| 0 <= j <= k ==> hex_distance(p, mirror_candidate(radius, nearest_candidate(radius, p, k)))
            <= hex_distance(p, #[trigger] mirror_candidate(radius, j)),
    decreases k,
{
    if k > 0 {
        nearest_is_nearest(radius, p, k - 1);
    }
}

/// The arithmetic of comparing a position near a layout with its mirror centers stays in range.
proof fn ring_mirror_arith(rad: int, p: HexCoord)
    requires
        1 <= rad <= 30000,
        p.spec_length() == rad,
    ensures
        mirror_arith_ok(rad, p),
{
    mirror_candidates(rad);
    assert(abs(p.q as int) <= rad && abs(p.r as int) <= rad);
    assert forall|k: int| 0 <= k < 6 implies {
        let m = #[trigger] mirror_candidate(rad, k);
        &&& in_i32(p.q - m.q)
        &&& in_i32(p.r - m.r)
        &&& in_i32(p.q - m.q + p.r - m.r)
        &&& abs(p.q - m.q) + abs(p.q - m.q + p.r - m.r) + abs(p.r - m.r) <= u32::MAX
    } by {
        assert(k == 0 || k == 1 || k == 2 || k == 3 || k == 4 || k == 5);
    }
}

/// Some mirror center lies within `radius - 1` steps of a position `radius` steps from the origin.
proof fn ring_near_mirror(rad: int, p: HexCoord) -> (j: int)
    requires
        1 <= rad <= 30000,
        p.spec_length() == rad,
    ensures
        0 <= j < 6,
        hex_distance(p, mirror_candidate(rad, j)) <= rad - 1,
{
    mirror_candidates(rad);
    let n = rad - 1;
    let q = p.q as int;
    let r = p.r as int;
    let s = p.spec_s();
    if q == rad && r >= -n {
        0
    } else if q == rad {
        5
    } else if s == -rad && q <= n {
        1
    } else if r == rad && q <= -1 {
        2
    } else if q == -rad && r <= n {
        3
    } else if s == rad && r <= -1 {
        4
    } else {
        5
    }
}

/// A position one step outside a hexagonal layout wraps around, with one step back by its
/// nearest mirror center, to a position that the layout holds.
#[verifier::spinoff_prover]
#[verifier::rlimit(30)]
pub proof fn lemma_ring_wraps(l: HexagonalGridLayout, p: HexCoord)
    requires
        l.valid(),
        l.radius >= 1,
        p.spec_length() == l.radius,
    ensures
        l.can_wrap(p),
        l.spec_wrap(p) == step_back(p, mirror_center(l.radius as int, p), 1),
        l.spec_contains(l.spec_wrap(p)),
        l.can_locate(l.spec_wrap(p)),
{
    let rad = l.radius as int;
    hex_size_facts(l);
    ring_mirror_arith(rad, p);
    let witness = ring_near_mirror(rad, p);
    nearest_is_nearest(rad, p, 5);
    let m = mirror_center(rad, p);
    assert(hex_distance(p, m) <= hex_distance(p, mirror_candidate(rad, witness)));
    let nk = nearest_candidate(rad, p, 5);
    assert(mirror_candidate(rad, nk) == m);
    assert(in_i32(p.q - m.q) && in_i32(p.r - m.r));
    let w = step_back(p, m, 1);
    assert(w == hex(p.q - m.q, p.r - m.r));
    assert(l.spec_contains(w));
    assert(l.lands_after(p, m, 1));
    let k = choose|k: int| l.lands_after(p, m, k);
    if k > 1 {
        assert(!l.spec_contains(step_back(p, m, 1)));
    }
}

/// Walks through the positions of a hexagonal layout in storage order.
pub struct HexagonalGridLayoutIterator {
    pub layout: HexagonalGridLayout,
    pub i: i32,
}

impl HexagonalGridLayoutIterator {
    /// An iterator at the first position of the layout.
    pub fn new(layout: HexagonalGridLayout) -> (it: Self)
        ensures
            it.layout == layout,
            it.i == 0,
    {
        HexagonalGridLayoutIterator { layout, i: 0 }
    }

    /// The number of positions left, as the lower and the upper bound.
    pub fn size_hint(&self) -> (hint: (usize, Option<usize>))
        requires
            self.layout.valid(),
            0 <= self.i <= self.layout.spec_size(),
        ensures
            hint.0 == self.layout.spec_size() - self.i,
            hint.1 == Some((self.layout.spec_size() - self.i) as usize),
    {
        let remains = self.layout.size() - self.i as usize;
        (remains, Some(remains))
    }

    /// The next position, or `None` once all have been visited.
    pub fn next(&mut self) -> (res: Option<HexCoord>)
        requires
            old(self).layout.valid(),
            0 <= old(self).i < i32::MAX,
        ensures
            final(self).layout == old(self).layout,
            final(self).i == old(self).i + 1,
            old(self).i < old(self).layout.spec_size() ==> res == Some(old(self).layout.coord_at(old(self).i as int)),
            old(self).i >= old(self).layout.spec_size() ==> res is None,
    {
        let ghost rad = self.layout.radius as int;
        proof {
            hex_size_facts(self.layout);
        }
        let rhombus_height = self.layout.radius - 1;
        let rhombus_size = rhombus_height * self.layout.radius;
        proof {
            assert(rhombus_size >= 0) by (nonlinear_arith)
                requires
                    rad >= 0,
                    rhombus_size == (rad - 1) * rad,
            ;
        }
        let result = if self.i == 0 {
            Some(HexCoord::zero())
        } else if self.i <= rhombus_size {
            proof {
                assert(rhombus_height >= 1) by (nonlinear_arith)
                    requires
                        rhombus_size >= 1,
                        rhombus_size == rhombus_height * rad,
                        rhombus_height == rad - 1,
                        rad >= 0,
                ;
                rhombus_div_mod(self.i - 1, rhombus_height as int);
            }
            let offset = self.i - 1;
            Some(HexCoord::new(offset / rhombus_height, -(offset % rhombus_height) - 1))
        } else if self.i <= rhombus_size * 2 {
            proof {
                assert(rhombus_height >= 1) by (nonlinear_arith)
                    requires
                        rhombus_size >= 1,
                        rhombus_size == rhombus_height * rad,
                        rhombus_height == rad - 1,
                        rad >= 0,
                ;
                rhombus_div_mod(self.i - rhombus_size - 1, rhombus_height as int);
            }
            let offset = self.i - rhombus_size - 1;
            Some(HexCoord::new_rs(offset / rhombus_height, -(offset % rhombus_height) - 1))
        } else if self.i <= rhombus_size * 3 {
            proof {
                assert(rhombus_height >= 1) by (nonlinear_arith)
                    requires
                        rhombus_size >= 1,
                        rhombus_size == rhombus_height * rad,
                        rhombus_height == rad - 1,
                        rad >= 0,
                ;
                rhombus_div_mod(self.i - rhombus_size * 2 - 1, rhombus_height as int);
            }
            let offset = self.i - rhombus_size * 2 - 1;
            Some(HexCoord::new_qs(-(offset % rhombus_height) - 1, offset / rhombus_height))
        } else {
            None
        };
        self.i = self.i + 1;
        result
    }
}

} // verus!
