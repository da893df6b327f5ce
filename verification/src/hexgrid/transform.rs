//! The rotations and reflections of the hexagonal grid about the origin.
use super::coord::{hex, in_i32, neighbour_offset, HexCoord};
use super::imat3::{
    component, ivec3, lemma_signed_perm_mul, lemma_signed_perm_mul_vec, lemma_signed_perm_vec, is_signed_perm, mat_mul, mat_vec, mul_row,
    perm_compose, perm_row, sign, signed_perm, IMat3, IVec3,
};
use vstd::prelude::*;

verus! {

/// A symmetry of the hexagonal grid that keeps the origin in place.
#[derive(Copy, Clone, Debug, PartialEq, Eq, Structural)]
pub enum Transform {
    Identity,
    RotateClockwise60,
    RotateClockwise120,
    RotateClockwise180,
    RotateClockwise240,
    RotateClockwise300,
    ReflectQ,
    ReflectR,
    ReflectS,
}

/// The cube coordinate `(q, r, s)` of a position.
pub open spec fn cube(c: HexCoord) -> IVec3 {
    ivec3(c.q as int, c.r as int, c.spec_s())
}

/// The position of a cube coordinate (its `s` component is left out).
pub open spec fn from_cube(v: IVec3) -> HexCoord {
    HexCoord { q: v.x, r: v.y }
}

/// Where a matrix sends a position.
pub open spec fn matrix_apply(m: IMat3, c: HexCoord) -> HexCoord {
    from_cube(mat_vec(m, cube(c)))
}

/// Where a transform sends a position.
pub open spec fn transform_apply(t: Transform, c: HexCoord) -> HexCoord {
    let q = c.q as int;
    let r = c.r as int;
    let s = c.spec_s();
    match t {
        Transform::Identity => c,
        Transform::RotateClockwise60 => hex(-r, -s),
        Transform::RotateClockwise120 => hex(s, q),
        Transform::RotateClockwise180 => hex(-q, -r),
        Transform::RotateClockwise240 => hex(r, s),
        Transform::RotateClockwise300 => hex(-s, -q),
        Transform::ReflectQ => hex(q, s),
        Transform::ReflectR => hex(s, r),
        Transform::ReflectS => hex(r, q),
    }
}

/// Which permutation of the cube components a transform makes.
pub open spec fn transform_perm(t: Transform) -> int {
    match t {
        Transform::Identity => 0,
        Transform::RotateClockwise60 => 4,
        Transform::RotateClockwise120 => 3,
        Transform::RotateClockwise180 => 0,
        Transform::RotateClockwise240 => 4,
        Transform::RotateClockwise300 => 3,
        Transform::ReflectQ => 1,
        Transform::ReflectR => 5,
        Transform::ReflectS => 2,
    }
}

/// Whether a transform keeps the signs of the cube components.
pub open spec fn transform_positive(t: Transform) -> bool {
    match t {
        Transform::RotateClockwise60 => false,
        Transform::RotateClockwise180 => false,
        Transform::RotateClockwise300 => false,
        _ => true,
    }
}

/// The matrix of a transform acting on cube coordinates.
pub open spec fn transform_matrix(t: Transform) -> IMat3 {
    signed_perm(transform_perm(t), transform_positive(t))
}

/// The matrix of a non-empty sequence of transforms: the product in sequence order, so that the
/// last transform is applied first.
pub open spec fn transforms_matrix(ts: Seq<Transform>) -> IMat3
    decreases ts.len(),
{
    if ts.len() <= 1 {
        transform_matrix(ts[0])
    } else {
        mat_mul(transforms_matrix(ts.drop_last()), transform_matrix(ts.last()))
    }
}

/// Applies the transforms of a sequence, the last one first.
pub open spec fn transforms_apply(ts: Seq<Transform>, c: HexCoord) -> HexCoord
    decreases ts.len(),
{
    if ts.len() == 0 {
        c
    } else {
        transforms_apply(ts.drop_last(), transform_apply(ts.last(), c))
    }
}

/// Every cube component of the position can be negated within `i32`.
pub open spec fn cube_ok(c: HexCoord) -> bool {
    c.cube_in_range()
}

/// A signed permutation sends a position to a position whose cube components are those of the
/// first, permuted and all negated or all kept: it stays within range and keeps its distance to
/// the origin.
pub proof fn lemma_signed_perm_apply(p: int, positive: bool, c: HexCoord)
    requires
        0 <= p < 6,
        c.cube_in_range(),
    ensures
        cube(matrix_apply(signed_perm(p, positive), c)) == mat_vec(signed_perm(p, positive), cube(c)),
        matrix_apply(signed_perm(p, positive), c).cube_in_range(),
        matrix_apply(signed_perm(p, positive), c).spec_length() == c.spec_length(),
{
    let v = cube(c);
    let m = signed_perm(p, positive);
    lemma_signed_perm_vec(p, positive, v);
    assert(mul_row(m, v, perm_row(p, 0)) == sign(positive) * component(v, 0));
    assert(mul_row(m, v, perm_row(p, 1)) == sign(positive) * component(v, 1));
    assert(mul_row(m, v, perm_row(p, 2)) == sign(positive) * component(v, 2));
    assert(p == 0 || p == 1 || p == 2 || p == 3 || p == 4 || p == 5);
}

/// A product of two signed permutations sends a position where the second and then the first send it.
pub proof fn lemma_mul_apply(p1: int, s1: bool, p2: int, s2: bool, c: HexCoord)
    requires
        0 <= p1 < 6,
        0 <= p2 < 6,
        c.cube_in_range(),
    ensures
        matrix_apply(mat_mul(signed_perm(p1, s1), signed_perm(p2, s2)), c)
            == matrix_apply(signed_perm(p1, s1), matrix_apply(signed_perm(p2, s2), c)),
{
    let v = cube(c);
    lemma_signed_perm_apply(p2, s2, c);
    lemma_signed_perm_mul_vec(p1, s1, p2, s2, v);
}

/// The matrix of a transform sends a position where the transform does.
pub proof fn lemma_transform_matrix_apply(t: Transform, c: HexCoord)
    requires
        c.cube_in_range(),
    ensures
        matrix_apply(transform_matrix(t), c) == transform_apply(t, c),
{
    let p = transform_perm(t);
    let s = transform_positive(t);
    let v = cube(c);
    lemma_signed_perm_vec(p, s, v);
    assert(mul_row(signed_perm(p, s), v, perm_row(p, 0)) == sign(s) * component(v, 0));
    assert(mul_row(signed_perm(p, s), v, perm_row(p, 1)) == sign(s) * component(v, 1));
    assert(mul_row(signed_perm(p, s), v, perm_row(p, 2)) == sign(s) * component(v, 2));
}

/// The matrix of a non-empty sequence of transforms is a signed permutation and sends a position
/// where the transforms of the sequence, the last one first, send it.
pub proof fn lemma_transforms_matrix(ts: Seq<Transform>, c: HexCoord)
    requires
        ts.len() > 0,
        c.cube_in_range(),
    ensures
        exists|p: int, positive: bool| 0 <= p < 6 && transforms_matrix(ts) == signed_perm(p, positive),
        matrix_apply(transforms_matrix(ts), c) == transforms_apply(ts, c),
    decreases ts.len(),
{
    let t = ts.last();
    if ts.len() == 1 {
        lemma_transform_matrix_apply(t, c);
        assert(ts.drop_last().len() == 0);
        assert(ts[0] == t);
        assert(transforms_apply(ts, c) == transforms_apply(ts.drop_last(), transform_apply(t, c)));
        assert(transforms_matrix(ts) == signed_perm(transform_perm(t), transform_positive(t)));
    } else {
        let d = transform_apply(t, c);
        lemma_transform_matrix_apply(t, c);
        lemma_signed_perm_apply(transform_perm(t), transform_positive(t), c);
        lemma_transforms_matrix(ts.drop_last(), d);
        let (p1, s1) = choose|p: int, positive: bool|
            0 <= p < 6 && transforms_matrix(ts.drop_last()) == signed_perm(p, positive);
        lemma_mul_apply(p1, s1, transform_perm(t), transform_positive(t), c);
        lemma_signed_perm_mul(p1, s1, transform_perm(t), transform_positive(t));
        let p = perm_compose(p1, transform_perm(t));
        let positive = s1 == transform_positive(t);
        assert(transforms_matrix(ts) == signed_perm(p, positive));
        assert(transforms_matrix(ts) == mat_mul(transforms_matrix(ts.drop_last()), transform_matrix(t)));
        assert(transforms_apply(ts, c) == transforms_apply(ts.drop_last(), d));
    }
}

impl HexCoord {
    /// The equivalent cube coordinate `(q, r, s)`.
    pub fn qrs(&self) -> (v: IVec3)
        requires
            self.q > i32::MIN,
            in_i32(self.spec_s()),
        ensures
            v == cube(*self),
    {
        IVec3::new(self.q, self.r, self.s())
    }

    /// The position of a cube coordinate, which must have components that sum to 0.
    pub fn try_from_cube(value: IVec3) -> (res: Result<HexCoord, &'static str>)
        requires
            in_i32(value.x + value.y),
            in_i32(value.x + value.y + value.z),
        ensures
            value.x + value.y + value.z == 0 ==> res == Ok::<HexCoord, &'static str>(from_cube(value)),
            value.x + value.y + value.z != 0 ==> (res matches Err(e)
                && e@ == "Components of cube coordinates does not sum to 0"@),
    {
        if value.x + value.y + value.z != 0 {
            Err("Components of cube coordinates does not sum to 0")
        } else {
            Ok(HexCoord { q: value.x, r: value.y })
        }
    }
}

/// A composition of transforms, held as the matrix that acts on cube coordinates.
#[derive(Copy, Clone, Debug)]
pub struct TransformMatrix {
    value: IMat3,
}

impl TransformMatrix {
    #[verifier::type_invariant]
    spec fn is_symmetry(self) -> bool {
        exists|p: int, positive: bool| 0 <= p < 6 && self.value == signed_perm(p, positive)
    }

    /// The matrix that acts on cube coordinates.
    pub closed spec fn matrix(self) -> IMat3 {
        self.value
    }

    /// The matrix, which is always a signed permutation: a permutation of the cube components,
    /// all negated or all kept.
    pub fn matrix_value(&self) -> (m: IMat3)
        ensures
            m == self.matrix(),
            is_signed_perm(m),
    {
        proof {
            use_type_invariant(self);
        }
        self.value
    }

    /// Where the composed transforms send `coord`.
    pub fn apply(&self, coord: HexCoord) -> (res: HexCoord)
        requires
            coord.cube_in_range(),
        ensures
            res == matrix_apply(self.matrix(), coord),
            res.cube_in_range(),
            res.spec_length() == coord.spec_length(),
    {
        proof {
            use_type_invariant(self);
        }
        let ghost (p, positive) = choose|p: int, positive: bool|
            0 <= p < 6 && self.value == signed_perm(p, positive);
        proof {
            lemma_signed_perm_apply(p, positive, coord);
        }
        let v = self.value.mul_vec3(coord.qrs());
        HexCoord::try_from_cube(v).unwrap()
    }

    /// The matrix of one transform.
    pub fn from_transform(transform: Transform) -> (m: Self)
        ensures
            m.matrix() == transform_matrix(transform),
    {
        let value = transform.into_imat3();
        TransformMatrix { value }
    }

    /// The composition of a non-empty sequence of transforms: the matrices multiplied in sequence
    /// order, so that the last transform acts first.
    pub fn from_transforms(transforms: &[Transform]) -> (m: Self)
        requires
            transforms@.len() > 0,
        ensures
            m.matrix() == transforms_matrix(transforms@),
    {
        let mut value = transforms[0].into_imat3();
        let mut k: usize = 1;
        assert(transforms@.subrange(0, 1).drop_last().len() == 0);
        while k < transforms.len()
            invariant
                1 <= k <= transforms@.len(),
                value == transforms_matrix(transforms@.subrange(0, k as int)),
                exists|p: int, positive: bool| 0 <= p < 6 && value == signed_perm(p, positive),
            decreases transforms@.len() - k,
        {
            let ghost (p1, s1) = choose|p: int, positive: bool| 0 <= p < 6 && value == signed_perm(p, positive);
            let t = transforms[k];
            proof {
                lemma_signed_perm_mul(p1, s1, transform_perm(t), transform_positive(t));
                assert(transforms@.subrange(0, k + 1).drop_last() =~= transforms@.subrange(0, k as int));
            }
            value = value.mul_mat3(&t.into_imat3());
            k = k + 1;
        }
        assert(transforms@.subrange(0, k as int) =~= transforms@);
        TransformMatrix { value }
    }
}

impl Transform {
    /// Where the transform sends `coord`.
    pub fn apply(self, coord: HexCoord) -> (res: HexCoord)
        requires
            coord.cube_in_range(),
        ensures
            res == transform_apply(self, coord),
    {
        match self {
            Transform::Identity => coord,
            Transform::RotateClockwise60 => HexCoord::new(-coord.r, -coord.s()),
            Transform::RotateClockwise120 => HexCoord::new(coord.s(), coord.q),
            Transform::RotateClockwise180 => HexCoord::new(-coord.q, -coord.r),
            Transform::RotateClockwise240 => HexCoord::new(coord.r, coord.s()),
            Transform::RotateClockwise300 => HexCoord::new(-coord.s(), -coord.q),
            Transform::ReflectQ => HexCoord::new(coord.q, coord.s()),
            Transform::ReflectR => HexCoord::new(coord.s(), coord.r),
            Transform::ReflectS => HexCoord::new(coord.r, coord.q),
        }
    }

    /// The matrix of the transform acting on cube coordinates.
    pub fn into_imat3(self) -> (m: IMat3)
        ensures
            m == transform_matrix(self),
    {
        match self {
            Transform::Identity => IMat3::from_cols(
                IVec3::new(1, 0, 0),
                IVec3::new(0, 1, 0),
                IVec3::new(0, 0, 1),
            ),
            Transform::RotateClockwise60 => IMat3::from_cols(
                IVec3::new(0, 0, -1),
                IVec3::new(-1, 0, 0),
                IVec3::new(0, -1, 0),
            ),
            Transform::RotateClockwise120 => IMat3::from_cols(
                IVec3::new(0, 1, 0),
                IVec3::new(0, 0, 1),
                IVec3::new(1, 0, 0),
            ),
            Transform::RotateClockwise180 => IMat3::from_cols(
                IVec3::new(-1, 0, 0),
                IVec3::new(0, -1, 0),
                IVec3::new(0, 0, -1),
            ),
            Transform::RotateClockwise240 => IMat3::from_cols(
                IVec3::new(0, 0, 1),
                IVec3::new(1, 0, 0),
                IVec3::new(0, 1, 0),
            ),
            Transform::RotateClockwise300 => IMat3::from_cols(
                IVec3::new(0, -1, 0),
                IVec3::new(0, 0, -1),
                IVec3::new(-1, 0, 0),
            ),
            Transform::ReflectQ => IMat3::from_cols(
                IVec3::new(1, 0, 0),
                IVec3::new(0, 0, 1),
                IVec3::new(0, 1, 0),
            ),
            Transform::ReflectR => IMat3::from_cols(
                IVec3::new(0, 0, 1),
                IVec3::new(0, 1, 0),
                IVec3::new(1, 0, 0),
            ),
            Transform::ReflectS => IMat3::from_cols(
                IVec3::new(0, 1, 0),
                IVec3::new(1, 0, 0),
                IVec3::new(0, 0, 1),
            ),
        }
    }
}

/// Transform `t` sends `c` to the position `(q, r)`, acting directly and through its matrix.
pub open spec fn sends(t: Transform, c: HexCoord, q: int, r: int) -> bool {
    &&& transform_apply(t, c) == hex(q, r)
    &&& matrix_apply(transform_matrix(t), c) == hex(q, r)
}

/// What each transform does to the cube coordinate `(q, r, s)` of a position, acting directly and
/// through its matrix. A clockwise rotation by 60 degrees sends `(q, r, s)` to `(-r, -s, -q)`,
/// and each further 60 degrees turns once more: by 120 degrees to `(s, q, r)`, by 180 to
/// `(-q, -r, -s)`, by 240 to `(r, s, q)`, by 300 to `(-s, -q, -r)`. A reflection across an axis
/// keeps the component of that axis and exchanges the other two: across Q to `(q, s, r)`, across R
/// to `(s, r, q)`, across S to `(r, q, s)`.
pub proof fn lemma_transform_geometry(c: HexCoord)
    requires
        c.cube_in_range(),
    ensures
        sends(Transform::Identity, c, c.q as int, c.r as int),
        sends(Transform::RotateClockwise60, c, -c.r, -c.spec_s()),
        sends(Transform::RotateClockwise120, c, c.spec_s(), c.q as int),
        sends(Transform::RotateClockwise180, c, -c.q, -c.r),
        sends(Transform::RotateClockwise240, c, c.r as int, c.spec_s()),
        sends(Transform::RotateClockwise300, c, -c.spec_s(), -c.q),
        sends(Transform::ReflectQ, c, c.q as int, c.spec_s()),
        sends(Transform::ReflectR, c, c.spec_s(), c.r as int),
        sends(Transform::ReflectS, c, c.r as int, c.q as int),
{
    lemma_transform_matrix_apply(Transform::Identity, c);
    lemma_transform_matrix_apply(Transform::RotateClockwise60, c);
    lemma_transform_matrix_apply(Transform::RotateClockwise120, c);
    lemma_transform_matrix_apply(Transform::RotateClockwise180, c);
    lemma_transform_matrix_apply(Transform::RotateClockwise240, c);
    lemma_transform_matrix_apply(Transform::RotateClockwise300, c);
    lemma_transform_matrix_apply(Transform::ReflectQ, c);
    lemma_transform_matrix_apply(Transform::ReflectR, c);
    lemma_transform_matrix_apply(Transform::ReflectS, c);
}

/// How the transforms relate: two rotations by 60 degrees make one by 120, three make one by
/// 180, and six turn all the way round; every reflection undone by itself; a reflection across
/// R followed by one across Q is the rotation by 120 degrees, and one across R followed by one
/// across S is the rotation by 240 degrees; a reflection keeps the component of its axis.
pub proof fn lemma_transform_relations(c: HexCoord)
    requires
        c.cube_in_range(),
    ensures
        transform_apply(Transform::RotateClockwise60, transform_apply(Transform::RotateClockwise60, c))
            == transform_apply(Transform::RotateClockwise120, c),
        transform_apply(Transform::RotateClockwise60, transform_apply(Transform::RotateClockwise120, c))
            == transform_apply(Transform::RotateClockwise180, c),
        transform_apply(Transform::RotateClockwise180, transform_apply(Transform::RotateClockwise180, c)) == c,
        transform_apply(Transform::ReflectQ, transform_apply(Transform::ReflectQ, c)) == c,
        transform_apply(Transform::ReflectR, transform_apply(Transform::ReflectR, c)) == c,
        transform_apply(Transform::ReflectS, transform_apply(Transform::ReflectS, c)) == c,
        transform_apply(Transform::ReflectQ, transform_apply(Transform::ReflectR, c)) == transform_apply(
            Transform::RotateClockwise120,
            c,
        ),
        transform_apply(Transform::ReflectS, transform_apply(Transform::ReflectR, c)) == transform_apply(
            Transform::RotateClockwise240,
            c,
        ),
        transform_apply(Transform::ReflectQ, c).q == c.q,
        transform_apply(Transform::ReflectR, c).r == c.r,
        transform_apply(Transform::ReflectS, c).spec_s() == c.spec_s(),
{
    lemma_transform_geometry(c);
}

/// The six directions go round clockwise from `(1, 0)`: rotating direction `d` clockwise by 60
/// degrees gives direction `d + 1`, the sixth turning back to the first; and opposite directions
/// are three apart.
pub proof fn lemma_directions_turn(d: int)
    requires
        0 <= d < 6,
    ensures
        neighbour_offset(0) == hex(1, 0),
        transform_apply(Transform::RotateClockwise60, neighbour_offset(d)) == neighbour_offset((d + 1) % 6),
        transform_apply(Transform::RotateClockwise180, neighbour_offset(d)) == neighbour_offset((d + 3) % 6),
{
    assert(d == 0 || d == 1 || d == 2 || d == 3 || d == 4 || d == 5);
}

} // verus!
