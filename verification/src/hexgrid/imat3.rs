//! Integer vectors and 3x3 matrices, as used for the symmetries of the hexagonal grid.
use super::coord::in_i32;
use vstd::prelude::*;

verus! {

/// A vector of three integers; for grid positions, the cube coordinate `(q, r, s)`.
#[derive(Copy, Clone, Debug, PartialEq, Eq, Hash, Default, Structural)]
pub struct IVec3 {
    pub x: i32,
    pub y: i32,
    pub z: i32,
}

/// A 3x3 integer matrix given by its columns.
#[derive(Copy, Clone, Debug, PartialEq, Eq, Default, Structural)]
pub struct IMat3 {
    pub x_axis: IVec3,
    pub y_axis: IVec3,
    pub z_axis: IVec3,
}

pub open spec fn ivec3(x: int, y: int, z: int) -> IVec3 {
    IVec3 { x: x as i32, y: y as i32, z: z as i32 }
}

/// The product `a * b`, with the cases of a factor `a` of 0, 1 or -1 written out.
pub open spec fn scaled(a: i32, b: int) -> int {
    if a == 0 {
        0
    } else if a == 1 {
        b
    } else if a == -1 {
        -b
    } else {
        a * b
    }
}

/// `scaled` is the product.
pub proof fn lemma_scaled(a: i32, b: int)
    ensures
        scaled(a, b) == a * b,
{
    if a == 1 {
        assert(1 * b == b) by (nonlinear_arith);
    } else if a == -1 {
        assert(-1 * b == -b) by (nonlinear_arith);
    } else if a == 0 {
        assert(0 * b == 0) by (nonlinear_arith);
    }
}

/// Row `i` of the product `m * v`, computed exactly.
pub open spec fn mul_row(m: IMat3, v: IVec3, i: int) -> int {
    if i == 0 {
        scaled(m.x_axis.x, v.x as int) + scaled(m.y_axis.x, v.y as int) + scaled(m.z_axis.x, v.z as int)
    } else if i == 1 {
        scaled(m.x_axis.y, v.x as int) + scaled(m.y_axis.y, v.y as int) + scaled(m.z_axis.y, v.z as int)
    } else {
        scaled(m.x_axis.z, v.x as int) + scaled(m.y_axis.z, v.y as int) + scaled(m.z_axis.z, v.z as int)
    }
}

/// The product `m * v` fits in `i32` components.
pub open spec fn mul_vec_fits(m: IMat3, v: IVec3) -> bool {
    in_i32(mul_row(m, v, 0)) && in_i32(mul_row(m, v, 1)) && in_i32(mul_row(m, v, 2))
}

/// The product `m * v`.
pub open spec fn mat_vec(m: IMat3, v: IVec3) -> IVec3 {
    ivec3(mul_row(m, v, 0), mul_row(m, v, 1), mul_row(m, v, 2))
}

/// Every product of a row of `a` and a column of `b` fits in `i32`.
pub open spec fn mul_mat_fits(a: IMat3, b: IMat3) -> bool {
    mul_vec_fits(a, b.x_axis) && mul_vec_fits(a, b.y_axis) && mul_vec_fits(a, b.z_axis)
}

/// The product `a * b`, column by column.
pub open spec fn mat_mul(a: IMat3, b: IMat3) -> IMat3 {
    IMat3 { x_axis: mat_vec(a, b.x_axis), y_axis: mat_vec(a, b.y_axis), z_axis: mat_vec(a, b.z_axis) }
}

/// Where column `j` of permutation `p` has its one: the permutations of three rows, `p` in `0..6`.
pub open spec fn perm_row(p: int, j: int) -> int {
    if p == 0 {
        j
    } else if p == 1 {
        if j == 0 { 0 } else if j == 1 { 2 } else { 1 }
    } else if p == 2 {
        if j == 0 { 1 } else if j == 1 { 0 } else { 2 }
    } else if p == 3 {
        if j == 0 { 1 } else if j == 1 { 2 } else { 0 }
    } else if p == 4 {
        if j == 0 { 2 } else if j == 1 { 0 } else { 1 }
    } else {
        if j == 0 { 2 } else if j == 1 { 1 } else { 0 }
    }
}

/// The permutation that applies `b` first and then `a`.
pub open spec fn perm_compose(a: int, b: int) -> int {
    let c0 = perm_row(a, perm_row(b, 0));
    let c1 = perm_row(a, perm_row(b, 1));
    if c0 == 0 && c1 == 1 { 0 }
    else if c0 == 0 && c1 == 2 { 1 }
    else if c0 == 1 && c1 == 0 { 2 }
    else if c0 == 1 && c1 == 2 { 3 }
    else if c0 == 2 && c1 == 0 { 4 }
    else { 5 }
}

pub open spec fn sign(positive: bool) -> int {
    if positive { 1 } else { -1 }
}

pub open spec fn sign_i32(positive: bool) -> i32 {
    if positive { 1i32 } else { -1i32 }
}

/// Unit vector `i` scaled by the sign.
pub open spec fn signed_unit(i: int, positive: bool) -> IVec3 {
    if i == 0 {
        IVec3 { x: sign_i32(positive), y: 0i32, z: 0i32 }
    } else if i == 1 {
        IVec3 { x: 0i32, y: sign_i32(positive), z: 0i32 }
    } else {
        IVec3 { x: 0i32, y: 0i32, z: sign_i32(positive) }
    }
}

/// The permutation matrix of `p`, every one of its ones replaced by the sign.
pub open spec fn signed_perm(p: int, positive: bool) -> IMat3 {
    IMat3 {
        x_axis: signed_unit(perm_row(p, 0), positive),
        y_axis: signed_unit(perm_row(p, 1), positive),
        z_axis: signed_unit(perm_row(p, 2), positive),
    }
}

/// `m` is a permutation matrix times 1 or times -1.
pub open spec fn is_signed_perm(m: IMat3) -> bool {
    exists|p: int, positive: bool| 0 <= p < 6 && m == signed_perm(p, positive)
}

/// Component `i` of a vector.
pub open spec fn component(v: IVec3, i: int) -> int {
    if i == 0 { v.x as int } else if i == 1 { v.y as int } else { v.z as int }
}

/// The product of two signed permutation matrices is the signed permutation of the composed
/// permutation, with the product of the signs.
pub proof fn lemma_signed_perm_mul(p1: int, s1: bool, p2: int, s2: bool)
    requires
        0 <= p1 < 6,
        0 <= p2 < 6,
    ensures
        mul_mat_fits(signed_perm(p1, s1), signed_perm(p2, s2)),
        mat_mul(signed_perm(p1, s1), signed_perm(p2, s2)) == signed_perm(perm_compose(p1, p2), s1 == s2),
        0 <= perm_compose(p1, p2) < 6,
{
    if s1 {
        if s2 { lemma_signed_perm_mul_cases(p1, true, p2, true); }
        else { lemma_signed_perm_mul_cases(p1, true, p2, false); }
    } else {
        if s2 { lemma_signed_perm_mul_cases(p1, false, p2, true); }
        else { lemma_signed_perm_mul_cases(p1, false, p2, false); }
    }
}

proof fn lemma_signed_perm_mul_cases(p1: int, s1: bool, p2: int, s2: bool)
    requires
        0 <= p1 < 6,
        0 <= p2 < 6,
    ensures
        mul_mat_fits(signed_perm(p1, s1), signed_perm(p2, s2)),
        mat_mul(signed_perm(p1, s1), signed_perm(p2, s2)) == signed_perm(perm_compose(p1, p2), s1 == s2),
        0 <= perm_compose(p1, p2) < 6,
{
    if p1 == 0 && s1 == true {
        lemma_mul_case_0_true(p2, s2);
    }
    if p1 == 0 && s1 == false {
        lemma_mul_case_0_false(p2, s2);
    }
    if p1 == 1 && s1 == true {
        lemma_mul_case_1_true(p2, s2);
    }
    if p1 == 1 && s1 == false {
        lemma_mul_case_1_false(p2, s2);
    }
    if p1 == 2 && s1 == true {
        lemma_mul_case_2_true(p2, s2);
    }
    if p1 == 2 && s1 == false {
        lemma_mul_case_2_false(p2, s2);
    }
    if p1 == 3 && s1 == true {
        lemma_mul_case_3_true(p2, s2);
    }
    if p1 == 3 && s1 == false {
        lemma_mul_case_3_false(p2, s2);
    }
    if p1 == 4 && s1 == true {
        lemma_mul_case_4_true(p2, s2);
    }
    if p1 == 4 && s1 == false {
        lemma_mul_case_4_false(p2, s2);
    }
    if p1 == 5 && s1 == true {
        lemma_mul_case_5_true(p2, s2);
    }
    if p1 == 5 && s1 == false {
        lemma_mul_case_5_false(p2, s2);
    }
}

#[verifier::spinoff_prover]
proof fn lemma_mul_case_0_true(p2: int, s2: bool)
    requires
        0 <= p2 < 6,
    ensures
        mul_mat_fits(signed_perm(0, true), signed_perm(p2, s2)),
        mat_mul(signed_perm(0, true), signed_perm(p2, s2)) == signed_perm(perm_compose(0, p2), true == s2),
        0 <= perm_compose(0, p2) < 6,
{
    if p2 == 0 && s2 == true {
        assert(mat_mul(signed_perm(0, true), signed_perm(0, true)) == signed_perm(0, true));
    }
    if p2 == 0 && s2 == false {
        assert(mat_mul(signed_perm(0, true), signed_perm(0, false)) == signed_perm(0, false));
    }
    if p2 == 1 && s2 == true {
        assert(mat_mul(signed_perm(0, true), signed_perm(1, true)) == signed_perm(1, true));
    }
    if p2 == 1 && s2 == false {
        assert(mat_mul(signed_perm(0, true), signed_perm(1, false)) == signed_perm(1, false));
    }
    if p2 == 2 && s2 == true {
        assert(mat_mul(signed_perm(0, true), signed_perm(2, true)) == signed_perm(2, true));
    }
    if p2 == 2 && s2 == false {
        assert(mat_mul(signed_perm(0, true), signed_perm(2, false)) == signed_perm(2, false));
    }
    if p2 == 3 && s2 == true {
        assert(mat_mul(signed_perm(0, true), signed_perm(3, true)) == signed_perm(3, true));
    }
    if p2 == 3 && s2 == false {
        assert(mat_mul(signed_perm(0, true), signed_perm(3, false)) == signed_perm(3, false));
    }
    if p2 == 4 && s2 == true {
        assert(mat_mul(signed_perm(0, true), signed_perm(4, true)) == signed_perm(4, true));
    }
    if p2 == 4 && s2 == false {
        assert(mat_mul(signed_perm(0, true), signed_perm(4, false)) == signed_perm(4, false));
    }
    if p2 == 5 && s2 == true {
        assert(mat_mul(signed_perm(0, true), signed_perm(5, true)) == signed_perm(5, true));
    }
    if p2 == 5 && s2 == false {
        assert(mat_mul(signed_perm(0, true), signed_perm(5, false)) == signed_perm(5, false));
    }
}

#[verifier::spinoff_prover]
proof fn lemma_mul_case_0_false(p2: int, s2: bool)
    requires
        0 <= p2 < 6,
    ensures
        mul_mat_fits(signed_perm(0, false), signed_perm(p2, s2)),
        mat_mul(signed_perm(0, false), signed_perm(p2, s2)) == signed_perm(perm_compose(0, p2), false == s2),
        0 <= perm_compose(0, p2) < 6,
{
    if p2 == 0 && s2 == true {
        assert(mat_mul(signed_perm(0, false), signed_perm(0, true)) == signed_perm(0, false));
    }
    if p2 == 0 && s2 == false {
        assert(mat_mul(signed_perm(0, false), signed_perm(0, false)) == signed_perm(0, true));
    }
    if p2 == 1 && s2 == true {
        assert(mat_mul(signed_perm(0, false), signed_perm(1, true)) == signed_perm(1, false));
    }
    if p2 == 1 && s2 == false {
        assert(mat_mul(signed_perm(0, false), signed_perm(1, false)) == signed_perm(1, true));
    }
    if p2 == 2 && s2 == true {
        assert(mat_mul(signed_perm(0, false), signed_perm(2, true)) == signed_perm(2, false));
    }
    if p2 == 2 && s2 == false {
        assert(mat_mul(signed_perm(0, false), signed_perm(2, false)) == signed_perm(2, true));
    }
    if p2 == 3 && s2 == true {
        assert(mat_mul(signed_perm(0, false), signed_perm(3, true)) == signed_perm(3, false));
    }
    if p2 == 3 && s2 == false {
        assert(mat_mul(signed_perm(0, false), signed_perm(3, false)) == signed_perm(3, true));
    }
    if p2 == 4 && s2 == true {
        assert(mat_mul(signed_perm(0, false), signed_perm(4, true)) == signed_perm(4, false));
    }
    if p2 == 4 && s2 == false {
        assert(mat_mul(signed_perm(0, false), signed_perm(4, false)) == signed_perm(4, true));
    }
    if p2 == 5 && s2 == true {
        assert(mat_mul(signed_perm(0, false), signed_perm(5, true)) == signed_perm(5, false));
    }
    if p2 == 5 && s2 == false {
        assert(mat_mul(signed_perm(0, false), signed_perm(5, false)) == signed_perm(5, true));
    }
}

#[verifier::spinoff_prover]
proof fn lemma_mul_case_1_true(p2: int, s2: bool)
    requires
        0 <= p2 < 6,
    ensures
        mul_mat_fits(signed_perm(1, true), signed_perm(p2, s2)),
        mat_mul(signed_perm(1, true), signed_perm(p2, s2)) == signed_perm(perm_compose(1, p2), true == s2),
        0 <= perm_compose(1, p2) < 6,
{
    if p2 == 0 && s2 == true {
        assert(mat_mul(signed_perm(1, true), signed_perm(0, true)) == signed_perm(1, true));
    }
    if p2 == 0 && s2 == false {
        assert(mat_mul(signed_perm(1, true), signed_perm(0, false)) == signed_perm(1, false));
    }
    if p2 == 1 && s2 == true {
        assert(mat_mul(signed_perm(1, true), signed_perm(1, true)) == signed_perm(0, true));
    }
    if p2 == 1 && s2 == false {
        assert(mat_mul(signed_perm(1, true), signed_perm(1, false)) == signed_perm(0, false));
    }
    if p2 == 2 && s2 == true {
        assert(mat_mul(signed_perm(1, true), signed_perm(2, true)) == signed_perm(4, true));
    }
    if p2 == 2 && s2 == false {
        assert(mat_mul(signed_perm(1, true), signed_perm(2, false)) == signed_perm(4, false));
    }
    if p2 == 3 && s2 == true {
        assert(mat_mul(signed_perm(1, true), signed_perm(3, true)) == signed_perm(5, true));
    }
    if p2 == 3 && s2 == false {
        assert(mat_mul(signed_perm(1, true), signed_perm(3, false)) == signed_perm(5, false));
    }
    if p2 == 4 && s2 == true {
        assert(mat_mul(signed_perm(1, true), signed_perm(4, true)) == signed_perm(2, true));
    }
    if p2 == 4 && s2 == false {
        assert(mat_mul(signed_perm(1, true), signed_perm(4, false)) == signed_perm(2, false));
    }
    if p2 == 5 && s2 == true {
        assert(mat_mul(signed_perm(1, true), signed_perm(5, true)) == signed_perm(3, true));
    }
    if p2 == 5 && s2 == false {
        assert(mat_mul(signed_perm(1, true), signed_perm(5, false)) == signed_perm(3, false));
    }
}

#[verifier::spinoff_prover]
proof fn lemma_mul_case_1_false(p2: int, s2: bool)
    requires
        0 <= p2 < 6,
    ensures
        mul_mat_fits(signed_perm(1, false), signed_perm(p2, s2)),
        mat_mul(signed_perm(1, false), signed_perm(p2, s2)) == signed_perm(perm_compose(1, p2), false == s2),
        0 <= perm_compose(1, p2) < 6,
{
    if p2 == 0 && s2 == true {
        assert(mat_mul(signed_perm(1, false), signed_perm(0, true)) == signed_perm(1, false));
    }
    if p2 == 0 && s2 == false {
        assert(mat_mul(signed_perm(1, false), signed_perm(0, false)) == signed_perm(1, true));
    }
    if p2 == 1 && s2 == true {
        assert(mat_mul(signed_perm(1, false), signed_perm(1, true)) == signed_perm(0, false));
    }
    if p2 == 1 && s2 == false {
        assert(mat_mul(signed_perm(1, false), signed_perm(1, false)) == signed_perm(0, true));
    }
    if p2 == 2 && s2 == true {
        assert(mat_mul(signed_perm(1, false), signed_perm(2, true)) == signed_perm(4, false));
    }
    if p2 == 2 && s2 == false {
        assert(mat_mul(signed_perm(1, false), signed_perm(2, false)) == signed_perm(4, true));
    }
    if p2 == 3 && s2 == true {
        assert(mat_mul(signed_perm(1, false), signed_perm(3, true)) == signed_perm(5, false));
    }
    if p2 == 3 && s2 == false {
        assert(mat_mul(signed_perm(1, false), signed_perm(3, false)) == signed_perm(5, true));
    }
    if p2 == 4 && s2 == true {
        assert(mat_mul(signed_perm(1, false), signed_perm(4, true)) == signed_perm(2, false));
    }
    if p2 == 4 && s2 == false {
        assert(mat_mul(signed_perm(1, false), signed_perm(4, false)) == signed_perm(2, true));
    }
    if p2 == 5 && s2 == true {
        assert(mat_mul(signed_perm(1, false), signed_perm(5, true)) == signed_perm(3, false));
    }
    if p2 == 5 && s2 == false {
        assert(mat_mul(signed_perm(1, false), signed_perm(5, false)) == signed_perm(3, true));
    }
}

#[verifier::spinoff_prover]
proof fn lemma_mul_case_2_true(p2: int, s2: bool)
    requires
        0 <= p2 < 6,
    ensures
        mul_mat_fits(signed_perm(2, true), signed_perm(p2, s2)),
        mat_mul(signed_perm(2, true), signed_perm(p2, s2)) == signed_perm(perm_compose(2, p2), true == s2),
        0 <= perm_compose(2, p2) < 6,
{
    if p2 == 0 && s2 == true {
        assert(mat_mul(signed_perm(2, true), signed_perm(0, true)) == signed_perm(2, true));
    }
    if p2 == 0 && s2 == false {
        assert(mat_mul(signed_perm(2, true), signed_perm(0, false)) == signed_perm(2, false));
    }
    if p2 == 1 && s2 == true {
        assert(mat_mul(signed_perm(2, true), signed_perm(1, true)) == signed_perm(3, true));
    }
    if p2 == 1 && s2 == false {
        assert(mat_mul(signed_perm(2, true), signed_perm(1, false)) == signed_perm(3, false));
    }
    if p2 == 2 && s2 == true {
        assert(mat_mul(signed_perm(2, true), signed_perm(2, true)) == signed_perm(0, true));
    }
    if p2 == 2 && s2 == false {
        assert(mat_mul(signed_perm(2, true), signed_perm(2, false)) == signed_perm(0, false));
    }
    if p2 == 3 && s2 == true {
        assert(mat_mul(signed_perm(2, true), signed_perm(3, true)) == signed_perm(1, true));
    }
    if p2 == 3 && s2 == false {
        assert(mat_mul(signed_perm(2, true), signed_perm(3, false)) == signed_perm(1, false));
    }
    if p2 == 4 && s2 == true {
        assert(mat_mul(signed_perm(2, true), signed_perm(4, true)) == signed_perm(5, true));
    }
    if p2 == 4 && s2 == false {
        assert(mat_mul(signed_perm(2, true), signed_perm(4, false)) == signed_perm(5, false));
    }
    if p2 == 5 && s2 == true {
        assert(mat_mul(signed_perm(2, true), signed_perm(5, true)) == signed_perm(4, true));
    }
    if p2 == 5 && s2 == false {
        assert(mat_mul(signed_perm(2, true), signed_perm(5, false)) == signed_perm(4, false));
    }
}

#[verifier::spinoff_prover]
proof fn lemma_mul_case_2_false(p2: int, s2: bool)
    requires
        0 <= p2 < 6,
    ensures
        mul_mat_fits(signed_perm(2, false), signed_perm(p2, s2)),
        mat_mul(signed_perm(2, false), signed_perm(p2, s2)) == signed_perm(perm_compose(2, p2), false == s2),
        0 <= perm_compose(2, p2) < 6,
{
    if p2 == 0 && s2 == true {
        assert(mat_mul(signed_perm(2, false), signed_perm(0, true)) == signed_perm(2, false));
    }
    if p2 == 0 && s2 == false {
        assert(mat_mul(signed_perm(2, false), signed_perm(0, false)) == signed_perm(2, true));
    }
    if p2 == 1 && s2 == true {
        assert(mat_mul(signed_perm(2, false), signed_perm(1, true)) == signed_perm(3, false));
    }
    if p2 == 1 && s2 == false {
        assert(mat_mul(signed_perm(2, false), signed_perm(1, false)) == signed_perm(3, true));
    }
    if p2 == 2 && s2 == true {
        assert(mat_mul(signed_perm(2, false), signed_perm(2, true)) == signed_perm(0, false));
    }
    if p2 == 2 && s2 == false {
        assert(mat_mul(signed_perm(2, false), signed_perm(2, false)) == signed_perm(0, true));
    }
    if p2 == 3 && s2 == true {
        assert(mat_mul(signed_perm(2, false), signed_perm(3, true)) == signed_perm(1, false));
    }
    if p2 == 3 && s2 == false {
        assert(mat_mul(signed_perm(2, false), signed_perm(3, false)) == signed_perm(1, true));
    }
    if p2 == 4 && s2 == true {
        assert(mat_mul(signed_perm(2, false), signed_perm(4, true)) == signed_perm(5, false));
    }
    if p2 == 4 && s2 == false {
        assert(mat_mul(signed_perm(2, false), signed_perm(4, false)) == signed_perm(5, true));
    }
    if p2 == 5 && s2 == true {
        assert(mat_mul(signed_perm(2, false), signed_perm(5, true)) == signed_perm(4, false));
    }
    if p2 == 5 && s2 == false {
        assert(mat_mul(signed_perm(2, false), signed_perm(5, false)) == signed_perm(4, true));
    }
}

#[verifier::spinoff_prover]
proof fn lemma_mul_case_3_true(p2: int, s2: bool)
    requires
        0 <= p2 < 6,
    ensures
        mul_mat_fits(signed_perm(3, true), signed_perm(p2, s2)),
        mat_mul(signed_perm(3, true), signed_perm(p2, s2)) == signed_perm(perm_compose(3, p2), true == s2),
        0 <= perm_compose(3, p2) < 6,
{
    if p2 == 0 && s2 == true {
        assert(mat_mul(signed_perm(3, true), signed_perm(0, true)) == signed_perm(3, true));
    }
    if p2 == 0 && s2 == false {
        assert(mat_mul(signed_perm(3, true), signed_perm(0, false)) == signed_perm(3, false));
    }
    if p2 == 1 && s2 == true {
        assert(mat_mul(signed_perm(3, true), signed_perm(1, true)) == signed_perm(2, true));
    }
    if p2 == 1 && s2 == false {
        assert(mat_mul(signed_perm(3, true), signed_perm(1, false)) == signed_perm(2, false));
    }
    if p2 == 2 && s2 == true {
        assert(mat_mul(signed_perm(3, true), signed_perm(2, true)) == signed_perm(5, true));
    }
    if p2 == 2 && s2 == false {
        assert(mat_mul(signed_perm(3, true), signed_perm(2, false)) == signed_perm(5, false));
    }
    if p2 == 3 && s2 == true {
        assert(mat_mul(signed_perm(3, true), signed_perm(3, true)) == signed_perm(4, true));
    }
    if p2 == 3 && s2 == false {
        assert(mat_mul(signed_perm(3, true), signed_perm(3, false)) == signed_perm(4, false));
    }
    if p2 == 4 && s2 == true {
        assert(mat_mul(signed_perm(3, true), signed_perm(4, true)) == signed_perm(0, true));
    }
    if p2 == 4 && s2 == false {
        assert(mat_mul(signed_perm(3, true), signed_perm(4, false)) == signed_perm(0, false));
    }
    if p2 == 5 && s2 == true {
        assert(mat_mul(signed_perm(3, true), signed_perm(5, true)) == signed_perm(1, true));
    }
    if p2 == 5 && s2 == false {
        assert(mat_mul(signed_perm(3, true), signed_perm(5, false)) == signed_perm(1, false));
    }
}

#[verifier::spinoff_prover]
proof fn lemma_mul_case_3_false(p2: int, s2: bool)
    requires
        0 <= p2 < 6,
    ensures
        mul_mat_fits(signed_perm(3, false), signed_perm(p2, s2)),
        mat_mul(signed_perm(3, false), signed_perm(p2, s2)) == signed_perm(perm_compose(3, p2), false == s2),
        0 <= perm_compose(3, p2) < 6,
{
    if p2 == 0 && s2 == true {
        assert(mat_mul(signed_perm(3, false), signed_perm(0, true)) == signed_perm(3, false));
    }
    if p2 == 0 && s2 == false {
        assert(mat_mul(signed_perm(3, false), signed_perm(0, false)) == signed_perm(3, true));
    }
    if p2 == 1 && s2 == true {
        assert(mat_mul(signed_perm(3, false), signed_perm(1, true)) == signed_perm(2, false));
    }
    if p2 == 1 && s2 == false {
        assert(mat_mul(signed_perm(3, false), signed_perm(1, false)) == signed_perm(2, true));
    }
    if p2 == 2 && s2 == true {
        assert(mat_mul(signed_perm(3, false), signed_perm(2, true)) == signed_perm(5, false));
    }
    if p2 == 2 && s2 == false {
        assert(mat_mul(signed_perm(3, false), signed_perm(2, false)) == signed_perm(5, true));
    }
    if p2 == 3 && s2 == true {
        assert(mat_mul(signed_perm(3, false), signed_perm(3, true)) == signed_perm(4, false));
    }
    if p2 == 3 && s2 == false {
        assert(mat_mul(signed_perm(3, false), signed_perm(3, false)) == signed_perm(4, true));
    }
    if p2 == 4 && s2 == true {
        assert(mat_mul(signed_perm(3, false), signed_perm(4, true)) == signed_perm(0, false));
    }
    if p2 == 4 && s2 == false {
        assert(mat_mul(signed_perm(3, false), signed_perm(4, false)) == signed_perm(0, true));
    }
    if p2 == 5 && s2 == true {
        assert(mat_mul(signed_perm(3, false), signed_perm(5, true)) == signed_perm(1, false));
    }
    if p2 == 5 && s2 == false {
        assert(mat_mul(signed_perm(3, false), signed_perm(5, false)) == signed_perm(1, true));
    }
}

#[verifier::spinoff_prover]
proof fn lemma_mul_case_4_true(p2: int, s2: bool)
    requires
        0 <= p2 < 6,
    ensures
        mul_mat_fits(signed_perm(4, true), signed_perm(p2, s2)),
        mat_mul(signed_perm(4, true), signed_perm(p2, s2)) == signed_perm(perm_compose(4, p2), true == s2),
        0 <= perm_compose(4, p2) < 6,
{
    if p2 == 0 && s2 == true {
        assert(mat_mul(signed_perm(4, true), signed_perm(0, true)) == signed_perm(4, true));
    }
    if p2 == 0 && s2 == false {
        assert(mat_mul(signed_perm(4, true), signed_perm(0, false)) == signed_perm(4, false));
    }
    if p2 == 1 && s2 == true {
        assert(mat_mul(signed_perm(4, true), signed_perm(1, true)) == signed_perm(5, true));
    }
    if p2 == 1 && s2 == false {
        assert(mat_mul(signed_perm(4, true), signed_perm(1, false)) == signed_perm(5, false));
    }
    if p2 == 2 && s2 == true {
        assert(mat_mul(signed_perm(4, true), signed_perm(2, true)) == signed_perm(1, true));
    }
    if p2 == 2 && s2 == false {
        assert(mat_mul(signed_perm(4, true), signed_perm(2, false)) == signed_perm(1, false));
    }
    if p2 == 3 && s2 == true {
        assert(mat_mul(signed_perm(4, true), signed_perm(3, true)) == signed_perm(0, true));
    }
    if p2 == 3 && s2 == false {
        assert(mat_mul(signed_perm(4, true), signed_perm(3, false)) == signed_perm(0, false));
    }
    if p2 == 4 && s2 == true {
        assert(mat_mul(signed_perm(4, true), signed_perm(4, true)) == signed_perm(3, true));
    }
    if p2 == 4 && s2 == false {
        assert(mat_mul(signed_perm(4, true), signed_perm(4, false)) == signed_perm(3, false));
    }
    if p2 == 5 && s2 == true {
        assert(mat_mul(signed_perm(4, true), signed_perm(5, true)) == signed_perm(2, true));
    }
    if p2 == 5 && s2 == false {
        assert(mat_mul(signed_perm(4, true), signed_perm(5, false)) == signed_perm(2, false));
    }
}

#[verifier::spinoff_prover]
proof fn lemma_mul_case_4_false(p2: int, s2: bool)
    requires
        0 <= p2 < 6,
    ensures
        mul_mat_fits(signed_perm(4, false), signed_perm(p2, s2)),
        mat_mul(signed_perm(4, false), signed_perm(p2, s2)) == signed_perm(perm_compose(4, p2), false == s2),
        0 <= perm_compose(4, p2) < 6,
{
    if p2 == 0 && s2 == true {
        assert(mat_mul(signed_perm(4, false), signed_perm(0, true)) == signed_perm(4, false));
    }
    if p2 == 0 && s2 == false {
        assert(mat_mul(signed_perm(4, false), signed_perm(0, false)) == signed_perm(4, true));
    }
    if p2 == 1 && s2 == true {
        assert(mat_mul(signed_perm(4, false), signed_perm(1, true)) == signed_perm(5, false));
    }
    if p2 == 1 && s2 == false {
        assert(mat_mul(signed_perm(4, false), signed_perm(1, false)) == signed_perm(5, true));
    }
    if p2 == 2 && s2 == true {
        assert(mat_mul(signed_perm(4, false), signed_perm(2, true)) == signed_perm(1, false));
    }
    if p2 == 2 && s2 == false {
        assert(mat_mul(signed_perm(4, false), signed_perm(2, false)) == signed_perm(1, true));
    }
    if p2 == 3 && s2 == true {
        assert(mat_mul(signed_perm(4, false), signed_perm(3, true)) == signed_perm(0, false));
    }
    if p2 == 3 && s2 == false {
        assert(mat_mul(signed_perm(4, false), signed_perm(3, false)) == signed_perm(0, true));
    }
    if p2 == 4 && s2 == true {
        assert(mat_mul(signed_perm(4, false), signed_perm(4, true)) == signed_perm(3, false));
    }
    if p2 == 4 && s2 == false {
        assert(mat_mul(signed_perm(4, false), signed_perm(4, false)) == signed_perm(3, true));
    }
    if p2 == 5 && s2 == true {
        assert(mat_mul(signed_perm(4, false), signed_perm(5, true)) == signed_perm(2, false));
    }
    if p2 == 5 && s2 == false {
        assert(mat_mul(signed_perm(4, false), signed_perm(5, false)) == signed_perm(2, true));
    }
}

#[verifier::spinoff_prover]
proof fn lemma_mul_case_5_true(p2: int, s2: bool)
    requires
        0 <= p2 < 6,
    ensures
        mul_mat_fits(signed_perm(5, true), signed_perm(p2, s2)),
        mat_mul(signed_perm(5, true), signed_perm(p2, s2)) == signed_perm(perm_compose(5, p2), true == s2),
        0 <= perm_compose(5, p2) < 6,
{
    if p2 == 0 && s2 == true {
        assert(mat_mul(signed_perm(5, true), signed_perm(0, true)) == signed_perm(5, true));
    }
    if p2 == 0 && s2 == false {
        assert(mat_mul(signed_perm(5, true), signed_perm(0, false)) == signed_perm(5, false));
    }
    if p2 == 1 && s2 == true {
        assert(mat_mul(signed_perm(5, true), signed_perm(1, true)) == signed_perm(4, true));
    }
    if p2 == 1 && s2 == false {
        assert(mat_mul(signed_perm(5, true), signed_perm(1, false)) == signed_perm(4, false));
    }
    if p2 == 2 && s2 == true {
        assert(mat_mul(signed_perm(5, true), signed_perm(2, true)) == signed_perm(3, true));
    }
    if p2 == 2 && s2 == false {
        assert(mat_mul(signed_perm(5, true), signed_perm(2, false)) == signed_perm(3, false));
    }
    if p2 == 3 && s2 == true {
        assert(mat_mul(signed_perm(5, true), signed_perm(3, true)) == signed_perm(2, true));
    }
    if p2 == 3 && s2 == false {
        assert(mat_mul(signed_perm(5, true), signed_perm(3, false)) == signed_perm(2, false));
    }
    if p2 == 4 && s2 == true {
        assert(mat_mul(signed_perm(5, true), signed_perm(4, true)) == signed_perm(1, true));
    }
    if p2 == 4 && s2 == false {
        assert(mat_mul(signed_perm(5, true), signed_perm(4, false)) == signed_perm(1, false));
    }
    if p2 == 5 && s2 == true {
        assert(mat_mul(signed_perm(5, true), signed_perm(5, true)) == signed_perm(0, true));
    }
    if p2 == 5 && s2 == false {
        assert(mat_mul(signed_perm(5, true), signed_perm(5, false)) == signed_perm(0, false));
    }
}

#[verifier::spinoff_prover]
proof fn lemma_mul_case_5_false(p2: int, s2: bool)
    requires
        0 <= p2 < 6,
    ensures
        mul_mat_fits(signed_perm(5, false), signed_perm(p2, s2)),
        mat_mul(signed_perm(5, false), signed_perm(p2, s2)) == signed_perm(perm_compose(5, p2), false == s2),
        0 <= perm_compose(5, p2) < 6,
{
    if p2 == 0 && s2 == true {
        assert(mat_mul(signed_perm(5, false), signed_perm(0, true)) == signed_perm(5, false));
    }
    if p2 == 0 && s2 == false {
        assert(mat_mul(signed_perm(5, false), signed_perm(0, false)) == signed_perm(5, true));
    }
    if p2 == 1 && s2 == true {
        assert(mat_mul(signed_perm(5, false), signed_perm(1, true)) == signed_perm(4, false));
    }
    if p2 == 1 && s2 == false {
        assert(mat_mul(signed_perm(5, false), signed_perm(1, false)) == signed_perm(4, true));
    }
    if p2 == 2 && s2 == true {
        assert(mat_mul(signed_perm(5, false), signed_perm(2, true)) == signed_perm(3, false));
    }
    if p2 == 2 && s2 == false {
        assert(mat_mul(signed_perm(5, false), signed_perm(2, false)) == signed_perm(3, true));
    }
    if p2 == 3 && s2 == true {
        assert(mat_mul(signed_perm(5, false), signed_perm(3, true)) == signed_perm(2, false));
    }
    if p2 == 3 && s2 == false {
        assert(mat_mul(signed_perm(5, false), signed_perm(3, false)) == signed_perm(2, true));
    }
    if p2 == 4 && s2 == true {
        assert(mat_mul(signed_perm(5, false), signed_perm(4, true)) == signed_perm(1, false));
    }
    if p2 == 4 && s2 == false {
        assert(mat_mul(signed_perm(5, false), signed_perm(4, false)) == signed_perm(1, true));
    }
    if p2 == 5 && s2 == true {
        assert(mat_mul(signed_perm(5, false), signed_perm(5, true)) == signed_perm(0, false));
    }
    if p2 == 5 && s2 == false {
        assert(mat_mul(signed_perm(5, false), signed_perm(5, false)) == signed_perm(0, true));
    }
}

/// A signed permutation matrix sends component `j` of `v`, times the sign, to row `perm_row(p, j)`.
pub proof fn lemma_signed_perm_vec(p: int, positive: bool, v: IVec3)
    requires
        0 <= p < 6,
    ensures
        forall|j: int| 0 <= j < 3 ==> #[trigger] mul_row(signed_perm(p, positive), v, perm_row(p, j))
            == sign(positive) * component(v, j),
{
    if p == 0 && positive == true {
        lemma_vec_case_0_true(v);
    }
    if p == 0 && positive == false {
        lemma_vec_case_0_false(v);
    }
    if p == 1 && positive == true {
        lemma_vec_case_1_true(v);
    }
    if p == 1 && positive == false {
        lemma_vec_case_1_false(v);
    }
    if p == 2 && positive == true {
        lemma_vec_case_2_true(v);
    }
    if p == 2 && positive == false {
        lemma_vec_case_2_false(v);
    }
    if p == 3 && positive == true {
        lemma_vec_case_3_true(v);
    }
    if p == 3 && positive == false {
        lemma_vec_case_3_false(v);
    }
    if p == 4 && positive == true {
        lemma_vec_case_4_true(v);
    }
    if p == 4 && positive == false {
        lemma_vec_case_4_false(v);
    }
    if p == 5 && positive == true {
        lemma_vec_case_5_true(v);
    }
    if p == 5 && positive == false {
        lemma_vec_case_5_false(v);
    }
    assert forall|j: int| 0 <= j < 3 implies #[trigger] mul_row(signed_perm(p, positive), v, perm_row(p, j))
        == sign(positive) * component(v, j) by {
        assert(j == 0 || j == 1 || j == 2);
    }
}

#[verifier::spinoff_prover]
proof fn lemma_vec_case_0_true(v: IVec3)
    ensures
        mul_row(signed_perm(0, true), v, 0) == sign(true) * component(v, 0),
        mul_row(signed_perm(0, true), v, 1) == sign(true) * component(v, 1),
        mul_row(signed_perm(0, true), v, 2) == sign(true) * component(v, 2),
        perm_row(0, 0) == 0,
        perm_row(0, 1) == 1,
        perm_row(0, 2) == 2,
{
}

#[verifier::spinoff_prover]
proof fn lemma_vec_case_0_false(v: IVec3)
    ensures
        mul_row(signed_perm(0, false), v, 0) == sign(false) * component(v, 0),
        mul_row(signed_perm(0, false), v, 1) == sign(false) * component(v, 1),
        mul_row(signed_perm(0, false), v, 2) == sign(false) * component(v, 2),
        perm_row(0, 0) == 0,
        perm_row(0, 1) == 1,
        perm_row(0, 2) == 2,
{
}

#[verifier::spinoff_prover]
proof fn lemma_vec_case_1_true(v: IVec3)
    ensures
        mul_row(signed_perm(1, true), v, 0) == sign(true) * component(v, 0),
        mul_row(signed_perm(1, true), v, 2) == sign(true) * component(v, 1),
        mul_row(signed_perm(1, true), v, 1) == sign(true) * component(v, 2),
        perm_row(1, 0) == 0,
        perm_row(1, 1) == 2,
        perm_row(1, 2) == 1,
{
}

#[verifier::spinoff_prover]
proof fn lemma_vec_case_1_false(v: IVec3)
    ensures
        mul_row(signed_perm(1, false), v, 0) == sign(false) * component(v, 0),
        mul_row(signed_perm(1, false), v, 2) == sign(false) * component(v, 1),
        mul_row(signed_perm(1, false), v, 1) == sign(false) * component(v, 2),
        perm_row(1, 0) == 0,
        perm_row(1, 1) == 2,
        perm_row(1, 2) == 1,
{
}

#[verifier::spinoff_prover]
proof fn lemma_vec_case_2_true(v: IVec3)
    ensures
        mul_row(signed_perm(2, true), v, 1) == sign(true) * component(v, 0),
        mul_row(signed_perm(2, true), v, 0) == sign(true) * component(v, 1),
        mul_row(signed_perm(2, true), v, 2) == sign(true) * component(v, 2),
        perm_row(2, 0) == 1,
        perm_row(2, 1) == 0,
        perm_row(2, 2) == 2,
{
}

#[verifier::spinoff_prover]
proof fn lemma_vec_case_2_false(v: IVec3)
    ensures
        mul_row(signed_perm(2, false), v, 1) == sign(false) * component(v, 0),
        mul_row(signed_perm(2, false), v, 0) == sign(false) * component(v, 1),
        mul_row(signed_perm(2, false), v, 2) == sign(false) * component(v, 2),
        perm_row(2, 0) == 1,
        perm_row(2, 1) == 0,
        perm_row(2, 2) == 2,
{
}

#[verifier::spinoff_prover]
proof fn lemma_vec_case_3_true(v: IVec3)
    ensures
        mul_row(signed_perm(3, true), v, 1) == sign(true) * component(v, 0),
        mul_row(signed_perm(3, true), v, 2) == sign(true) * component(v, 1),
        mul_row(signed_perm(3, true), v, 0) == sign(true) * component(v, 2),
        perm_row(3, 0) == 1,
        perm_row(3, 1) == 2,
        perm_row(3, 2) == 0,
{
}

#[verifier::spinoff_prover]
proof fn lemma_vec_case_3_false(v: IVec3)
    ensures
        mul_row(signed_perm(3, false), v, 1) == sign(false) * component(v, 0),
        mul_row(signed_perm(3, false), v, 2) == sign(false) * component(v, 1),
        mul_row(signed_perm(3, false), v, 0) == sign(false) * component(v, 2),
        perm_row(3, 0) == 1,
        perm_row(3, 1) == 2,
        perm_row(3, 2) == 0,
{
}

#[verifier::spinoff_prover]
proof fn lemma_vec_case_4_true(v: IVec3)
    ensures
        mul_row(signed_perm(4, true), v, 2) == sign(true) * component(v, 0),
        mul_row(signed_perm(4, true), v, 0) == sign(true) * component(v, 1),
        mul_row(signed_perm(4, true), v, 1) == sign(true) * component(v, 2),
        perm_row(4, 0) == 2,
        perm_row(4, 1) == 0,
        perm_row(4, 2) == 1,
{
}

#[verifier::spinoff_prover]
proof fn lemma_vec_case_4_false(v: IVec3)
    ensures
        mul_row(signed_perm(4, false), v, 2) == sign(false) * component(v, 0),
        mul_row(signed_perm(4, false), v, 0) == sign(false) * component(v, 1),
        mul_row(signed_perm(4, false), v, 1) == sign(false) * component(v, 2),
        perm_row(4, 0) == 2,
        perm_row(4, 1) == 0,
        perm_row(4, 2) == 1,
{
}

#[verifier::spinoff_prover]
proof fn lemma_vec_case_5_true(v: IVec3)
    ensures
        mul_row(signed_perm(5, true), v, 2) == sign(true) * component(v, 0),
        mul_row(signed_perm(5, true), v, 1) == sign(true) * component(v, 1),
        mul_row(signed_perm(5, true), v, 0) == sign(true) * component(v, 2),
        perm_row(5, 0) == 2,
        perm_row(5, 1) == 1,
        perm_row(5, 2) == 0,
{
}

#[verifier::spinoff_prover]
proof fn lemma_vec_case_5_false(v: IVec3)
    ensures
        mul_row(signed_perm(5, false), v, 2) == sign(false) * component(v, 0),
        mul_row(signed_perm(5, false), v, 1) == sign(false) * component(v, 1),
        mul_row(signed_perm(5, false), v, 0) == sign(false) * component(v, 2),
        perm_row(5, 0) == 2,
        perm_row(5, 1) == 1,
        perm_row(5, 2) == 0,
{
}

/// Multiplying by a product of signed permutations is multiplying by each, the last first.
pub proof fn lemma_signed_perm_mul_vec(p1: int, s1: bool, p2: int, s2: bool, v: IVec3)
    requires
        0 <= p1 < 6,
        0 <= p2 < 6,
        v.x > i32::MIN,
        v.y > i32::MIN,
        v.z > i32::MIN,
    ensures
        mat_vec(mat_mul(signed_perm(p1, s1), signed_perm(p2, s2)), v)
            == mat_vec(signed_perm(p1, s1), mat_vec(signed_perm(p2, s2), v)),
{
    if p1 == 0 {
        lemma_mul_vec_case_0(s1, p2, s2, v);
    }
    if p1 == 1 {
        lemma_mul_vec_case_1(s1, p2, s2, v);
    }
    if p1 == 2 {
        lemma_mul_vec_case_2(s1, p2, s2, v);
    }
    if p1 == 3 {
        lemma_mul_vec_case_3(s1, p2, s2, v);
    }
    if p1 == 4 {
        lemma_mul_vec_case_4(s1, p2, s2, v);
    }
    if p1 == 5 {
        lemma_mul_vec_case_5(s1, p2, s2, v);
    }
}

#[verifier::spinoff_prover]
proof fn lemma_mul_vec_case_0(s1: bool, p2: int, s2: bool, v: IVec3)
    requires
        0 <= p2 < 6,
        v.x > i32::MIN,
        v.y > i32::MIN,
        v.z > i32::MIN,
    ensures
        mat_vec(mat_mul(signed_perm(0, s1), signed_perm(p2, s2)), v)
            == mat_vec(signed_perm(0, s1), mat_vec(signed_perm(p2, s2), v)),
{
    if p2 == 0 && s1 == true && s2 == true {
        assert(mat_vec(mat_mul(signed_perm(0, true), signed_perm(0, true)), v)
            == mat_vec(signed_perm(0, true), mat_vec(signed_perm(0, true), v)));
    }
    if p2 == 0 && s1 == true && s2 == false {
        assert(mat_vec(mat_mul(signed_perm(0, true), signed_perm(0, false)), v)
            == mat_vec(signed_perm(0, true), mat_vec(signed_perm(0, false), v)));
    }
    if p2 == 0 && s1 == false && s2 == true {
        assert(mat_vec(mat_mul(signed_perm(0, false), signed_perm(0, true)), v)
            == mat_vec(signed_perm(0, false), mat_vec(signed_perm(0, true), v)));
    }
    if p2 == 0 && s1 == false && s2 == false {
        assert(mat_vec(mat_mul(signed_perm(0, false), signed_perm(0, false)), v)
            == mat_vec(signed_perm(0, false), mat_vec(signed_perm(0, false), v)));
    }
    if p2 == 1 && s1 == true && s2 == true {
        assert(mat_vec(mat_mul(signed_perm(0, true), signed_perm(1, true)), v)
            == mat_vec(signed_perm(0, true), mat_vec(signed_perm(1, true), v)));
    }
    if p2 == 1 && s1 == true && s2 == false {
        assert(mat_vec(mat_mul(signed_perm(0, true), signed_perm(1, false)), v)
            == mat_vec(signed_perm(0, true), mat_vec(signed_perm(1, false), v)));
    }
    if p2 == 1 && s1 == false && s2 == true {
        assert(mat_vec(mat_mul(signed_perm(0, false), signed_perm(1, true)), v)
            == mat_vec(signed_perm(0, false), mat_vec(signed_perm(1, true), v)));
    }
    if p2 == 1 && s1 == false && s2 == false {
        assert(mat_vec(mat_mul(signed_perm(0, false), signed_perm(1, false)), v)
            == mat_vec(signed_perm(0, false), mat_vec(signed_perm(1, false), v)));
    }
    if p2 == 2 && s1 == true && s2 == true {
        assert(mat_vec(mat_mul(signed_perm(0, true), signed_perm(2, true)), v)
            == mat_vec(signed_perm(0, true), mat_vec(signed_perm(2, true), v)));
    }
    if p2 == 2 && s1 == true && s2 == false {
        assert(mat_vec(mat_mul(signed_perm(0, true), signed_perm(2, false)), v)
            == mat_vec(signed_perm(0, true), mat_vec(signed_perm(2, false), v)));
    }
    if p2 == 2 && s1 == false && s2 == true {
        assert(mat_vec(mat_mul(signed_perm(0, false), signed_perm(2, true)), v)
            == mat_vec(signed_perm(0, false), mat_vec(signed_perm(2, true), v)));
    }
    if p2 == 2 && s1 == false && s2 == false {
        assert(mat_vec(mat_mul(signed_perm(0, false), signed_perm(2, false)), v)
            == mat_vec(signed_perm(0, false), mat_vec(signed_perm(2, false), v)));
    }
    if p2 == 3 && s1 == true && s2 == true {
        assert(mat_vec(mat_mul(signed_perm(0, true), signed_perm(3, true)), v)
            == mat_vec(signed_perm(0, true), mat_vec(signed_perm(3, true), v)));
    }
    if p2 == 3 && s1 == true && s2 == false {
        assert(mat_vec(mat_mul(signed_perm(0, true), signed_perm(3, false)), v)
            == mat_vec(signed_perm(0, true), mat_vec(signed_perm(3, false), v)));
    }
    if p2 == 3 && s1 == false && s2 == true {
        assert(mat_vec(mat_mul(signed_perm(0, false), signed_perm(3, true)), v)
            == mat_vec(signed_perm(0, false), mat_vec(signed_perm(3, true), v)));
    }
    if p2 == 3 && s1 == false && s2 == false {
        assert(mat_vec(mat_mul(signed_perm(0, false), signed_perm(3, false)), v)
            == mat_vec(signed_perm(0, false), mat_vec(signed_perm(3, false), v)));
    }
    if p2 == 4 && s1 == true && s2 == true {
        assert(mat_vec(mat_mul(signed_perm(0, true), signed_perm(4, true)), v)
            == mat_vec(signed_perm(0, true), mat_vec(signed_perm(4, true), v)));
    }
    if p2 == 4 && s1 == true && s2 == false {
        assert(mat_vec(mat_mul(signed_perm(0, true), signed_perm(4, false)), v)
            == mat_vec(signed_perm(0, true), mat_vec(signed_perm(4, false), v)));
    }
    if p2 == 4 && s1 == false && s2 == true {
        assert(mat_vec(mat_mul(signed_perm(0, false), signed_perm(4, true)), v)
            == mat_vec(signed_perm(0, false), mat_vec(signed_perm(4, true), v)));
    }
    if p2 == 4 && s1 == false && s2 == false {
        assert(mat_vec(mat_mul(signed_perm(0, false), signed_perm(4, false)), v)
            == mat_vec(signed_perm(0, false), mat_vec(signed_perm(4, false), v)));
    }
    if p2 == 5 && s1 == true && s2 == true {
        assert(mat_vec(mat_mul(signed_perm(0, true), signed_perm(5, true)), v)
            == mat_vec(signed_perm(0, true), mat_vec(signed_perm(5, true), v)));
    }
    if p2 == 5 && s1 == true && s2 == false {
        assert(mat_vec(mat_mul(signed_perm(0, true), signed_perm(5, false)), v)
            == mat_vec(signed_perm(0, true), mat_vec(signed_perm(5, false), v)));
    }
    if p2 == 5 && s1 == false && s2 == true {
        assert(mat_vec(mat_mul(signed_perm(0, false), signed_perm(5, true)), v)
            == mat_vec(signed_perm(0, false), mat_vec(signed_perm(5, true), v)));
    }
    if p2 == 5 && s1 == false && s2 == false {
        assert(mat_vec(mat_mul(signed_perm(0, false), signed_perm(5, false)), v)
            == mat_vec(signed_perm(0, false), mat_vec(signed_perm(5, false), v)));
    }
}

#[verifier::spinoff_prover]
proof fn lemma_mul_vec_case_1(s1: bool, p2: int, s2: bool, v: IVec3)
    requires
        0 <= p2 < 6,
        v.x > i32::MIN,
        v.y > i32::MIN,
        v.z > i32::MIN,
    ensures
        mat_vec(mat_mul(signed_perm(1, s1), signed_perm(p2, s2)), v)
            == mat_vec(signed_perm(1, s1), mat_vec(signed_perm(p2, s2), v)),
{
    if p2 == 0 && s1 == true && s2 == true {
        assert(mat_vec(mat_mul(signed_perm(1, true), signed_perm(0, true)), v)
            == mat_vec(signed_perm(1, true), mat_vec(signed_perm(0, true), v)));
    }
    if p2 == 0 && s1 == true && s2 == false {
        assert(mat_vec(mat_mul(signed_perm(1, true), signed_perm(0, false)), v)
            == mat_vec(signed_perm(1, true), mat_vec(signed_perm(0, false), v)));
    }
    if p2 == 0 && s1 == false && s2 == true {
        assert(mat_vec(mat_mul(signed_perm(1, false), signed_perm(0, true)), v)
            == mat_vec(signed_perm(1, false), mat_vec(signed_perm(0, true), v)));
    }
    if p2 == 0 && s1 == false && s2 == false {
        assert(mat_vec(mat_mul(signed_perm(1, false), signed_perm(0, false)), v)
            == mat_vec(signed_perm(1, false), mat_vec(signed_perm(0, false), v)));
    }
    if p2 == 1 && s1 == true && s2 == true {
        assert(mat_vec(mat_mul(signed_perm(1, true), signed_perm(1, true)), v)
            == mat_vec(signed_perm(1, true), mat_vec(signed_perm(1, true), v)));
    }
    if p2 == 1 && s1 == true && s2 == false {
        assert(mat_vec(mat_mul(signed_perm(1, true), signed_perm(1, false)), v)
            == mat_vec(signed_perm(1, true), mat_vec(signed_perm(1, false), v)));
    }
    if p2 == 1 && s1 == false && s2 == true {
        assert(mat_vec(mat_mul(signed_perm(1, false), signed_perm(1, true)), v)
            == mat_vec(signed_perm(1, false), mat_vec(signed_perm(1, true), v)));
    }
    if p2 == 1 && s1 == false && s2 == false {
        assert(mat_vec(mat_mul(signed_perm(1, false), signed_perm(1, false)), v)
            == mat_vec(signed_perm(1, false), mat_vec(signed_perm(1, false), v)));
    }
    if p2 == 2 && s1 == true && s2 == true {
        assert(mat_vec(mat_mul(signed_perm(1, true), signed_perm(2, true)), v)
            == mat_vec(signed_perm(1, true), mat_vec(signed_perm(2, true), v)));
    }
    if p2 == 2 && s1 == true && s2 == false {
        assert(mat_vec(mat_mul(signed_perm(1, true), signed_perm(2, false)), v)
            == mat_vec(signed_perm(1, true), mat_vec(signed_perm(2, false), v)));
    }
    if p2 == 2 && s1 == false && s2 == true {
        assert(mat_vec(mat_mul(signed_perm(1, false), signed_perm(2, true)), v)
            == mat_vec(signed_perm(1, false), mat_vec(signed_perm(2, true), v)));
    }
    if p2 == 2 && s1 == false && s2 == false {
        assert(mat_vec(mat_mul(signed_perm(1, false), signed_perm(2, false)), v)
            == mat_vec(signed_perm(1, false), mat_vec(signed_perm(2, false), v)));
    }
    if p2 == 3 && s1 == true && s2 == true {
        assert(mat_vec(mat_mul(signed_perm(1, true), signed_perm(3, true)), v)
            == mat_vec(signed_perm(1, true), mat_vec(signed_perm(3, true), v)));
    }
    if p2 == 3 && s1 == true && s2 == false {
        assert(mat_vec(mat_mul(signed_perm(1, true), signed_perm(3, false)), v)
            == mat_vec(signed_perm(1, true), mat_vec(signed_perm(3, false), v)));
    }
    if p2 == 3 && s1 == false && s2 == true {
        assert(mat_vec(mat_mul(signed_perm(1, false), signed_perm(3, true)), v)
            == mat_vec(signed_perm(1, false), mat_vec(signed_perm(3, true), v)));
    }
    if p2 == 3 && s1 == false && s2 == false {
        assert(mat_vec(mat_mul(signed_perm(1, false), signed_perm(3, false)), v)
            == mat_vec(signed_perm(1, false), mat_vec(signed_perm(3, false), v)));
    }
    if p2 == 4 && s1 == true && s2 == true {
        assert(mat_vec(mat_mul(signed_perm(1, true), signed_perm(4, true)), v)
            == mat_vec(signed_perm(1, true), mat_vec(signed_perm(4, true), v)));
    }
    if p2 == 4 && s1 == true && s2 == false {
        assert(mat_vec(mat_mul(signed_perm(1, true), signed_perm(4, false)), v)
            == mat_vec(signed_perm(1, true), mat_vec(signed_perm(4, false), v)));
    }
    if p2 == 4 && s1 == false && s2 == true {
        assert(mat_vec(mat_mul(signed_perm(1, false), signed_perm(4, true)), v)
            == mat_vec(signed_perm(1, false), mat_vec(signed_perm(4, true), v)));
    }
    if p2 == 4 && s1 == false && s2 == false {
        assert(mat_vec(mat_mul(signed_perm(1, false), signed_perm(4, false)), v)
            == mat_vec(signed_perm(1, false), mat_vec(signed_perm(4, false), v)));
    }
    if p2 == 5 && s1 == true && s2 == true {
        assert(mat_vec(mat_mul(signed_perm(1, true), signed_perm(5, true)), v)
            == mat_vec(signed_perm(1, true), mat_vec(signed_perm(5, true), v)));
    }
    if p2 == 5 && s1 == true && s2 == false {
        assert(mat_vec(mat_mul(signed_perm(1, true), signed_perm(5, false)), v)
            == mat_vec(signed_perm(1, true), mat_vec(signed_perm(5, false), v)));
    }
    if p2 == 5 && s1 == false && s2 == true {
        assert(mat_vec(mat_mul(signed_perm(1, false), signed_perm(5, true)), v)
            == mat_vec(signed_perm(1, false), mat_vec(signed_perm(5, true), v)));
    }
    if p2 == 5 && s1 == false && s2 == false {
        assert(mat_vec(mat_mul(signed_perm(1, false), signed_perm(5, false)), v)
            == mat_vec(signed_perm(1, false), mat_vec(signed_perm(5, false), v)));
    }
}

#[verifier::spinoff_prover]
proof fn lemma_mul_vec_case_2(s1: bool, p2: int, s2: bool, v: IVec3)
    requires
        0 <= p2 < 6,
        v.x > i32::MIN,
        v.y > i32::MIN,
        v.z > i32::MIN,
    ensures
        mat_vec(mat_mul(signed_perm(2, s1), signed_perm(p2, s2)), v)
            == mat_vec(signed_perm(2, s1), mat_vec(signed_perm(p2, s2), v)),
{
    if p2 == 0 && s1 == true && s2 == true {
        assert(mat_vec(mat_mul(signed_perm(2, true), signed_perm(0, true)), v)
            == mat_vec(signed_perm(2, true), mat_vec(signed_perm(0, true), v)));
    }
    if p2 == 0 && s1 == true && s2 == false {
        assert(mat_vec(mat_mul(signed_perm(2, true), signed_perm(0, false)), v)
            == mat_vec(signed_perm(2, true), mat_vec(signed_perm(0, false), v)));
    }
    if p2 == 0 && s1 == false && s2 == true {
        assert(mat_vec(mat_mul(signed_perm(2, false), signed_perm(0, true)), v)
            == mat_vec(signed_perm(2, false), mat_vec(signed_perm(0, true), v)));
    }
    if p2 == 0 && s1 == false && s2 == false {
        assert(mat_vec(mat_mul(signed_perm(2, false), signed_perm(0, false)), v)
            == mat_vec(signed_perm(2, false), mat_vec(signed_perm(0, false), v)));
    }
    if p2 == 1 && s1 == true && s2 == true {
        assert(mat_vec(mat_mul(signed_perm(2, true), signed_perm(1, true)), v)
            == mat_vec(signed_perm(2, true), mat_vec(signed_perm(1, true), v)));
    }
    if p2 == 1 && s1 == true && s2 == false {
        assert(mat_vec(mat_mul(signed_perm(2, true), signed_perm(1, false)), v)
            == mat_vec(signed_perm(2, true), mat_vec(signed_perm(1, false), v)));
    }
    if p2 == 1 && s1 == false && s2 == true {
        assert(mat_vec(mat_mul(signed_perm(2, false), signed_perm(1, true)), v)
            == mat_vec(signed_perm(2, false), mat_vec(signed_perm(1, true), v)));
    }
    if p2 == 1 && s1 == false && s2 == false {
        assert(mat_vec(mat_mul(signed_perm(2, false), signed_perm(1, false)), v)
            == mat_vec(signed_perm(2, false), mat_vec(signed_perm(1, false), v)));
    }
    if p2 == 2 && s1 == true && s2 == true {
        assert(mat_vec(mat_mul(signed_perm(2, true), signed_perm(2, true)), v)
            == mat_vec(signed_perm(2, true), mat_vec(signed_perm(2, true), v)));
    }
    if p2 == 2 && s1 == true && s2 == false {
        assert(mat_vec(mat_mul(signed_perm(2, true), signed_perm(2, false)), v)
            == mat_vec(signed_perm(2, true), mat_vec(signed_perm(2, false), v)));
    }
    if p2 == 2 && s1 == false && s2 == true {
        assert(mat_vec(mat_mul(signed_perm(2, false), signed_perm(2, true)), v)
            == mat_vec(signed_perm(2, false), mat_vec(signed_perm(2, true), v)));
    }
    if p2 == 2 && s1 == false && s2 == false {
        assert(mat_vec(mat_mul(signed_perm(2, false), signed_perm(2, false)), v)
            == mat_vec(signed_perm(2, false), mat_vec(signed_perm(2, false), v)));
    }
    if p2 == 3 && s1 == true && s2 == true {
        assert(mat_vec(mat_mul(signed_perm(2, true), signed_perm(3, true)), v)
            == mat_vec(signed_perm(2, true), mat_vec(signed_perm(3, true), v)));
    }
    if p2 == 3 && s1 == true && s2 == false {
        assert(mat_vec(mat_mul(signed_perm(2, true), signed_perm(3, false)), v)
            == mat_vec(signed_perm(2, true), mat_vec(signed_perm(3, false), v)));
    }
    if p2 == 3 && s1 == false && s2 == true {
        assert(mat_vec(mat_mul(signed_perm(2, false), signed_perm(3, true)), v)
            == mat_vec(signed_perm(2, false), mat_vec(signed_perm(3, true), v)));
    }
    if p2 == 3 && s1 == false && s2 == false {
        assert(mat_vec(mat_mul(signed_perm(2, false), signed_perm(3, false)), v)
            == mat_vec(signed_perm(2, false), mat_vec(signed_perm(3, false), v)));
    }
    if p2 == 4 && s1 == true && s2 == true {
        assert(mat_vec(mat_mul(signed_perm(2, true), signed_perm(4, true)), v)
            == mat_vec(signed_perm(2, true), mat_vec(signed_perm(4, true), v)));
    }
    if p2 == 4 && s1 == true && s2 == false {
        assert(mat_vec(mat_mul(signed_perm(2, true), signed_perm(4, false)), v)
            == mat_vec(signed_perm(2, true), mat_vec(signed_perm(4, false), v)));
    }
    if p2 == 4 && s1 == false && s2 == true {
        assert(mat_vec(mat_mul(signed_perm(2, false), signed_perm(4, true)), v)
            == mat_vec(signed_perm(2, false), mat_vec(signed_perm(4, true), v)));
    }
    if p2 == 4 && s1 == false && s2 == false {
        assert(mat_vec(mat_mul(signed_perm(2, false), signed_perm(4, false)), v)
            == mat_vec(signed_perm(2, false), mat_vec(signed_perm(4, false), v)));
    }
    if p2 == 5 && s1 == true && s2 == true {
        assert(mat_vec(mat_mul(signed_perm(2, true), signed_perm(5, true)), v)
            == mat_vec(signed_perm(2, true), mat_vec(signed_perm(5, true), v)));
    }
    if p2 == 5 && s1 == true && s2 == false {
        assert(mat_vec(mat_mul(signed_perm(2, true), signed_perm(5, false)), v)
            == mat_vec(signed_perm(2, true), mat_vec(signed_perm(5, false), v)));
    }
    if p2 == 5 && s1 == false && s2 == true {
        assert(mat_vec(mat_mul(signed_perm(2, false), signed_perm(5, true)), v)
            == mat_vec(signed_perm(2, false), mat_vec(signed_perm(5, true), v)));
    }
    if p2 == 5 && s1 == false && s2 == false {
        assert(mat_vec(mat_mul(signed_perm(2, false), signed_perm(5, false)), v)
            == mat_vec(signed_perm(2, false), mat_vec(signed_perm(5, false), v)));
    }
}

#[verifier::spinoff_prover]
proof fn lemma_mul_vec_case_3(s1: bool, p2: int, s2: bool, v: IVec3)
    requires
        0 <= p2 < 6,
        v.x > i32::MIN,
        v.y > i32::MIN,
        v.z > i32::MIN,
    ensures
        mat_vec(mat_mul(signed_perm(3, s1), signed_perm(p2, s2)), v)
            == mat_vec(signed_perm(3, s1), mat_vec(signed_perm(p2, s2), v)),
{
    if p2 == 0 && s1 == true && s2 == true {
        assert(mat_vec(mat_mul(signed_perm(3, true), signed_perm(0, true)), v)
            == mat_vec(signed_perm(3, true), mat_vec(signed_perm(0, true), v)));
    }
    if p2 == 0 && s1 == true && s2 == false {
        assert(mat_vec(mat_mul(signed_perm(3, true), signed_perm(0, false)), v)
            == mat_vec(signed_perm(3, true), mat_vec(signed_perm(0, false), v)));
    }
    if p2 == 0 && s1 == false && s2 == true {
        assert(mat_vec(mat_mul(signed_perm(3, false), signed_perm(0, true)), v)
            == mat_vec(signed_perm(3, false), mat_vec(signed_perm(0, true), v)));
    }
    if p2 == 0 && s1 == false && s2 == false {
        assert(mat_vec(mat_mul(signed_perm(3, false), signed_perm(0, false)), v)
            == mat_vec(signed_perm(3, false), mat_vec(signed_perm(0, false), v)));
    }
    if p2 == 1 && s1 == true && s2 == true {
        assert(mat_vec(mat_mul(signed_perm(3, true), signed_perm(1, true)), v)
            == mat_vec(signed_perm(3, true), mat_vec(signed_perm(1, true), v)));
    }
    if p2 == 1 && s1 == true && s2 == false {
        assert(mat_vec(mat_mul(signed_perm(3, true), signed_perm(1, false)), v)
            == mat_vec(signed_perm(3, true), mat_vec(signed_perm(1, false), v)));
    }
    if p2 == 1 && s1 == false && s2 == true {
        assert(mat_vec(mat_mul(signed_perm(3, false), signed_perm(1, true)), v)
            == mat_vec(signed_perm(3, false), mat_vec(signed_perm(1, true), v)));
    }
    if p2 == 1 && s1 == false && s2 == false {
        assert(mat_vec(mat_mul(signed_perm(3, false), signed_perm(1, false)), v)
            == mat_vec(signed_perm(3, false), mat_vec(signed_perm(1, false), v)));
    }
    if p2 == 2 && s1 == true && s2 == true {
        assert(mat_vec(mat_mul(signed_perm(3, true), signed_perm(2, true)), v)
            == mat_vec(signed_perm(3, true), mat_vec(signed_perm(2, true), v)));
    }
    if p2 == 2 && s1 == true && s2 == false {
        assert(mat_vec(mat_mul(signed_perm(3, true), signed_perm(2, false)), v)
            == mat_vec(signed_perm(3, true), mat_vec(signed_perm(2, false), v)));
    }
    if p2 == 2 && s1 == false && s2 == true {
        assert(mat_vec(mat_mul(signed_perm(3, false), signed_perm(2, true)), v)
            == mat_vec(signed_perm(3, false), mat_vec(signed_perm(2, true), v)));
    }
    if p2 == 2 && s1 == false && s2 == false {
        assert(mat_vec(mat_mul(signed_perm(3, false), signed_perm(2, false)), v)
            == mat_vec(signed_perm(3, false), mat_vec(signed_perm(2, false), v)));
    }
    if p2 == 3 && s1 == true && s2 == true {
        assert(mat_vec(mat_mul(signed_perm(3, true), signed_perm(3, true)), v)
            == mat_vec(signed_perm(3, true), mat_vec(signed_perm(3, true), v)));
    }
    if p2 == 3 && s1 == true && s2 == false {
        assert(mat_vec(mat_mul(signed_perm(3, true), signed_perm(3, false)), v)
            == mat_vec(signed_perm(3, true), mat_vec(signed_perm(3, false), v)));
    }
    if p2 == 3 && s1 == false && s2 == true {
        assert(mat_vec(mat_mul(signed_perm(3, false), signed_perm(3, true)), v)
            == mat_vec(signed_perm(3, false), mat_vec(signed_perm(3, true), v)));
    }
    if p2 == 3 && s1 == false && s2 == false {
        assert(mat_vec(mat_mul(signed_perm(3, false), signed_perm(3, false)), v)
            == mat_vec(signed_perm(3, false), mat_vec(signed_perm(3, false), v)));
    }
    if p2 == 4 && s1 == true && s2 == true {
        assert(mat_vec(mat_mul(signed_perm(3, true), signed_perm(4, true)), v)
            == mat_vec(signed_perm(3, true), mat_vec(signed_perm(4, true), v)));
    }
    if p2 == 4 && s1 == true && s2 == false {
        assert(mat_vec(mat_mul(signed_perm(3, true), signed_perm(4, false)), v)
            == mat_vec(signed_perm(3, true), mat_vec(signed_perm(4, false), v)));
    }
    if p2 == 4 && s1 == false && s2 == true {
        assert(mat_vec(mat_mul(signed_perm(3, false), signed_perm(4, true)), v)
            == mat_vec(signed_perm(3, false), mat_vec(signed_perm(4, true), v)));
    }
    if p2 == 4 && s1 == false && s2 == false {
        assert(mat_vec(mat_mul(signed_perm(3, false), signed_perm(4, false)), v)
            == mat_vec(signed_perm(3, false), mat_vec(signed_perm(4, false), v)));
    }
    if p2 == 5 && s1 == true && s2 == true {
        assert(mat_vec(mat_mul(signed_perm(3, true), signed_perm(5, true)), v)
            == mat_vec(signed_perm(3, true), mat_vec(signed_perm(5, true), v)));
    }
    if p2 == 5 && s1 == true && s2 == false {
        assert(mat_vec(mat_mul(signed_perm(3, true), signed_perm(5, false)), v)
            == mat_vec(signed_perm(3, true), mat_vec(signed_perm(5, false), v)));
    }
    if p2 == 5 && s1 == false && s2 == true {
        assert(mat_vec(mat_mul(signed_perm(3, false), signed_perm(5, true)), v)
            == mat_vec(signed_perm(3, false), mat_vec(signed_perm(5, true), v)));
    }
    if p2 == 5 && s1 == false && s2 == false {
        assert(mat_vec(mat_mul(signed_perm(3, false), signed_perm(5, false)), v)
            == mat_vec(signed_perm(3, false), mat_vec(signed_perm(5, false), v)));
    }
}

#[verifier::spinoff_prover]
proof fn lemma_mul_vec_case_4(s1: bool, p2: int, s2: bool, v: IVec3)
    requires
        0 <= p2 < 6,
        v.x > i32::MIN,
        v.y > i32::MIN,
        v.z > i32::MIN,
    ensures
        mat_vec(mat_mul(signed_perm(4, s1), signed_perm(p2, s2)), v)
            == mat_vec(signed_perm(4, s1), mat_vec(signed_perm(p2, s2), v)),
{
    if p2 == 0 && s1 == true && s2 == true {
        assert(mat_vec(mat_mul(signed_perm(4, true), signed_perm(0, true)), v)
            == mat_vec(signed_perm(4, true), mat_vec(signed_perm(0, true), v)));
    }
    if p2 == 0 && s1 == true && s2 == false {
        assert(mat_vec(mat_mul(signed_perm(4, true), signed_perm(0, false)), v)
            == mat_vec(signed_perm(4, true), mat_vec(signed_perm(0, false), v)));
    }
    if p2 == 0 && s1 == false && s2 == true {
        assert(mat_vec(mat_mul(signed_perm(4, false), signed_perm(0, true)), v)
            == mat_vec(signed_perm(4, false), mat_vec(signed_perm(0, true), v)));
    }
    if p2 == 0 && s1 == false && s2 == false {
        assert(mat_vec(mat_mul(signed_perm(4, false), signed_perm(0, false)), v)
            == mat_vec(signed_perm(4, false), mat_vec(signed_perm(0, false), v)));
    }
    if p2 == 1 && s1 == true && s2 == true {
        assert(mat_vec(mat_mul(signed_perm(4, true), signed_perm(1, true)), v)
            == mat_vec(signed_perm(4, true), mat_vec(signed_perm(1, true), v)));
    }
    if p2 == 1 && s1 == true && s2 == false {
        assert(mat_vec(mat_mul(signed_perm(4, true), signed_perm(1, false)), v)
            == mat_vec(signed_perm(4, true), mat_vec(signed_perm(1, false), v)));
    }
    if p2 == 1 && s1 == false && s2 == true {
        assert(mat_vec(mat_mul(signed_perm(4, false), signed_perm(1, true)), v)
            == mat_vec(signed_perm(4, false), mat_vec(signed_perm(1, true), v)));
    }
    if p2 == 1 && s1 == false && s2 == false {
        assert(mat_vec(mat_mul(signed_perm(4, false), signed_perm(1, false)), v)
            == mat_vec(signed_perm(4, false), mat_vec(signed_perm(1, false), v)));
    }
    if p2 == 2 && s1 == true && s2 == true {
        assert(mat_vec(mat_mul(signed_perm(4, true), signed_perm(2, true)), v)
            == mat_vec(signed_perm(4, true), mat_vec(signed_perm(2, true), v)));
    }
    if p2 == 2 && s1 == true && s2 == false {
        assert(mat_vec(mat_mul(signed_perm(4, true), signed_perm(2, false)), v)
            == mat_vec(signed_perm(4, true), mat_vec(signed_perm(2, false), v)));
    }
    if p2 == 2 && s1 == false && s2 == true {
        assert(mat_vec(mat_mul(signed_perm(4, false), signed_perm(2, true)), v)
            == mat_vec(signed_perm(4, false), mat_vec(signed_perm(2, true), v)));
    }
    if p2 == 2 && s1 == false && s2 == false {
        assert(mat_vec(mat_mul(signed_perm(4, false), signed_perm(2, false)), v)
            == mat_vec(signed_perm(4, false), mat_vec(signed_perm(2, false), v)));
    }
    if p2 == 3 && s1 == true && s2 == true {
        assert(mat_vec(mat_mul(signed_perm(4, true), signed_perm(3, true)), v)
            == mat_vec(signed_perm(4, true), mat_vec(signed_perm(3, true), v)));
    }
    if p2 == 3 && s1 == true && s2 == false {
        assert(mat_vec(mat_mul(signed_perm(4, true), signed_perm(3, false)), v)
            == mat_vec(signed_perm(4, true), mat_vec(signed_perm(3, false), v)));
    }
    if p2 == 3 && s1 == false && s2 == true {
        assert(mat_vec(mat_mul(signed_perm(4, false), signed_perm(3, true)), v)
            == mat_vec(signed_perm(4, false), mat_vec(signed_perm(3, true), v)));
    }
    if p2 == 3 && s1 == false && s2 == false {
        assert(mat_vec(mat_mul(signed_perm(4, false), signed_perm(3, false)), v)
            == mat_vec(signed_perm(4, false), mat_vec(signed_perm(3, false), v)));
    }
    if p2 == 4 && s1 == true && s2 == true {
        assert(mat_vec(mat_mul(signed_perm(4, true), signed_perm(4, true)), v)
            == mat_vec(signed_perm(4, true), mat_vec(signed_perm(4, true), v)));
    }
    if p2 == 4 && s1 == true && s2 == false {
        assert(mat_vec(mat_mul(signed_perm(4, true), signed_perm(4, false)), v)
            == mat_vec(signed_perm(4, true), mat_vec(signed_perm(4, false), v)));
    }
    if p2 == 4 && s1 == false && s2 == true {
        assert(mat_vec(mat_mul(signed_perm(4, false), signed_perm(4, true)), v)
            == mat_vec(signed_perm(4, false), mat_vec(signed_perm(4, true), v)));
    }
    if p2 == 4 && s1 == false && s2 == false {
        assert(mat_vec(mat_mul(signed_perm(4, false), signed_perm(4, false)), v)
            == mat_vec(signed_perm(4, false), mat_vec(signed_perm(4, false), v)));
    }
    if p2 == 5 && s1 == true && s2 == true {
        assert(mat_vec(mat_mul(signed_perm(4, true), signed_perm(5, true)), v)
            == mat_vec(signed_perm(4, true), mat_vec(signed_perm(5, true), v)));
    }
    if p2 == 5 && s1 == true && s2 == false {
        assert(mat_vec(mat_mul(signed_perm(4, true), signed_perm(5, false)), v)
            == mat_vec(signed_perm(4, true), mat_vec(signed_perm(5, false), v)));
    }
    if p2 == 5 && s1 == false && s2 == true {
        assert(mat_vec(mat_mul(signed_perm(4, false), signed_perm(5, true)), v)
            == mat_vec(signed_perm(4, false), mat_vec(signed_perm(5, true), v)));
    }
    if p2 == 5 && s1 == false && s2 == false {
        assert(mat_vec(mat_mul(signed_perm(4, false), signed_perm(5, false)), v)
            == mat_vec(signed_perm(4, false), mat_vec(signed_perm(5, false), v)));
    }
}

#[verifier::spinoff_prover]
proof fn lemma_mul_vec_case_5(s1: bool, p2: int, s2: bool, v: IVec3)
    requires
        0 <= p2 < 6,
        v.x > i32::MIN,
        v.y > i32::MIN,
        v.z > i32::MIN,
    ensures
        mat_vec(mat_mul(signed_perm(5, s1), signed_perm(p2, s2)), v)
            == mat_vec(signed_perm(5, s1), mat_vec(signed_perm(p2, s2), v)),
{
    if p2 == 0 && s1 == true && s2 == true {
        assert(mat_vec(mat_mul(signed_perm(5, true), signed_perm(0, true)), v)
            == mat_vec(signed_perm(5, true), mat_vec(signed_perm(0, true), v)));
    }
    if p2 == 0 && s1 == true && s2 == false {
        assert(mat_vec(mat_mul(signed_perm(5, true), signed_perm(0, false)), v)
            == mat_vec(signed_perm(5, true), mat_vec(signed_perm(0, false), v)));
    }
    if p2 == 0 && s1 == false && s2 == true {
        assert(mat_vec(mat_mul(signed_perm(5, false), signed_perm(0, true)), v)
            == mat_vec(signed_perm(5, false), mat_vec(signed_perm(0, true), v)));
    }
    if p2 == 0 && s1 == false && s2 == false {
        assert(mat_vec(mat_mul(signed_perm(5, false), signed_perm(0, false)), v)
            == mat_vec(signed_perm(5, false), mat_vec(signed_perm(0, false), v)));
    }
    if p2 == 1 && s1 == true && s2 == true {
        assert(mat_vec(mat_mul(signed_perm(5, true), signed_perm(1, true)), v)
            == mat_vec(signed_perm(5, true), mat_vec(signed_perm(1, true), v)));
    }
    if p2 == 1 && s1 == true && s2 == false {
        assert(mat_vec(mat_mul(signed_perm(5, true), signed_perm(1, false)), v)
            == mat_vec(signed_perm(5, true), mat_vec(signed_perm(1, false), v)));
    }
    if p2 == 1 && s1 == false && s2 == true {
        assert(mat_vec(mat_mul(signed_perm(5, false), signed_perm(1, true)), v)
            == mat_vec(signed_perm(5, false), mat_vec(signed_perm(1, true), v)));
    }
    if p2 == 1 && s1 == false && s2 == false {
        assert(mat_vec(mat_mul(signed_perm(5, false), signed_perm(1, false)), v)
            == mat_vec(signed_perm(5, false), mat_vec(signed_perm(1, false), v)));
    }
    if p2 == 2 && s1 == true && s2 == true {
        assert(mat_vec(mat_mul(signed_perm(5, true), signed_perm(2, true)), v)
            == mat_vec(signed_perm(5, true), mat_vec(signed_perm(2, true), v)));
    }
    if p2 == 2 && s1 == true && s2 == false {
        assert(mat_vec(mat_mul(signed_perm(5, true), signed_perm(2, false)), v)
            == mat_vec(signed_perm(5, true), mat_vec(signed_perm(2, false), v)));
    }
    if p2 == 2 && s1 == false && s2 == true {
        assert(mat_vec(mat_mul(signed_perm(5, false), signed_perm(2, true)), v)
            == mat_vec(signed_perm(5, false), mat_vec(signed_perm(2, true), v)));
    }
    if p2 == 2 && s1 == false && s2 == false {
        assert(mat_vec(mat_mul(signed_perm(5, false), signed_perm(2, false)), v)
            == mat_vec(signed_perm(5, false), mat_vec(signed_perm(2, false), v)));
    }
    if p2 == 3 && s1 == true && s2 == true {
        assert(mat_vec(mat_mul(signed_perm(5, true), signed_perm(3, true)), v)
            == mat_vec(signed_perm(5, true), mat_vec(signed_perm(3, true), v)));
    }
    if p2 == 3 && s1 == true && s2 == false {
        assert(mat_vec(mat_mul(signed_perm(5, true), signed_perm(3, false)), v)
            == mat_vec(signed_perm(5, true), mat_vec(signed_perm(3, false), v)));
    }
    if p2 == 3 && s1 == false && s2 == true {
        assert(mat_vec(mat_mul(signed_perm(5, false), signed_perm(3, true)), v)
            == mat_vec(signed_perm(5, false), mat_vec(signed_perm(3, true), v)));
    }
    if p2 == 3 && s1 == false && s2 == false {
        assert(mat_vec(mat_mul(signed_perm(5, false), signed_perm(3, false)), v)
            == mat_vec(signed_perm(5, false), mat_vec(signed_perm(3, false), v)));
    }
    if p2 == 4 && s1 == true && s2 == true {
        assert(mat_vec(mat_mul(signed_perm(5, true), signed_perm(4, true)), v)
            == mat_vec(signed_perm(5, true), mat_vec(signed_perm(4, true), v)));
    }
    if p2 == 4 && s1 == true && s2 == false {
        assert(mat_vec(mat_mul(signed_perm(5, true), signed_perm(4, false)), v)
            == mat_vec(signed_perm(5, true), mat_vec(signed_perm(4, false), v)));
    }
    if p2 == 4 && s1 == false && s2 == true {
        assert(mat_vec(mat_mul(signed_perm(5, false), signed_perm(4, true)), v)
            == mat_vec(signed_perm(5, false), mat_vec(signed_perm(4, true), v)));
    }
    if p2 == 4 && s1 == false && s2 == false {
        assert(mat_vec(mat_mul(signed_perm(5, false), signed_perm(4, false)), v)
            == mat_vec(signed_perm(5, false), mat_vec(signed_perm(4, false), v)));
    }
    if p2 == 5 && s1 == true && s2 == true {
        assert(mat_vec(mat_mul(signed_perm(5, true), signed_perm(5, true)), v)
            == mat_vec(signed_perm(5, true), mat_vec(signed_perm(5, true), v)));
    }
    if p2 == 5 && s1 == true && s2 == false {
        assert(mat_vec(mat_mul(signed_perm(5, true), signed_perm(5, false)), v)
            == mat_vec(signed_perm(5, true), mat_vec(signed_perm(5, false), v)));
    }
    if p2 == 5 && s1 == false && s2 == true {
        assert(mat_vec(mat_mul(signed_perm(5, false), signed_perm(5, true)), v)
            == mat_vec(signed_perm(5, false), mat_vec(signed_perm(5, true), v)));
    }
    if p2 == 5 && s1 == false && s2 == false {
        assert(mat_vec(mat_mul(signed_perm(5, false), signed_perm(5, false)), v)
            == mat_vec(signed_perm(5, false), mat_vec(signed_perm(5, false), v)));
    }
}

/// The exact product of two `i32` values.
fn mul_wide(a: i32, b: i32) -> (p: i128)
    ensures
        p == a * b,
        -4611686018427387904 <= p <= 4611686018427387904,
{
    proof {
        assert(-4611686018427387904 <= a * b <= 4611686018427387904) by (nonlinear_arith)
            requires
                -2147483648 <= a <= 2147483647,
                -2147483648 <= b <= 2147483647,
        {
        }
    }
    (a as i128) * (b as i128)
}

impl IVec3 {
    pub fn new(x: i32, y: i32, z: i32) -> (v: Self)
        ensures
            v == ivec3(x as int, y as int, z as int),
    {
        IVec3 { x, y, z }
    }
}

impl IMat3 {
    /// The matrix with the given columns.
    pub fn from_cols(x_axis: IVec3, y_axis: IVec3, z_axis: IVec3) -> (m: Self)
        ensures
            m == (IMat3 { x_axis, y_axis, z_axis }),
    {
        IMat3 { x_axis, y_axis, z_axis }
    }

    /// The product `self * v`.
    pub fn mul_vec3(&self, v: IVec3) -> (w: IVec3)
        requires
            mul_vec_fits(*self, v),
        ensures
            w == mat_vec(*self, v),
    {
        proof {
            lemma_scaled(self.x_axis.x, v.x as int);
            lemma_scaled(self.y_axis.x, v.y as int);
            lemma_scaled(self.z_axis.x, v.z as int);
            lemma_scaled(self.x_axis.y, v.x as int);
            lemma_scaled(self.y_axis.y, v.y as int);
            lemma_scaled(self.z_axis.y, v.z as int);
            lemma_scaled(self.x_axis.z, v.x as int);
            lemma_scaled(self.y_axis.z, v.y as int);
            lemma_scaled(self.z_axis.z, v.z as int);
        }
        let x = mul_wide(self.x_axis.x, v.x) + mul_wide(self.y_axis.x, v.y) + mul_wide(self.z_axis.x, v.z);
        let y = mul_wide(self.x_axis.y, v.x) + mul_wide(self.y_axis.y, v.y) + mul_wide(self.z_axis.y, v.z);
        let z = mul_wide(self.x_axis.z, v.x) + mul_wide(self.y_axis.z, v.y) + mul_wide(self.z_axis.z, v.z);
        IVec3 { x: x as i32, y: y as i32, z: z as i32 }
    }

    /// The product `self * other`.
    pub fn mul_mat3(&self, other: &IMat3) -> (m: IMat3)
        requires
            mul_mat_fits(*self, *other),
        ensures
            m == mat_mul(*self, *other),
    {
        IMat3 {
            x_axis: self.mul_vec3(other.x_axis),
            y_axis: self.mul_vec3(other.y_axis),
            z_axis: self.mul_vec3(other.z_axis),
        }
    }
}

} // verus!
