//! Rings of positions around a center.
use super::coord::{hex, hex_distance, in_i32, HexCoord};
use vstd::math::abs;
use vstd::prelude::*;

verus! {

/// `a` comes before `b` when ordered by `q`, then by `r`.
pub open spec fn coord_before(a: HexCoord, b: HexCoord) -> bool {
    a.q < b.q || (a.q == b.q && a.r < b.r)
}

/// The positions exactly `radius - 1` steps from `center`, ordered by `q`, then by `r`; in the
/// convention of layouts, the outermost positions of a hexagon of that radius.
pub fn ring(center: HexCoord, radius: i32) -> (coords: Vec<HexCoord>)
    requires
        radius >= 1,
        in_i32(center.q - (radius - 1)),
        in_i32(center.q + (radius - 1)),
        in_i32(center.r - (radius - 1)),
        in_i32(center.r + (radius - 1)),
        in_i32(center.q + center.r - 2 * (radius - 1)),
        in_i32(center.q + center.r + 2 * (radius - 1)),
        radius <= 0x1000_0000,
    ensures
        forall|c: HexCoord| coords@.contains(c) <==> hex_distance(c, center) == radius - 1,
        forall|i: int, j: int| 0 <= i < j < coords@.len() ==> coord_before(
            #[trigger] coords@[i],
            #[trigger] coords@[j],
        ),
{
    let k = radius - 1;
    let mut coords: Vec<HexCoord> = Vec::new();
    let mut dq: i32 = -k;
    while dq <= k
        invariant
            k == radius - 1,
            0 <= k < 0x1000_0000,
            -k <= dq <= k + 1,
            in_i32(center.q - k),
            in_i32(center.q + k),
            in_i32(center.r - k),
            in_i32(center.r + k),
            in_i32(center.q + center.r - 2 * k),
            in_i32(center.q + center.r + 2 * k),
            forall|c: HexCoord| coords@.contains(c) <==> (hex_distance(c, center) == k && c.q < center.q + dq),
            forall|i: int, j: int| 0 <= i < j < coords@.len() ==> coord_before(
                #[trigger] coords@[i],
                #[trigger] coords@[j],
            ),
            forall|i: int| 0 <= i < coords@.len() ==> (#[trigger] coords@[i]).q < center.q + dq,
        decreases k + 1 - dq,
    {
        let mut dr: i32 = -k;
        let ghost before = coords@;
        while dr <= k
            invariant
                k == radius - 1,
                0 <= k < 0x1000_0000,
                -k <= dq <= k,
                -k <= dr <= k + 1,
                in_i32(center.q - k),
                in_i32(center.q + k),
                in_i32(center.r - k),
                in_i32(center.r + k),
                in_i32(center.q + center.r - 2 * k),
                in_i32(center.q + center.r + 2 * k),
                forall|c: HexCoord| coords@.contains(c) <==> (hex_distance(c, center) == k && (c.q
                    < center.q + dq || (c.q == center.q + dq && c.r < center.r + dr))),
                forall|i: int, j: int| 0 <= i < j < coords@.len() ==> coord_before(
                    #[trigger] coords@[i],
                    #[trigger] coords@[j],
                ),
                forall|i: int| 0 <= i < coords@.len() ==> (#[trigger] coords@[i]).q < center.q + dq || (
                coords@[i].q == center.q + dq && coords@[i].r < center.r + dr),
            decreases k + 1 - dr,
        {
            let c = HexCoord::new(center.q + dq, center.r + dr);
            let dqr = dq + dr;
            let aq: i32 = if dq < 0 { -dq } else { dq };
            let ar: i32 = if dr < 0 { -dr } else { dr };
            let aqr: i32 = if dqr < 0 { -dqr } else { dqr };
            let ghost old_coords = coords@;
            if aq + ar + aqr == 2 * k {
                coords.push(c);
                proof {
                    assert(hex_distance(c, center) == k);
                    assert forall|x: HexCoord| coords@.contains(x) <==> (hex_distance(x, center) == k && (x.q
                        < center.q + dq || (x.q == center.q + dq && x.r < center.r + dr + 1))) by {
                        if coords@.contains(x) && x != c {
                            let i = choose|i: int| 0 <= i < coords@.len() && coords@[i] == x;
                            assert(old_coords.contains(x)) by {
                                assert(old_coords[i] == x);
                            }
                        }
                        if hex_distance(x, center) == k && (x.q < center.q + dq || (x.q == center.q + dq
                            && x.r < center.r + dr)) {
                            assert(old_coords.contains(x));
                            let i = choose|i: int| 0 <= i < old_coords.len() && old_coords[i] == x;
                            assert(coords@[i] == x);
                        }
                        if x == c {
                            assert(coords@[coords@.len() - 1] == c);
                        }
                    }
                }
            } else {
                proof {
                    assert(hex_distance(c, center) != k);
                    assert forall|x: HexCoord| coords@.contains(x) <==> (hex_distance(x, center) == k && (x.q
                        < center.q + dq || (x.q == center.q + dq && x.r < center.r + dr + 1))) by {
                        if x.q == center.q + dq && x.r == center.r + dr {
                            assert(x == c);
                        }
                    }
                }
            }
            dr = dr + 1;
        }
        proof {
            assert forall|x: HexCoord| coords@.contains(x) <==> (hex_distance(x, center) == k && x.q
                < center.q + dq + 1) by {
                if hex_distance(x, center) == k && x.q == center.q + dq {
                    assert(abs(x.r - center.r) <= k);
                }
            }
        }
        dq = dq + 1;
    }
    proof {
        assert forall|c: HexCoord| coords@.contains(c) <==> hex_distance(c, center) == radius - 1 by {
            if hex_distance(c, center) == k {
                assert(abs(c.q - center.q) <= k);
            }
        }
    }
    coords
}

} // verus!
