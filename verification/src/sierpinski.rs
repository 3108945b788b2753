//! The discrete part of the Sierpinski tetrahedron's distance estimate.
//!
//! The estimate folds a point toward the nearest of four attractors, the
//! vertices of a tetrahedron, a fixed number of times, doubling it each
//! time, and then scales the length of the folded point back down.

use vstd::prelude::*;
use vstd::arithmetic::power2::{pow2, lemma_pow2_adds, lemma2_to64};
use crate::scalar::{Scalar, unit};

verus! {

/// Number of folds.
pub const ITERATIONS: u32 = 10;

/// Factor by which each fold scales the point.
pub const SCALE: u32 = 2;

/// Number of attractors.
pub const ATTRACTORS: usize = 4;

/// Encoding of `SCALE` to the power `-ITERATIONS`, the factor that scales the
/// folded length back.
pub const SHRINK_BITS: u32 = 0x3a80_0000;

/// The coordinates of attractor `k`: the corners of the cube of side two
/// about the origin that have an even number of negative coordinates.
pub open spec fn attractor_spec(k: int) -> (int, int, int) {
    if k == 0 {
        (1, 1, 1)
    } else if k == 1 {
        (-1, -1, 1)
    } else if k == 2 {
        (1, -1, -1)
    } else {
        (-1, 1, -1)
    }
}

/// The coordinates of attractor `k`.
pub fn attractor(k: usize) -> (a: (i8, i8, i8))
    requires
        k < ATTRACTORS,
    ensures
        (a.0 as int, a.1 as int, a.2 as int) == attractor_spec(k as int),
{
    if k == 0 {
        (1, 1, 1)
    } else if k == 1 {
        (-1, -1, 1)
    } else if k == 2 {
        (1, -1, -1)
    } else {
        (-1, 1, -1)
    }
}

/// The attractors are four different corners, each coordinate one or minus
/// one, with an even number of minus signs.
pub proof fn lemma_attractors_are_tetrahedron(j: int, k: int)
    requires
        0 <= j < ATTRACTORS,
        0 <= k < ATTRACTORS,
    ensures
        ({
            let (x, y, z) = attractor_spec(k);
            (x == 1 || x == -1) && (y == 1 || y == -1) && (z == 1 || z == -1) && x * y * z == 1
        }),
        j != k ==> attractor_spec(j) != attractor_spec(k),
{
    let (x, y, z) = attractor_spec(k);
    assert(x * y * z == 1) by (nonlinear_arith)
        requires
            (x == 1 && y == 1 && z == 1) || (x == -1 && y == -1 && z == 1) || (x == 1 && y == -1
                && z == -1) || (x == -1 && y == 1 && z == -1),
    ;
}

/// Index of the nearest among the first `n` of `distances`: each in turn
/// replaces the nearest so far where it is less than it.
pub open spec fn nearest_spec(distances: Seq<Scalar>, n: int) -> int
    decreases n,
{
    if n <= 1 {
        0
    } else {
        let best = nearest_spec(distances, n - 1);
        if distances[n - 1].less_than(distances[best]) {
            n - 1
        } else {
            best
        }
    }
}

/// `candidate` is among the first `n` of `distances`, none of those is less
/// than it, and each before it is greater.
pub open spec fn is_nearest(distances: Seq<Scalar>, n: int, candidate: int) -> bool {
    &&& 0 <= candidate < n
    &&& forall|t: int| 0 <= t < n ==> !(#[trigger] distances[t]).less_than(distances[candidate])
    &&& forall|t: int|
        0 <= t < candidate ==> distances[candidate].less_than(#[trigger] distances[t])
}

/// Where no distance is a NaN, the index chosen is that of the least
/// distance, and of the first of equal ones.
pub proof fn lemma_nearest_is_least(distances: Seq<Scalar>, n: int)
    requires
        1 <= n <= distances.len(),
        forall|t: int| 0 <= t < n ==> !(#[trigger] distances[t]).is_nan(),
    ensures
        is_nearest(distances, n, nearest_spec(distances, n)),
    decreases n,
{
    if n > 1 {
        lemma_nearest_is_least(distances, n - 1);
    }
}

/// Index of the nearest attractor, given the distance to each.
pub fn nearest(distances: &[Scalar; 4]) -> (k: usize)
    ensures
        k == nearest_spec(distances@, 4),
        k < ATTRACTORS,
{
    let mut best: usize = 0;
    let mut t: usize = 1;
    while t < 4
        invariant
            1 <= t <= 4,
            distances@.len() == 4,
            best < t,
            best == nearest_spec(distances@, t as int),
        decreases 4 - t,
    {
        if distances[t].lt(distances[best]) {
            best = t;
        }
        t = t + 1;
    }
    best
}

/// The shrink factor is exact: its value times `SCALE` to the power
/// `ITERATIONS` is one.
pub proof fn lemma_shrink_factor()
    ensures
        !(Scalar { bits: SHRINK_BITS }).is_nan(),
        (Scalar { bits: SHRINK_BITS }).scaled() * pow2(ITERATIONS as nat) == unit(),
{
    let s = Scalar { bits: SHRINK_BITS };
    assert(s.exponent() == 117);
    assert(s.fraction() == 0);
    lemma2_to64();
    lemma_pow2_adds(23, 116);
    lemma_pow2_adds(139, 10);
}

} // verus!
