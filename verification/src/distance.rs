//! Distance metrics between positions on the dial.

use vstd::prelude::*;

use crate::rank;
use crate::rank::key_less;

verus! {

/// Available distance metrics.
#[derive(Debug, Clone, Copy, PartialEq, Eq, Structural)]
pub enum DistanceMetric {
    /// Standard Euclidean distance.
    Euclidean,
    /// Manhattan (L1) distance.
    Manhattan,
    /// Chebyshev (L-infinity) distance: max of coordinate differences.
    Chebyshev,
    /// Angular distance (angle between position vectors).
    Angular,
    /// Cosine distance (1 - cosine similarity).
    Cosine,
}

/// The entry of a square matrix of order keys at row `a`, column `b`.
pub open spec fn cell(m: Seq<Vec<Option<u64>>>, a: int, b: int) -> Option<u64> {
    m[a]@[b]
}

/// Pair `(a, b)` comes before pair `(i, j)` in row-major scan order.
pub open spec fn pair_before(a: int, b: int, i: int, j: int) -> bool {
    a < i || (a == i && b < j)
}

/// `m` is an `n` by `n` matrix.
pub open spec fn is_square(m: Seq<Vec<Option<u64>>>, n: int) -> bool {
    &&& m.len() == n
    &&& forall|r: int| 0 <= r < n ==> (#[trigger] m[r]).len() == n
}

/// What the closest pair of `m` is: the first pair `(i, j)`, `i < j`, in
/// row-major order whose key is minimal among the pairs that carry a number.
/// When the key of `(0, 1)` is not a number nothing compares below it, and the
/// answer stays `(0, 1)`.
pub open spec fn is_closest_pair(m: Seq<Vec<Option<u64>>>, n: int, i: int, j: int) -> bool {
    &&& 0 <= i < j < n
    &&& cell(m, 0, 1) is None ==> i == 0 && j == 1
    &&& cell(m, 0, 1) is Some ==> {
        &&& cell(m, i, j) is Some
        &&& forall|a: int, b: int|
            0 <= a < b < n && (#[trigger] cell(m, a, b)) is Some ==> !rank::key_lt(cell(m, a, b), cell(m, i, j))
        &&& forall|a: int, b: int|
            0 <= a < b < n && pair_before(a, b, i, j) && (#[trigger] cell(m, a, b)) is Some
                ==> rank::key_lt(cell(m, i, j), cell(m, a, b))
    }
}

/// Lays out a pairwise matrix of order `n`: `f(i, j)` is computed once for each
/// pair `i < j`, in row-major order, and mirrored to `(j, i)`; the diagonal
/// holds `zero`.
pub fn symmetric_matrix<T: Copy>(n: usize, zero: T, f: impl Fn(usize, usize) -> T) -> (m: Vec<Vec<T>>)
    requires
        forall|i: usize, j: usize| i < j < n ==> #[trigger] call_requires(f, (i, j)),
    ensures
        m.len() == n,
        forall|i: int| 0 <= i < n ==> (#[trigger] m@[i]).len() == n,
        forall|i: int| 0 <= i < n ==> (#[trigger] m@[i])@[i] == zero,
        forall|i: int, j: int| 0 <= i < j < n ==> call_ensures(f, (i as usize, j as usize), #[trigger] m@[i]@[j]),
        forall|i: int, j: int| 0 <= i < n && 0 <= j < n ==> #[trigger] m@[i]@[j] == m@[j]@[i],
{
    let mut m: Vec<Vec<T>> = Vec::new();
    let mut i: usize = 0;
    while i < n
        invariant
            i <= n,
            m.len() == i,
            forall|i: usize, j: usize| i < j < n ==> #[trigger] call_requires(f, (i, j)),
            forall|r: int| 0 <= r < i ==> (#[trigger] m@[r]).len() == n,
            forall|r: int| 0 <= r < i ==> (#[trigger] m@[r])@[r] == zero,
            forall|r: int, c: int| 0 <= r < c < n && r < i ==> call_ensures(f, (r as usize, c as usize), #[trigger] m@[r]@[c]),
            forall|r: int, c: int| 0 <= r < i && 0 <= c < i ==> #[trigger] m@[r]@[c] == m@[c]@[r],
        decreases n - i,
    {
        let mut row: Vec<T> = Vec::new();
        let mut j: usize = 0;
        while j < n
            invariant
                i < n,
                j <= n,
                m.len() == i,
                row.len() == j,
                forall|i: usize, j: usize| i < j < n ==> #[trigger] call_requires(f, (i, j)),
                forall|r: int| 0 <= r < i ==> (#[trigger] m@[r]).len() == n,
                forall|c: int| 0 <= c < j && c < i ==> #[trigger] row@[c] == m@[c]@[i as int],
                j > i ==> row@[i as int] == zero,
                forall|c: int| i < c < j ==> call_ensures(f, (i, c as usize), #[trigger] row@[c]),
            decreases n - j,
        {
            if j < i {
                let v = m[j][i];
                row.push(v);
            } else if j == i {
                row.push(zero);
            } else {
                let v = f(i, j);
                row.push(v);
            }
            j += 1;
        }
        m.push(row);
        i += 1;
    }
    m
}

/// The two closest positions, given the order keys of their pairwise
/// distances: the indices `(i, j)` of [`is_closest_pair`].
///
/// Only the entries above the diagonal are read. Fewer than two positions have
/// no pair; such input is not accepted.
pub fn closest_pair_by_key(dist: &Vec<Vec<Option<u64>>>) -> (r: (usize, usize))
    requires
        dist.len() >= 2,
        is_square(dist@, dist.len() as int),
    ensures
        is_closest_pair(dist@, dist.len() as int, r.0 as int, r.1 as int),
        cell(dist@, 0, 1) is Some ==> forall|a: int, b: int|
            0 <= a < b < dist.len() && (#[trigger] cell(dist@, a, b)) is Some
                ==> cell(dist@, r.0 as int, r.1 as int)->0 <= cell(dist@, a, b)->0,
{
    let n = dist.len();
    let mut bi: usize = 0;
    let mut bj: usize = 1;
    let mut i: usize = 0;
    while i < n
        invariant
            n == dist.len(),
            n >= 2,
            is_square(dist@, n as int),
            i <= n,
            0 <= bi < bj < n,
            !pair_before(i as int, i as int + 1, bi as int, bj as int),
            cell(dist@, 0, 1) is None ==> bi == 0 && bj == 1,
            cell(dist@, 0, 1) is Some ==> {
                &&& cell(dist@, bi as int, bj as int) is Some
                &&& forall|a: int, b: int|
                    0 <= a < b < n && a < i && (#[trigger] cell(dist@, a, b)) is Some
                        ==> !rank::key_lt(cell(dist@, a, b), cell(dist@, bi as int, bj as int))
                &&& forall|a: int, b: int|
                    0 <= a < b < n && a < i && pair_before(a, b, bi as int, bj as int)
                        && (#[trigger] cell(dist@, a, b)) is Some
                        ==> rank::key_lt(cell(dist@, bi as int, bj as int), cell(dist@, a, b))
            },
        decreases n - i,
    {
        let mut j: usize = i + 1;
        while j < n
            invariant
                n == dist.len(),
                n >= 2,
                is_square(dist@, n as int),
                i < n,
                i < j <= n,
                0 <= bi < bj < n,
                !pair_before(i as int, j as int, bi as int, bj as int),
                cell(dist@, 0, 1) is None ==> bi == 0 && bj == 1,
                cell(dist@, 0, 1) is Some ==> {
                    &&& cell(dist@, bi as int, bj as int) is Some
                    &&& forall|a: int, b: int|
                        0 <= a < b < n && pair_before(a, b, i as int, j as int) && (#[trigger] cell(dist@, a, b)) is Some
                            ==> !rank::key_lt(cell(dist@, a, b), cell(dist@, bi as int, bj as int))
                    &&& forall|a: int, b: int|
                        0 <= a < b < n && pair_before(a, b, i as int, j as int) && pair_before(a, b, bi as int, bj as int)
                            && (#[trigger] cell(dist@, a, b)) is Some
                            ==> rank::key_lt(cell(dist@, bi as int, bj as int), cell(dist@, a, b))
                },
            decreases n - j,
        {
            assert(dist@[i as int].len() == n);
            if key_less(dist[i][j], dist[bi][bj]) {
                bi = i;
                bj = j;
            }
            j += 1;
        }
        i += 1;
    }
    proof {
        assert forall|a: int, b: int|
            0 <= a < b < n && (#[trigger] cell(dist@, a, b)) is Some && cell(dist@, 0, 1) is Some
                implies cell(dist@, bi as int, bj as int)->0 <= cell(dist@, a, b)->0 by {
            rank::lemma_key_lt_numeric(cell(dist@, a, b), cell(dist@, bi as int, bj as int));
        }
    }
    (bi, bj)
}

} // verus!
