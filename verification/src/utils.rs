//! Translation-invariant measurements of a point cloud.
//!
//! A measurement is the difference of two points of one cloud. Which points
//! are paired, and in which row the difference lands, is decided here; the
//! subtraction itself is the caller's.

use vstd::prelude::*;
use crate::matrix::Matrix;
use crate::shape::POINT_DIM;

verus! {

/// The point that is subtracted from point `i` in a chain over `n` points:
/// its successor, and the first point for the last one.
pub open spec fn chain_partner(i: int, n: int) -> int {
    (i + 1) % n
}

/// The number of unordered pairs of `n` points.
pub open spec fn pair_count(n: int) -> int {
    n * (n - 1) / 2
}

/// The number of pairs `(a, b)` with `a < b < n` whose first point comes before `i`.
pub open spec fn pairs_before(n: int, i: int) -> int {
    i * (2 * n - i - 1) / 2
}

/// The row of the pair `(i, j)` when all pairs `i < j < n` are listed with
/// `i` ascending and, for equal `i`, `j` ascending.
pub open spec fn pair_row(n: int, i: int, j: int) -> int {
    pairs_before(n, i) + (j - i - 1)
}

/// Row `i` of a cloud is followed by the `n - 1 - i` pairs that start with point `i`.
pub proof fn lemma_pairs_before_step(n: int, i: int)
    requires
        0 <= i < n,
    ensures
        pairs_before(n, 0) == 0,
        pairs_before(n, i) >= 0,
        pairs_before(n, i + 1) == pairs_before(n, i) + (n - 1 - i),
        pairs_before(n, n) == pair_count(n),
    decreases i,
{
    assert(pairs_before(n, 0) == 0) by (nonlinear_arith);
    assert(pairs_before(n, n) == pair_count(n)) by (nonlinear_arith);
    lemma_pairs_product_even(n, i);
    assert((i + 1) * (2 * n - (i + 1) - 1) == i * (2 * n - i - 1) + 2 * (n - 1 - i))
        by (nonlinear_arith);
    assert(i * (2 * n - i - 1) >= 0) by (nonlinear_arith)
        requires
            0 <= i < n,
    ;
}

/// The product that `pairs_before` halves is even.
proof fn lemma_pairs_product_even(n: int, i: int)
    requires
        0 <= i,
    ensures
        (i * (2 * n - i - 1)) % 2 == 0,
    decreases i,
{
    if i == 0 {
        assert(0 * (2 * n - 0 - 1) == 0) by (nonlinear_arith);
    } else {
        lemma_pairs_product_even(n, i - 1);
        assert(i * (2 * n - i - 1) == (i - 1) * (2 * n - (i - 1) - 1) + 2 * (n - i))
            by (nonlinear_arith);
    }
}

/// Rows of distinct pairs are distinct, earlier pairs have smaller rows, and
/// every row is below the number of pairs.
pub proof fn lemma_pair_row_order(n: int, a: int, b: int, i: int, j: int)
    requires
        0 <= a < b < n,
        0 <= i < j < n,
        a < i || (a == i && b < j),
    ensures
        0 <= pair_row(n, a, b) < pair_row(n, i, j) < pair_count(n),
    decreases i - a,
{
    lemma_pairs_before_bounds(n, i);
    lemma_pairs_before_step(n, i);
    lemma_pairs_before_step(n, a);
    if a < i {
        lemma_pairs_before_monotone(n, a + 1, i);
    }
}

/// `pairs_before` does not decrease.
proof fn lemma_pairs_before_monotone(n: int, a: int, i: int)
    requires
        0 <= a <= i <= n,
    ensures
        pairs_before(n, a) <= pairs_before(n, i),
    decreases i - a,
{
    if a < i {
        lemma_pairs_before_step(n, a);
        lemma_pairs_before_monotone(n, a + 1, i);
    }
}

/// The pairs that start before point `i`, and all that start with it, are
/// among the `pair_count(n)` pairs.
proof fn lemma_pairs_before_bounds(n: int, i: int)
    requires
        0 <= i < n,
    ensures
        pairs_before(n, i) + (n - 1 - i) <= pair_count(n),
{
    lemma_pairs_before_step(n, i);
    lemma_pairs_before_monotone(n, i + 1, n);
}

/// The number of complete measurements of `n` points, `n (n - 1) / 2`.
pub fn complete_measurement_count(n: usize) -> (count: usize)
    requires
        pair_count(n as int) <= usize::MAX,
    ensures
        count == pair_count(n as int),
{
    if n == 0 {
        assert(pair_count(0) == 0) by (nonlinear_arith);
        0
    } else if n % 2 == 0 {
        let half: usize = n / 2;
        assert(half * (n - 1) == pair_count(n as int)) by (nonlinear_arith)
            requires
                n == 2 * half,
        ;
        half * (n - 1)
    } else {
        let half: usize = (n - 1) / 2;
        assert(n * half == pair_count(n as int)) by (nonlinear_arith)
            requires
                n - 1 == 2 * half,
        ;
        n * half
    }
}

/// The cell in row `row` and column `c` of a three-column row-major cell sequence.
pub open spec fn cell3<T>(cells: Seq<T>, row: int, c: int) -> T {
    cells[row * 3 + c]
}

/// One measurement per point: row `i` is point `i` minus its chain partner.
///
/// `subtract` is the subtraction of the caller's scalar; each cell of the
/// result is what it gave for the two cells it was built from.
pub fn compute_chain_translation_invariant_measurements<T: Copy, F: Fn(T, T) -> T>(
    pc: &Matrix<T>,
    subtract: F,
) -> (tims: Matrix<T>)
    requires
        pc@.wf(),
        pc@.cols == POINT_DIM,
        forall|a: T, b: T| call_requires(subtract, (a, b)),
    ensures
        tims@.has_shape(pc@.rows, POINT_DIM as nat),
        forall|i: int, c: int|
            0 <= i < pc@.rows && 0 <= c < POINT_DIM ==> call_ensures(
                subtract,
                (pc@.at(i, c), pc@.at(chain_partner(i, pc@.rows as int), c)),
                #[trigger] tims@.at(i, c),
            ),
{
    let n: usize = pc.nrows();
    let mut data: Vec<T> = Vec::new();
    let mut i: usize = 0;
    while i < n
        invariant
            pc@.wf(),
            pc@.cols == 3,
            n == pc@.rows,
            i <= n,
            forall|a: T, b: T| call_requires(subtract, (a, b)),
            data@.len() == 3 * i,
            forall|r: int, c: int|
                0 <= r < i && 0 <= c < 3 ==> call_ensures(
                    subtract,
                    (pc@.at(r, c), pc@.at(chain_partner(r, n as int), c)),
                    #[trigger] cell3(data@, r, c),
                ),
        decreases n - i,
    {
        let j: usize = if i == n - 1 {
            0
        } else {
            i + 1
        };
        assert(j == chain_partner(i as int, n as int)) by {
            if i == n - 1 {
                assert((n as int) % (n as int) == 0) by (nonlinear_arith)
                    requires
                        n > 0,
                ;
            } else {
                assert((i + 1) % (n as int) == i + 1) by (nonlinear_arith)
                    requires
                        0 <= i + 1 < n,
                ;
            }
        }
        let ghost before = data@;
        let d0 = subtract(pc.get(i, 0), pc.get(j, 0));
        let d1 = subtract(pc.get(i, 1), pc.get(j, 1));
        let d2 = subtract(pc.get(i, 2), pc.get(j, 2));
        data.push(d0);
        data.push(d1);
        data.push(d2);
        proof {
            assert forall|r: int, c: int| 0 <= r < i + 1 && 0 <= c < 3 implies call_ensures(
                subtract,
                (pc@.at(r, c), pc@.at(chain_partner(r, n as int), c)),
                #[trigger] cell3(data@, r, c),
            ) by {
                if r < i {
                    assert(cell3(data@, r, c) == cell3(before, r, c));
                }
            }
        }
        i += 1;
    }
    let ghost cells = data@;
    let r = Matrix::from_vec(n, 3, data);
    let tims = r.unwrap();
    proof {
        assert forall|i: int, c: int| 0 <= i < pc@.rows && 0 <= c < 3 implies call_ensures(
            subtract,
            (pc@.at(i, c), pc@.at(chain_partner(i, pc@.rows as int), c)),
            #[trigger] tims@.at(i, c),
        ) by {
            assert(tims@.at(i, c) == cell3(cells, i, c));
        }
    }
    tims
}

/// One measurement per unordered pair of points: the row of the pair
/// `i < j` is point `i` minus point `j`, and the rows are ordered by `i`,
/// then by `j`.
///
/// `subtract` is the subtraction of the caller's scalar; each cell of the
/// result is what it gave for the two cells it was built from.
pub fn compute_complete_translation_invariant_measurements<T: Copy, F: Fn(T, T) -> T>(
    pc: &Matrix<T>,
    subtract: F,
) -> (tims: Matrix<T>)
    requires
        pc@.wf(),
        pc@.cols == POINT_DIM,
        3 * pair_count(pc@.rows as int) <= usize::MAX,
        forall|a: T, b: T| call_requires(subtract, (a, b)),
    ensures
        tims@.has_shape(pair_count(pc@.rows as int) as nat, POINT_DIM as nat),
        forall|i: int, j: int, c: int|
            0 <= i < j < pc@.rows && 0 <= c < POINT_DIM ==> call_ensures(
                subtract,
                (pc@.at(i, c), pc@.at(j, c)),
                #[trigger] tims@.at(pair_row(pc@.rows as int, i, j), c),
            ),
{
    let n: usize = pc.nrows();
    let n_tims: usize = complete_measurement_count(n);
    let mut data: Vec<T> = Vec::new();
    let mut idx: usize = 0;
    let mut i: usize = 0;
    proof {
        if n > 0 {
            lemma_pairs_before_step(n as int, 0);
        } else {
            assert(pairs_before(0, 0) == 0) by (nonlinear_arith);
        }
    }
    while i < n
        invariant
            pc@.wf(),
            pc@.cols == 3,
            n == pc@.rows,
            n_tims == pair_count(n as int),
            i <= n,
            forall|a: T, b: T| call_requires(subtract, (a, b)),
            idx == pairs_before(n as int, i as int),
            idx <= n_tims,
            data@.len() == 3 * idx,
            forall|a: int, b: int|
                0 <= a < b < n && a < i ==> 0 <= #[trigger] pair_row(n as int, a, b) < idx,
            forall|a: int, b: int, c: int|
                0 <= a < b < n && a < i && 0 <= c < 3 ==> call_ensures(
                    subtract,
                    (pc@.at(a, c), pc@.at(b, c)),
                    #[trigger] cell3(data@, pair_row(n as int, a, b), c),
                ),
        decreases n - i,
    {
        let mut j: usize = i + 1;
        proof {
            lemma_pairs_before_step(n as int, i as int);
            lemma_pairs_before_bounds(n as int, i as int);
        }
        while j < n
            invariant
                pc@.wf(),
                pc@.cols == 3,
                n == pc@.rows,
                n_tims == pair_count(n as int),
                i < n,
                i < j <= n,
                forall|a: T, b: T| call_requires(subtract, (a, b)),
                pairs_before(n as int, i as int) >= 0,
                pairs_before(n as int, i as int) + (n - 1 - i) <= n_tims,
                idx == pairs_before(n as int, i as int) + (j - i - 1),
                data@.len() == 3 * idx,
                forall|a: int, b: int|
                    0 <= a < b < n && (a < i || (a == i && b < j)) ==> 0 <= #[trigger] pair_row(
                        n as int,
                        a,
                        b,
                    ) < idx,
                forall|a: int, b: int, c: int|
                    0 <= a < b < n && (a < i || (a == i && b < j)) && 0 <= c < 3 ==> call_ensures(
                        subtract,
                        (pc@.at(a, c), pc@.at(b, c)),
                        #[trigger] cell3(data@, pair_row(n as int, a, b), c),
                    ),
            decreases n - j,
        {
            let ghost before = data@;
            let d0 = subtract(pc.get(i, 0), pc.get(j, 0));
            let d1 = subtract(pc.get(i, 1), pc.get(j, 1));
            let d2 = subtract(pc.get(i, 2), pc.get(j, 2));
            data.push(d0);
            data.push(d1);
            data.push(d2);
            proof {
                assert(idx == pair_row(n as int, i as int, j as int));
                assert forall|a: int, b: int, c: int|
                    0 <= a < b < n && (a < i || (a == i && b < j + 1)) && 0 <= c < 3 implies call_ensures(
                    subtract,
                    (pc@.at(a, c), pc@.at(b, c)),
                    #[trigger] cell3(data@, pair_row(n as int, a, b), c),
                ) by {
                    let row = pair_row(n as int, a, b);
                    if a == i && b == j {
                        assert(cell3(data@, row, c) == if c == 0 {
                            d0
                        } else if c == 1 {
                            d1
                        } else {
                            d2
                        });
                    } else {
                        assert(0 <= row < idx);
                        assert(call_ensures(
                            subtract,
                            (pc@.at(a, c), pc@.at(b, c)),
                            cell3(before, row, c),
                        ));
                        assert(cell3(data@, row, c) == cell3(before, row, c));
                    }
                }
            }
            idx += 1;
            j += 1;
        }
        i += 1;
    }
    proof {
        if n > 0 {
            lemma_pairs_before_step(n as int, 0);
        }
        assert(pairs_before(n as int, n as int) == pair_count(n as int)) by (nonlinear_arith);
    }
    let ghost cells = data@;
    let r = Matrix::from_vec(n_tims, 3, data);
    let tims = r.unwrap();
    proof {
        assert forall|i: int, j: int, c: int|
            0 <= i < j < pc@.rows && 0 <= c < 3 implies call_ensures(
            subtract,
            (pc@.at(i, c), pc@.at(j, c)),
            #[trigger] tims@.at(pair_row(pc@.rows as int, i, j), c),
        ) by {
            let row = pair_row(n as int, i, j);
            assert(0 <= row < idx);
            assert(call_ensures(subtract, (pc@.at(i, c), pc@.at(j, c)), cell3(cells, row, c)));
            assert(tims@.at(row, c) == cell3(cells, row, c));
        }
    }
    tims
}

} // verus!
