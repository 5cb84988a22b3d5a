//! The mathematical model of a register: its amplitudes as a sequence of
//! integers on the fixed-point grid, and what each operation makes of them.

use vstd::prelude::*;
use vstd::arithmetic::power2::is_pow2;
use crate::fixed::{in_unit, rescale, scale_squared, SCALE};
use crate::matrix::is_square;

verus! {

/// Every amplitude stands for a real number in [-1, 1].
pub open spec fn amplitudes_in_unit(s: Seq<int>) -> bool {
    forall|i: int| 0 <= i < s.len() ==> in_unit(#[trigger] s[i])
}

/// What every register holds: a power-of-two number of amplitudes, each of
/// them in [-1, 1].
pub open spec fn valid_state(s: Seq<int>) -> bool {
    is_pow2(s.len() as int) && amplitudes_in_unit(s)
}

/// The ground state of dimension `dim`: amplitude 1 at index 0 and 0
/// everywhere else.
pub open spec fn ground_state(dim: nat) -> Seq<int> {
    Seq::new(
        dim,
        |i: int|
            if i == 0 {
                SCALE as int
            } else {
                0
            },
    )
}

/// The exact sum of `state[j] * rows[j][col]` over the first `n` rows.
pub open spec fn dot_column(state: Seq<int>, rows: Seq<Seq<int>>, col: int, n: nat) -> int
    decreases n,
{
    if n == 0 {
        0
    } else {
        dot_column(state, rows, col, (n - 1) as nat) + state[n - 1] * rows[n - 1][col]
    }
}

/// The state after a matrix was applied: amplitude `i` is the row vector
/// `state` times column `i` of the matrix, rounded once.
pub open spec fn transformed(state: Seq<int>, rows: Seq<Seq<int>>) -> Seq<int> {
    Seq::new(state.len(), |i: int| rescale(dot_column(state, rows, i, state.len())))
}

/// The joint state of two registers: the amplitude at `i * b.len() + j` is
/// the product of `a[i]` and `b[j]`.
pub open spec fn tensor(a: Seq<int>, b: Seq<int>) -> Seq<int> {
    Seq::new(
        a.len() * b.len(),
        |k: int| rescale(a[k / (b.len() as int)] * b[k % (b.len() as int)]),
    )
}

/// The first half of the amplitudes.
pub open spec fn lower_half(s: Seq<int>) -> Seq<int> {
    s.subrange(0, s.len() as int / 2)
}

/// The second half of the amplitudes.
pub open spec fn upper_half(s: Seq<int>) -> Seq<int> {
    s.subrange(s.len() as int / 2, s.len() as int)
}

/// The probability of reading all zeros: the square of amplitude 0.
pub open spec fn zero_probability(s: Seq<int>) -> int {
    rescale(s[0] * s[0])
}

/// The bit that a measurement reads when the uniform sample is `draw`:
/// 0 if the sample falls below the probability of zero, else 1.
pub open spec fn outcome(s: Seq<int>, draw: int) -> int {
    if draw < zero_probability(s) {
        0
    } else {
        1
    }
}

/// The samples from [0, 1) on which a measurement reads 0.
pub open spec fn zero_samples(s: Seq<int>) -> Set<int> {
    Set::new(|draw: int| 0 <= draw < SCALE && outcome(s, draw) == 0)
}

/// The sum of the squares of the first `n` amplitudes, in units of
/// 1/SCALE^2. A state has unit norm when the sum over all of them is
/// SCALE^2.
pub open spec fn norm_squared_upto(s: Seq<int>, n: nat) -> int
    decreases n,
{
    if n == 0 {
        0
    } else {
        norm_squared_upto(s, (n - 1) as nat) + s[n - 1] * s[n - 1]
    }
}

/// The sum of the squares of all amplitudes, in units of 1/SCALE^2.
pub open spec fn norm_squared(s: Seq<int>) -> int {
    norm_squared_upto(s, s.len())
}

/// The exact sum of `rows[j][i] * rows[k][i]` over the first `n` columns.
pub open spec fn row_product(rows: Seq<Seq<int>>, j: int, k: int, n: nat) -> int
    decreases n,
{
    if n == 0 {
        0
    } else {
        row_product(rows, j, k, (n - 1) as nat) + rows[j][n - 1] * rows[k][n - 1]
    }
}

/// The matrix is orthogonal on the grid itself: the product of a row with
/// itself is exactly 1, and that of two different rows exactly 0.
pub open spec fn orthogonal(rows: Seq<Seq<int>>) -> bool {
    &&& is_square(rows)
    &&& forall|j: int, k: int|
        0 <= j < rows.len() && 0 <= k < rows.len() ==> #[trigger] row_product(
            rows,
            j,
            k,
            rows.len(),
        ) == if j == k {
            scale_squared()
        } else {
            0
        }
}

/// The widest gap between two amplitudes that count as equal: 1e-9.
pub const AMPLITUDE_TOLERANCE: i64 = 10_000;

/// The widest gap between two sums of squares that count as equal: 1e-9,
/// in units of 1/SCALE^2.
pub open spec fn norm_tolerance() -> int {
    100_000_000_000_000_000
}

/// The sum of the squares of the amplitudes is exactly 1.
pub open spec fn unit_norm(s: Seq<int>) -> bool {
    norm_squared(s) == scale_squared()
}

/// The sum of the squares of the amplitudes is 1 to within 1e-9.
pub open spec fn near_unit_norm(s: Seq<int>) -> bool {
    -norm_tolerance() <= norm_squared(s) - scale_squared() <= norm_tolerance()
}

/// Two states of the same dimension agree to within 1e-9 in every
/// amplitude.
pub open spec fn close(s: Seq<int>, t: Seq<int>) -> bool {
    &&& s.len() == t.len()
    &&& forall|i: int|
        0 <= i < s.len() ==> -AMPLITUDE_TOLERANCE <= #[trigger] s[i] - t[i] <= AMPLITUDE_TOLERANCE
}

/// Half of a power of two that is at least 2 is a power of two.
pub proof fn lemma_half_is_power_of_two(n: int)
    requires
        is_pow2(n),
        n >= 2,
    ensures
        n % 2 == 0,
        is_pow2(n / 2),
{
    reveal(is_pow2);
}

/// The product of two powers of two is a power of two.
pub proof fn lemma_product_is_power_of_two(n: int, m: int)
    requires
        is_pow2(n),
        is_pow2(m),
    ensures
        is_pow2(n * m),
    decreases n,
{
    reveal(is_pow2);
    if n == 1 {
        assert(n * m == m) by (nonlinear_arith)
            requires
                n == 1,
        ;
    } else {
        lemma_product_is_power_of_two(n / 2, m);
        assert(m > 0);
        assert(n * m == 2 * ((n / 2) * m)) by (nonlinear_arith)
            requires
                n % 2 == 0,
        ;
        assert((n / 2) * m > 0) by (nonlinear_arith)
            requires
                n >= 2,
                m > 0,
        ;
    }
}

/// Place `k` of a joint state of dimensions `n` and `m` belongs to index
/// `k / m` of the first part and index `k % m` of the second.
pub proof fn lemma_tensor_position(n: int, m: int, k: int)
    requires
        0 <= n,
        0 <= m,
        0 <= k < n * m,
    ensures
        m > 0,
        0 <= k / m < n,
        0 <= k % m < m,
{
    assert(m > 0 && n > 0) by (nonlinear_arith)
        requires
            0 <= n,
            0 <= m,
            0 <= k < n * m,
    ;
    assert(0 <= k / m < n && 0 <= k % m < m) by (nonlinear_arith)
        requires
            0 <= k < n * m,
            m > 0,
            n > 0,
    ;
}

} // verus!
