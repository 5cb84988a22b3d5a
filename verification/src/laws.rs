//! What holds of the gates and of the composition of registers, for every
//! state: each statement here is proved from the definitions of the model.

use vstd::prelude::*;
use vstd::arithmetic::div_mod::lemma_fundamental_div_mod_converse;
use vstd::arithmetic::power2::is_pow2;
use vstd::set_lib::{lemma_int_range, set_int_range};
use crate::fixed::{
    in_unit, lemma_product_bound, lemma_rescale_error, lemma_rescale_multiple, rescale,
    scale_squared, FRAC_1_SQRT_2, SCALE,
};
use crate::gates::{
    cnot_pair, cnot_rows, hadamard_action, hadamard_rows, lemma_cnot_action,
    lemma_cnot_pair, lemma_hadamard_action, lemma_pauli_x_action, lemma_pauli_y_action,
    lemma_pauli_z_action, lemma_phase_action, lemma_phase_inverse_action, lemma_tensor_of_pair,
    pauli_x_rows, pauli_y_rows, pauli_z_rows, phase_action, phase_inverse_action,
    phase_inverse_rows, phase_rows,
};
use crate::model::{
    amplitudes_in_unit, close, dot_column, ground_state, lower_half, near_unit_norm,
    norm_squared, norm_squared_upto, norm_tolerance, orthogonal, outcome, row_product, tensor,
    transformed, unit_norm, upper_half, valid_state, zero_probability, zero_samples,
};

verus! {

/// The sum of the squares of two amplitudes.
proof fn lemma_norm_of_pair(s: Seq<int>)
    requires
        s.len() == 2,
    ensures
        norm_squared(s) == s[0] * s[0] + s[1] * s[1],
{
    reveal_with_fuel(norm_squared_upto, 3);
}

/// The sum of the squares of four amplitudes.
proof fn lemma_norm_of_four(s: Seq<int>)
    requires
        s.len() == 4,
    ensures
        norm_squared(s) == s[0] * s[0] + s[1] * s[1] + s[2] * s[2] + s[3] * s[3],
{
    reveal_with_fuel(norm_squared_upto, 5);
}

/// The Pauli-X, Pauli-Y and Pauli-Z matrices keep the sum of the squares
/// of the amplitudes exactly as it is, for any two amplitudes.
pub proof fn pauli_gates_preserve_norm(s: Seq<int>)
    requires
        s.len() == 2,
    ensures
        norm_squared(transformed(s, pauli_x_rows())) == norm_squared(s),
        norm_squared(transformed(s, pauli_y_rows())) == norm_squared(s),
        norm_squared(transformed(s, pauli_z_rows())) == norm_squared(s),
{
    lemma_pauli_x_action(s);
    lemma_pauli_y_action(s);
    lemma_pauli_z_action(s);
    lemma_norm_of_pair(s);
    lemma_norm_of_pair(transformed(s, pauli_x_rows()));
    lemma_norm_of_pair(transformed(s, pauli_y_rows()));
    lemma_norm_of_pair(transformed(s, pauli_z_rows()));
    assert((-s[0]) * (-s[0]) == s[0] * s[0]) by (nonlinear_arith);
    assert((-s[1]) * (-s[1]) == s[1] * s[1]) by (nonlinear_arith);
}

/// The CNOT matrix keeps the sum of the squares of the amplitudes exactly
/// as it is, for any four amplitudes.
pub proof fn cnot_matrix_preserves_norm(s: Seq<int>)
    requires
        s.len() == 4,
    ensures
        norm_squared(transformed(s, cnot_rows())) == norm_squared(s),
{
    lemma_cnot_action(s);
    lemma_norm_of_four(s);
    lemma_norm_of_four(transformed(s, cnot_rows()));
}

/// One amplitude after two Hadamard gates. With `sum` and `diff` the two
/// amplitudes after the first gate, `back` comes out of the second within
/// two grid units of `a`, and inside [-1, 1].
proof fn lemma_hadamard_round_trip(a: int, b: int, sum: int, diff: int, back: int)
    requires
        in_unit(a),
        in_unit(b),
        sum == rescale((a + b) * FRAC_1_SQRT_2),
        diff == rescale((a - b) * FRAC_1_SQRT_2),
        back == rescale((sum + diff) * FRAC_1_SQRT_2),
    ensures
        -2 <= back - a <= 2,
        in_unit(back),
{
    lemma_rescale_error((a + b) * FRAC_1_SQRT_2);
    lemma_rescale_error((a - b) * FRAC_1_SQRT_2);
    lemma_rescale_error((sum + diff) * FRAC_1_SQRT_2);
    // The three rounding errors, and then SCALE^2 * back in terms of them:
    // the factor of `a` is twice the square of FRAC_1_SQRT_2, which falls
    // short of SCALE^2 by less than 1.35 * SCALE.
    let r0 = 10_000_000_000_000 * sum - (a + b) * 7_071_067_811_865;
    let r1 = 10_000_000_000_000 * diff - (a - b) * 7_071_067_811_865;
    let r2 = 10_000_000_000_000 * back - (sum + diff) * 7_071_067_811_865;
    assert(-5_000_000_000_000 <= r0 <= 5_000_000_000_000);
    assert(-5_000_000_000_000 <= r1 <= 5_000_000_000_000);
    assert(-5_000_000_000_000 <= r2 <= 5_000_000_000_000);
    assert(100_000_000_000_000_000_000_000_000 * back == 99_999_999_999_986_558_069_556_450
        * a + 7_071_067_811_865 * (r0 + r1) + 10_000_000_000_000 * r2);
}

/// The same for the second amplitude, which the second gate takes from
/// the difference of the two.
proof fn lemma_hadamard_round_trip_second(a: int, b: int, sum: int, diff: int, back: int)
    requires
        in_unit(a),
        in_unit(b),
        sum == rescale((a + b) * FRAC_1_SQRT_2),
        diff == rescale((a - b) * FRAC_1_SQRT_2),
        back == rescale((sum - diff) * FRAC_1_SQRT_2),
    ensures
        -2 <= back - b <= 2,
        in_unit(back),
{
    lemma_rescale_error((a + b) * FRAC_1_SQRT_2);
    lemma_rescale_error((a - b) * FRAC_1_SQRT_2);
    lemma_rescale_error((sum - diff) * FRAC_1_SQRT_2);
    // As above, with the difference of the rounding errors.
    let r0 = 10_000_000_000_000 * sum - (a + b) * 7_071_067_811_865;
    let r1 = 10_000_000_000_000 * diff - (a - b) * 7_071_067_811_865;
    let r2 = 10_000_000_000_000 * back - (sum - diff) * 7_071_067_811_865;
    assert(-5_000_000_000_000 <= r0 <= 5_000_000_000_000);
    assert(-5_000_000_000_000 <= r1 <= 5_000_000_000_000);
    assert(-5_000_000_000_000 <= r2 <= 5_000_000_000_000);
    assert(100_000_000_000_000_000_000_000_000 * back == 99_999_999_999_986_558_069_556_450
        * b + 7_071_067_811_865 * (r0 - r1) + 10_000_000_000_000 * r2);
}

/// The Hadamard gate applied twice returns every state: each amplitude
/// comes back within two grid units (2e-13) of where it was, which is
/// within 1e-9, and the second gate is never refused.
pub proof fn hadamard_twice_returns_state(s: Seq<int>)
    requires
        valid_state(s),
        s.len() == 2,
    ensures
        amplitudes_in_unit(hadamard_action(hadamard_action(s))),
        forall|i: int|
            0 <= i < 2 ==> -2 <= #[trigger] hadamard_action(hadamard_action(s))[i] - s[i] <= 2,
        close(hadamard_action(hadamard_action(s)), s),
        transformed(transformed(s, hadamard_rows()), hadamard_rows()) == hadamard_action(
            hadamard_action(s),
        ),
{
    let once = hadamard_action(s);
    let twice = hadamard_action(once);
    assert(in_unit(s[0]) && in_unit(s[1]));
    lemma_hadamard_round_trip(s[0], s[1], once[0], once[1], twice[0]);
    lemma_hadamard_round_trip_second(s[0], s[1], once[0], once[1], twice[1]);
    lemma_hadamard_action(s);
    lemma_hadamard_action(once);
}

/// The square of a number that rounding moved: with `scaled` the rounded
/// quotient of `x`, the square of `SCALE * scaled` is the square of `x` to
/// within `|x|` units and a quarter.
proof fn lemma_rounded_square(x: int, scaled: int, bound: int)
    requires
        scaled == rescale(x),
        -bound <= x <= bound,
    ensures
        -(10_000_000_000_000 * bound) <= 100_000_000_000_000_000_000_000_000 * (scaled * scaled)
            - x * x <= 10_000_000_000_000 * bound + 25_000_000_000_000_000_000_000_000,
{
    lemma_rescale_error(x);
    let r = 10_000_000_000_000 * scaled - x;
    assert(-5_000_000_000_000 <= r <= 5_000_000_000_000);
    assert(100_000_000_000_000_000_000_000_000 * (scaled * scaled) == x * x + 2 * (x * r) + r
        * r) by (nonlinear_arith)
        requires
            10_000_000_000_000 * scaled == x + r,
    ;
    assert(-(5_000_000_000_000 * bound) <= x * r <= 5_000_000_000_000 * bound)
        by (nonlinear_arith)
        requires
            -bound <= x <= bound,
            -5_000_000_000_000 <= r <= 5_000_000_000_000,
    ;
    assert(0 <= r * r <= 25_000_000_000_000_000_000_000_000) by (nonlinear_arith)
        requires
            -5_000_000_000_000 <= r <= 5_000_000_000_000,
    ;
}

/// The Hadamard gate keeps the norm of every state to within 1e-9: the sum
/// of the squares of the amplitudes moves by at most 6e-13. A state of
/// unit norm therefore stays of unit norm to within 1e-9.
pub proof fn hadamard_preserves_norm(s: Seq<int>)
    requires
        valid_state(s),
        s.len() == 2,
    ensures
        -(6 * SCALE) <= norm_squared(transformed(s, hadamard_rows())) - norm_squared(s) <= 6
            * SCALE,
        -norm_tolerance() <= norm_squared(transformed(s, hadamard_rows())) - norm_squared(s)
            <= norm_tolerance(),
        unit_norm(s) ==> near_unit_norm(transformed(s, hadamard_rows())),
{
    lemma_hadamard_action(s);
    let out = hadamard_action(s);
    lemma_norm_of_pair(s);
    lemma_norm_of_pair(out);
    let a = s[0];
    let b = s[1];
    assert(in_unit(a) && in_unit(b));
    // The exact products, each at most 2 * SCALE * FRAC_1_SQRT_2 in size;
    // the sum of their squares is twice the square of FRAC_1_SQRT_2 times
    // the sum of the squares of the amplitudes.
    let x = (a + b) * 7_071_067_811_865;
    let y = (a - b) * 7_071_067_811_865;
    lemma_rounded_square(x, out[0], 141_421_356_237_300_000_000_000_000);
    lemma_rounded_square(y, out[1], 141_421_356_237_300_000_000_000_000);
    assert(x * x + y * y == 99_999_999_999_986_558_069_556_450 * (a * a + b * b))
        by (nonlinear_arith)
        requires
            x == (a + b) * 7_071_067_811_865,
            y == (a - b) * 7_071_067_811_865,
    ;
    assert(0 <= a * a <= 100_000_000_000_000_000_000_000_000) by (nonlinear_arith)
        requires
            -10_000_000_000_000 <= a <= 10_000_000_000_000,
    ;
    assert(0 <= b * b <= 100_000_000_000_000_000_000_000_000) by (nonlinear_arith)
        requires
            -10_000_000_000_000 <= b <= 10_000_000_000_000,
    ;
}

/// The Pauli-X, Pauli-Y, Pauli-Z and CNOT matrices are orthogonal on the
/// grid itself. (The Hadamard matrix is so only up to the rounding of
/// 1/sqrt(2), and the phase and T matrices are not orthogonal at all.)
pub proof fn pauli_and_cnot_matrices_are_orthogonal()
    ensures
        orthogonal(pauli_x_rows()),
        orthogonal(pauli_y_rows()),
        orthogonal(pauli_z_rows()),
        orthogonal(cnot_rows()),
{
    reveal_with_fuel(row_product, 5);
    let one = SCALE as int;
    assert(one * one == 100_000_000_000_000_000_000_000_000 && (-one) * (-one)
        == 100_000_000_000_000_000_000_000_000 && one * 0 == 0 && 0 * one == 0 && (-one) * 0 == 0
        && 0 * (-one) == 0 && 0 * 0 == 0) by (nonlinear_arith)
        requires
            one == 10_000_000_000_000,
    ;
    assert forall|j: int, k: int| 0 <= j < 2 && 0 <= k < 2 implies #[trigger] row_product(
        pauli_x_rows(),
        j,
        k,
        2,
    ) == if j == k {
        scale_squared()
    } else {
        0
    } by {
        assert(j == 0 || j == 1);
        assert(k == 0 || k == 1);
    }
    assert forall|j: int, k: int| 0 <= j < 2 && 0 <= k < 2 implies #[trigger] row_product(
        pauli_y_rows(),
        j,
        k,
        2,
    ) == if j == k {
        scale_squared()
    } else {
        0
    } by {
        assert(j == 0 || j == 1);
        assert(k == 0 || k == 1);
    }
    assert forall|j: int, k: int| 0 <= j < 2 && 0 <= k < 2 implies #[trigger] row_product(
        pauli_z_rows(),
        j,
        k,
        2,
    ) == if j == k {
        scale_squared()
    } else {
        0
    } by {
        assert(j == 0 || j == 1);
        assert(k == 0 || k == 1);
    }
    assert forall|j: int, k: int| 0 <= j < 4 && 0 <= k < 4 implies #[trigger] row_product(
        cnot_rows(),
        j,
        k,
        4,
    ) == if j == k {
        scale_squared()
    } else {
        0
    } by {
        assert(j == 0 || j == 1 || j == 2 || j == 3);
        assert(k == 0 || k == 1 || k == 2 || k == 3);
    }
}

/// The exact sum, over the first `m` columns `i`, of the product of the
/// state's first `p` amplitudes with column `i`, times `rows[q][i]`.
spec fn cross_sum(s: Seq<int>, rows: Seq<Seq<int>>, p: nat, q: int, m: nat) -> int
    decreases m,
{
    if m == 0 {
        0
    } else {
        cross_sum(s, rows, p, q, (m - 1) as nat) + dot_column(s, rows, m - 1, p) * rows[q][m - 1]
    }
}

/// The exact sum, over the first `m` columns `i`, of the square of the
/// product of the state's first `p` amplitudes with column `i`.
spec fn square_sum(s: Seq<int>, rows: Seq<Seq<int>>, p: nat, m: nat) -> int
    decreases m,
{
    if m == 0 {
        0
    } else {
        square_sum(s, rows, p, (m - 1) as nat) + dot_column(s, rows, m - 1, p) * dot_column(
            s,
            rows,
            m - 1,
            p,
        )
    }
}

/// Taking one more amplitude into the products adds its multiple of the
/// product of two rows.
proof fn lemma_cross_sum_step(s: Seq<int>, rows: Seq<Seq<int>>, p: nat, q: int, m: nat)
    ensures
        cross_sum(s, rows, p + 1, q, m) == cross_sum(s, rows, p, q, m) + s[p as int] * row_product(
            rows,
            p as int,
            q,
            m,
        ),
    decreases m,
{
    if m > 0 {
        lemma_cross_sum_step(s, rows, p, q, (m - 1) as nat);
        let x = dot_column(s, rows, m - 1, p);
        let a = s[p as int];
        let u = rows[p as int][m - 1];
        let v = rows[q][m - 1];
        let r = row_product(rows, p as int, q, (m - 1) as nat);
        assert(dot_column(s, rows, m - 1, p + 1) == x + a * u);
        assert((x + a * u) * v + a * r == x * v + a * (r + u * v)) by (nonlinear_arith);
    }
}

/// With no amplitude taken in, every product is zero.
proof fn lemma_cross_sum_empty(s: Seq<int>, rows: Seq<Seq<int>>, q: int, m: nat)
    ensures
        cross_sum(s, rows, 0, q, m) == 0,
    decreases m,
{
    if m > 0 {
        lemma_cross_sum_empty(s, rows, q, (m - 1) as nat);
        assert(0 * rows[q][m - 1] == 0) by (nonlinear_arith);
    }
}

/// In an orthogonal matrix, the products of the amplitudes before `q` with
/// the columns have nothing in common with row `q`.
proof fn lemma_cross_sum_vanishes(s: Seq<int>, rows: Seq<Seq<int>>, p: nat, q: int)
    requires
        orthogonal(rows),
        p <= q < rows.len(),
    ensures
        cross_sum(s, rows, p, q, rows.len()) == 0,
    decreases p,
{
    if p == 0 {
        lemma_cross_sum_empty(s, rows, q, rows.len());
    } else {
        let before = (p - 1) as nat;
        lemma_cross_sum_vanishes(s, rows, before, q);
        lemma_cross_sum_step(s, rows, before, q, rows.len());
        assert(row_product(rows, before as int, q, rows.len()) == 0);
        assert(s[before as int] * 0 == 0) by (nonlinear_arith);
    }
}

/// Taking one more amplitude into the products changes the sum of their
/// squares by the binomial terms.
proof fn lemma_square_sum_step(s: Seq<int>, rows: Seq<Seq<int>>, p: nat, m: nat)
    ensures
        square_sum(s, rows, p + 1, m) == square_sum(s, rows, p, m) + 2 * (s[p as int] * cross_sum(
            s,
            rows,
            p,
            p as int,
            m,
        )) + (s[p as int] * s[p as int]) * row_product(rows, p as int, p as int, m),
    decreases m,
{
    if m > 0 {
        lemma_square_sum_step(s, rows, p, (m - 1) as nat);
        let x = dot_column(s, rows, m - 1, p);
        let a = s[p as int];
        let u = rows[p as int][m - 1];
        let c = cross_sum(s, rows, p, p as int, (m - 1) as nat);
        let r = row_product(rows, p as int, p as int, (m - 1) as nat);
        assert(dot_column(s, rows, m - 1, p + 1) == x + a * u);
        assert((x + a * u) * (x + a * u) + 2 * (a * c) + (a * a) * r == x * x + 2 * (a * (c + x
            * u)) + (a * a) * (r + u * u)) by (nonlinear_arith);
    }
}

/// Before rounding, an orthogonal matrix keeps the norm exactly: the sum
/// of the squares of the products is the sum of the squares of the
/// amplitudes taken in, in the units of products.
proof fn lemma_square_sum_is_norm(s: Seq<int>, rows: Seq<Seq<int>>, p: nat)
    requires
        orthogonal(rows),
        p <= rows.len(),
    ensures
        square_sum(s, rows, p, rows.len()) == 100_000_000_000_000_000_000_000_000
            * norm_squared_upto(s, p),
    decreases p,
{
    if p == 0 {
        lemma_square_sum_empty(s, rows, rows.len());
    } else {
        let before = (p - 1) as nat;
        lemma_square_sum_is_norm(s, rows, before);
        lemma_square_sum_step(s, rows, before, rows.len());
        lemma_cross_sum_vanishes(s, rows, before, before as int);
        let a = s[before as int];
        assert(row_product(rows, before as int, before as int, rows.len())
            == 100_000_000_000_000_000_000_000_000);
        assert(a * 0 == 0) by (nonlinear_arith);
        assert((a * a) * 100_000_000_000_000_000_000_000_000
            == 100_000_000_000_000_000_000_000_000 * (a * a)) by (nonlinear_arith);
    }
}

/// With no amplitude taken in, every square is zero.
proof fn lemma_square_sum_empty(s: Seq<int>, rows: Seq<Seq<int>>, m: nat)
    ensures
        square_sum(s, rows, 0, m) == 0,
    decreases m,
{
    if m > 0 {
        lemma_square_sum_empty(s, rows, (m - 1) as nat);
    }
}

/// Rounding each product to the grid moves the sum of the squares of the
/// first `m` of them by at most `SCALE + 1` units each.
proof fn lemma_rounded_norm(s: Seq<int>, rows: Seq<Seq<int>>, m: nat)
    requires
        amplitudes_in_unit(transformed(s, rows)),
        m <= s.len(),
    ensures
        -(m * 1_000_000_000_000_100_000_000_000_000_000_000_000_000)
            <= 100_000_000_000_000_000_000_000_000 * norm_squared_upto(transformed(s, rows), m)
            - square_sum(s, rows, s.len(), m) <= m
            * 1_000_000_000_000_100_000_000_000_000_000_000_000_000,
    decreases m,
{
    if m > 0 {
        lemma_rounded_norm(s, rows, (m - 1) as nat);
        let out = transformed(s, rows);
        let x = dot_column(s, rows, m - 1, s.len());
        assert(out[m - 1] == rescale(x));
        assert(in_unit(out[m - 1]));
        lemma_rescale_error(x);
        // An exact product that rounds into [-1, 1] is at most
        // SCALE^2 + SCALE / 2 in size.
        lemma_rounded_square(x, out[m - 1], 100_000_000_000_005_000_000_000_000);
    }
}

/// An orthogonal matrix keeps the norm of every state that it can be
/// applied to: the sum of the squares of the amplitudes moves only by the
/// rounding of each amplitude, at most `SCALE + 1` units for each of them
/// (1e-13 of the unit norm). A state of unit norm of up to 9999 amplitudes
/// therefore stays of unit norm to within 1e-9.
pub proof fn orthogonal_matrix_preserves_norm(s: Seq<int>, rows: Seq<Seq<int>>)
    requires
        rows.len() == s.len(),
        orthogonal(rows),
        amplitudes_in_unit(transformed(s, rows)),
    ensures
        -(s.len() * (SCALE + 1)) <= norm_squared(transformed(s, rows)) - norm_squared(s)
            <= s.len() * (SCALE + 1),
        unit_norm(s) && s.len() <= 9999 ==> near_unit_norm(transformed(s, rows)),
{
    lemma_square_sum_is_norm(s, rows, s.len());
    lemma_rounded_norm(s, rows, s.len());
    let n = s.len() as int;
    let gap = norm_squared(transformed(s, rows)) - norm_squared(s);
    assert(-(n * 1_000_000_000_000_100_000_000_000_000_000_000_000_000)
        <= 100_000_000_000_000_000_000_000_000 * gap <= n
        * 1_000_000_000_000_100_000_000_000_000_000_000_000_000);
    assert(n * (SCALE + 1) == n * 10_000_000_000_001);
}

/// Every one of the first `m` squares is at most their sum.
proof fn lemma_square_sum_bounds_each(
    s: Seq<int>,
    rows: Seq<Seq<int>>,
    p: nat,
    m: nat,
    i: int,
)
    requires
        0 <= i < m,
    ensures
        0 <= dot_column(s, rows, i, p) * dot_column(s, rows, i, p) <= square_sum(s, rows, p, m),
        0 <= square_sum(s, rows, p, m),
    decreases m,
{
    let last = dot_column(s, rows, m - 1, p);
    assert(0 <= last * last) by (nonlinear_arith);
    if m > 1 {
        if i < m - 1 {
            lemma_square_sum_bounds_each(s, rows, p, (m - 1) as nat, i);
        } else {
            lemma_square_sum_bounds_each(s, rows, p, (m - 1) as nat, 0);
        }
    } else {
        assert(square_sum(s, rows, p, 0) == 0);
    }
}

/// An orthogonal matrix is never refused on a state of at most unit norm:
/// no amplitude leaves [-1, 1].
pub proof fn orthogonal_matrix_accepts_unit_norm(s: Seq<int>, rows: Seq<Seq<int>>)
    requires
        rows.len() == s.len(),
        orthogonal(rows),
        norm_squared(s) <= scale_squared(),
    ensures
        amplitudes_in_unit(transformed(s, rows)),
{
    lemma_square_sum_is_norm(s, rows, s.len());
    let out = transformed(s, rows);
    assert forall|i: int| 0 <= i < out.len() implies in_unit(#[trigger] out[i]) by {
        let x = dot_column(s, rows, i, s.len());
        lemma_square_sum_bounds_each(s, rows, s.len(), s.len(), i);
        assert(x * x <= 10_000_000_000_000_000_000_000_000_000_000_000_000_000_000_000_000_000);
        assert(-100_000_000_000_000_000_000_000_000 <= x <= 100_000_000_000_000_000_000_000_000)
            by (nonlinear_arith)
            requires
                x * x <= 10_000_000_000_000_000_000_000_000_000_000_000_000_000_000_000_000_000,
        ;
    }
}

/// The Hadamard gate is never refused on a state of at most unit norm.
pub proof fn hadamard_accepts_unit_norm(s: Seq<int>)
    requires
        s.len() == 2,
        norm_squared(s) <= scale_squared(),
    ensures
        amplitudes_in_unit(hadamard_action(s)),
{
    lemma_norm_of_pair(s);
    let a = s[0];
    let b = s[1];
    let sum = a + b;
    let diff = a - b;
    // Sum and difference are at most sqrt(2) * SCALE in size, and that
    // times FRAC_1_SQRT_2 is below SCALE^2.
    assert(sum * sum + diff * diff == 2 * (a * a + b * b)) by (nonlinear_arith)
        requires
            sum == a + b,
            diff == a - b,
    ;
    assert(0 <= sum * sum && 0 <= diff * diff) by (nonlinear_arith);
    assert(-14_142_135_623_730 <= sum <= 14_142_135_623_730) by (nonlinear_arith)
        requires
            sum * sum <= 200_000_000_000_000_000_000_000_000,
    ;
    assert(-14_142_135_623_730 <= diff <= 14_142_135_623_730) by (nonlinear_arith)
        requires
            diff * diff <= 200_000_000_000_000_000_000_000_000,
    ;
}

/// The phase and phase-inverse gates (and with them the T and T-inverse
/// gates) never lengthen a state, and they keep its norm exactly when the
/// second amplitude is at most one grid unit from zero. On any other state
/// they shorten it by the difference of the squares of the second
/// amplitude before and after, so that a state of unit norm stays of unit
/// norm to within 1e-9 only while that difference is within 1e-9.
pub proof fn phase_gates_shorten(s: Seq<int>)
    requires
        valid_state(s),
        s.len() == 2,
    ensures
        norm_squared(transformed(s, phase_rows())) == norm_squared(transformed(
            s,
            phase_inverse_rows(),
        )),
        norm_squared(transformed(s, phase_rows())) == norm_squared(s) - (s[1] * s[1] - rescale(
            s[1] * FRAC_1_SQRT_2,
        ) * rescale(s[1] * FRAC_1_SQRT_2)),
        norm_squared(transformed(s, phase_rows())) <= norm_squared(s),
        norm_squared(transformed(s, phase_rows())) == norm_squared(s) <==> -1 <= s[1] <= 1,
        unit_norm(s) ==> (near_unit_norm(transformed(s, phase_rows())) <==> s[1] * s[1] - rescale(
            s[1] * FRAC_1_SQRT_2,
        ) * rescale(s[1] * FRAC_1_SQRT_2) <= norm_tolerance()),
{
    lemma_phase_action(s);
    lemma_phase_inverse_action(s);
    lemma_norm_of_pair(s);
    lemma_norm_of_pair(phase_action(s));
    lemma_norm_of_pair(phase_inverse_action(s));
    let b = s[1];
    let c = rescale(b * FRAC_1_SQRT_2);
    assert(in_unit(b));
    assert((-c) * (-c) == c * c) by (nonlinear_arith);
    lemma_rescale_error(b * FRAC_1_SQRT_2);
    if b >= 2 {
        assert(0 <= c < b);
        assert(c * c < b * b) by (nonlinear_arith)
            requires
                0 <= c < b,
        ;
    } else if b <= -2 {
        assert(b < c <= 0);
        assert(c * c < b * b) by (nonlinear_arith)
            requires
                b < c <= 0,
        ;
    } else {
        assert(c == b);
    }
}

/// The joint state of two registers holds, at index `i * b.len() + j`, the
/// product of amplitude `i` of the first and amplitude `j` of the second.
pub proof fn tensor_places_products(a: Seq<int>, b: Seq<int>, i: int, j: int)
    requires
        0 <= i < a.len(),
        0 <= j < b.len(),
    ensures
        0 <= i * b.len() + j < tensor(a, b).len(),
        tensor(a, b)[i * b.len() + j] == rescale(a[i] * b[j]),
{
    let m = b.len() as int;
    let n = a.len() as int;
    assert(0 <= i * m + j < n * m) by (nonlinear_arith)
        requires
            0 <= i < n,
            0 <= j < m,
    ;
    assert(i * m == m * i) by (nonlinear_arith);
    lemma_fundamental_div_mod_converse(i * m + j, m, i, j);
}

/// The halves of the joint state of a single qubit `a` and any register
/// `b` are the multiples of `b` by `a[0]` and by `a[1]`.
pub proof fn split_of_tensor_gives_multiples(a: Seq<int>, b: Seq<int>)
    requires
        a.len() == 2,
    ensures
        lower_half(tensor(a, b)) == Seq::new(b.len(), |j: int| rescale(a[0] * b[j])),
        upper_half(tensor(a, b)) == Seq::new(b.len(), |j: int| rescale(a[1] * b[j])),
{
    let m = b.len() as int;
    let joint = tensor(a, b);
    assert(joint.len() == 2 * m) by (nonlinear_arith)
        requires
            joint.len() == a.len() * b.len(),
            a.len() == 2,
            m == b.len(),
    ;
    let low = Seq::new(b.len(), |j: int| rescale(a[0] * b[j]));
    let high = Seq::new(b.len(), |j: int| rescale(a[1] * b[j]));
    assert forall|j: int| 0 <= j < m implies lower_half(joint)[j] == low[j] && upper_half(
        joint,
    )[j] == high[j] by {
        tensor_places_products(a, b, 0, j);
        tensor_places_products(a, b, 1, j);
        assert(0 * m + j == j && 1 * m + j == m + j) by (nonlinear_arith);
    }
    assert(lower_half(joint) =~= low);
    assert(upper_half(joint) =~= high);
}

/// Of the `SCALE` equally likely samples that a measurement can draw,
/// those on which it reads 0 number exactly the probability of zero: a
/// uniform sample reads 0 with that probability, and 1 otherwise.
pub proof fn zero_samples_number_the_probability(s: Seq<int>)
    requires
        valid_state(s),
    ensures
        0 <= zero_probability(s) <= SCALE,
        zero_samples(s).finite(),
        zero_samples(s).len() == zero_probability(s),
        forall|draw: int|
            0 <= draw < SCALE ==> (#[trigger] outcome(s, draw) == 0 || outcome(s, draw) == 1),
{
    assert(s.len() >= 1) by {
        reveal(is_pow2);
    }
    assert(in_unit(s[0]));
    lemma_product_bound(s[0], s[0]);
    assert(s[0] * s[0] >= 0) by (nonlinear_arith);
    let p = zero_probability(s);
    assert(0 <= p <= SCALE);
    lemma_int_range(0, p);
    assert(zero_samples(s) =~= set_int_range(0, p));
}

/// Parting a fresh joint state gives back the two registers it was made
/// of exactly when both are single qubits and the four products
/// `a[0]*b[0]`, `a[0]*b[1]`, `a[1]*b[0]`, `a[1]*b[1]` are `a[0]`, `a[1]`,
/// `b[0]`, `b[1]` in this order. The halves of a joint state are the
/// multiples of `b` by `a[0]` and by `a[1]`, not `a` and `b`.
pub proof fn split_undoes_tensor_exactly_when(a: Seq<int>, b: Seq<int>)
    requires
        valid_state(a),
        valid_state(b),
    ensures
        (lower_half(tensor(a, b)) == a && upper_half(tensor(a, b)) == b) <==> {
            &&& a.len() == 2
            &&& b.len() == 2
            &&& rescale(a[0] * b[0]) == a[0]
            &&& rescale(a[0] * b[1]) == a[1]
            &&& rescale(a[1] * b[0]) == b[0]
            &&& rescale(a[1] * b[1]) == b[1]
        },
{
    let joint = tensor(a, b);
    let n = a.len() as int;
    let m = b.len() as int;
    assert(n >= 1 && m >= 1) by {
        reveal(is_pow2);
    }
    if a.len() == 2 && b.len() == 2 {
        lemma_tensor_of_pair(a, b);
        let low = lower_half(joint);
        let high = upper_half(joint);
        assert(low.len() == 2 && high.len() == 2);
        assert(low[0] == joint[0] && low[1] == joint[1]);
        assert(high[0] == joint[2] && high[1] == joint[3]);
        if rescale(a[0] * b[0]) == a[0] && rescale(a[0] * b[1]) == a[1] && rescale(a[1] * b[0])
            == b[0] && rescale(a[1] * b[1]) == b[1] {
            assert(low =~= a);
            assert(high =~= b);
        } else {
            assert(low[0] != a[0] || low[1] != a[1] || high[0] != b[0] || high[1] != b[1]);
        }
    } else {
        if lower_half(joint) == a && upper_half(joint) == b {
            assert(joint.len() == n * m);
            assert(lower_half(joint).len() == (n * m) / 2);
            assert(upper_half(joint).len() == n * m - (n * m) / 2);
            assert(n == 2 && m == 2) by (nonlinear_arith)
                requires
                    n >= 1,
                    m >= 1,
                    (n * m) / 2 == n,
                    n * m - (n * m) / 2 == m,
            ;
        }
    }
}

/// A CNOT gate whose control is in the ground state hands the target's
/// amplitudes to the control and leaves the target with none: the target
/// comes out as it went in exactly when it held no amplitude at all.
pub proof fn cnot_with_ground_control(target: Seq<int>)
    requires
        valid_state(target),
        target.len() == 2,
    ensures
        cnot_pair(ground_state(2), target).0 == target,
        cnot_pair(ground_state(2), target).1 == seq![0int, 0int],
        cnot_pair(ground_state(2), target).1 == target <==> target == seq![0int, 0int],
{
    let control = ground_state(2);
    lemma_cnot_pair(control, target);
    lemma_rescale_multiple(target[0]);
    lemma_rescale_multiple(target[1]);
    assert(0 * target[0] == 0 && 0 * target[1] == 0) by (nonlinear_arith);
    assert(cnot_pair(control, target).0 =~= target);
    assert(cnot_pair(control, target).1 =~= seq![0int, 0int]);
    if target == seq![0int, 0int] {
    } else {
        assert(target[0] != 0 || target[1] != 0) by {
            if target[0] == 0 && target[1] == 0 {
                assert(target =~= seq![0int, 0int]);
            }
        }
    }
}

} // verus!
