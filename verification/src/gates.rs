//! The gates: the fixed matrices and the functions that apply them.
//!
//! Amplitudes are real: no phase is represented. Pauli-Y and the phase and
//! T gates are therefore the real-valued stand-ins given here, not the
//! complex gates of the same names, and the phase and T gates shorten a
//! state that has a component on basis state 1.
//!
//! A matrix is applied as `state * matrix`, the state being a row vector.

use vstd::prelude::*;
use crate::error::QuantumError;
use crate::fixed::{
    in_unit, lemma_product_bound, lemma_rescale_multiple, lemma_rescale_neg, lemma_rescale_unit,
    rescale, FRAC_1_SQRT_2, SCALE,
};
use crate::matrix::{rows_of, valid_matrix, GateMatrix};
use crate::model::{
    amplitudes_in_unit, dot_column, lower_half, tensor, transformed, upper_half, valid_state,
};
use crate::qbit::Qubit;

verus! {

/// The rows of the Hadamard matrix.
pub open spec fn hadamard_rows() -> Seq<Seq<int>> {
    let minus_h = -(FRAC_1_SQRT_2 as int);
    seq![
        seq![FRAC_1_SQRT_2 as int, FRAC_1_SQRT_2 as int],
        seq![FRAC_1_SQRT_2 as int, minus_h],
    ]
}

/// The rows of the Pauli-X matrix.
pub open spec fn pauli_x_rows() -> Seq<Seq<int>> {
    seq![seq![0int, SCALE as int], seq![SCALE as int, 0int]]
}

/// The rows of the Pauli-Y matrix, without its imaginary unit.
pub open spec fn pauli_y_rows() -> Seq<Seq<int>> {
    let minus_one = -(SCALE as int);
    seq![seq![0int, minus_one], seq![SCALE as int, 0int]]
}

/// The rows of the Pauli-Z matrix.
pub open spec fn pauli_z_rows() -> Seq<Seq<int>> {
    let minus_one = -(SCALE as int);
    seq![seq![SCALE as int, 0int], seq![0int, minus_one]]
}

/// The rows of the phase matrix: the diagonal of 1 and 1/sqrt(2).
pub open spec fn phase_rows() -> Seq<Seq<int>> {
    seq![seq![SCALE as int, 0int], seq![0int, FRAC_1_SQRT_2 as int]]
}

/// The rows of the phase-inverse matrix: the diagonal of 1 and -1/sqrt(2).
pub open spec fn phase_inverse_rows() -> Seq<Seq<int>> {
    let minus_h = -(FRAC_1_SQRT_2 as int);
    seq![seq![SCALE as int, 0int], seq![0int, minus_h]]
}

/// The rows of the T matrix, which over real amplitudes is the phase
/// matrix.
pub open spec fn t_rows() -> Seq<Seq<int>> {
    phase_rows()
}

/// The rows of the T-inverse matrix, which over real amplitudes is the
/// phase-inverse matrix.
pub open spec fn t_inverse_rows() -> Seq<Seq<int>> {
    phase_inverse_rows()
}

/// The rows of the CNOT matrix: the permutation that exchanges basis
/// states 2 and 3 and keeps 0 and 1.
pub open spec fn cnot_rows() -> Seq<Seq<int>> {
    seq![
        seq![SCALE as int, 0int, 0int, 0int],
        seq![0int, SCALE as int, 0int, 0int],
        seq![0int, 0int, 0int, SCALE as int],
        seq![0int, 0int, SCALE as int, 0int],
    ]
}

/// What the Hadamard gate makes of two amplitudes.
pub open spec fn hadamard_action(s: Seq<int>) -> Seq<int> {
    seq![rescale((s[0] + s[1]) * FRAC_1_SQRT_2), rescale((s[0] - s[1]) * FRAC_1_SQRT_2)]
}

/// What the Pauli-X gate makes of two amplitudes: it exchanges them.
pub open spec fn pauli_x_action(s: Seq<int>) -> Seq<int> {
    seq![s[1], s[0]]
}

/// What the Pauli-Y gate makes of two amplitudes: it exchanges them and
/// negates the one that moves to index 1.
pub open spec fn pauli_y_action(s: Seq<int>) -> Seq<int> {
    seq![s[1], -s[0]]
}

/// What the Pauli-Z gate makes of two amplitudes: it negates the second.
pub open spec fn pauli_z_action(s: Seq<int>) -> Seq<int> {
    seq![s[0], -s[1]]
}

/// What the phase gate (and the T gate) makes of two amplitudes: it
/// multiplies the second by 1/sqrt(2).
pub open spec fn phase_action(s: Seq<int>) -> Seq<int> {
    seq![s[0], rescale(s[1] * FRAC_1_SQRT_2)]
}

/// What the phase-inverse gate (and the T-inverse gate) makes of two
/// amplitudes: it multiplies the second by -1/sqrt(2).
pub open spec fn phase_inverse_action(s: Seq<int>) -> Seq<int> {
    seq![s[0], -rescale(s[1] * FRAC_1_SQRT_2)]
}

/// What the CNOT matrix makes of four amplitudes: it exchanges the last
/// two.
pub open spec fn cnot_action(s: Seq<int>) -> Seq<int> {
    seq![s[0], s[1], s[3], s[2]]
}

/// The control and the target after a CNOT gate: the halves of the joint
/// state of the two, transformed by the CNOT matrix.
pub open spec fn cnot_pair(control: Seq<int>, target: Seq<int>) -> (Seq<int>, Seq<int>) {
    let joint = transformed(tensor(control, target), cnot_rows());
    (lower_half(joint), upper_half(joint))
}

/// Applying the Hadamard matrix is [`hadamard_action`].
pub proof fn lemma_hadamard_action(s: Seq<int>)
    requires
        s.len() == 2,
    ensures
        transformed(s, hadamard_rows()) == hadamard_action(s),
{
    reveal_with_fuel(dot_column, 3);
    let h = FRAC_1_SQRT_2 as int;
    assert(s[0] * h + s[1] * h == (s[0] + s[1]) * h) by (nonlinear_arith);
    assert(s[0] * h + s[1] * (-h) == (s[0] - s[1]) * h) by (nonlinear_arith);
    assert(transformed(s, hadamard_rows()) =~= hadamard_action(s));
}

/// Applying the Pauli-X matrix is [`pauli_x_action`].
pub proof fn lemma_pauli_x_action(s: Seq<int>)
    requires
        s.len() == 2,
    ensures
        transformed(s, pauli_x_rows()) == pauli_x_action(s),
{
    reveal_with_fuel(dot_column, 3);
    lemma_rescale_multiple(s[0]);
    lemma_rescale_multiple(s[1]);
    assert(s[0] * 0 == 0 && s[1] * 0 == 0) by (nonlinear_arith);
    assert(transformed(s, pauli_x_rows()) =~= pauli_x_action(s));
}

/// Applying the Pauli-Y matrix is [`pauli_y_action`].
pub proof fn lemma_pauli_y_action(s: Seq<int>)
    requires
        s.len() == 2,
    ensures
        transformed(s, pauli_y_rows()) == pauli_y_action(s),
{
    reveal_with_fuel(dot_column, 3);
    lemma_rescale_multiple(s[1]);
    lemma_rescale_multiple(-s[0]);
    assert(s[0] * 0 == 0 && s[1] * 0 == 0) by (nonlinear_arith);
    assert(s[0] * (-(SCALE as int)) == (-s[0]) * SCALE) by (nonlinear_arith);
    assert(transformed(s, pauli_y_rows()) =~= pauli_y_action(s));
}

/// Applying the Pauli-Z matrix is [`pauli_z_action`].
pub proof fn lemma_pauli_z_action(s: Seq<int>)
    requires
        s.len() == 2,
    ensures
        transformed(s, pauli_z_rows()) == pauli_z_action(s),
{
    reveal_with_fuel(dot_column, 3);
    lemma_rescale_multiple(s[0]);
    lemma_rescale_multiple(-s[1]);
    assert(s[0] * 0 == 0 && s[1] * 0 == 0) by (nonlinear_arith);
    assert(s[1] * (-(SCALE as int)) == (-s[1]) * SCALE) by (nonlinear_arith);
    assert(transformed(s, pauli_z_rows()) =~= pauli_z_action(s));
}

/// Applying the phase matrix is [`phase_action`].
pub proof fn lemma_phase_action(s: Seq<int>)
    requires
        s.len() == 2,
    ensures
        transformed(s, phase_rows()) == phase_action(s),
{
    reveal_with_fuel(dot_column, 3);
    lemma_rescale_multiple(s[0]);
    assert(s[0] * 0 == 0 && s[1] * 0 == 0) by (nonlinear_arith);
    assert(transformed(s, phase_rows()) =~= phase_action(s));
}

/// Applying the phase-inverse matrix is [`phase_inverse_action`].
pub proof fn lemma_phase_inverse_action(s: Seq<int>)
    requires
        s.len() == 2,
    ensures
        transformed(s, phase_inverse_rows()) == phase_inverse_action(s),
{
    reveal_with_fuel(dot_column, 3);
    lemma_rescale_multiple(s[0]);
    lemma_rescale_neg(s[1] * FRAC_1_SQRT_2);
    assert(s[0] * 0 == 0 && s[1] * 0 == 0) by (nonlinear_arith);
    assert(s[1] * (-(FRAC_1_SQRT_2 as int)) == -(s[1] * FRAC_1_SQRT_2)) by (nonlinear_arith);
    assert(transformed(s, phase_inverse_rows()) =~= phase_inverse_action(s));
}

/// Applying the CNOT matrix is [`cnot_action`].
pub proof fn lemma_cnot_action(s: Seq<int>)
    requires
        s.len() == 4,
    ensures
        transformed(s, cnot_rows()) == cnot_action(s),
{
    reveal_with_fuel(dot_column, 5);
    lemma_rescale_multiple(s[0]);
    lemma_rescale_multiple(s[1]);
    lemma_rescale_multiple(s[2]);
    lemma_rescale_multiple(s[3]);
    assert(s[0] * 0 == 0 && s[1] * 0 == 0 && s[2] * 0 == 0 && s[3] * 0 == 0)
        by (nonlinear_arith);
    assert(transformed(s, cnot_rows()) =~= cnot_action(s));
}

/// The joint state of two single qubits, amplitude by amplitude.
pub proof fn lemma_tensor_of_pair(a: Seq<int>, b: Seq<int>)
    requires
        a.len() == 2,
        b.len() == 2,
    ensures
        tensor(a, b) == seq![
            rescale(a[0] * b[0]),
            rescale(a[0] * b[1]),
            rescale(a[1] * b[0]),
            rescale(a[1] * b[1]),
        ],
{
    assert(a.len() * b.len() == 4) by (nonlinear_arith)
        requires
            a.len() == 2,
            b.len() == 2,
    ;
    assert(tensor(a, b) =~= seq![
        rescale(a[0] * b[0]),
        rescale(a[0] * b[1]),
        rescale(a[1] * b[0]),
        rescale(a[1] * b[1]),
    ]);
}

/// The control and the target after a CNOT gate, amplitude by amplitude.
pub proof fn lemma_cnot_pair(control: Seq<int>, target: Seq<int>)
    requires
        control.len() == 2,
        target.len() == 2,
    ensures
        cnot_pair(control, target).0 == seq![
            rescale(control[0] * target[0]),
            rescale(control[0] * target[1]),
        ],
        cnot_pair(control, target).1 == seq![
            rescale(control[1] * target[1]),
            rescale(control[1] * target[0]),
        ],
{
    lemma_tensor_of_pair(control, target);
    let joint = tensor(control, target);
    lemma_cnot_action(joint);
    assert(lower_half(cnot_action(joint)) =~= seq![
        rescale(control[0] * target[0]),
        rescale(control[0] * target[1]),
    ]);
    assert(upper_half(cnot_action(joint)) =~= seq![
        rescale(control[1] * target[1]),
        rescale(control[1] * target[0]),
    ]);
}

/// Two rows of two entries in [-1, 1] make a valid matrix.
proof fn lemma_valid_square_2(rows: Seq<Seq<int>>)
    requires
        rows.len() == 2,
        rows[0].len() == 2,
        rows[1].len() == 2,
        in_unit(rows[0][0]),
        in_unit(rows[0][1]),
        in_unit(rows[1][0]),
        in_unit(rows[1][1]),
    ensures
        valid_matrix(rows),
{
    assert forall|r: int| 0 <= r < rows.len() implies (#[trigger] rows[r]).len() == rows.len() by {
        assert(r == 0 || r == 1);
    }
    assert forall|r: int, c: int| 0 <= r < rows.len() && 0 <= c < rows[r].len() implies in_unit(
        #[trigger] rows[r][c],
    ) by {
        assert(r == 0 || r == 1);
        assert(c == 0 || c == 1);
    }
}

/// Four rows of four entries in [-1, 1] make a valid matrix.
proof fn lemma_valid_square_4(rows: Seq<Seq<int>>)
    requires
        rows.len() == 4,
        forall|r: int| 0 <= r < 4 ==> (#[trigger] rows[r]).len() == 4,
        forall|r: int, c: int| 0 <= r < 4 && 0 <= c < 4 ==> in_unit(#[trigger] rows[r][c]),
    ensures
        valid_matrix(rows),
{
}

/// Builds a small matrix from rows that are known to be valid.
fn fixed_matrix(rows: Vec<Vec<i64>>) -> (m: GateMatrix)
    requires
        valid_matrix(rows_of(rows@)),
        rows.len() <= 4,
    ensures
        m@ == rows_of(rows@),
{
    assert(rows.len() * rows.len() <= usize::MAX) by (nonlinear_arith)
        requires
            rows.len() <= 4,
            usize::MAX >= 16,
    ;
    GateMatrix::from_rows(rows).unwrap()
}

/// The producers of the fixed matrices.
#[derive(Debug)]
pub struct Logic;

/// The gates on one qubit.
#[derive(Debug)]
pub struct Logic11;

/// The gates on two qubits.
#[derive(Debug)]
pub struct Logic22;

impl Logic {
    /// The Hadamard matrix.
    pub fn hadamard_matrix() -> (m: GateMatrix)
        ensures
            m@ == hadamard_rows(),
    {
        let h: i64 = FRAC_1_SQRT_2;
        let minus_h: i64 = -FRAC_1_SQRT_2;
        let rows: Vec<Vec<i64>> = vec![vec![h, h], vec![h, minus_h]];
        proof {
            assert(rows_of(rows@) =~~= hadamard_rows());
            lemma_valid_square_2(hadamard_rows());
        }
        fixed_matrix(rows)
    }

    /// The Pauli-X matrix.
    pub fn pauli_x_matrix() -> (m: GateMatrix)
        ensures
            m@ == pauli_x_rows(),
    {
        let rows: Vec<Vec<i64>> = vec![vec![0, SCALE], vec![SCALE, 0]];
        proof {
            assert(rows_of(rows@) =~~= pauli_x_rows());
            lemma_valid_square_2(pauli_x_rows());
        }
        fixed_matrix(rows)
    }

    /// The Pauli-Y matrix, without its imaginary unit.
    pub fn pauli_y_matrix() -> (m: GateMatrix)
        ensures
            m@ == pauli_y_rows(),
    {
        let minus_one: i64 = -SCALE;
        let rows: Vec<Vec<i64>> = vec![vec![0, minus_one], vec![SCALE, 0]];
        proof {
            assert(rows_of(rows@) =~~= pauli_y_rows());
            lemma_valid_square_2(pauli_y_rows());
        }
        fixed_matrix(rows)
    }

    /// The Pauli-Z matrix.
    pub fn pauli_z_matrix() -> (m: GateMatrix)
        ensures
            m@ == pauli_z_rows(),
    {
        let minus_one: i64 = -SCALE;
        let rows: Vec<Vec<i64>> = vec![vec![SCALE, 0], vec![0, minus_one]];
        proof {
            assert(rows_of(rows@) =~~= pauli_z_rows());
            lemma_valid_square_2(pauli_z_rows());
        }
        fixed_matrix(rows)
    }

    /// The phase matrix.
    pub fn phase_matrix() -> (m: GateMatrix)
        ensures
            m@ == phase_rows(),
    {
        let rows: Vec<Vec<i64>> = vec![vec![SCALE, 0], vec![0, FRAC_1_SQRT_2]];
        proof {
            assert(rows_of(rows@) =~~= phase_rows());
            lemma_valid_square_2(phase_rows());
        }
        fixed_matrix(rows)
    }

    /// The phase-inverse matrix.
    pub fn phase_inverse_matrix() -> (m: GateMatrix)
        ensures
            m@ == phase_inverse_rows(),
    {
        let minus_h: i64 = -FRAC_1_SQRT_2;
        let rows: Vec<Vec<i64>> = vec![vec![SCALE, 0], vec![0, minus_h]];
        proof {
            assert(rows_of(rows@) =~~= phase_inverse_rows());
            lemma_valid_square_2(phase_inverse_rows());
        }
        fixed_matrix(rows)
    }

    /// The T matrix.
    pub fn t_matrix() -> (m: GateMatrix)
        ensures
            m@ == t_rows(),
    {
        Logic::phase_matrix()
    }

    /// The T-inverse matrix.
    pub fn t_inverse_matrix() -> (m: GateMatrix)
        ensures
            m@ == t_inverse_rows(),
    {
        Logic::phase_inverse_matrix()
    }

    /// The CNOT matrix.
    pub fn cnot_matrix() -> (m: GateMatrix)
        ensures
            m@ == cnot_rows(),
    {
        let rows: Vec<Vec<i64>> = vec![
            vec![SCALE, 0, 0, 0],
            vec![0, SCALE, 0, 0],
            vec![0, 0, 0, SCALE],
            vec![0, 0, SCALE, 0],
        ];
        proof {
            assert(rows_of(rows@) =~~= cnot_rows());
            lemma_valid_square_4(cnot_rows());
        }
        fixed_matrix(rows)
    }
}

impl Logic11 {
    /// A gate on one qubit whose matrix cannot take an amplitude out of
    /// [-1, 1].
    fn apply_bounded(q: &mut Qubit, matrix: &GateMatrix) -> (result: Result<(), QuantumError>)
        requires
            matrix@.len() == 2,
            old(q)@.len() == 2 ==> amplitudes_in_unit(transformed(old(q)@, matrix@)),
        ensures
            match result {
                Ok(()) => {
                    &&& old(q)@.len() == 2
                    &&& final(q)@ == transformed(old(q)@, matrix@)
                },
                Err(e) => {
                    &&& e == QuantumError::DimensionMismatch
                    &&& old(q)@.len() != 2
                    &&& final(q)@ == old(q)@
                },
            },
            valid_state(final(q)@),
    {
        q.apply_matrix(matrix)
    }

    /// The Hadamard gate: takes the two amplitudes to their sum and their
    /// difference, each times 1/sqrt(2).
    ///
    /// Refused with `DimensionMismatch` unless `q` is a single qubit, and
    /// with `InvalidProbability` if one of the new amplitudes would leave
    /// [-1, 1], which happens to no state of unit norm. A refused call
    /// leaves `q` as it was.
    pub fn hadamard(q: &mut Qubit) -> (result: Result<(), QuantumError>)
        ensures
            match result {
                Ok(()) => {
                    &&& old(q)@.len() == 2
                    &&& amplitudes_in_unit(hadamard_action(old(q)@))
                    &&& final(q)@ == hadamard_action(old(q)@)
                    &&& final(q)@ == transformed(old(q)@, hadamard_rows())
                },
                Err(QuantumError::DimensionMismatch) => {
                    &&& old(q)@.len() != 2
                    &&& final(q)@ == old(q)@
                },
                Err(QuantumError::InvalidProbability) => {
                    &&& old(q)@.len() == 2
                    &&& !amplitudes_in_unit(hadamard_action(old(q)@))
                    &&& final(q)@ == old(q)@
                },
            },
            valid_state(final(q)@),
    {
        let matrix = Logic::hadamard_matrix();
        proof {
            if q@.len() == 2 {
                lemma_hadamard_action(q@);
            }
        }
        q.apply_matrix(&matrix)
    }

    /// The Pauli-X gate: exchanges the two amplitudes.
    ///
    /// Refused with `DimensionMismatch`, `q` unchanged, unless `q` is a
    /// single qubit.
    pub fn pauli_x(q: &mut Qubit) -> (result: Result<(), QuantumError>)
        ensures
            match result {
                Ok(()) => {
                    &&& old(q)@.len() == 2
                    &&& final(q)@ == pauli_x_action(old(q)@)
                    &&& final(q)@ == transformed(old(q)@, pauli_x_rows())
                },
                Err(e) => {
                    &&& e == QuantumError::DimensionMismatch
                    &&& old(q)@.len() != 2
                    &&& final(q)@ == old(q)@
                },
            },
            valid_state(final(q)@),
    {
        let matrix = Logic::pauli_x_matrix();
        let dim: usize = q.dim();
        proof {
            if dim == 2 {
                lemma_pauli_x_action(q@);
                assert(in_unit(q@[0]) && in_unit(q@[1]));
            }
        }
        Logic11::apply_bounded(q, &matrix)
    }

    /// The Pauli-Y gate over real amplitudes: exchanges the two amplitudes
    /// and negates the one that moves to index 1.
    ///
    /// Refused with `DimensionMismatch`, `q` unchanged, unless `q` is a
    /// single qubit.
    pub fn pauli_y(q: &mut Qubit) -> (result: Result<(), QuantumError>)
        ensures
            match result {
                Ok(()) => {
                    &&& old(q)@.len() == 2
                    &&& final(q)@ == pauli_y_action(old(q)@)
                    &&& final(q)@ == transformed(old(q)@, pauli_y_rows())
                },
                Err(e) => {
                    &&& e == QuantumError::DimensionMismatch
                    &&& old(q)@.len() != 2
                    &&& final(q)@ == old(q)@
                },
            },
            valid_state(final(q)@),
    {
        let matrix = Logic::pauli_y_matrix();
        let dim: usize = q.dim();
        proof {
            if dim == 2 {
                lemma_pauli_y_action(q@);
                assert(in_unit(q@[0]) && in_unit(q@[1]));
            }
        }
        Logic11::apply_bounded(q, &matrix)
    }

    /// The Pauli-Z gate: negates the second amplitude.
    ///
    /// Refused with `DimensionMismatch`, `q` unchanged, unless `q` is a
    /// single qubit.
    pub fn pauli_z(q: &mut Qubit) -> (result: Result<(), QuantumError>)
        ensures
            match result {
                Ok(()) => {
                    &&& old(q)@.len() == 2
                    &&& final(q)@ == pauli_z_action(old(q)@)
                    &&& final(q)@ == transformed(old(q)@, pauli_z_rows())
                },
                Err(e) => {
                    &&& e == QuantumError::DimensionMismatch
                    &&& old(q)@.len() != 2
                    &&& final(q)@ == old(q)@
                },
            },
            valid_state(final(q)@),
    {
        let matrix = Logic::pauli_z_matrix();
        let dim: usize = q.dim();
        proof {
            if dim == 2 {
                lemma_pauli_z_action(q@);
                assert(in_unit(q@[0]) && in_unit(q@[1]));
            }
        }
        Logic11::apply_bounded(q, &matrix)
    }

    /// The phase gate over real amplitudes: multiplies the second amplitude
    /// by 1/sqrt(2).
    ///
    /// Refused with `DimensionMismatch`, `q` unchanged, unless `q` is a
    /// single qubit.
    pub fn phase(q: &mut Qubit) -> (result: Result<(), QuantumError>)
        ensures
            match result {
                Ok(()) => {
                    &&& old(q)@.len() == 2
                    &&& final(q)@ == phase_action(old(q)@)
                    &&& final(q)@ == transformed(old(q)@, phase_rows())
                },
                Err(e) => {
                    &&& e == QuantumError::DimensionMismatch
                    &&& old(q)@.len() != 2
                    &&& final(q)@ == old(q)@
                },
            },
            valid_state(final(q)@),
    {
        let matrix = Logic::phase_matrix();
        let dim: usize = q.dim();
        proof {
            if dim == 2 {
                lemma_phase_action(q@);
                assert(in_unit(q@[0]) && in_unit(q@[1]));
                lemma_product_bound(q@[1], FRAC_1_SQRT_2 as int);
                lemma_rescale_unit(q@[1] * FRAC_1_SQRT_2);
            }
        }
        Logic11::apply_bounded(q, &matrix)
    }

    /// The phase-inverse gate over real amplitudes: multiplies the second
    /// amplitude by -1/sqrt(2). It does not undo the phase gate.
    ///
    /// Refused with `DimensionMismatch`, `q` unchanged, unless `q` is a
    /// single qubit.
    pub fn phase_inverse(q: &mut Qubit) -> (result: Result<(), QuantumError>)
        ensures
            match result {
                Ok(()) => {
                    &&& old(q)@.len() == 2
                    &&& final(q)@ == phase_inverse_action(old(q)@)
                    &&& final(q)@ == transformed(old(q)@, phase_inverse_rows())
                },
                Err(e) => {
                    &&& e == QuantumError::DimensionMismatch
                    &&& old(q)@.len() != 2
                    &&& final(q)@ == old(q)@
                },
            },
            valid_state(final(q)@),
    {
        let matrix = Logic::phase_inverse_matrix();
        let dim: usize = q.dim();
        proof {
            if dim == 2 {
                lemma_phase_inverse_action(q@);
                assert(in_unit(q@[0]) && in_unit(q@[1]));
                lemma_product_bound(q@[1], FRAC_1_SQRT_2 as int);
                lemma_rescale_unit(q@[1] * FRAC_1_SQRT_2);
            }
        }
        Logic11::apply_bounded(q, &matrix)
    }

    /// The T gate, which over real amplitudes is the phase gate.
    ///
    /// Refused with `DimensionMismatch`, `q` unchanged, unless `q` is a
    /// single qubit.
    pub fn t(q: &mut Qubit) -> (result: Result<(), QuantumError>)
        ensures
            match result {
                Ok(()) => {
                    &&& old(q)@.len() == 2
                    &&& final(q)@ == phase_action(old(q)@)
                    &&& final(q)@ == transformed(old(q)@, t_rows())
                },
                Err(e) => {
                    &&& e == QuantumError::DimensionMismatch
                    &&& old(q)@.len() != 2
                    &&& final(q)@ == old(q)@
                },
            },
            valid_state(final(q)@),
    {
        let matrix = Logic::t_matrix();
        let dim: usize = q.dim();
        proof {
            if dim == 2 {
                lemma_phase_action(q@);
                assert(in_unit(q@[0]) && in_unit(q@[1]));
                lemma_product_bound(q@[1], FRAC_1_SQRT_2 as int);
                lemma_rescale_unit(q@[1] * FRAC_1_SQRT_2);
            }
        }
        Logic11::apply_bounded(q, &matrix)
    }

    /// The T-inverse gate, which over real amplitudes is the phase-inverse
    /// gate.
    ///
    /// Refused with `DimensionMismatch`, `q` unchanged, unless `q` is a
    /// single qubit.
    pub fn t_inverse(q: &mut Qubit) -> (result: Result<(), QuantumError>)
        ensures
            match result {
                Ok(()) => {
                    &&& old(q)@.len() == 2
                    &&& final(q)@ == phase_inverse_action(old(q)@)
                    &&& final(q)@ == transformed(old(q)@, t_inverse_rows())
                },
                Err(e) => {
                    &&& e == QuantumError::DimensionMismatch
                    &&& old(q)@.len() != 2
                    &&& final(q)@ == old(q)@
                },
            },
            valid_state(final(q)@),
    {
        let matrix = Logic::t_inverse_matrix();
        let dim: usize = q.dim();
        proof {
            if dim == 2 {
                lemma_phase_inverse_action(q@);
                assert(in_unit(q@[0]) && in_unit(q@[1]));
                lemma_product_bound(q@[1], FRAC_1_SQRT_2 as int);
                lemma_rescale_unit(q@[1] * FRAC_1_SQRT_2);
            }
        }
        Logic11::apply_bounded(q, &matrix)
    }
}

impl Logic22 {
    /// The CNOT gate: joins control and target into one register of
    /// dimension 4, applies the CNOT matrix to it, parts the result into
    /// its halves and writes the lower half to `control` and the upper
    /// half to `target`.
    ///
    /// Refused with `DimensionMismatch`, both registers unchanged, unless
    /// both are single qubits.
    pub fn cnot(control: &mut Qubit, target: &mut Qubit) -> (result: Result<(), QuantumError>)
        ensures
            match result {
                Ok(()) => {
                    &&& old(control)@.len() == 2
                    &&& old(target)@.len() == 2
                    &&& (final(control)@, final(target)@) == cnot_pair(
                        old(control)@,
                        old(target)@,
                    )
                    &&& final(control)@ == seq![
                        rescale(old(control)@[0] * old(target)@[0]),
                        rescale(old(control)@[0] * old(target)@[1]),
                    ]
                    &&& final(target)@ == seq![
                        rescale(old(control)@[1] * old(target)@[1]),
                        rescale(old(control)@[1] * old(target)@[0]),
                    ]
                },
                Err(e) => {
                    &&& e == QuantumError::DimensionMismatch
                    &&& (old(control)@.len() != 2 || old(target)@.len() != 2)
                    &&& final(control)@ == old(control)@
                    &&& final(target)@ == old(target)@
                },
            },
            valid_state(final(control)@),
            valid_state(final(target)@),
    {
        let control_dim: usize = control.dim();
        let target_dim: usize = target.dim();
        if control_dim != 2 || target_dim != 2 {
            return Err(QuantumError::DimensionMismatch);
        }
        let matrix = Logic::cnot_matrix();
        assert(control@.len() * target@.len() == 4) by (nonlinear_arith)
            requires
                control@.len() == 2,
                target@.len() == 2,
        ;
        let mut joint = control.tensor_product(target);
        proof {
            lemma_cnot_action(joint@);
            lemma_cnot_pair(control@, target@);
            assert(in_unit(joint@[0]) && in_unit(joint@[1]) && in_unit(joint@[2]) && in_unit(
                joint@[3],
            ));
        }
        match joint.apply_matrix(&matrix) {
            Ok(()) => {
                let (lower, upper) = joint.split();
                *control = lower;
                *target = upper;
                Ok(())
            },
            Err(e) => Err(e),
        }
    }
}

} // verus!
