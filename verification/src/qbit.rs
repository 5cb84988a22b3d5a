//! The register: a vector of amplitudes that gates transform in place.

use vstd::prelude::*;
use vstd::arithmetic::power2::is_pow2;
use crate::entropy::EntropySource;
use crate::error::QuantumError;
use crate::fixed::{
    in_unit, lemma_product_bound, mul_fixed, rescale, rescale_wide, scale_squared, SCALE,
};
use crate::matrix::{valid_matrix, GateMatrix};
use crate::model::{
    amplitudes_in_unit, dot_column, ground_state, lemma_half_is_power_of_two,
    lemma_product_is_power_of_two, lemma_tensor_position, lower_half, outcome, tensor,
    transformed, upper_half, valid_state, zero_probability,
};

verus! {

/// A register of one or more qubits: `dim` amplitudes, where `dim` is two
/// to the number of qubits. Each amplitude is a fixed-point number in
/// [-1, 1] whose square is the probability of reading the basis state at
/// its index.
#[derive(Debug)]
pub struct Qubit {
    state: Vec<i64>,
}

impl View for Qubit {
    type V = Seq<int>;

    /// The amplitudes, in order.
    closed spec fn view(&self) -> Seq<int> {
        Seq::new(self.state.len() as nat, |i: int| self.state[i] as int)
    }
}

impl Clone for Qubit {
    /// A register with the same amplitudes.
    fn clone(&self) -> (copy: Self)
        ensures
            copy@ == self@,
    {
        proof {
            use_type_invariant(self);
        }
        let mut state: Vec<i64> = Vec::new();
        let mut i: usize = 0;
        while i < self.state.len()
            invariant
                i <= self.state.len(),
                state.len() == i,
                forall|k: int| 0 <= k < i ==> #[trigger] state[k] == self.state[k],
            decreases self.state.len() - i,
        {
            state.push(self.state[i]);
            i += 1;
        }
        assert(Seq::new(state.len() as nat, |k: int| state[k] as int) =~= self@);
        Qubit { state }
    }
}

/// Whether `n` is a power of two.
pub fn is_power_of_two(n: usize) -> (b: bool)
    ensures
        b == is_pow2(n as int),
{
    if n == 0 {
        proof {
            reveal(is_pow2);
        }
        return false;
    }
    let mut m: usize = n;
    while m % 2 == 0
        invariant
            m > 0,
            is_pow2(m as int) == is_pow2(n as int),
        decreases m,
    {
        proof {
            reveal(is_pow2);
        }
        m = m / 2;
    }
    proof {
        reveal(is_pow2);
    }
    m == 1
}

/// A number whose square the machine can hold is below 2^32.
proof fn lemma_square_fits(d: int)
    requires
        0 <= d,
        d * d <= usize::MAX,
    ensures
        d < 0x1_0000_0000,
{
    assert(d < 0x1_0000_0000) by (nonlinear_arith)
        requires
            0 <= d,
            d * d <= 0xffff_ffff_ffff_ffff,
    ;
}

impl Qubit {
    #[verifier::type_invariant]
    spec fn well_formed(&self) -> bool {
        valid_state(self@)
    }

    /// A register of dimension `dim` in the ground state: amplitude 1 at
    /// index 0 and 0 at every other index. The caller sees to it that
    /// `dim` is a power of two.
    pub fn new(dim: usize) -> (q: Qubit)
        requires
            is_pow2(dim as int),
        ensures
            q@ == ground_state(dim as nat),
            valid_state(q@),
    {
        let mut state: Vec<i64> = Vec::new();
        state.push(SCALE);
        while state.len() < dim
            invariant
                1 <= state.len() <= dim || dim == 0,
                state[0] == SCALE,
                forall|i: int| 1 <= i < state.len() ==> state[i] == 0,
            decreases dim - state.len(),
        {
            state.push(0);
        }
        proof {
            reveal(is_pow2);
        }
        let q = Qubit { state };
        assert(q@ =~= ground_state(dim as nat));
        q
    }

    /// Applies a linear transform in place: the new amplitude `i` is the
    /// sum over `j` of amplitude `j` times `matrix[j][i]`, rounded to the
    /// grid once.
    ///
    /// Refused with `DimensionMismatch` if the matrix is not of the
    /// register's dimension, and with `InvalidProbability` if a new
    /// amplitude would leave [-1, 1], which no orthogonal matrix does to a
    /// state of unit norm. A refused call leaves the register as it was.
    pub fn apply_matrix(&mut self, matrix: &GateMatrix) -> (result: Result<(), QuantumError>)
        ensures
            match result {
                Ok(()) => {
                    &&& matrix@.len() == old(self)@.len()
                    &&& amplitudes_in_unit(transformed(old(self)@, matrix@))
                    &&& final(self)@ == transformed(old(self)@, matrix@)
                },
                Err(QuantumError::DimensionMismatch) => {
                    &&& matrix@.len() != old(self)@.len()
                    &&& final(self)@ == old(self)@
                },
                Err(QuantumError::InvalidProbability) => {
                    &&& matrix@.len() == old(self)@.len()
                    &&& !amplitudes_in_unit(transformed(old(self)@, matrix@))
                    &&& final(self)@ == old(self)@
                },
            },
            valid_state(final(self)@),
    {
        proof {
            use_type_invariant(&*self);
        }
        let ghost before = self@;
        let ghost rows = matrix@;
        let dim: usize = self.state.len();
        if matrix.dim() != dim {
            return Err(QuantumError::DimensionMismatch);
        }
        proof {
            lemma_square_fits(dim as int);
        }
        let mut new_state: Vec<i64> = Vec::new();
        let mut i: usize = 0;
        while i < dim
            invariant
                i <= dim,
                dim == self.state.len(),
                dim < 0x1_0000_0000,
                before == self@,
                rows == matrix@,
                rows.len() == dim,
                valid_state(before),
                valid_matrix(rows),
                new_state.len() == i,
                forall|k: int|
                    0 <= k < i ==> #[trigger] new_state[k] as int == rescale(
                        dot_column(before, rows, k, dim as nat),
                    ) && in_unit(new_state[k] as int),
            decreases dim - i,
        {
            let mut sum: i128 = 0;
            let mut j: usize = 0;
            while j < dim
                invariant
                    j <= dim,
                    i < dim,
                    dim == self.state.len(),
                    dim < 0x1_0000_0000,
                    before == self@,
                    rows == matrix@,
                    rows.len() == dim,
                    valid_state(before),
                    valid_matrix(rows),
                    sum == dot_column(before, rows, i as int, j as nat),
                    -(j * scale_squared()) <= sum <= j * scale_squared(),
                decreases dim - j,
            {
                let a: i64 = self.state[j];
                let m: i64 = matrix.entry(j, i);
                proof {
                    assert(a as int == before[j as int]);
                    lemma_product_bound(a as int, m as int);
                }
                sum = sum + (a as i128) * (m as i128);
                j += 1;
            }
            let scaled: i128 = rescale_wide(sum);
            if scaled < -(SCALE as i128) || scaled > SCALE as i128 {
                assert(!in_unit(transformed(before, rows)[i as int]));
                return Err(QuantumError::InvalidProbability);
            }
            new_state.push(scaled as i64);
            i += 1;
        }
        proof {
            let after = Seq::new(dim as nat, |k: int| new_state[k] as int);
            assert(after =~= transformed(before, rows));
        }
        self.state = new_state;
        Ok(())
    }

    /// A register that holds the given amplitudes.
    ///
    /// Refused with `DimensionMismatch` unless their number is a power of
    /// two, and otherwise with `InvalidProbability` if one of them lies
    /// outside [-1, 1].
    pub fn from_amplitudes(state: Vec<i64>) -> (result: Result<Qubit, QuantumError>)
        ensures
            match result {
                Ok(q) => {
                    &&& q@ == Seq::new(state.len() as nat, |i: int| state[i] as int)
                    &&& valid_state(q@)
                },
                Err(QuantumError::DimensionMismatch) => !is_pow2(state.len() as int),
                Err(QuantumError::InvalidProbability) => {
                    &&& is_pow2(state.len() as int)
                    &&& exists|i: int| 0 <= i < state.len() && !in_unit(state[i] as int)
                },
            },
    {
        if !is_power_of_two(state.len()) {
            return Err(QuantumError::DimensionMismatch);
        }
        let mut i: usize = 0;
        while i < state.len()
            invariant
                i <= state.len(),
                is_pow2(state.len() as int),
                forall|k: int| 0 <= k < i ==> in_unit(#[trigger] state[k] as int),
            decreases state.len() - i,
        {
            if state[i] < -SCALE || state[i] > SCALE {
                assert(!in_unit(state[i as int] as int));
                return Err(QuantumError::InvalidProbability);
            }
            i += 1;
        }
        let q = Qubit { state };
        assert(q@ =~= Seq::new(state.len() as nat, |i: int| state[i] as int));
        Ok(q)
    }

    /// The joint register of `self` and `q2`: its amplitude at
    /// `i * q2.dim() + j` is the product of amplitude `i` of `self` and
    /// amplitude `j` of `q2`. Neither register is changed. The product of
    /// the two dimensions has to be a length that the machine can hold.
    pub fn tensor_product(&self, q2: &Qubit) -> (joint: Qubit)
        requires
            self@.len() * q2@.len() <= usize::MAX,
        ensures
            joint@ == tensor(self@, q2@),
            joint@.len() == self@.len() * q2@.len(),
            valid_state(joint@),
    {
        proof {
            use_type_invariant(self);
            use_type_invariant(q2);
            lemma_product_is_power_of_two(self@.len() as int, q2@.len() as int);
        }
        let n: usize = self.state.len();
        let m: usize = q2.state.len();
        let total: usize = n * m;
        let mut state: Vec<i64> = Vec::new();
        let mut k: usize = 0;
        while k < total
            invariant
                k <= total,
                total == n * m,
                n == self.state.len(),
                m == q2.state.len(),
                valid_state(self@),
                valid_state(q2@),
                state.len() == k,
                forall|p: int|
                    0 <= p < k ==> #[trigger] state[p] as int == rescale(
                        self@[p / (m as int)] * q2@[p % (m as int)],
                    ) && in_unit(state[p] as int),
            decreases total - k,
        {
            proof {
                lemma_tensor_position(n as int, m as int, k as int);
            }
            let a: i64 = self.state[k / m];
            let b: i64 = q2.state[k % m];
            assert(a as int == self@[(k / m) as int]);
            assert(b as int == q2@[(k % m) as int]);
            let product: i64 = mul_fixed(a, b);
            state.push(product);
            k += 1;
        }
        let joint = Qubit { state };
        assert(joint@ =~= tensor(self@, q2@));
        joint
    }

    /// Parts the register into two of half its dimension: the first takes
    /// the amplitudes of the lower half of the indices, the second those of
    /// the upper half, as they stand.
    ///
    /// This undoes a tensor product only in the sense of the indices. The
    /// halves of a joint state are in general not the states of its two
    /// parts, least of all once a two-qubit gate has correlated them.
    ///
    /// A register of a single amplitude has no halves: the dimension has
    /// to be at least 2.
    pub fn split(self) -> (halves: (Qubit, Qubit))
        requires
            self@.len() >= 2,
        ensures
            halves.0@ == lower_half(self@),
            halves.1@ == upper_half(self@),
            valid_state(halves.0@),
            valid_state(halves.1@),
    {
        proof {
            use_type_invariant(&self);
            lemma_half_is_power_of_two(self@.len() as int);
        }
        let half: usize = self.state.len() / 2;
        let mut lower: Vec<i64> = Vec::new();
        let mut upper: Vec<i64> = Vec::new();
        let mut i: usize = 0;
        while i < half
            invariant
                i <= half,
                half * 2 == self.state.len(),
                lower.len() == i,
                upper.len() == i,
                forall|k: int| 0 <= k < i ==> #[trigger] lower[k] == self.state[k],
                forall|k: int| 0 <= k < i ==> #[trigger] upper[k] == self.state[k + half],
            decreases half - i,
        {
            lower.push(self.state[i]);
            upper.push(self.state[i + half]);
            i += 1;
        }
        proof {
            let low = Seq::new(half as nat, |k: int| lower[k] as int);
            let high = Seq::new(half as nat, |k: int| upper[k] as int);
            assert(low =~= lower_half(self@));
            assert(high =~= upper_half(self@));
        }
        (Qubit { state: lower }, Qubit { state: upper })
    }

    /// The probability of reading all zeros: the square of amplitude 0 and
    /// of that amplitude alone, whatever the dimension.
    pub fn probability(&self) -> (p: i64)
        ensures
            p == zero_probability(self@),
            0 <= p <= SCALE,
    {
        proof {
            use_type_invariant(self);
            reveal(is_pow2);
            lemma_product_bound(self@[0], self@[0]);
            assert(self@[0] * self@[0] >= 0) by (nonlinear_arith);
        }
        mul_fixed(self.state[0], self.state[0])
    }

    /// The bit that a measurement reads when its uniform sample from
    /// [0, 1) is `draw`: 0 if `draw` is below the probability of zero,
    /// else 1. The register is not changed: nothing collapses.
    pub fn measure_with(&self, draw: i64) -> (bit: u8)
        ensures
            bit == outcome(self@, draw as int),
            bit == 0 <==> draw < zero_probability(self@),
            bit == 0 || bit == 1,
    {
        if draw < self.probability() {
            0
        } else {
            1
        }
    }

    /// Measures the register: draws one uniform sample from [0, 1) and
    /// reads 0 if it falls below the probability of zero, else 1. The
    /// register is not changed.
    ///
    /// Which sample is drawn is a matter of chance, so the contract says
    /// what holds of every sample: a register that is certainly zero reads
    /// 0, and one that is certainly not reads 1.
    pub fn measure(&self, source: &mut EntropySource) -> (bit: u8)
        ensures
            exists|draw: int| 0 <= draw < SCALE && bit == outcome(self@, draw),
            bit == 0 || bit == 1,
            zero_probability(self@) == SCALE ==> bit == 0,
            zero_probability(self@) == 0 ==> bit == 1,
    {
        let draw: i64 = source.draw();
        let bit: u8 = self.measure_with(draw);
        assert(0 <= draw < SCALE && bit == outcome(self@, draw as int));
        bit
    }

    /// The number of amplitudes.
    pub fn dim(&self) -> (d: usize)
        ensures
            d == self@.len(),
            valid_state(self@),
    {
        proof {
            use_type_invariant(self);
        }
        self.state.len()
    }

    /// The amplitudes, in order.
    pub fn state(&self) -> (s: &Vec<i64>)
        ensures
            s.len() == self@.len(),
            forall|i: int| 0 <= i < s.len() ==> s[i] as int == self@[i],
            valid_state(self@),
    {
        proof {
            use_type_invariant(self);
        }
        &self.state
    }
}

} // verus!
