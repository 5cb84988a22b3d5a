//! Square matrices of fixed-point entries, the linear transforms that gates
//! apply to a register.

use vstd::prelude::*;
use vstd::arithmetic::div_mod::lemma_fundamental_div_mod_converse;
use crate::error::QuantumError;
use crate::fixed::{in_unit, SCALE};

verus! {

/// The rows that a vector of vectors holds, as mathematical integers.
pub open spec fn rows_of(rows: Seq<Vec<i64>>) -> Seq<Seq<int>> {
    Seq::new(rows.len(), |r: int| Seq::new(rows[r].len() as nat, |c: int| rows[r][c] as int))
}

/// Every row is as long as there are rows.
pub open spec fn is_square(rows: Seq<Seq<int>>) -> bool {
    forall|r: int| 0 <= r < rows.len() ==> (#[trigger] rows[r]).len() == rows.len()
}

/// Every entry stands for a real number in [-1, 1].
pub open spec fn entries_in_unit(rows: Seq<Seq<int>>) -> bool {
    forall|r: int, c: int|
        0 <= r < rows.len() && 0 <= c < rows[r].len() ==> in_unit(#[trigger] rows[r][c])
}

/// A square matrix whose entries all lie in [-1, 1], as the entries of any
/// orthogonal matrix do.
pub open spec fn valid_matrix(rows: Seq<Seq<int>>) -> bool {
    is_square(rows) && entries_in_unit(rows)
}

/// An immutable `dim x dim` matrix of fixed-point numbers in [-1, 1].
#[derive(Debug)]
pub struct GateMatrix {
    dim: usize,
    /// The entries row by row: row `r`, column `c` is at `r * dim + c`.
    entries: Vec<i64>,
}

impl View for GateMatrix {
    type V = Seq<Seq<int>>;

    /// The matrix as a sequence of rows.
    closed spec fn view(&self) -> Seq<Seq<int>> {
        Seq::new(
            self.dim as nat,
            |r: int| Seq::new(self.dim as nat, |c: int| self.entries@[r * self.dim + c] as int),
        )
    }
}

impl Clone for GateMatrix {
    /// A matrix with the same entries.
    fn clone(&self) -> (copy: Self)
        ensures
            copy@ == self@,
    {
        proof {
            use_type_invariant(self);
        }
        let mut entries: Vec<i64> = Vec::new();
        let mut k: usize = 0;
        while k < self.entries.len()
            invariant
                k <= self.entries.len(),
                entries.len() == k,
                forall|p: int| 0 <= p < k ==> #[trigger] entries[p] == self.entries[p],
            decreases self.entries.len() - k,
        {
            entries.push(self.entries[k]);
            k += 1;
        }
        let copy = GateMatrix { dim: self.dim, entries };
        assert(copy@ =~= self@) by {
            assert forall|r: int| 0 <= r < self.dim implies #[trigger] copy@[r] =~= self@[r] by {
                assert forall|c: int| 0 <= c < self.dim implies copy@[r][c] == self@[r][c] by {
                    lemma_flat_index(self.dim as int, r, c);
                }
            }
        }
        copy
    }
}

/// The place of row `r`, column `c` in a row-by-row layout, and back.
proof fn lemma_flat_index(dim: int, r: int, c: int)
    requires
        0 <= r < dim,
        0 <= c < dim,
    ensures
        0 <= r * dim + c < dim * dim,
        (r * dim + c) / dim == r,
        (r * dim + c) % dim == c,
{
    assert(0 <= r * dim + c < dim * dim) by (nonlinear_arith)
        requires
            0 <= r < dim,
            0 <= c < dim,
    ;
    assert(r * dim == dim * r) by (nonlinear_arith);
    lemma_fundamental_div_mod_converse(r * dim + c, dim, r, c);
}

/// The row and column of place `k` in a row-by-row layout.
proof fn lemma_flat_position(dim: int, k: int)
    requires
        0 <= dim,
        0 <= k < dim * dim,
    ensures
        0 <= k / dim < dim,
        0 <= k % dim < dim,
        (k / dim) * dim + k % dim == k,
{
    assert(dim > 0) by (nonlinear_arith)
        requires
            0 <= dim,
            0 <= k < dim * dim,
    ;
    assert(0 <= k / dim < dim && 0 <= k % dim < dim && (k / dim) * dim + k % dim == k)
        by (nonlinear_arith)
        requires
            0 <= k < dim * dim,
            dim > 0,
    ;
}

impl GateMatrix {
    #[verifier::type_invariant]
    spec fn well_formed(&self) -> bool {
        &&& self.entries.len() == self.dim * self.dim
        &&& forall|k: int|
            0 <= k < self.entries.len() ==> in_unit(#[trigger] self.entries[k] as int)
    }

    /// Builds the matrix whose rows are `rows`.
    ///
    /// Refused with `DimensionMismatch` unless every row is as long as there
    /// are rows (and the square of that number is a length the machine can
    /// hold), and otherwise with `InvalidProbability` if some entry lies
    /// outside [-1, 1].
    pub fn from_rows(rows: Vec<Vec<i64>>) -> (result: Result<GateMatrix, QuantumError>)
        ensures
            match result {
                Ok(m) => {
                    &&& m@ == rows_of(rows@)
                    &&& valid_matrix(rows_of(rows@))
                    &&& rows.len() * rows.len() <= usize::MAX
                },
                Err(QuantumError::DimensionMismatch) => {
                    !is_square(rows_of(rows@)) || rows.len() * rows.len() > usize::MAX
                },
                Err(QuantumError::InvalidProbability) => {
                    &&& is_square(rows_of(rows@))
                    &&& rows.len() * rows.len() <= usize::MAX
                    &&& !entries_in_unit(rows_of(rows@))
                },
            },
    {
        let dim: usize = rows.len();
        let ghost math = rows_of(rows@);
        let mut r: usize = 0;
        while r < dim
            invariant
                r <= dim,
                dim == rows.len(),
                math == rows_of(rows@),
                forall|k: int| 0 <= k < r ==> (#[trigger] math[k]).len() == dim,
            decreases dim - r,
        {
            if rows[r].len() != dim {
                assert(math[r as int].len() != math.len());
                return Err(QuantumError::DimensionMismatch);
            }
            r += 1;
        }
        let total: usize = match dim.checked_mul(dim) {
            Some(t) => t,
            None => {
                return Err(QuantumError::DimensionMismatch);
            },
        };
        let mut entries: Vec<i64> = Vec::new();
        let mut k: usize = 0;
        while k < total
            invariant
                k <= total,
                total == dim * dim,
                dim == rows.len(),
                math == rows_of(rows@),
                is_square(math),
                entries.len() == k,
                forall|p: int|
                    0 <= p < k ==> #[trigger] entries[p] as int == math[p / (dim as int)][p % (
                    dim as int)] && in_unit(entries[p] as int),
            decreases total - k,
        {
            proof {
                lemma_flat_position(dim as int, k as int);
            }
            let row: usize = k / dim;
            let col: usize = k % dim;
            assert(math[row as int].len() == dim);
            let e: i64 = rows[row][col];
            if e < -SCALE || e > SCALE {
                assert(!in_unit(math[row as int][col as int]));
                return Err(QuantumError::InvalidProbability);
            }
            entries.push(e);
            k += 1;
        }
        let m = GateMatrix { dim, entries };
        proof {
            assert forall|r: int, c: int|
                0 <= r < math.len() && 0 <= c < math[r].len() implies in_unit(
                #[trigger] math[r][c],
            ) by {
                lemma_flat_index(dim as int, r, c);
                assert(entries[r * dim + c] as int == math[r][c]);
            }
            assert forall|r: int| 0 <= r < dim implies #[trigger] m@[r] == math[r] by {
                assert forall|c: int| 0 <= c < dim implies m@[r][c] == math[r][c] by {
                    lemma_flat_index(dim as int, r, c);
                    assert(entries[r * dim + c] as int == math[r][c]);
                }
                assert(m@[r] =~= math[r]);
            }
            assert(m@ =~= math);
        }
        Ok(m)
    }

    /// The number of rows, which is also the number of columns.
    pub fn dim(&self) -> (d: usize)
        ensures
            d == self@.len(),
            valid_matrix(self@),
            d * d <= usize::MAX,
    {
        proof {
            use_type_invariant(self);
            assert forall|r: int, c: int|
                0 <= r < self@.len() && 0 <= c < self@[r].len() implies in_unit(
                #[trigger] self@[r][c],
            ) by {
                lemma_flat_index(self.dim as int, r, c);
            }
        }
        self.dim
    }

    /// The entry in row `row` and column `col`.
    pub fn entry(&self, row: usize, col: usize) -> (e: i64)
        requires
            row < self@.len(),
            col < self@.len(),
        ensures
            e == self@[row as int][col as int],
            in_unit(e as int),
    {
        proof {
            use_type_invariant(self);
            lemma_flat_index(self.dim as int, row as int, col as int);
        }
        self.entries[row * self.dim + col]
    }
}

} // verus!
