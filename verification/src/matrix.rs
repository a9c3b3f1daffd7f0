//! The fixed-dimension matrix engine and its column-vector specialization.
//!
//! Dimensions are part of the type: a `Matrix<R, C>` always has `R` rows of
//! `C` exact rational cells, and the shape-sensitive operations are only
//! offered between structurally compatible types. The one dynamically
//! checked entry point is [`Matrix::from_slice`], which rejects input of the
//! wrong shape with [`Error::DimensionMismatch`].

use vstd::prelude::*;

verus! {

use crate::Error;
use crate::rat::{
    Rat, lemma_add_cong, lemma_le_cong, lemma_mul_cong, lemma_norm, lemma_norm_nonneg,
    lemma_op_wf, lemma_rat_add_comm, lemma_rat_add_then_sub, lemma_rat_eq_trans, lemma_sub_cong,
    rat_add, rat_eq, rat_fits, rat_in_i64, rat_int, rat_le, rat_lt, rat_mul, rat_norm, rat_sub,
    rat_wf,
};

/// `m` is an `r` by `c` grid.
pub open spec fn mat_shape(m: Seq<Seq<(int, int)>>, r: int, c: int) -> bool {
    m.len() == r && forall|i: int| 0 <= i < m.len() ==> (#[trigger] m[i]).len() == c
}

/// Every cell of `m` is within the representation bounds of [`Rat`].
pub open spec fn mat_wf(m: Seq<Seq<(int, int)>>) -> bool {
    forall|i: int, j: int|
        0 <= i < m.len() && 0 <= j < m[i].len() ==> rat_in_i64(#[trigger] m[i][j])
}

/// Exact cell-wise equality of the rationals two grids denote.
pub open spec fn mat_eq_spec(a: Seq<Seq<(int, int)>>, b: Seq<Seq<(int, int)>>) -> bool {
    a.len() == b.len() && (forall|i: int| 0 <= i < a.len() ==> (#[trigger] a[i]).len()
        == b[i].len()) && (forall|i: int, j: int|
        0 <= i < a.len() && 0 <= j < a[i].len() ==> rat_eq(#[trigger] a[i][j], b[i][j]))
}

/// The exact cell-wise sum of two grids.
pub open spec fn mat_add_spec(a: Seq<Seq<(int, int)>>, b: Seq<Seq<(int, int)>>) -> Seq<
    Seq<(int, int)>,
> {
    Seq::new(a.len(), |i: int| Seq::new(a[i].len(), |j: int| rat_add(a[i][j], b[i][j])))
}

/// The exact cell-wise difference of two grids.
pub open spec fn mat_sub_spec(a: Seq<Seq<(int, int)>>, b: Seq<Seq<(int, int)>>) -> Seq<
    Seq<(int, int)>,
> {
    Seq::new(a.len(), |i: int| Seq::new(a[i].len(), |j: int| rat_sub(a[i][j], b[i][j])))
}

/// The exact Hadamard (cell-wise) product of two grids.
pub open spec fn mat_hadamard_spec(a: Seq<Seq<(int, int)>>, b: Seq<Seq<(int, int)>>) -> Seq<
    Seq<(int, int)>,
> {
    Seq::new(a.len(), |i: int| Seq::new(a[i].len(), |j: int| rat_mul(a[i][j], b[i][j])))
}

/// The exact product of every cell of `a` with the scalar `s`.
pub open spec fn mat_scale_spec(a: Seq<Seq<(int, int)>>, s: (int, int)) -> Seq<
    Seq<(int, int)>,
> {
    Seq::new(a.len(), |i: int| Seq::new(a[i].len(), |j: int| rat_mul(a[i][j], s)))
}

/// A rectangular grid of exact rational scalars whose dimensions are fixed
/// by the type.
#[derive(Debug)]
pub struct Matrix<const R: usize, const C: usize> {
    rows: Vec<Vec<Rat>>,
}

/// A column vector is a matrix with a single column.
pub type Vector<const N: usize> = Matrix<N, 1>;

impl<const R: usize, const C: usize> View for Matrix<R, C> {
    type V = Seq<Seq<(int, int)>>;

    closed spec fn view(&self) -> Seq<Seq<(int, int)>> {
        Seq::new(
            self.rows@.len(),
            |i: int| Seq::new(self.rows@[i]@.len(), |j: int| self.rows@[i]@[j]@),
        )
    }
}

impl<const R: usize, const C: usize> Matrix<R, C> {
    /// The dimensions always match the type, and every cell is within the
    /// scalar representation bounds.
    #[verifier::type_invariant]
    pub open spec fn inv(self) -> bool {
        mat_shape(self@, R as int, C as int) && mat_wf(self@)
    }

    /// Build from a complete grid of scalars whose shape matches the
    /// declared dimensions; with the shape given by the type, this cannot
    /// fail.
    pub fn new(values: Vec<Vec<Rat>>) -> (r: Matrix<R, C>)
        requires
            values@.len() == R,
            forall|i: int| 0 <= i < R ==> (#[trigger] values@[i])@.len() == C,
        ensures
            mat_shape(r@, R as int, C as int),
            mat_wf(r@),
            forall|i: int, j: int|
                0 <= i < R && 0 <= j < C ==> #[trigger] r@[i][j] == values@[i]@[j]@,
    {
        let mut i: usize = 0;
        while i < R
            invariant
                i <= R,
                values@.len() == R,
                forall|ii: int| 0 <= ii < R ==> (#[trigger] values@[ii])@.len() == C,
                forall|ii: int, jj: int|
                    0 <= ii < i && 0 <= jj < C ==> (#[trigger] values@[ii]@[jj]).wf(),
            decreases R - i,
        {
            let mut j: usize = 0;
            while j < C
                invariant
                    j <= C,
                    i < R,
                    values@.len() == R,
                    forall|ii: int| 0 <= ii < R ==> (#[trigger] values@[ii])@.len() == C,
                    forall|ii: int, jj: int|
                        0 <= ii < i && 0 <= jj < C ==> (#[trigger] values@[ii]@[jj]).wf(),
                    forall|jj: int| 0 <= jj < j ==> (#[trigger] values@[i as int]@[jj]).wf(),
                decreases C - j,
            {
                let c = values[i][j];
                proof {
                    use_type_invariant(c);
                }
                j += 1;
            }
            i += 1;
        }
        let m = Matrix { rows: values };
        proof {
            use_type_invariant(&m);
        }
        m
    }

    /// Build from dynamically sized input. Succeeds exactly when the input
    /// is `R` rows of `C` cells; otherwise reports `DimensionMismatch`.
    pub fn from_slice(values: &Vec<Vec<Rat>>) -> (r: Result<Matrix<R, C>, Error>)
        ensures
            (values@.len() == R && (forall|i: int|
                0 <= i < R ==> (#[trigger] values@[i])@.len() == C)) ==> (match r {
                Ok(m) => mat_shape(m@, R as int, C as int) && mat_wf(m@) && (forall|
                    i: int,
                    j: int,
                |
                    0 <= i < R && 0 <= j < C ==> #[trigger] m@[i][j] == values@[i]@[j]@),
                Err(_) => false,
            }),
            !(values@.len() == R && (forall|i: int|
                0 <= i < R ==> (#[trigger] values@[i])@.len() == C)) ==> r == Err::<
                Matrix<R, C>,
                Error,
            >(Error::DimensionMismatch),
    {
        if values.len() != R {
            return Err(Error::DimensionMismatch);
        }
        let mut rows: Vec<Vec<Rat>> = Vec::new();
        let mut i: usize = 0;
        while i < R
            invariant
                i <= R,
                values@.len() == R,
                rows@.len() == i,
                forall|ii: int| 0 <= ii < i ==> (#[trigger] values@[ii])@.len() == C,
                forall|ii: int| 0 <= ii < i ==> (#[trigger] rows@[ii])@ == values@[ii]@,
            decreases R - i,
        {
            if values[i].len() != C {
                return Err(Error::DimensionMismatch);
            }
            rows.push(values[i].clone());
            i += 1;
        }
        Ok(Matrix::<R, C>::new(rows))
    }

    /// Build a matrix of integer-valued scalars from dynamically sized
    /// input; the ergonomic way to write a literal matrix. Succeeds exactly
    /// when the input is `R` rows of `C` integers.
    pub fn from_ints(values: Vec<Vec<i32>>) -> (r: Result<Matrix<R, C>, Error>)
        ensures
            (values@.len() == R && (forall|i: int|
                0 <= i < R ==> (#[trigger] values@[i])@.len() == C)) ==> (match r {
                Ok(m) => mat_shape(m@, R as int, C as int) && mat_wf(m@) && (forall|
                    i: int,
                    j: int,
                |
                    0 <= i < R && 0 <= j < C ==> #[trigger] m@[i][j] == rat_int(
                        values@[i]@[j] as int,
                    )),
                Err(_) => false,
            }),
            !(values@.len() == R && (forall|i: int|
                0 <= i < R ==> (#[trigger] values@[i])@.len() == C)) ==> r == Err::<
                Matrix<R, C>,
                Error,
            >(Error::DimensionMismatch),
    {
        if values.len() != R {
            return Err(Error::DimensionMismatch);
        }
        let mut rows: Vec<Vec<Rat>> = Vec::new();
        let mut i: usize = 0;
        while i < R
            invariant
                i <= R,
                values@.len() == R,
                rows@.len() == i,
                forall|ii: int| 0 <= ii < i ==> (#[trigger] values@[ii])@.len() == C,
                forall|ii: int| 0 <= ii < i ==> (#[trigger] rows@[ii])@.len() == values@[ii]@.len(),
                forall|ii: int, jj: int|
                    0 <= ii < i && 0 <= jj < values@[ii]@.len() ==> (#[trigger] rows@[ii]@[jj])@
                        == rat_int(values@[ii]@[jj] as int),
            decreases R - i,
        {
            if values[i].len() != C {
                return Err(Error::DimensionMismatch);
            }
            let mut row: Vec<Rat> = Vec::new();
            let mut j: usize = 0;
            while j < C
                invariant
                    j <= C,
                    i < R,
                    values@.len() == R,
                    values@[i as int]@.len() == C,
                    row@.len() == j,
                    forall|jj: int|
                        0 <= jj < j ==> (#[trigger] row@[jj])@ == rat_int(
                            values@[i as int]@[jj] as int,
                        ),
                decreases C - j,
            {
                row.push(Rat::from_int(values[i][j] as i64));
                j += 1;
            }
            rows.push(row);
            i += 1;
        }
        Ok(Matrix::<R, C>::new(rows))
    }

    /// The scalar at row `i`, column `j`.
    pub fn at(&self, i: usize, j: usize) -> (r: Rat)
        requires
            i < R,
            j < C,
        ensures
            r@ == self@[i as int][j as int],
    {
        proof {
            use_type_invariant(self);
            assert(self@.len() == self.rows@.len());
            assert(self@[i as int].len() == self.rows@[i as int]@.len());
            assert(self@[i as int][j as int] == self.rows@[i as int]@[j as int]@);
        }
        self.rows[i][j]
    }

    /// A copy of the full grid of scalars.
    pub fn values(&self) -> (r: &Vec<Vec<Rat>>)
        ensures
            r@.len() == R,
            forall|i: int| 0 <= i < R ==> (#[trigger] r@[i])@.len() == C,
            forall|i: int, j: int|
                0 <= i < R && 0 <= j < C ==> (#[trigger] r@[i]@[j])@ == self@[i][j],
    {
        proof {
            use_type_invariant(self);
            assert(self@.len() == self.rows@.len());
            assert forall|i: int| 0 <= i < R implies (#[trigger] self.rows@[i])@.len()
                == C by {
                assert(self@[i].len() == self.rows@[i]@.len());
            }
            assert forall|i: int, j: int| 0 <= i < R && 0 <= j < C implies (
            #[trigger] self.rows@[i]@[j])@ == self@[i][j] by {}
        }
        &self.rows
    }

    /// Replace the scalar at row `i`, column `j`; every other cell is
    /// unchanged.
    pub fn set(&mut self, i: usize, j: usize, value: Rat)
        requires
            i < R,
            j < C,
        ensures
            mat_shape(final(self)@, R as int, C as int),
            final(self)@[i as int][j as int] == value@,
            forall|ii: int, jj: int|
                0 <= ii < R && 0 <= jj < C && !(ii == i && jj == j)
                    ==> #[trigger] final(self)@[ii][jj] == old(self)@[ii][jj],
    {
        proof {
            use_type_invariant(&*self);
            use_type_invariant(value);
        }
        let ghost prev = self@;
        let mut rows: Vec<Vec<Rat>> = Vec::new();
        let mut ii: usize = 0;
        while ii < R
            invariant
                ii <= R,
                i < R,
                j < C,
                self@ == prev,
                mat_shape(prev, R as int, C as int),
                rows@.len() == ii,
                forall|a: int| 0 <= a < ii ==> (#[trigger] rows@[a])@.len() == C,
                forall|a: int, b: int|
                    0 <= a < ii && 0 <= b < C && !(a == i && b == j) ==> (
                    #[trigger] rows@[a]@[b])@ == prev[a][b],
                forall|a: int, b: int|
                    0 <= a < ii && 0 <= b < C && a == i && b == j ==> (#[trigger] rows@[a]@[b])@
                        == value@,
            decreases R - ii,
        {
            let mut row: Vec<Rat> = Vec::new();
            let mut jj: usize = 0;
            while jj < C
                invariant
                    jj <= C,
                    ii < R,
                    i < R,
                    j < C,
                    self@ == prev,
                    mat_shape(prev, R as int, C as int),
                    row@.len() == jj,
                    forall|b: int|
                        0 <= b < jj && !(ii == i && b == j) ==> (#[trigger] row@[b])@
                            == prev[ii as int][b],
                    forall|b: int|
                        0 <= b < jj && ii == i && b == j ==> (#[trigger] row@[b])@ == value@,
                decreases C - jj,
            {
                if ii == i && jj == j {
                    row.push(value);
                } else {
                    row.push(self.at(ii, jj));
                }
                jj += 1;
            }
            rows.push(row);
            ii += 1;
        }
        self.rows = rows;
        proof {
            use_type_invariant(&*self);
        }
    }

    /// Cell-wise sum. Defined between matrices of identical dimensions;
    /// the precondition is only the machine limit that each exact cell sum
    /// must have a representable reduced form.
    pub fn add(&self, rhs: &Matrix<R, C>) -> (r: Matrix<R, C>)
        requires
            forall|i: int, j: int|
                0 <= i < R && 0 <= j < C ==> rat_fits(
                    #[trigger] rat_add(self@[i][j], rhs@[i][j]),
                ),
        ensures
            mat_shape(r@, R as int, C as int),
            mat_wf(r@),
            forall|i: int, j: int|
                0 <= i < R && 0 <= j < C ==> #[trigger] r@[i][j] == rat_norm(
                    rat_add(self@[i][j], rhs@[i][j]),
                ),
            mat_eq_spec(r@, mat_add_spec(self@, rhs@)),
    {
        proof {
            use_type_invariant(self);
            use_type_invariant(rhs);
        }
        let mut rows: Vec<Vec<Rat>> = Vec::new();
        let mut i: usize = 0;
        while i < R
            invariant
                i <= R,
                rows@.len() == i,
                forall|ii: int, jj: int|
                    0 <= ii < R && 0 <= jj < C ==> rat_fits(
                        #[trigger] rat_add(self@[ii][jj], rhs@[ii][jj]),
                    ),
                mat_shape(self@, R as int, C as int),
                mat_shape(rhs@, R as int, C as int),
                mat_wf(self@),
                mat_wf(rhs@),
                forall|ii: int| 0 <= ii < i ==> (#[trigger] rows@[ii])@.len() == C,
                forall|ii: int, jj: int|
                    0 <= ii < i && 0 <= jj < C ==> (#[trigger] rows@[ii]@[jj])@ == rat_norm(
                        rat_add(self@[ii][jj], rhs@[ii][jj]),
                    ),
            decreases R - i,
        {
            let mut row: Vec<Rat> = Vec::new();
            let mut j: usize = 0;
            while j < C
                invariant
                    j <= C,
                    i < R,
                    row@.len() == j,
                    forall|ii: int, jj: int|
                        0 <= ii < R && 0 <= jj < C ==> rat_fits(
                            #[trigger] rat_add(self@[ii][jj], rhs@[ii][jj]),
                        ),
                    mat_shape(self@, R as int, C as int),
                    mat_shape(rhs@, R as int, C as int),
                    mat_wf(self@),
                    mat_wf(rhs@),
                    forall|jj: int|
                        0 <= jj < j ==> (#[trigger] row@[jj])@ == rat_norm(
                            rat_add(self@[i as int][jj], rhs@[i as int][jj]),
                        ),
                decreases C - j,
            {
                let a = self.at(i, j);
                let b = rhs.at(i, j);
                let c = a.checked_add(&b);
                proof {
                    assert(rat_fits(rat_add(self@[i as int][j as int], rhs@[i as int][j as int])));
                }
                row.push(c.unwrap());
                j += 1;
            }
            rows.push(row);
            i += 1;
        }
        let m = Matrix::<R, C>::new(rows);
        proof {
            lemma_cellwise_eq(m@, mat_add_spec(self@, rhs@), self@, rhs@);
        }
        m
    }

    /// Cell-wise difference, under the same machine limit as [`Self::add`].
    pub fn sub(&self, rhs: &Matrix<R, C>) -> (r: Matrix<R, C>)
        requires
            forall|i: int, j: int|
                0 <= i < R && 0 <= j < C ==> rat_fits(
                    #[trigger] rat_sub(self@[i][j], rhs@[i][j]),
                ),
        ensures
            mat_shape(r@, R as int, C as int),
            mat_wf(r@),
            forall|i: int, j: int|
                0 <= i < R && 0 <= j < C ==> #[trigger] r@[i][j] == rat_norm(
                    rat_sub(self@[i][j], rhs@[i][j]),
                ),
            mat_eq_spec(r@, mat_sub_spec(self@, rhs@)),
    {
        proof {
            use_type_invariant(self);
            use_type_invariant(rhs);
        }
        let mut rows: Vec<Vec<Rat>> = Vec::new();
        let mut i: usize = 0;
        while i < R
            invariant
                i <= R,
                rows@.len() == i,
                forall|ii: int, jj: int|
                    0 <= ii < R && 0 <= jj < C ==> rat_fits(
                        #[trigger] rat_sub(self@[ii][jj], rhs@[ii][jj]),
                    ),
                mat_shape(self@, R as int, C as int),
                mat_shape(rhs@, R as int, C as int),
                mat_wf(self@),
                mat_wf(rhs@),
                forall|ii: int| 0 <= ii < i ==> (#[trigger] rows@[ii])@.len() == C,
                forall|ii: int, jj: int|
                    0 <= ii < i && 0 <= jj < C ==> (#[trigger] rows@[ii]@[jj])@ == rat_norm(
                        rat_sub(self@[ii][jj], rhs@[ii][jj]),
                    ),
            decreases R - i,
        {
            let mut row: Vec<Rat> = Vec::new();
            let mut j: usize = 0;
            while j < C
                invariant
                    j <= C,
                    i < R,
                    row@.len() == j,
                    forall|ii: int, jj: int|
                        0 <= ii < R && 0 <= jj < C ==> rat_fits(
                            #[trigger] rat_sub(self@[ii][jj], rhs@[ii][jj]),
                        ),
                    mat_shape(self@, R as int, C as int),
                    mat_shape(rhs@, R as int, C as int),
                    mat_wf(self@),
                    mat_wf(rhs@),
                    forall|jj: int|
                        0 <= jj < j ==> (#[trigger] row@[jj])@ == rat_norm(
                            rat_sub(self@[i as int][jj], rhs@[i as int][jj]),
                        ),
                decreases C - j,
            {
                let a = self.at(i, j);
                let b = rhs.at(i, j);
                let c = a.checked_sub(&b);
                proof {
                    assert(rat_fits(rat_sub(self@[i as int][j as int], rhs@[i as int][j as int])));
                }
                row.push(c.unwrap());
                j += 1;
            }
            rows.push(row);
            i += 1;
        }
        let m = Matrix::<R, C>::new(rows);
        proof {
            lemma_cellwise_eq(m@, mat_sub_spec(self@, rhs@), self@, rhs@);
        }
        m
    }

    /// Hadamard product: cell-wise multiplication of matrices of identical
    /// dimensions, under the same machine limit as [`Self::add`].
    pub fn component_mult(&self, rhs: &Matrix<R, C>) -> (r: Matrix<R, C>)
        requires
            forall|i: int, j: int|
                0 <= i < R && 0 <= j < C ==> rat_fits(
                    #[trigger] rat_mul(self@[i][j], rhs@[i][j]),
                ),
        ensures
            mat_shape(r@, R as int, C as int),
            mat_wf(r@),
            forall|i: int, j: int|
                0 <= i < R && 0 <= j < C ==> #[trigger] r@[i][j] == rat_norm(
                    rat_mul(self@[i][j], rhs@[i][j]),
                ),
            mat_eq_spec(r@, mat_hadamard_spec(self@, rhs@)),
    {
        proof {
            use_type_invariant(self);
            use_type_invariant(rhs);
        }
        let mut rows: Vec<Vec<Rat>> = Vec::new();
        let mut i: usize = 0;
        while i < R
            invariant
                i <= R,
                rows@.len() == i,
                forall|ii: int, jj: int|
                    0 <= ii < R && 0 <= jj < C ==> rat_fits(
                        #[trigger] rat_mul(self@[ii][jj], rhs@[ii][jj]),
                    ),
                mat_shape(self@, R as int, C as int),
                mat_shape(rhs@, R as int, C as int),
                mat_wf(self@),
                mat_wf(rhs@),
                forall|ii: int| 0 <= ii < i ==> (#[trigger] rows@[ii])@.len() == C,
                forall|ii: int, jj: int|
                    0 <= ii < i && 0 <= jj < C ==> (#[trigger] rows@[ii]@[jj])@ == rat_norm(
                        rat_mul(self@[ii][jj], rhs@[ii][jj]),
                    ),
            decreases R - i,
        {
            let mut row: Vec<Rat> = Vec::new();
            let mut j: usize = 0;
            while j < C
                invariant
                    j <= C,
                    i < R,
                    row@.len() == j,
                    forall|ii: int, jj: int|
                        0 <= ii < R && 0 <= jj < C ==> rat_fits(
                            #[trigger] rat_mul(self@[ii][jj], rhs@[ii][jj]),
                        ),
                    mat_shape(self@, R as int, C as int),
                    mat_shape(rhs@, R as int, C as int),
                    mat_wf(self@),
                    mat_wf(rhs@),
                    forall|jj: int|
                        0 <= jj < j ==> (#[trigger] row@[jj])@ == rat_norm(
                            rat_mul(self@[i as int][jj], rhs@[i as int][jj]),
                        ),
                decreases C - j,
            {
                let a = self.at(i, j);
                let b = rhs.at(i, j);
                let c = a.checked_mul(&b);
                proof {
                    assert(rat_fits(rat_mul(self@[i as int][j as int], rhs@[i as int][j as int])));
                }
                row.push(c.unwrap());
                j += 1;
            }
            rows.push(row);
            i += 1;
        }
        let m = Matrix::<R, C>::new(rows);
        proof {
            lemma_cellwise_eq(m@, mat_hadamard_spec(self@, rhs@), self@, rhs@);
        }
        m
    }

    /// Multiply every cell by the scalar `s`, under the same machine limit
    /// as [`Self::add`].
    pub fn scale(&self, s: &Rat) -> (r: Matrix<R, C>)
        requires
            forall|i: int, j: int|
                0 <= i < R && 0 <= j < C ==> rat_fits(#[trigger] rat_mul(self@[i][j], s@)),
        ensures
            mat_shape(r@, R as int, C as int),
            mat_wf(r@),
            forall|i: int, j: int|
                0 <= i < R && 0 <= j < C ==> #[trigger] r@[i][j] == rat_norm(
                    rat_mul(self@[i][j], s@),
                ),
            mat_eq_spec(r@, mat_scale_spec(self@, s@)),
    {
        proof {
            use_type_invariant(self);
            use_type_invariant(*s);
        }
        let mut rows: Vec<Vec<Rat>> = Vec::new();
        let mut i: usize = 0;
        while i < R
            invariant
                i <= R,
                rows@.len() == i,
                s.wf(),
                forall|ii: int, jj: int|
                    0 <= ii < R && 0 <= jj < C ==> rat_fits(#[trigger] rat_mul(self@[ii][jj], s@)),
                mat_shape(self@, R as int, C as int),
                mat_wf(self@),
                forall|ii: int| 0 <= ii < i ==> (#[trigger] rows@[ii])@.len() == C,
                forall|ii: int, jj: int|
                    0 <= ii < i && 0 <= jj < C ==> (#[trigger] rows@[ii]@[jj])@ == rat_norm(
                        rat_mul(self@[ii][jj], s@),
                    ),
            decreases R - i,
        {
            let mut row: Vec<Rat> = Vec::new();
            let mut j: usize = 0;
            while j < C
                invariant
                    j <= C,
                    i < R,
                    row@.len() == j,
                    s.wf(),
                    forall|ii: int, jj: int|
                        0 <= ii < R && 0 <= jj < C ==> rat_fits(
                            #[trigger] rat_mul(self@[ii][jj], s@),
                        ),
                    mat_shape(self@, R as int, C as int),
                    mat_wf(self@),
                    forall|jj: int|
                        0 <= jj < j ==> (#[trigger] row@[jj])@ == rat_norm(
                            rat_mul(self@[i as int][jj], s@),
                        ),
                decreases C - j,
            {
                let a = self.at(i, j);
                let c = a.checked_mul(s);
                proof {
                    assert(rat_fits(rat_mul(self@[i as int][j as int], s@)));
                }
                row.push(c.unwrap());
                j += 1;
            }
            rows.push(row);
            i += 1;
        }
        let m = Matrix::<R, C>::new(rows);
        proof {
            assert forall|i: int, j: int| 0 <= i < m@.len() && 0 <= j < m@[i].len() implies rat_eq(
                #[trigger] m@[i][j],
                mat_scale_spec(self@, s@)[i][j],
            ) by {
                lemma_op_wf(self@[i][j], s@);
                lemma_norm(rat_mul(self@[i][j], s@));
            }
        }
        m
    }
}

/// Cell-wise `rat_norm` results denote the same grid as the exact results:
/// shared closing step of the cell-wise operations.
proof fn lemma_cellwise_eq(
    got: Seq<Seq<(int, int)>>,
    want: Seq<Seq<(int, int)>>,
    a: Seq<Seq<(int, int)>>,
    b: Seq<Seq<(int, int)>>,
)
    requires
        mat_wf(a),
        mat_wf(b),
        got.len() == want.len(),
        want.len() == a.len(),
        forall|i: int| 0 <= i < a.len() ==> (#[trigger] a[i]).len() == b[i].len(),
        forall|i: int| 0 <= i < got.len() ==> (#[trigger] got[i]).len() == want[i].len(),
        forall|i: int| 0 <= i < want.len() ==> (#[trigger] want[i]).len() == a[i].len(),
        forall|i: int| 0 <= i < b.len() ==> (#[trigger] b[i]).len() == a[i].len(),
        b.len() == a.len(),
        forall|i: int, j: int|
            0 <= i < a.len() && 0 <= j < a[i].len() ==> (#[trigger] want[i][j]).1 == a[i][j].1
                * b[i][j].1,
        forall|i: int, j: int|
            0 <= i < a.len() && 0 <= j < a[i].len() ==> #[trigger] got[i][j] == rat_norm(
                want[i][j],
            ),
    ensures
        mat_eq_spec(got, want),
{
    assert forall|i: int, j: int| 0 <= i < got.len() && 0 <= j < got[i].len() implies rat_eq(
        #[trigger] got[i][j],
        want[i][j],
    ) by {
        assert(rat_in_i64(a[i][j]) && rat_in_i64(b[i][j]));
        assert(want[i][j].1 >= 1) by (nonlinear_arith)
            requires
                want[i][j].1 == a[i][j].1 * b[i][j].1,
                a[i][j].1 >= 1,
                b[i][j].1 >= 1,
        {}
        lemma_norm(want[i][j]);
    }
}

impl<const R: usize, const C: usize> PartialEq for Matrix<R, C> {
    /// Exact equality: every pair of corresponding cells denotes the same
    /// rational. There is no epsilon tolerance; this is the documented,
    /// exact comparison.
    fn eq(&self, other: &Matrix<R, C>) -> (r: bool) {
        proof {
            use_type_invariant(self);
            use_type_invariant(other);
        }
        let mut i: usize = 0;
        while i < R
            invariant
                i <= R,
                mat_shape(self@, R as int, C as int),
                mat_shape(other@, R as int, C as int),
                forall|ii: int, jj: int|
                    0 <= ii < i && 0 <= jj < C ==> rat_eq(#[trigger] self@[ii][jj], other@[ii][jj]),
            decreases R - i,
        {
            let mut j: usize = 0;
            while j < C
                invariant
                    j <= C,
                    i < R,
                    mat_shape(self@, R as int, C as int),
                    mat_shape(other@, R as int, C as int),
                    forall|jj: int|
                        0 <= jj < j ==> rat_eq(
                            #[trigger] self@[i as int][jj],
                            other@[i as int][jj],
                        ),
                decreases C - j,
            {
                if !(self.at(i, j) == other.at(i, j)) {
                    return false;
                }
                j += 1;
            }
            i += 1;
        }
        true
    }
}

impl<const R: usize, const C: usize> vstd::std_specs::cmp::PartialEqSpecImpl for Matrix<R, C> {
    open spec fn obeys_eq_spec() -> bool {
        true
    }

    open spec fn eq_spec(&self, other: &Matrix<R, C>) -> bool {
        mat_eq_spec(self@, other@)
    }
}

impl<const R: usize, const C: usize> Clone for Matrix<R, C> {
    /// An independent copy denoting the same matrix: value semantics.
    fn clone(&self) -> (r: Self)
        ensures
            r@ == self@,
    {
        proof {
            use_type_invariant(self);
        }
        let mut rows: Vec<Vec<Rat>> = Vec::new();
        let mut i: usize = 0;
        while i < R
            invariant
                i <= R,
                mat_shape(self@, R as int, C as int),
                rows@.len() == i,
                forall|a: int| 0 <= a < i ==> (#[trigger] rows@[a])@.len() == C,
                forall|a: int, b: int|
                    0 <= a < i && 0 <= b < C ==> (#[trigger] rows@[a]@[b])@ == self@[a][b],
            decreases R - i,
        {
            let mut row: Vec<Rat> = Vec::new();
            let mut j: usize = 0;
            while j < C
                invariant
                    j <= C,
                    i < R,
                    mat_shape(self@, R as int, C as int),
                    row@.len() == j,
                    forall|b: int| 0 <= b < j ==> (#[trigger] row@[b])@ == self@[i as int][b],
                decreases C - j,
            {
                row.push(self.at(i, j));
                j += 1;
            }
            rows.push(row);
            i += 1;
        }
        let m = Matrix::<R, C>::new(rows);
        proof {
            assert forall|a: int| 0 <= a < R implies #[trigger] m@[a] =~= self@[a] by {}
            assert(m@ =~= self@);
        }
        m
    }
}

/// Cell-wise addition is commutative: `A + B` and `B + A` denote the same
/// matrix.
pub proof fn lemma_mat_add_comm(a: Seq<Seq<(int, int)>>, b: Seq<Seq<(int, int)>>)
    requires
        mat_wf(a),
        mat_wf(b),
        a.len() == b.len(),
        forall|i: int| 0 <= i < a.len() ==> (#[trigger] a[i]).len() == b[i].len(),
    ensures
        mat_eq_spec(mat_add_spec(a, b), mat_add_spec(b, a)),
{
    let l = mat_add_spec(a, b);
    let r = mat_add_spec(b, a);
    assert forall|i: int, j: int| 0 <= i < l.len() && 0 <= j < l[i].len() implies rat_eq(
        #[trigger] l[i][j],
        r[i][j],
    ) by {
        lemma_rat_add_comm(a[i][j], b[i][j]);
    }
}

/// Every matrix equals itself under the exact comparison.
pub proof fn lemma_mat_eq_refl(a: Seq<Seq<(int, int)>>)
    ensures
        mat_eq_spec(a, a),
{
}

/// Adding and then subtracting the same matrix gives back the first
/// operand: `(A + B) - B` denotes the same matrix as `A`.
pub proof fn lemma_mat_add_then_sub(a: Seq<Seq<(int, int)>>, b: Seq<Seq<(int, int)>>)
    requires
        mat_wf(a),
        mat_wf(b),
        a.len() == b.len(),
        forall|i: int| 0 <= i < a.len() ==> (#[trigger] a[i]).len() == b[i].len(),
    ensures
        mat_eq_spec(mat_sub_spec(mat_add_spec(a, b), b), a),
{
    let l = mat_sub_spec(mat_add_spec(a, b), b);
    assert forall|i: int, j: int| 0 <= i < l.len() && 0 <= j < l[i].len() implies rat_eq(
        #[trigger] l[i][j],
        a[i][j],
    ) by {
        lemma_rat_add_then_sub(a[i][j], b[i][j]);
        assert(mat_add_spec(a, b)[i][j] == rat_add(a[i][j], b[i][j]));
        assert(l[i][j] == rat_sub(rat_add(a[i][j], b[i][j]), b[i][j]));
    }
}

/// Column `j` of the grid `m`, as a sequence of scalars.
pub open spec fn col_of(m: Seq<Seq<(int, int)>>, j: int) -> Seq<(int, int)> {
    Seq::new(m.len(), |k: int| m[k][j])
}

/// The exact value of the left-to-right accumulation
/// `a[0]*b[0] + ... + a[n-1]*b[n-1]`.
pub open spec fn dot_prefix(a: Seq<(int, int)>, b: Seq<(int, int)>, n: int) -> (int, int)
    decreases n,
{
    if n <= 0 {
        rat_int(0)
    } else {
        rat_add(dot_prefix(a, b, n - 1), rat_mul(a[n - 1], b[n - 1]))
    }
}

/// The same accumulation as computed, with each intermediate result in
/// reduced form; it denotes the same rational as [`dot_prefix`].
pub open spec fn dot_acc(a: Seq<(int, int)>, b: Seq<(int, int)>, n: int) -> (int, int)
    decreases n,
{
    if n <= 0 {
        rat_int(0)
    } else {
        rat_norm(rat_add(dot_acc(a, b, n - 1), rat_norm(rat_mul(a[n - 1], b[n - 1]))))
    }
}

/// The machine limit of the accumulation: every intermediate reduced
/// result fits the scalar representation.
pub open spec fn dot_ok(a: Seq<(int, int)>, b: Seq<(int, int)>, n: int) -> bool
    decreases n,
{
    if n <= 0 {
        true
    } else {
        dot_ok(a, b, n - 1) && rat_fits(rat_mul(a[n - 1], b[n - 1])) && rat_fits(
            rat_add(dot_acc(a, b, n - 1), rat_norm(rat_mul(a[n - 1], b[n - 1]))),
        )
    }
}

/// `dot_ok` at a bound gives `dot_ok` at every smaller bound.
proof fn lemma_dot_ok_prefix(a: Seq<(int, int)>, b: Seq<(int, int)>, n: int, k: int)
    requires
        dot_ok(a, b, n),
        0 <= k < n,
    ensures
        dot_ok(a, b, k + 1),
    decreases n,
{
    if k + 1 < n {
        lemma_dot_ok_prefix(a, b, n - 1, k);
    }
}

/// One accumulation step: reduced arithmetic tracks the exact sum.
proof fn lemma_dot_step(a: Seq<(int, int)>, b: Seq<(int, int)>, k: int)
    requires
        0 <= k,
        rat_wf(a[k]),
        rat_wf(b[k]),
        rat_wf(dot_acc(a, b, k)),
        rat_wf(dot_prefix(a, b, k)),
        rat_eq(dot_acc(a, b, k), dot_prefix(a, b, k)),
        rat_fits(rat_mul(a[k], b[k])),
        rat_fits(rat_add(dot_acc(a, b, k), rat_norm(rat_mul(a[k], b[k])))),
    ensures
        rat_wf(dot_acc(a, b, k + 1)),
        rat_wf(dot_prefix(a, b, k + 1)),
        rat_eq(dot_acc(a, b, k + 1), dot_prefix(a, b, k + 1)),
        dot_acc(a, b, k + 1) == rat_norm(
            rat_add(dot_acc(a, b, k), rat_norm(rat_mul(a[k], b[k]))),
        ),
        dot_prefix(a, b, k + 1) == rat_add(dot_prefix(a, b, k), rat_mul(a[k], b[k])),
{
    let pm = rat_mul(a[k], b[k]);
    lemma_op_wf(a[k], b[k]);
    lemma_norm(pm);
    let s = rat_add(dot_acc(a, b, k), rat_norm(pm));
    lemma_op_wf(dot_acc(a, b, k), rat_norm(pm));
    lemma_norm(s);
    lemma_add_cong(dot_acc(a, b, k), dot_prefix(a, b, k), rat_norm(pm), pm);
    lemma_op_wf(dot_prefix(a, b, k), pm);
    lemma_rat_eq_trans(rat_norm(s), s, rat_add(dot_prefix(a, b, k), pm));
}

/// The accumulation of a sequence against itself is nonnegative.
proof fn lemma_dot_self_nonneg(a: Seq<(int, int)>, n: int)
    requires
        forall|k: int| 0 <= k < n ==> rat_wf(#[trigger] a[k]),
    ensures
        rat_wf(dot_acc(a, a, n)),
        dot_acc(a, a, n).0 >= 0,
    decreases n,
{
    if n > 0 {
        lemma_dot_self_nonneg(a, n - 1);
        let x = a[n - 1];
        let pm = rat_mul(x, x);
        lemma_op_wf(x, x);
        assert(pm.0 >= 0) by (nonlinear_arith)
            requires
                pm.0 == x.0 * x.0,
        {}
        lemma_norm(pm);
        lemma_norm_nonneg(pm);
        let acc = dot_acc(a, a, n - 1);
        let s = rat_add(acc, rat_norm(pm));
        lemma_op_wf(acc, rat_norm(pm));
        assert(s.0 >= 0) by (nonlinear_arith)
            requires
                s.0 == acc.0 * rat_norm(pm).1 + rat_norm(pm).0 * acc.1,
                acc.0 >= 0,
                rat_norm(pm).0 >= 0,
                acc.1 > 0,
                rat_norm(pm).1 > 0,
        {}
        lemma_norm(s);
        lemma_norm_nonneg(s);
    }
}

/// Granularity of [`Matrix::length`]: the result is the largest multiple
/// of `1 / SQRT_SCALE` whose square does not exceed the squared length.
pub const SQRT_SCALE: i64 = 1000000;

/// Floor of the square root of `m`, by bisection.
fn isqrt(m: u128) -> (q: u128)
    requires
        m < 0x100000000000000000000000000,
    ensures
        (q as int) * (q as int) <= m as int,
        (m as int) < ((q as int) + 1) * ((q as int) + 1),
        q <= 0x10000000000000,
{
    let mut lo: u128 = 0;
    let mut hi: u128 = 0x10000000000000;
    proof {
        assert((m as int) < ((hi as int) + 1) * ((hi as int) + 1)) by (nonlinear_arith)
            requires
                m < 0x100000000000000000000000000,
                hi == 0x10000000000000,
        {}
    }
    while lo < hi
        invariant
            lo <= hi,
            hi <= 0x10000000000000,
            (lo as int) * (lo as int) <= m as int,
            (m as int) < ((hi as int) + 1) * ((hi as int) + 1),
        decreases hi - lo,
    {
        let mid = lo + (hi - lo + 1) / 2;
        proof {
            assert((mid as int) * (mid as int) <= 0x100000000000000000000000000)
                by (nonlinear_arith)
                requires
                    mid <= 0x10000000000000,
            {}
        }
        if mid * mid <= m {
            lo = mid;
        } else {
            hi = mid - 1;
        }
    }
    lo
}

impl<const R: usize, const C: usize> Matrix<R, C> {
    /// Standard matrix product of an `R` by `C` and a `C` by `P` matrix:
    /// `r[i][j]` is the left-to-right accumulation over `k` of
    /// `self[i][k] * rhs[k][j]`, exact. The precondition is only the
    /// machine limit that each intermediate reduced result must be
    /// representable.
    pub fn mul<const P: usize>(&self, rhs: &Matrix<C, P>) -> (r: Matrix<R, P>)
        requires
            forall|i: int, j: int|
                0 <= i < R && 0 <= j < P ==> #[trigger] dot_ok(self@[i], col_of(rhs@, j), C as int),
        ensures
            mat_shape(r@, R as int, P as int),
            mat_wf(r@),
            forall|i: int, j: int|
                0 <= i < R && 0 <= j < P ==> #[trigger] r@[i][j] == dot_acc(
                    self@[i],
                    col_of(rhs@, j),
                    C as int,
                ),
            forall|i: int, j: int|
                0 <= i < R && 0 <= j < P ==> rat_eq(
                    #[trigger] r@[i][j],
                    dot_prefix(self@[i], col_of(rhs@, j), C as int),
                ),
    {
        proof {
            use_type_invariant(self);
            use_type_invariant(rhs);
        }
        let mut rows: Vec<Vec<Rat>> = Vec::new();
        let mut i: usize = 0;
        while i < R
            invariant
                i <= R,
                rows@.len() == i,
                mat_shape(self@, R as int, C as int),
                mat_wf(self@),
                mat_shape(rhs@, C as int, P as int),
                mat_wf(rhs@),
                forall|ii: int, jj: int|
                    0 <= ii < R && 0 <= jj < P ==> #[trigger] dot_ok(
                        self@[ii],
                        col_of(rhs@, jj),
                        C as int,
                    ),
                forall|ii: int| 0 <= ii < i ==> (#[trigger] rows@[ii])@.len() == P,
                forall|ii: int, jj: int|
                    0 <= ii < i && 0 <= jj < P ==> (#[trigger] rows@[ii]@[jj])@ == dot_acc(
                        self@[ii],
                        col_of(rhs@, jj),
                        C as int,
                    ),
                forall|ii: int, jj: int|
                    0 <= ii < i && 0 <= jj < P ==> rat_eq(
                        (#[trigger] rows@[ii]@[jj])@,
                        dot_prefix(self@[ii], col_of(rhs@, jj), C as int),
                    ),
            decreases R - i,
        {
            let mut row: Vec<Rat> = Vec::new();
            let mut j: usize = 0;
            while j < P
                invariant
                    j <= P,
                    i < R,
                    row@.len() == j,
                    mat_shape(self@, R as int, C as int),
                    mat_wf(self@),
                    mat_shape(rhs@, C as int, P as int),
                    mat_wf(rhs@),
                    forall|ii: int, jj: int|
                        0 <= ii < R && 0 <= jj < P ==> #[trigger] dot_ok(
                            self@[ii],
                            col_of(rhs@, jj),
                            C as int,
                        ),
                    forall|jj: int|
                        0 <= jj < j ==> (#[trigger] row@[jj])@ == dot_acc(
                            self@[i as int],
                            col_of(rhs@, jj),
                            C as int,
                        ),
                    forall|jj: int|
                        0 <= jj < j ==> rat_eq(
                            (#[trigger] row@[jj])@,
                            dot_prefix(self@[i as int], col_of(rhs@, jj), C as int),
                        ),
                decreases P - j,
            {
                let ghost va = self@[i as int];
                let ghost vb = col_of(rhs@, j as int);
                let mut acc = Rat::from_int(0);
                let mut k: usize = 0;
                while k < C
                    invariant
                        k <= C,
                        i < R,
                        j < P,
                        va == self@[i as int],
                        vb == col_of(rhs@, j as int),
                        mat_shape(self@, R as int, C as int),
                        mat_wf(self@),
                        mat_shape(rhs@, C as int, P as int),
                        mat_wf(rhs@),
                        dot_ok(va, vb, C as int),
                        acc@ == dot_acc(va, vb, k as int),
                        rat_wf(dot_acc(va, vb, k as int)),
                        rat_wf(dot_prefix(va, vb, k as int)),
                        rat_eq(dot_acc(va, vb, k as int), dot_prefix(va, vb, k as int)),
                    decreases C - k,
                {
                    let xa = self.at(i, k);
                    let xb = rhs.at(k, j);
                    proof {
                        assert(vb[k as int] == rhs@[k as int][j as int]);
                        lemma_dot_ok_prefix(va, vb, C as int, k as int);
                        lemma_dot_step(va, vb, k as int);
                    }
                    let p = xa.checked_mul(&xb).unwrap();
                    let acc2 = acc.checked_add(&p).unwrap();
                    acc = acc2;
                    k += 1;
                }
                row.push(acc);
                j += 1;
            }
            rows.push(row);
            i += 1;
        }
        Matrix::<R, P>::new(rows)
    }
}

impl<const N: usize> Matrix<N, 1> {
    /// The components of the column vector, first to last.
    pub fn as_slice(&self) -> (r: Vec<Rat>)
        ensures
            r@.len() == N,
            forall|k: int| 0 <= k < N ==> (#[trigger] r@[k])@ == self@[k][0],
    {
        proof {
            use_type_invariant(self);
        }
        let mut out: Vec<Rat> = Vec::new();
        let mut k: usize = 0;
        while k < N
            invariant
                k <= N,
                mat_shape(self@, N as int, 1),
                out@.len() == k,
                forall|kk: int| 0 <= kk < k ==> (#[trigger] out@[kk])@ == self@[kk][0],
            decreases N - k,
        {
            out.push(self.at(k, 0));
            k += 1;
        }
        out
    }

    /// Exact dot product: the left-to-right accumulation of the component
    /// products. The precondition is only the machine limit on the
    /// intermediate reduced results.
    pub fn dot(&self, rhs: &Matrix<N, 1>) -> (r: Rat)
        requires
            dot_ok(col_of(self@, 0), col_of(rhs@, 0), N as int),
        ensures
            r@ == dot_acc(col_of(self@, 0), col_of(rhs@, 0), N as int),
            rat_eq(r@, dot_prefix(col_of(self@, 0), col_of(rhs@, 0), N as int)),
    {
        proof {
            use_type_invariant(self);
            use_type_invariant(rhs);
        }
        let ghost va = col_of(self@, 0);
        let ghost vb = col_of(rhs@, 0);
        let mut acc = Rat::from_int(0);
        let mut k: usize = 0;
        while k < N
            invariant
                k <= N,
                va == col_of(self@, 0),
                vb == col_of(rhs@, 0),
                mat_shape(self@, N as int, 1),
                mat_wf(self@),
                mat_shape(rhs@, N as int, 1),
                mat_wf(rhs@),
                dot_ok(va, vb, N as int),
                acc@ == dot_acc(va, vb, k as int),
                rat_wf(dot_acc(va, vb, k as int)),
                rat_wf(dot_prefix(va, vb, k as int)),
                rat_eq(dot_acc(va, vb, k as int), dot_prefix(va, vb, k as int)),
            decreases N - k,
        {
            let xa = self.at(k, 0);
            let xb = rhs.at(k, 0);
            proof {
                assert(va[k as int] == self@[k as int][0]);
                assert(vb[k as int] == rhs@[k as int][0]);
                lemma_dot_ok_prefix(va, vb, N as int, k as int);
                lemma_dot_step(va, vb, k as int);
            }
            let p = xa.checked_mul(&xb).unwrap();
            let acc2 = acc.checked_add(&p).unwrap();
            acc = acc2;
            k += 1;
        }
        acc
    }

    /// The squared Euclidean length: the dot product of the vector with
    /// itself, exact.
    pub fn sqr_length(&self) -> (r: Rat)
        requires
            dot_ok(col_of(self@, 0), col_of(self@, 0), N as int),
        ensures
            r@ == dot_acc(col_of(self@, 0), col_of(self@, 0), N as int),
            rat_eq(r@, dot_prefix(col_of(self@, 0), col_of(self@, 0), N as int)),
            r@.0 >= 0,
    {
        proof {
            use_type_invariant(self);
            assert forall|k: int| 0 <= k < N implies rat_wf(#[trigger] col_of(self@, 0)[k]) by {
                assert(col_of(self@, 0)[k] == self@[k][0]);
            }
            lemma_dot_self_nonneg(col_of(self@, 0), N as int);
        }
        self.dot(self)
    }

    /// The Euclidean length, rounded down to a multiple of
    /// `1 / SQRT_SCALE`: the result `r` is a non-negative multiple of the
    /// granule and satisfies `r * r <= sqr_length` and
    /// `sqr_length < (r + 1/SQRT_SCALE)^2`. Together these clauses pin the
    /// result uniquely; in particular it is the exact length whenever that
    /// is a multiple of `1 / SQRT_SCALE`, as for integer-length vectors.
    pub fn length(&self) -> (r: Rat)
        requires
            dot_ok(col_of(self@, 0), col_of(self@, 0), N as int),
        ensures
            rat_le(rat_int(0), r@),
            exists|q: int| 0 <= q && rat_eq(r@, (q, SQRT_SCALE as int)),
            rat_le(rat_mul(r@, r@), dot_acc(col_of(self@, 0), col_of(self@, 0), N as int)),
            rat_lt(
                dot_acc(col_of(self@, 0), col_of(self@, 0), N as int),
                rat_mul(
                    rat_add(r@, (1int, SQRT_SCALE as int)),
                    rat_add(r@, (1int, SQRT_SCALE as int)),
                ),
            ),
    {
        let sq = self.sqr_length();
        proof {
            use_type_invariant(sq);
        }
        let num = sq.numerator();
        let den = sq.denominator();
        let ghost sv = sq@;
        let s2: u128 = (SQRT_SCALE as u128) * (SQRT_SCALE as u128);
        proof {
            assert((num as u128 as int) * (s2 as int) < 0x100000000000000000000000000)
                by (nonlinear_arith)
                requires
                    0 <= num as u128 as int <= 0x7fffffffffffffff,
                    s2 == 1000000000000,
            {}
        }
        let top: u128 = (num as u128) * s2;
        let m: u128 = top / (den as u128);
        let q = isqrt(m);
        proof {
            assert(q as int <= 0x7fffffffffffffff);
        }
        let r = Rat::frac(q as i64, SQRT_SCALE);
        proof {
            use_type_invariant(r);
            assert(0 <= q as int && rat_eq(r@, (q as int, SQRT_SCALE as int)));
            let qi = q as int;
            let s = SQRT_SCALE as int;
            let mi = m as int;
            let ni = num as int;
            let di = den as int;
            let rp = (qi, s);
            let step = (1int, s);
            // floor division bracket: m * den <= num * s^2 < (m + 1) * den
            assert(mi * di <= ni * (s * s) && ni * (s * s) < (mi + 1) * di) by (nonlinear_arith)
                requires
                    di >= 1,
                    ni >= 0,
                    mi == (ni * (s * s)) / di,
                    s == 1000000,
                    top as int == ni * (s * s),
                    mi == top as int / di,
            {}
            // lower bound: q^2 * den <= num * s^2
            assert(rat_le(rat_mul(rp, rp), sv)) by (nonlinear_arith)
                requires
                    qi * qi <= mi,
                    mi * di <= ni * (s * s),
                    sv == (ni, di),
                    rp == (qi, s),
                    di >= 1,
                    s >= 1,
            {}
            // upper bound: num * s^2 < (q + 1)^2 * den
            assert(rat_lt(sv, rat_mul(rat_add(rp, step), rat_add(rp, step)))) by (nonlinear_arith)
                requires
                    mi < (qi + 1) * (qi + 1),
                    ni * (s * s) < (mi + 1) * di,
                    sv == (ni, di),
                    rp == (qi, s),
                    step == (1int, s),
                    di >= 1,
                    s >= 1,
                    qi >= 0,
            {}
            assert(rat_le(rat_int(0), rp));
            // transfer the bracket from the raw pair to the reduced result
            lemma_op_wf(rp, rp);
            lemma_mul_cong(r@, rp, r@, rp);
            lemma_le_cong(rat_mul(r@, r@), rat_mul(rp, rp), sv, sv);
            lemma_le_cong(rat_int(0), rat_int(0), r@, rp);
            lemma_add_cong(r@, rp, step, step);
            lemma_op_wf(rat_add(r@, step), rat_add(r@, step));
            lemma_op_wf(rat_add(rp, step), rat_add(rp, step));
            lemma_mul_cong(rat_add(r@, step), rat_add(rp, step), rat_add(r@, step), rat_add(rp, step));
            lemma_le_cong(sv, sv, rat_mul(rat_add(r@, step), rat_add(r@, step)), rat_mul(rat_add(rp, step), rat_add(rp, step)));
        }
        r
    }
}

/// The exact value of `u*v - w*x`, the building block of the cross
/// product.
pub open spec fn cross_term(u: (int, int), v: (int, int), w: (int, int), x: (int, int)) -> (
    int,
    int,
) {
    rat_sub(rat_mul(u, v), rat_mul(w, x))
}

/// `u*v - w*x` as computed, with reduced intermediates; it denotes the
/// same rational as [`cross_term`].
pub open spec fn cross_acc(u: (int, int), v: (int, int), w: (int, int), x: (int, int)) -> (
    int,
    int,
) {
    rat_norm(rat_sub(rat_norm(rat_mul(u, v)), rat_norm(rat_mul(w, x))))
}

/// The machine limit of one cross-product component.
pub open spec fn cross_ok(u: (int, int), v: (int, int), w: (int, int), x: (int, int)) -> bool {
    rat_fits(rat_mul(u, v)) && rat_fits(rat_mul(w, x)) && rat_fits(
        rat_sub(rat_norm(rat_mul(u, v)), rat_norm(rat_mul(w, x))),
    )
}

/// Reduced arithmetic tracks the exact value of `u*v - w*x`.
proof fn lemma_cross_step(u: (int, int), v: (int, int), w: (int, int), x: (int, int))
    requires
        rat_wf(u),
        rat_wf(v),
        rat_wf(w),
        rat_wf(x),
        cross_ok(u, v, w, x),
    ensures
        rat_wf(cross_acc(u, v, w, x)),
        rat_eq(cross_acc(u, v, w, x), cross_term(u, v, w, x)),
{
    let p = rat_mul(u, v);
    let q = rat_mul(w, x);
    lemma_op_wf(u, v);
    lemma_op_wf(w, x);
    lemma_norm(p);
    lemma_norm(q);
    let s = rat_sub(rat_norm(p), rat_norm(q));
    lemma_op_wf(rat_norm(p), rat_norm(q));
    lemma_norm(s);
    lemma_sub_cong(rat_norm(p), p, rat_norm(q), q);
    lemma_op_wf(p, q);
    lemma_rat_eq_trans(rat_norm(s), s, rat_sub(p, q));
}

impl Matrix<3, 1> {
    /// The cross product by the right-hand rule:
    /// `(ay*bz - az*by, az*bx - ax*bz, ax*by - ay*bx)`, exact. Offered for
    /// dimension three only; the other dimensions do not have this
    /// capability. The precondition is only the machine limit on the
    /// reduced intermediate results.
    pub fn cross(&self, rhs: &Matrix<3, 1>) -> (r: Matrix<3, 1>)
        requires
            cross_ok(self@[1][0], rhs@[2][0], self@[2][0], rhs@[1][0]),
            cross_ok(self@[2][0], rhs@[0][0], self@[0][0], rhs@[2][0]),
            cross_ok(self@[0][0], rhs@[1][0], self@[1][0], rhs@[0][0]),
        ensures
            mat_shape(r@, 3, 1),
            mat_wf(r@),
            r@[0][0] == cross_acc(self@[1][0], rhs@[2][0], self@[2][0], rhs@[1][0]),
            r@[1][0] == cross_acc(self@[2][0], rhs@[0][0], self@[0][0], rhs@[2][0]),
            r@[2][0] == cross_acc(self@[0][0], rhs@[1][0], self@[1][0], rhs@[0][0]),
            rat_eq(r@[0][0], cross_term(self@[1][0], rhs@[2][0], self@[2][0], rhs@[1][0])),
            rat_eq(r@[1][0], cross_term(self@[2][0], rhs@[0][0], self@[0][0], rhs@[2][0])),
            rat_eq(r@[2][0], cross_term(self@[0][0], rhs@[1][0], self@[1][0], rhs@[0][0])),
    {
        proof {
            use_type_invariant(self);
            use_type_invariant(rhs);
            lemma_cross_step(self@[1][0], rhs@[2][0], self@[2][0], rhs@[1][0]);
            lemma_cross_step(self@[2][0], rhs@[0][0], self@[0][0], rhs@[2][0]);
            lemma_cross_step(self@[0][0], rhs@[1][0], self@[1][0], rhs@[0][0]);
        }
        let ax = self.at(0, 0);
        let ay = self.at(1, 0);
        let az = self.at(2, 0);
        let bx = rhs.at(0, 0);
        let by = rhs.at(1, 0);
        let bz = rhs.at(2, 0);
        let c0 = ay.checked_mul(&bz).unwrap().checked_sub(&az.checked_mul(&by).unwrap()).unwrap();
        let c1 = az.checked_mul(&bx).unwrap().checked_sub(&ax.checked_mul(&bz).unwrap()).unwrap();
        let c2 = ax.checked_mul(&by).unwrap().checked_sub(&ay.checked_mul(&bx).unwrap()).unwrap();
        let mut rows: Vec<Vec<Rat>> = Vec::new();
        let mut r0: Vec<Rat> = Vec::new();
        r0.push(c0);
        rows.push(r0);
        let mut r1: Vec<Rat> = Vec::new();
        r1.push(c1);
        rows.push(r1);
        let mut r2: Vec<Rat> = Vec::new();
        r2.push(c2);
        rows.push(r2);
        Matrix::<3, 1>::new(rows)
    }
}

impl Matrix<1, 1> {
    /// The first (and only) component.
    pub fn x(&self) -> (r: Rat)
        ensures
            r@ == self@[0][0],
    {
        self.at(0, 0)
    }

    /// Replace the first component.
    pub fn set_x(&mut self, value: Rat)
        ensures
            mat_shape(final(self)@, 1, 1),
            final(self)@[0][0] == value@,
    {
        self.set(0, 0, value);
    }
}

impl Matrix<2, 1> {
    /// The first component.
    pub fn x(&self) -> (r: Rat)
        ensures
            r@ == self@[0][0],
    {
        self.at(0, 0)
    }

    /// The second component.
    pub fn y(&self) -> (r: Rat)
        ensures
            r@ == self@[1][0],
    {
        self.at(1, 0)
    }

    /// Replace the first component; the second is unchanged.
    pub fn set_x(&mut self, value: Rat)
        ensures
            mat_shape(final(self)@, 2, 1),
            final(self)@[0][0] == value@,
            final(self)@[1][0] == old(self)@[1][0],
    {
        self.set(0, 0, value);
    }

    /// Replace the second component; the first is unchanged.
    pub fn set_y(&mut self, value: Rat)
        ensures
            mat_shape(final(self)@, 2, 1),
            final(self)@[1][0] == value@,
            final(self)@[0][0] == old(self)@[0][0],
    {
        self.set(1, 0, value);
    }
}

impl Matrix<3, 1> {
    /// The first component.
    pub fn x(&self) -> (r: Rat)
        ensures
            r@ == self@[0][0],
    {
        self.at(0, 0)
    }

    /// The second component.
    pub fn y(&self) -> (r: Rat)
        ensures
            r@ == self@[1][0],
    {
        self.at(1, 0)
    }

    /// The third component.
    pub fn z(&self) -> (r: Rat)
        ensures
            r@ == self@[2][0],
    {
        self.at(2, 0)
    }

    /// Replace the first component; the others are unchanged.
    pub fn set_x(&mut self, value: Rat)
        ensures
            mat_shape(final(self)@, 3, 1),
            final(self)@[0][0] == value@,
            final(self)@[1][0] == old(self)@[1][0],
            final(self)@[2][0] == old(self)@[2][0],
    {
        self.set(0, 0, value);
    }

    /// Replace the second component; the others are unchanged.
    pub fn set_y(&mut self, value: Rat)
        ensures
            mat_shape(final(self)@, 3, 1),
            final(self)@[1][0] == value@,
            final(self)@[0][0] == old(self)@[0][0],
            final(self)@[2][0] == old(self)@[2][0],
    {
        self.set(1, 0, value);
    }

    /// Replace the third component; the others are unchanged.
    pub fn set_z(&mut self, value: Rat)
        ensures
            mat_shape(final(self)@, 3, 1),
            final(self)@[2][0] == value@,
            final(self)@[0][0] == old(self)@[0][0],
            final(self)@[1][0] == old(self)@[1][0],
    {
        self.set(2, 0, value);
    }
}

} // verus!
