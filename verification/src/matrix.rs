use vstd::prelude::*;

use crate::rational::{
    rat_add_ok, rat_add_v, rat_fits, rat_mul_ok, rat_mul_v, rat_one, rat_sub_ok, rat_sub_v,
    rat_wf, rat_zero, Rat, Ratio,
};

verus! {

/// Errors the engine reports. Arithmetic between incompatibly shaped
/// matrices is a `DimensionMismatch`; inverting a non-square matrix is a
/// `NonSquareError`; inverting a rank-deficient matrix is a `SingularError`;
/// `Overflow` reports that an exact intermediate value left the range the
/// machine representation can hold.
#[derive(Clone, Copy, PartialEq, Eq, Structural, Debug)]
pub enum MatError {
    DimensionMismatch,
    NonSquareError,
    SingularError,
    Overflow,
}

/// Well-formed model of an `rows x cols` matrix: a sequence of `rows` rows,
/// each of `cols` well-formed rational entries.
pub open spec fn mat_wf_s(m: Seq<Seq<Rat>>, rows: int, cols: int) -> bool {
    &&& m.len() == rows
    &&& forall|r: int| 0 <= r < rows ==> (#[trigger] m[r]).len() == cols
    &&& forall|r: int, c: int| 0 <= r < rows && 0 <= c < cols ==> rat_wf(#[trigger] m[r][c])
}

/// The `n x n` identity: ones on the diagonal, zeros elsewhere.
pub open spec fn id_s(n: int) -> Seq<Seq<Rat>> {
    Seq::new(
        n as nat,
        |r: int| Seq::new(n as nat, |c: int| if r == c { rat_one() } else { rat_zero() }),
    )
}

/// Column `c` of `m`, as a sequence.
pub open spec fn col_s(m: Seq<Seq<Rat>>, c: int) -> Seq<Rat> {
    Seq::new(m.len(), |k: int| m[k][c])
}

/// The first `k` terms of the inner product of `a` and `b`, accumulated left
/// to right exactly as the multiplication routine computes it.
pub open spec fn dot_val(a: Seq<Rat>, b: Seq<Rat>, k: int) -> Rat
    decreases k,
{
    if k <= 0 {
        rat_zero()
    } else {
        rat_add_v(dot_val(a, b, k - 1), rat_mul_v(a[k - 1], b[k - 1]))
    }
}

/// Whether every intermediate value of that inner product is representable.
pub open spec fn dot_ok(a: Seq<Rat>, b: Seq<Rat>, k: int) -> bool
    decreases k,
{
    if k <= 0 {
        true
    } else {
        &&& dot_ok(a, b, k - 1)
        &&& rat_mul_ok(a[k - 1], b[k - 1])
        &&& rat_add_ok(dot_val(a, b, k - 1), rat_mul_v(a[k - 1], b[k - 1]))
    }
}

/// Every entry of the model matrix is representable by the executable
/// rational type.
pub open spec fn mat_fits_s(m: Seq<Seq<Rat>>, rows: int, cols: int) -> bool {
    forall|r: int, c: int|
        0 <= r < rows && 0 <= c < cols ==> rat_fits(#[trigger] m[r][c])
}

pub open spec fn mat_add_ok_s(a: Seq<Seq<Rat>>, b: Seq<Seq<Rat>>, rows: int, cols: int) -> bool {
    forall|r: int, c: int|
        0 <= r < rows && 0 <= c < cols ==> rat_add_ok(#[trigger] a[r][c], b[r][c])
}

pub open spec fn mat_sub_ok_s(a: Seq<Seq<Rat>>, b: Seq<Seq<Rat>>, rows: int, cols: int) -> bool {
    forall|r: int, c: int|
        0 <= r < rows && 0 <= c < cols ==> rat_sub_ok(#[trigger] a[r][c], b[r][c])
}

pub open spec fn mat_scale_ok_s(a: Seq<Seq<Rat>>, s: Rat, rows: int, cols: int) -> bool {
    forall|r: int, c: int|
        0 <= r < rows && 0 <= c < cols ==> rat_mul_ok(#[trigger] a[r][c], s)
}

pub open spec fn mat_mult_ok_s(
    a: Seq<Seq<Rat>>,
    b: Seq<Seq<Rat>>,
    rows: int,
    inner: int,
    cols: int,
) -> bool {
    forall|r: int, c: int|
        0 <= r < rows && 0 <= c < cols ==> #[trigger] dot_ok(a[r], col_s(b, c), inner)
}

pub proof fn lemma_flat_bound(r: int, c: int, rows: int, cols: int)
    by (nonlinear_arith)
    requires
        0 <= r < rows,
        0 <= c < cols,
    ensures
        0 <= r * cols + c < rows * cols,
        r * cols <= r * cols + c,
{
}

proof fn lemma_flat_inj(r1: int, c1: int, r2: int, c2: int, cols: int)
    by (nonlinear_arith)
    requires
        0 <= c1 < cols,
        0 <= c2 < cols,
        0 <= r1,
        0 <= r2,
        r1 * cols + c1 == r2 * cols + c2,
    ensures
        r1 == r2,
        c1 == c2,
{
}

pub proof fn lemma_row_step(i: int, n: int)
    by (nonlinear_arith)
    requires
        0 <= i,
        0 <= n,
    ensures
        (i + 1) * n == i * n + n,
{
}

/// Splits a flat row-major index into its row and column.
proof fn lemma_flat_split(i: int, rows: int, cols: int)
    requires
        0 <= i < rows * cols,
        0 <= cols,
    ensures
        0 < cols,
        0 <= i / cols < rows,
        0 <= i % cols < cols,
        (i / cols) * cols + i % cols == i,
{
    if cols == 0 {
        assert(rows * 0 == 0) by (nonlinear_arith);
        assert(false);
    }
    if rows <= 0 {
        assert(rows * cols <= 0) by (nonlinear_arith)
            requires rows <= 0, 0 < cols;
        assert(false);
    }
    vstd::arithmetic::div_mod::lemma_fundamental_div_mod(i, cols);
    vstd::arithmetic::div_mod::lemma_mod_bound(i, cols);
    vstd::arithmetic::div_mod::lemma_div_pos_is_pos(i, cols);
    assert((i / cols) * cols + i % cols == i) by (nonlinear_arith)
        requires i == cols * (i / cols) + i % cols;
    if i / cols >= rows {
        assert(false) by (nonlinear_arith)
            requires i == cols * (i / cols) + i % cols, i / cols >= rows, i < rows * cols,
                0 <= i % cols, 0 < cols, 0 < rows;
    }
}

/// Dense matrix with a fixed shape, stored in row-major order. A matrix with
/// zero rows or columns is the empty sentinel.
pub struct Mat {
    rows: usize,
    cols: usize,
    data: Vec<Ratio>,
}

impl View for Mat {
    type V = Seq<Seq<Rat>>;

    closed spec fn view(&self) -> Seq<Seq<Rat>> {
        Seq::new(
            self.rows as nat,
            |r: int|
                Seq::new(
                    self.cols as nat,
                    |c: int| self.data@[r * (self.cols as int) + c]@,
                ),
        )
    }
}

impl Mat {
    pub closed spec fn srows(&self) -> int {
        self.rows as int
    }

    pub closed spec fn scols(&self) -> int {
        self.cols as int
    }

    pub closed spec fn inv(&self) -> bool {
        &&& self.data@.len() == self.rows * self.cols
        &&& forall|i: int| 0 <= i < self.data@.len() ==> (#[trigger] self.data@[i]).wf()
    }

    pub open spec fn wf(&self) -> bool {
        &&& self.inv()
        &&& mat_wf_s(self@, self.srows(), self.scols())
    }

    proof fn lemma_view_entry(&self, r: int, c: int)
        requires
            self.inv(),
            0 <= r < self.srows(),
            0 <= c < self.scols(),
        ensures
            self@[r][c] == self.data@[r * self.scols() + c]@,
            0 <= r * self.scols() + c < self.data@.len(),
    {
        lemma_flat_bound(r, c, self.srows(), self.scols());
    }

    /// The entries of a well-formed matrix all fit the executable
    /// rational range.
    pub proof fn lemma_entries_fit(&self)
        requires
            self.wf(),
        ensures
            mat_fits_s(self@, self.srows(), self.scols()),
    {
        assert forall|r: int, c: int|
            0 <= r < self.srows() && 0 <= c < self.scols() implies rat_fits(
                #[trigger] self@[r][c]) by {
            self.lemma_view_entry(r, c);
            crate::rational::lemma_ratio_fits(self.data@[r * self.scols() + c]);
        }
    }

    proof fn lemma_inv_wf(&self)
        requires
            self.inv(),
        ensures
            self.wf(),
    {
        assert forall|r: int, c: int|
            0 <= r < self.srows() && 0 <= c < self.scols() implies rat_wf(#[trigger] self@[r][c]) by {
            self.lemma_view_entry(r, c);
        }
    }

    /// Builds a matrix of the given shape from exactly `rows * cols` entry
    /// values in row-major order. A zero dimension gives the empty sentinel.
    pub fn new(rows: usize, cols: usize, vals: Vec<Ratio>) -> (m: Mat)
        requires
            vals@.len() == rows * cols,
            forall|i: int| 0 <= i < vals@.len() ==> (#[trigger] vals@[i]).wf(),
        ensures
            m.wf(),
            m.srows() == rows,
            m.scols() == cols,
            forall|r: int, c: int|
                0 <= r < rows && 0 <= c < cols ==> #[trigger] m@[r][c] == vals@[r * cols + c]@,
    {
        let m = Mat { rows, cols, data: vals };
        proof {
            m.lemma_inv_wf();
            assert forall|r: int, c: int|
                0 <= r < rows && 0 <= c < cols implies #[trigger] m@[r][c] == vals@[r * cols + c]@ by {
                m.lemma_view_entry(r, c);
            }
        }
        m
    }

    pub(crate) fn data_len(&self) -> (n: usize)
        requires
            self.wf(),
        ensures
            n as int == self.srows() * self.scols(),
    {
        self.data.len()
    }

    pub fn num_rows(&self) -> (r: usize)
        ensures
            r as int == self.srows(),
    {
        self.rows
    }

    pub fn num_cols(&self) -> (c: usize)
        ensures
            c as int == self.scols(),
    {
        self.cols
    }

    /// Entry at row `r`, column `c`.
    pub fn get(&self, r: usize, c: usize) -> (v: Ratio)
        requires
            self.wf(),
            r < self.srows(),
            c < self.scols(),
        ensures
            v@ == self@[r as int][c as int],
            v.wf(),
    {
        let n: usize = self.data.len();
        proof {
            self.lemma_view_entry(r as int, c as int);
        }
        self.data[r * self.cols + c]
    }

    /// Overwrites the entry at row `r`, column `c`.
    pub(crate) fn set(&mut self, r: usize, c: usize, v: Ratio)
        requires
            old(self).wf(),
            r < old(self).srows(),
            c < old(self).scols(),
            v.wf(),
        ensures
            final(self).wf(),
            final(self).srows() == old(self).srows(),
            final(self).scols() == old(self).scols(),
            final(self)@ == old(self)@.update(
                r as int,
                old(self)@[r as int].update(c as int, v@),
            ),
    {
        let n: usize = self.data.len();
        proof {
            old(self).lemma_view_entry(r as int, c as int);
        }
        let idx: usize = r * self.cols + c;
        self.data[idx] = v;
        proof {
            self.lemma_inv_wf();
            let rows = self.srows();
            let cols = self.scols();
            let target = old(self)@.update(r as int, old(self)@[r as int].update(c as int, v@));
            assert forall|i: int, j: int|
                0 <= i < rows && 0 <= j < cols implies #[trigger] self@[i][j] == target[i][j] by {
                self.lemma_view_entry(i, j);
                old(self).lemma_view_entry(i, j);
                if i * cols + j == r * cols + c {
                    lemma_flat_inj(i, j, r as int, c as int, cols);
                } else {
                    assert(!(i == r && j == c));
                }
            }
            assert(self@ =~~= target);
        }
    }

    /// Deep copy: same shape, same entries, no sharing.
    pub fn copy(other: &Mat) -> (m: Mat)
        requires
            other.wf(),
        ensures
            m.wf(),
            m.srows() == other.srows(),
            m.scols() == other.scols(),
            m@ == other@,
    {
        let mut v: Vec<Ratio> = Vec::new();
        let len: usize = other.data.len();
        let mut i: usize = 0;
        while i < len
            invariant
                other.wf(),
                len == other.data@.len(),
                i <= len,
                v@.len() == i,
                forall|j: int| 0 <= j < i ==> v@[j] == other.data@[j],
            decreases len - i,
        {
            v.push(other.data[i]);
            i += 1;
        }
        let m = Mat { rows: other.rows, cols: other.cols, data: v };
        proof {
            assert(v@ =~= other.data@);
            m.lemma_inv_wf();
            assert(m@ =~~= other@);
        }
        m
    }

    /// The `n x n` identity matrix.
    pub fn identity(n: usize) -> (m: Mat)
        requires
            n * n <= usize::MAX,
        ensures
            m.wf(),
            m.srows() == n,
            m.scols() == n,
            m@ == id_s(n as int),
    {
        let mut vals: Vec<Ratio> = Vec::new();
        let mut i: usize = 0;
        while i < n
            invariant
                i <= n,
                n * n <= usize::MAX,
                vals@.len() == i * n,
                forall|t: int| 0 <= t < vals@.len() ==> (#[trigger] vals@[t]).wf(),
                forall|r: int, c: int|
                    0 <= r < i && 0 <= c < n ==> (#[trigger] vals@[r * (n as int) + c])@
                        == (if r == c { rat_one() } else { rat_zero() })
                        && vals@[r * (n as int) + c].wf(),
            decreases n - i,
        {
            let mut j: usize = 0;
            while j < n
                invariant
                    i < n,
                    j <= n,
                    n * n <= usize::MAX,
                    vals@.len() == i * n + j,
                    forall|t: int| 0 <= t < vals@.len() ==> (#[trigger] vals@[t]).wf(),
                    forall|r: int, c: int|
                        0 <= r < i && 0 <= c < n ==> (#[trigger] vals@[r * (n as int) + c])@
                            == (if r == c { rat_one() } else { rat_zero() })
                            && vals@[r * (n as int) + c].wf(),
                    forall|c: int|
                        0 <= c < j ==> (#[trigger] vals@[i * (n as int) + c])@
                            == (if i == c { rat_one() } else { rat_zero() })
                            && vals@[i * (n as int) + c].wf(),
                decreases n - j,
            {
                proof {
                    lemma_flat_bound(i as int, j as int, n as int, n as int);
                }
                if i == j {
                    vals.push(Ratio::one());
                } else {
                    vals.push(Ratio::zero());
                }
                proof {
                    assert forall|r: int, c: int|
                        0 <= r < i && 0 <= c < n implies (#[trigger] vals@[r * (n as int) + c])@
                            == (if r == c { rat_one() } else { rat_zero() })
                            && vals@[r * (n as int) + c].wf() by {
                        lemma_flat_bound(r, c, i as int, n as int);
                        assert(r * (n as int) + c < i * n);
                    }
                }
                j += 1;
            }
            proof {
                lemma_row_step(i as int, n as int);
            }
            i += 1;
        }
        let m = Mat::new(n, n, vals);
        proof {
            assert forall|r: int, c: int|
                0 <= r < n && 0 <= c < n implies #[trigger] m@[r][c] == id_s(n as int)[r][c] by {
                assert(m@[r][c] == vals@[r * (n as int) + c]@);
            }
            assert(m@ =~~= id_s(n as int));
        }
        m
    }

    /// Elementwise sum. Fails with `DimensionMismatch` when the shapes
    /// differ, and with `Overflow` when some exact entry is unrepresentable.
    pub fn add(mat1: &Mat, mat2: &Mat) -> (out: Result<Mat, MatError>)
        requires
            mat1.wf(),
            mat2.wf(),
        ensures
            out is Err <==> (mat1.srows() != mat2.srows() || mat1.scols() != mat2.scols()
                || !mat_add_ok_s(mat1@, mat2@, mat1.srows(), mat1.scols())),
            out == Err::<Mat, MatError>(MatError::DimensionMismatch) <==> (mat1.srows()
                != mat2.srows() || mat1.scols() != mat2.scols()),
            out matches Ok(m) ==> {
                &&& m.wf()
                &&& m.srows() == mat1.srows()
                &&& m.scols() == mat1.scols()
                &&& forall|r: int, c: int|
                    0 <= r < mat1.srows() && 0 <= c < mat1.scols() ==> #[trigger] m@[r][c]
                        == rat_add_v(mat1@[r][c], mat2@[r][c])
            },
            out is Err ==> out == Err::<Mat, MatError>(MatError::DimensionMismatch) || out
                == Err::<Mat, MatError>(MatError::Overflow),
    {
        if mat1.rows != mat2.rows || mat1.cols != mat2.cols {
            return Err(MatError::DimensionMismatch);
        }
        let rows: usize = mat1.rows;
        let cols: usize = mat1.cols;
        let total: usize = mat1.data.len();
        let mut v: Vec<Ratio> = Vec::new();
        let mut i: usize = 0;
        while i < total
            invariant
                mat1.wf(),
                mat2.wf(),
                rows as int == mat1.srows() && cols as int == mat1.scols(),
                mat2.srows() == rows && mat2.scols() == cols,
                total == mat1.data@.len() && total == rows * cols,
                i <= total,
                v@.len() == i,
                forall|t: int| 0 <= t < v@.len() ==> (#[trigger] v@[t]).wf(),
                forall|j: int|
                    0 <= j < i ==> rat_add_ok(#[trigger] mat1.data@[j]@, mat2.data@[j]@)
                        && v@[j]@ == rat_add_v(mat1.data@[j]@, mat2.data@[j]@) && v@[j].wf(),
            decreases total - i,
        {
            match mat1.data[i].checked_add(&mat2.data[i]) {
                Some(x) => {
                    v.push(x);
                },
                None => {
                    proof {
                        lemma_flat_split(i as int, rows as int, cols as int);
                        let r = i as int / (cols as int);
                        let c = i as int % (cols as int);
                        mat1.lemma_view_entry(r, c);
                        mat2.lemma_view_entry(r, c);
                        assert(!rat_add_ok(mat1@[r][c], mat2@[r][c]));
                    }
                    return Err(MatError::Overflow);
                },
            }
            i += 1;
        }
        let m = Mat::new(rows, cols, v);
        proof {
            assert forall|r: int, c: int|
                0 <= r < rows && 0 <= c < cols implies rat_add_ok(#[trigger] mat1@[r][c], mat2@[r][c])
                    && m@[r][c] == rat_add_v(mat1@[r][c], mat2@[r][c]) by {
                lemma_flat_bound(r, c, rows as int, cols as int);
                mat1.lemma_view_entry(r, c);
                mat2.lemma_view_entry(r, c);
            }
        }
        Ok(m)
    }

    /// Elementwise difference; fails exactly as `add` does.
    pub fn sub(mat1: &Mat, mat2: &Mat) -> (out: Result<Mat, MatError>)
        requires
            mat1.wf(),
            mat2.wf(),
        ensures
            out is Err <==> (mat1.srows() != mat2.srows() || mat1.scols() != mat2.scols()
                || !mat_sub_ok_s(mat1@, mat2@, mat1.srows(), mat1.scols())),
            out == Err::<Mat, MatError>(MatError::DimensionMismatch) <==> (mat1.srows()
                != mat2.srows() || mat1.scols() != mat2.scols()),
            out matches Ok(m) ==> {
                &&& m.wf()
                &&& m.srows() == mat1.srows()
                &&& m.scols() == mat1.scols()
                &&& forall|r: int, c: int|
                    0 <= r < mat1.srows() && 0 <= c < mat1.scols() ==> #[trigger] m@[r][c]
                        == rat_sub_v(mat1@[r][c], mat2@[r][c])
            },
            out is Err ==> out == Err::<Mat, MatError>(MatError::DimensionMismatch) || out
                == Err::<Mat, MatError>(MatError::Overflow),
    {
        if mat1.rows != mat2.rows || mat1.cols != mat2.cols {
            return Err(MatError::DimensionMismatch);
        }
        let rows: usize = mat1.rows;
        let cols: usize = mat1.cols;
        let total: usize = mat1.data.len();
        let mut v: Vec<Ratio> = Vec::new();
        let mut i: usize = 0;
        while i < total
            invariant
                mat1.wf(),
                mat2.wf(),
                rows as int == mat1.srows() && cols as int == mat1.scols(),
                mat2.srows() == rows && mat2.scols() == cols,
                total == mat1.data@.len() && total == rows * cols,
                i <= total,
                v@.len() == i,
                forall|t: int| 0 <= t < v@.len() ==> (#[trigger] v@[t]).wf(),
                forall|j: int|
                    0 <= j < i ==> rat_sub_ok(#[trigger] mat1.data@[j]@, mat2.data@[j]@)
                        && v@[j]@ == rat_sub_v(mat1.data@[j]@, mat2.data@[j]@) && v@[j].wf(),
            decreases total - i,
        {
            match mat1.data[i].checked_sub(&mat2.data[i]) {
                Some(x) => {
                    v.push(x);
                },
                None => {
                    proof {
                        lemma_flat_split(i as int, rows as int, cols as int);
                        let r = i as int / (cols as int);
                        let c = i as int % (cols as int);
                        mat1.lemma_view_entry(r, c);
                        mat2.lemma_view_entry(r, c);
                        assert(!rat_sub_ok(mat1@[r][c], mat2@[r][c]));
                    }
                    return Err(MatError::Overflow);
                },
            }
            i += 1;
        }
        let m = Mat::new(rows, cols, v);
        proof {
            assert forall|r: int, c: int|
                0 <= r < rows && 0 <= c < cols implies rat_sub_ok(#[trigger] mat1@[r][c], mat2@[r][c])
                    && m@[r][c] == rat_sub_v(mat1@[r][c], mat2@[r][c]) by {
                lemma_flat_bound(r, c, rows as int, cols as int);
                mat1.lemma_view_entry(r, c);
                mat2.lemma_view_entry(r, c);
            }
        }
        Ok(m)
    }

    /// Scales every entry by `scalar`. Never fails on shape; fails with
    /// `Overflow` when some exact product is unrepresentable.
    pub fn mult_scalar(mat: &Mat, scalar: &Ratio) -> (out: Result<Mat, MatError>)
        requires
            mat.wf(),
            scalar.wf(),
        ensures
            out is Err <==> !mat_scale_ok_s(mat@, scalar@, mat.srows(), mat.scols()),
            out is Err ==> out == Err::<Mat, MatError>(MatError::Overflow),
            out matches Ok(m) ==> {
                &&& m.wf()
                &&& m.srows() == mat.srows()
                &&& m.scols() == mat.scols()
                &&& forall|r: int, c: int|
                    0 <= r < mat.srows() && 0 <= c < mat.scols() ==> #[trigger] m@[r][c]
                        == rat_mul_v(mat@[r][c], scalar@)
            },
    {
        let rows: usize = mat.rows;
        let cols: usize = mat.cols;
        let total: usize = mat.data.len();
        let mut v: Vec<Ratio> = Vec::new();
        let mut i: usize = 0;
        while i < total
            invariant
                mat.wf(),
                scalar.wf(),
                rows as int == mat.srows() && cols as int == mat.scols(),
                total == mat.data@.len() && total == rows * cols,
                i <= total,
                v@.len() == i,
                forall|t: int| 0 <= t < v@.len() ==> (#[trigger] v@[t]).wf(),
                forall|j: int|
                    0 <= j < i ==> rat_mul_ok(#[trigger] mat.data@[j]@, scalar@)
                        && v@[j]@ == rat_mul_v(mat.data@[j]@, scalar@) && v@[j].wf(),
            decreases total - i,
        {
            match mat.data[i].checked_mul(scalar) {
                Some(x) => {
                    v.push(x);
                },
                None => {
                    proof {
                        lemma_flat_split(i as int, rows as int, cols as int);
                        let r = i as int / (cols as int);
                        let c = i as int % (cols as int);
                        mat.lemma_view_entry(r, c);
                        assert(!rat_mul_ok(mat@[r][c], scalar@));
                    }
                    return Err(MatError::Overflow);
                },
            }
            i += 1;
        }
        let m = Mat::new(rows, cols, v);
        proof {
            assert forall|r: int, c: int|
                0 <= r < rows && 0 <= c < cols implies rat_mul_ok(#[trigger] mat@[r][c], scalar@)
                    && m@[r][c] == rat_mul_v(mat@[r][c], scalar@) by {
                lemma_flat_bound(r, c, rows as int, cols as int);
                mat.lemma_view_entry(r, c);
            }
        }
        Ok(m)
    }

    /// Matrix product: entry `(r, c)` is the inner product of row `r` of
    /// `mat1` with column `c` of `mat2`, accumulated left to right.
    pub fn mult(mat1: &Mat, mat2: &Mat) -> (out: Result<Mat, MatError>)
        requires
            mat1.wf(),
            mat2.wf(),
        ensures
            out is Err <==> (mat1.scols() != mat2.srows() || !mat_mult_ok_s(mat1@, mat2@,
                mat1.srows(), mat1.scols(), mat2.scols())),
            out == Err::<Mat, MatError>(MatError::DimensionMismatch) <==> mat1.scols()
                != mat2.srows(),
            out matches Ok(m) ==> {
                &&& m.wf()
                &&& m.srows() == mat1.srows()
                &&& m.scols() == mat2.scols()
                &&& forall|r: int, c: int|
                    0 <= r < mat1.srows() && 0 <= c < mat2.scols() ==> #[trigger] m@[r][c]
                        == dot_val(mat1@[r], col_s(mat2@, c), mat1.scols())
            },
            out is Err ==> out == Err::<Mat, MatError>(MatError::DimensionMismatch) || out
                == Err::<Mat, MatError>(MatError::Overflow),
    {
        if mat1.cols != mat2.rows {
            return Err(MatError::DimensionMismatch);
        }
        let rows: usize = mat1.rows;
        let inner: usize = mat1.cols;
        let cols: usize = mat2.cols;
        let mut v: Vec<Ratio> = Vec::new();
        let mut r: usize = 0;
        while r < rows
            invariant
                mat1.wf(),
                mat2.wf(),
                rows as int == mat1.srows() && inner as int == mat1.scols(),
                mat2.srows() == inner && cols as int == mat2.scols(),
                r <= rows,
                v@.len() == r * cols,
                forall|j: int|
                    0 <= j < v@.len() ==> (#[trigger] v@[j]).wf() && v@[j]@ == dot_val(
                        mat1@[j / (cols as int)], col_s(mat2@, j % (cols as int)), inner as int)
                        && dot_ok(mat1@[j / (cols as int)], col_s(mat2@, j % (cols as int)),
                        inner as int),
            decreases rows - r,
        {
            let mut c: usize = 0;
            while c < cols
                invariant
                    mat1.wf(),
                    mat2.wf(),
                    rows as int == mat1.srows() && inner as int == mat1.scols(),
                    mat2.srows() == inner && cols as int == mat2.scols(),
                    r < rows,
                    c <= cols,
                    v@.len() == r * cols + c,
                    forall|j: int|
                        0 <= j < v@.len() ==> (#[trigger] v@[j]).wf() && v@[j]@ == dot_val(
                            mat1@[j / (cols as int)], col_s(mat2@, j % (cols as int)),
                            inner as int) && dot_ok(mat1@[j / (cols as int)],
                            col_s(mat2@, j % (cols as int)), inner as int),
                decreases cols - c,
            {
                let mut sum: Ratio = Ratio::zero();
                let mut k: usize = 0;
                while k < inner
                    invariant
                        mat1.wf(),
                        mat2.wf(),
                        rows as int == mat1.srows() && inner as int == mat1.scols(),
                        mat2.srows() == inner && cols as int == mat2.scols(),
                        r < rows,
                        c < cols,
                        k <= inner,
                        sum.wf(),
                        sum@ == dot_val(mat1@[r as int], col_s(mat2@, c as int), k as int),
                        dot_ok(mat1@[r as int], col_s(mat2@, c as int), k as int),
                    decreases inner - k,
                {
                    let x = mat1.get(r, k);
                    let y = mat2.get(k, c);
                    proof {
                        assert(col_s(mat2@, c as int)[k as int] == mat2@[k as int][c as int]);
                    }
                    let t = match x.checked_mul(&y) {
                        Some(t) => t,
                        None => {
                            proof {
                                if dot_ok(mat1@[r as int], col_s(mat2@, c as int), inner as int) {
                                    lemma_dot_ok_prefix(
                                        mat1@[r as int],
                                        col_s(mat2@, c as int),
                                        k as int + 1,
                                        inner as int,
                                    );
                                }
                            }
                            return Err(MatError::Overflow);
                        },
                    };
                    sum = match sum.checked_add(&t) {
                        Some(s) => s,
                        None => {
                            proof {
                                if dot_ok(mat1@[r as int], col_s(mat2@, c as int), inner as int) {
                                    lemma_dot_ok_prefix(
                                        mat1@[r as int],
                                        col_s(mat2@, c as int),
                                        k as int + 1,
                                        inner as int,
                                    );
                                }
                            }
                            return Err(MatError::Overflow);
                        },
                    };
                    k += 1;
                }
                v.push(sum);
                proof {
                    vstd::arithmetic::div_mod::lemma_fundamental_div_mod_converse(
                        r as int * (cols as int) + c as int,
                        cols as int,
                        r as int,
                        c as int,
                    );
                }
                c += 1;
            }
            proof {
                lemma_row_step(r as int, cols as int);
            }
            r += 1;
        }
        let m = Mat::new(rows, cols, v);
        proof {
            assert forall|a: int, b: int|
                0 <= a < rows && 0 <= b < cols implies #[trigger] dot_ok(mat1@[a], col_s(mat2@, b),
                    inner as int) && m@[a][b] == dot_val(mat1@[a], col_s(mat2@, b), inner as int) by {
                lemma_flat_bound(a, b, rows as int, cols as int);
                vstd::arithmetic::div_mod::lemma_fundamental_div_mod_converse(
                    a * (cols as int) + b,
                    cols as int,
                    a,
                    b,
                );
                assert(v@[a * (cols as int) + b]@ == dot_val(mat1@[a], col_s(mat2@, b),
                    inner as int));
            }
            assert forall|a: int, b: int|
                0 <= a < rows && 0 <= b < cols implies #[trigger] m@[a][b] == dot_val(mat1@[a],
                    col_s(mat2@, b), inner as int) by {
                assert(dot_ok(mat1@[a], col_s(mat2@, b), inner as int));
            }
        }
        Ok(m)
    }
}

/// A representability failure inside an inner product also invalidates every
/// longer prefix of that product.
proof fn lemma_dot_ok_prefix(a: Seq<Rat>, b: Seq<Rat>, k: int, n: int)
    requires
        0 <= k <= n,
        dot_ok(a, b, n),
    ensures
        dot_ok(a, b, k),
    decreases n,
{
    if k < n {
        lemma_dot_ok_prefix(a, b, k, n - 1);
    }
}

} // verus!
