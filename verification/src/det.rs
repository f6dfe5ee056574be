use vstd::prelude::*;

use crate::matrix::{Mat, MatError};
use crate::rational::{
    rat_add_ok, rat_add_v, rat_mul_ok, rat_mul_v, rat_one, rat_sub_ok, rat_sub_v, rat_zero, Rat,
    Ratio,
};

verus! {

/// The minor of `m` that removes row 0 and column `col`.
pub open spec fn minor_s(m: Seq<Seq<Rat>>, col: int) -> Seq<Seq<Rat>> {
    Seq::new(
        (m.len() - 1) as nat,
        |r: int|
            Seq::new(
                (m.len() - 1) as nat,
                |c: int| if c < col { m[r + 1][c] } else { m[r + 1][c + 1] },
            ),
    )
}

/// Entry of that minor at flat row-major position `t`, for width `w`.
pub open spec fn minor_flat(m: Seq<Seq<Rat>>, col: int, t: int, w: int) -> Rat {
    let r = t / w;
    let c = t % w;
    if c < col {
        m[r + 1][c]
    } else {
        m[r + 1][c + 1]
    }
}

/// Determinant of an `n x n` matrix by cofactor expansion along the first
/// row, with every intermediate computed exactly as `Mat::det` computes it;
/// `None` reports that some intermediate left the representable range.
pub open spec fn det_s(m: Seq<Seq<Rat>>, n: int) -> Option<Rat>
    decreases n, 1int, 0int,
{
    if n <= 0 {
        Some(rat_one())
    } else {
        det_row(m, n, 0, rat_zero())
    }
}

/// The cofactor sum from column `j` on, starting from the accumulated value
/// `acc`: terms `m[0][j] * det(minor_j)` are added for even `j` and
/// subtracted for odd `j`.
pub open spec fn det_row(m: Seq<Seq<Rat>>, n: int, j: int, acc: Rat) -> Option<Rat>
    decreases n, 0int, n - j
        when 0 <= j && 0 <= n
{
    if j >= n {
        Some(acc)
    } else {
        match det_s(minor_s(m, j), n - 1) {
            None => None,
            Some(sub) => {
                if !rat_mul_ok(m[0][j], sub) {
                    None
                } else {
                    let term = rat_mul_v(m[0][j], sub);
                    if j % 2 == 0 {
                        if !rat_add_ok(acc, term) {
                            None
                        } else {
                            det_row(m, n, j + 1, rat_add_v(acc, term))
                        }
                    } else {
                        if !rat_sub_ok(acc, term) {
                            None
                        } else {
                            det_row(m, n, j + 1, rat_sub_v(acc, term))
                        }
                    }
                }
            },
        }
    }
}

impl Mat {
    /// Builds the minor that removes row 0 and column `j`.
    fn minor(&self, j: usize) -> (m: Mat)
        requires
            self.wf(),
            self.srows() == self.scols(),
            self.srows() >= 1,
            j < self.srows(),
        ensures
            m.wf(),
            m.srows() == self.srows() - 1,
            m.scols() == self.srows() - 1,
            m@ == minor_s(self@, j as int),
    {
        let n: usize = self.num_rows();
        let w: usize = n - 1;
        let mut vals: Vec<Ratio> = Vec::new();
        let mut r: usize = 1;
        while r < n
            invariant
                self.wf(),
                self.srows() == n,
                self.scols() == n,
                j < n,
                w == n - 1,
                1 <= r <= n,
                vals@.len() == (r - 1) * w,
                forall|t: int|
                    0 <= t < vals@.len() ==> (#[trigger] vals@[t]).wf() && vals@[t]@
                        == minor_flat(self@, j as int, t, w as int),
            decreases n - r,
        {
            let mut c: usize = 0;
            while c < n
                invariant
                    self.wf(),
                    self.srows() == n,
                    self.scols() == n,
                    j < n,
                    w == n - 1,
                    1 <= r < n,
                    c <= n,
                    vals@.len() == (r - 1) * w + (if c <= j { c as int } else { c - 1 }),
                    forall|t: int|
                        0 <= t < vals@.len() ==> (#[trigger] vals@[t]).wf() && vals@[t]@
                            == minor_flat(self@, j as int, t, w as int),
                decreases n - c,
            {
                if c != j {
                    let ghost t0 = vals@.len() as int;
                    let ghost cc = if c < j { c as int } else { c - 1 };
                    vals.push(self.get(r, c));
                    proof {
                        vstd::arithmetic::div_mod::lemma_fundamental_div_mod_converse(
                            t0, w as int, r - 1, cc,
                        );
                    }
                }
                c += 1;
            }
            proof {
                crate::matrix::lemma_row_step(r - 1, w as int);
            }
            r += 1;
        }
        let m = Mat::new(w, w, vals);
        proof {
            assert forall|a: int, b: int|
                0 <= a < w && 0 <= b < w implies #[trigger] m@[a][b] == minor_s(self@, j as int)[a][b] by {
                crate::matrix::lemma_flat_bound(a, b, w as int, w as int);
                vstd::arithmetic::div_mod::lemma_fundamental_div_mod_converse(
                    a * (w as int) + b, w as int, a, b,
                );
                assert(vals@[a * (w as int) + b]@ == minor_flat(self@, j as int,
                    a * (w as int) + b, w as int));
            }
            assert(m@ =~~= minor_s(self@, j as int));
        }
        m
    }

    /// Determinant of a square matrix, by cofactor expansion along the
    /// first row; exact, with `Overflow` when an intermediate value leaves
    /// the representable range. The determinant of the empty matrix is one.
    pub fn det(&self) -> (out: Result<Ratio, MatError>)
        requires
            self.wf(),
        ensures
            out == Err::<Ratio, MatError>(MatError::NonSquareError) <==> self.srows()
                != self.scols(),
            self.srows() == self.scols() ==> match det_s(self@, self.srows()) {
                Some(v) => out matches Ok(x) && x@ == v && x.wf(),
                None => out == Err::<Ratio, MatError>(MatError::Overflow),
            },
        decreases self.srows(),
    {
        let n: usize = self.num_rows();
        if n != self.num_cols() {
            return Err(MatError::NonSquareError);
        }
        if n == 0 {
            return Ok(Ratio::one());
        }
        let mut acc: Ratio = Ratio::zero();
        let mut j: usize = 0;
        #[verifier::loop_isolation(false)]
        while j < n
            invariant
                j <= n,
                acc.wf(),
                det_row(self@, n as int, j as int, acc@) == det_row(self@, n as int, 0,
                    rat_zero()),
            decreases n - j,
        {
            let minor = self.minor(j);
            proof {
                assert(minor.srows() < self.srows());
            }
            let sub = match minor.det() {
                Ok(s) => s,
                Err(_) => {
                    proof {
                        assert(det_s(minor_s(self@, j as int), n as int - 1) is None);
                    }
                    return Err(MatError::Overflow);
                },
            };
            let entry = self.get(0, j);
            let term = match entry.checked_mul(&sub) {
                Some(t) => t,
                None => {
                    return Err(MatError::Overflow);
                },
            };
            let next = if j % 2 == 0 {
                acc.checked_add(&term)
            } else {
                acc.checked_sub(&term)
            };
            acc = match next {
                Some(a) => a,
                None => {
                    return Err(MatError::Overflow);
                },
            };
            j += 1;
        }
        Ok(acc)
    }
}

} // verus!
