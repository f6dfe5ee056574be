use vstd::prelude::*;

use crate::matrix::{id_s, Mat, MatError};
use crate::rational::{
    rat_add_ok, rat_add_v, rat_inv_v, rat_mul_ok, rat_mul_v, rat_neg_v, rat_one, rat_small,
    rat_sub_v, Rat, Ratio,
};

verus! {

/// Rows `i` and `j` of `m` exchanged.
pub open spec fn row_swap_s(m: Seq<Seq<Rat>>, i: int, j: int) -> Seq<Seq<Rat>> {
    m.update(i, m[j]).update(j, m[i])
}

/// Whether every product of an entry of `row` with `f` is representable.
pub open spec fn row_scale_ok(row: Seq<Rat>, f: Rat) -> bool {
    forall|i: int| 0 <= i < row.len() ==> rat_mul_ok(#[trigger] row[i], f)
}

/// `row` with every entry multiplied by `f`.
pub open spec fn row_scale_s(row: Seq<Rat>, f: Rat) -> Seq<Rat> {
    Seq::new(row.len(), |i: int| rat_mul_v(row[i], f))
}

/// Whether `dst + f * src` is representable entry by entry.
pub open spec fn row_addmul_ok(dst: Seq<Rat>, src: Seq<Rat>, f: Rat) -> bool {
    forall|i: int|
        0 <= i < dst.len() ==> rat_mul_ok(f, #[trigger] src[i]) && rat_add_ok(
            dst[i],
            rat_mul_v(f, src[i]),
        )
}

/// `dst + f * src`, entry by entry.
pub open spec fn row_addmul_s(dst: Seq<Rat>, src: Seq<Rat>, f: Rat) -> Seq<Rat> {
    Seq::new(dst.len(), |i: int| rat_add_v(dst[i], rat_mul_v(f, src[i])))
}

/// Whether clearing column `pc` from every row but `pr` stays representable.
pub open spec fn elim_ok(m: Seq<Seq<Rat>>, pr: int, pc: int) -> bool {
    forall|r: int|
        0 <= r < m.len() && r != pr ==> row_addmul_ok(#[trigger] m[r], m[pr], rat_neg_v(m[r][pc]))
}

/// Column `pc` cleared from every row but the pivot row `pr`.
pub open spec fn elim_s(m: Seq<Seq<Rat>>, pr: int, pc: int) -> Seq<Seq<Rat>> {
    Seq::new(
        m.len(),
        |r: int|
            if r == pr {
                m[pr]
            } else {
                row_addmul_s(m[r], m[pr], rat_neg_v(m[r][pc]))
            },
    )
}

/// The same row operations mirrored onto the companion matrix `w`, with the
/// multipliers read from `m`.
pub open spec fn elim2_ok(w: Seq<Seq<Rat>>, m: Seq<Seq<Rat>>, pr: int, pc: int) -> bool {
    forall|r: int|
        0 <= r < w.len() && r != pr ==> row_addmul_ok(#[trigger] w[r], w[pr], rat_neg_v(m[r][pc]))
}

pub open spec fn elim2_s(w: Seq<Seq<Rat>>, m: Seq<Seq<Rat>>, pr: int, pc: int) -> Seq<Seq<Rat>> {
    Seq::new(
        w.len(),
        |r: int|
            if r == pr {
                w[pr]
            } else {
                row_addmul_s(w[r], w[pr], rat_neg_v(m[r][pc]))
            },
    )
}

/// First row at or below `i` whose entry in column `pc` is at least the
/// tolerance in magnitude; `rows` when no such row exists.
pub open spec fn find_pivot_s(m: Seq<Seq<Rat>>, pc: int, i: int, rows: int) -> int
    decreases rows - i,
{
    if i >= rows {
        rows
    } else if !rat_small(m[i][pc]) {
        i
    } else {
        find_pivot_s(m, pc, i + 1, rows)
    }
}

/// Outcome of Gauss-Jordan reduction: the reduced (or companion inverse)
/// matrix, a singularity report, or a representability failure.
pub enum RrefOutcome {
    Reduced(Seq<Seq<Rat>>),
    Singular,
    TooBig,
}

/// One walk of Gauss-Jordan elimination from pivot position `(pr, pc)`,
/// exactly as `Mat::rref` performs it: a pivot entry below the tolerance is
/// repaired by swapping in the first usable row below; a column with no
/// usable pivot is fatal when inverting and is otherwise skipped; a pivot
/// not already within tolerance of one has its row scaled by its reciprocal;
/// then the pivot column is cleared from every other row.
pub open spec fn rref_from(
    res: Seq<Seq<Rat>>,
    w: Seq<Seq<Rat>>,
    pr: int,
    pc: int,
    rows: int,
    cols: int,
    inverse: bool,
) -> RrefOutcome
    decreases cols - pc, 1int,
{
    if pr >= rows || pc >= cols {
        RrefOutcome::Reduced(if inverse { w } else { res })
    } else if rat_small(res[pr][pc]) {
        let i = find_pivot_s(res, pc, pr, rows);
        if i >= rows {
            if inverse {
                RrefOutcome::Singular
            } else {
                rref_from(res, w, pr, pc + 1, rows, cols, inverse)
            }
        } else {
            rref_step(
                row_swap_s(res, pr, i),
                if inverse { row_swap_s(w, pr, i) } else { w },
                pr, pc, rows, cols, inverse,
            )
        }
    } else {
        rref_step(res, w, pr, pc, rows, cols, inverse)
    }
}

/// The body of one elimination step, after a usable pivot stands at
/// `(pr, pc)`.
pub open spec fn rref_step(
    res: Seq<Seq<Rat>>,
    w: Seq<Seq<Rat>>,
    pr: int,
    pc: int,
    rows: int,
    cols: int,
    inverse: bool,
) -> RrefOutcome
    decreases cols - pc, 0int
        when pc < cols
{
    let p = res[pr][pc];
    let need = !rat_small(rat_sub_v(rat_one(), p));
    let f = rat_inv_v(p);
    if need && !row_scale_ok(res[pr], f) {
        RrefOutcome::TooBig
    } else {
        let res2 = if need { res.update(pr, row_scale_s(res[pr], f)) } else { res };
        if inverse && need && !row_scale_ok(w[pr], f) {
            RrefOutcome::TooBig
        } else {
            let w2 = if inverse && need { w.update(pr, row_scale_s(w[pr], f)) } else { w };
            if !elim_ok(res2, pr, pc) {
                RrefOutcome::TooBig
            } else if inverse && !elim2_ok(w2, res2, pr, pc) {
                RrefOutcome::TooBig
            } else {
                rref_from(
                    elim_s(res2, pr, pc),
                    if inverse { elim2_s(w2, res2, pr, pc) } else { w2 },
                    pr + 1, pc + 1, rows, cols, inverse,
                )
            }
        }
    }
}

impl Mat {
    /// Exchanges rows `r1` and `r2` in place.
    pub(crate) fn switch_rows(&mut self, r1: usize, r2: usize)
        requires
            old(self).wf(),
            r1 < old(self).srows(),
            r2 < old(self).srows(),
        ensures
            final(self).wf(),
            final(self).srows() == old(self).srows(),
            final(self).scols() == old(self).scols(),
            final(self)@ == row_swap_s(old(self)@, r1 as int, r2 as int),
    {
        let ghost rows = self.srows();
        let ghost cols = self.scols();
        let n: usize = self.num_cols();
        let mut i: usize = 0;
        while i < n
            invariant
                self.wf(),
                self.srows() == rows,
                self.scols() == cols,
                old(self).wf(),
                rows == old(self).srows(),
                cols == old(self).scols(),
                n as int == cols,
                r1 < rows,
                r2 < rows,
                i <= n,
                forall|rr: int, cc: int|
                    0 <= rr < rows && 0 <= cc < cols ==> #[trigger] self@[rr][cc] == (
                        if rr == r1 && cc < i {
                            old(self)@[r2 as int][cc]
                        } else if rr == r2 && cc < i {
                            old(self)@[r1 as int][cc]
                        } else {
                            old(self)@[rr][cc]
                        }),
            decreases n - i,
        {
            let a = self.get(r1, i);
            let b = self.get(r2, i);
            self.set(r1, i, b);
            self.set(r2, i, a);
            i += 1;
        }
        proof {
            let target = row_swap_s(old(self)@, r1 as int, r2 as int);
            assert forall|rr: int|
                0 <= rr < rows implies #[trigger] self@[rr] =~= target[rr] by {
            }
            assert(self@ =~~= target);
        }
    }

    /// Multiplies every entry of row `row` by `f` in place; reports whether
    /// every product was representable (on failure the matrix is discarded
    /// by the caller).
    pub(crate) fn mult_row(&mut self, row: usize, f: Ratio) -> (ok: bool)
        requires
            old(self).wf(),
            row < old(self).srows(),
            f.wf(),
        ensures
            final(self).wf(),
            final(self).srows() == old(self).srows(),
            final(self).scols() == old(self).scols(),
            ok <==> row_scale_ok(old(self)@[row as int], f@),
            ok ==> final(self)@ == old(self)@.update(
                row as int,
                row_scale_s(old(self)@[row as int], f@),
            ),
    {
        let ghost rows = self.srows();
        let ghost cols = self.scols();
        let n: usize = self.num_cols();
        let mut i: usize = 0;
        while i < n
            invariant
                self.wf(),
                self.srows() == rows,
                self.scols() == cols,
                old(self).wf(),
                rows == old(self).srows(),
                cols == old(self).scols(),
                n as int == cols,
                row < rows,
                f.wf(),
                i <= n,
                forall|cc: int|
                    0 <= cc < i ==> rat_mul_ok(#[trigger] old(self)@[row as int][cc], f@),
                forall|rr: int, cc: int|
                    0 <= rr < rows && 0 <= cc < cols ==> #[trigger] self@[rr][cc] == (
                        if rr == row && cc < i {
                            rat_mul_v(old(self)@[row as int][cc], f@)
                        } else {
                            old(self)@[rr][cc]
                        }),
            decreases n - i,
        {
            let cur = self.get(row, i);
            match cur.checked_mul(&f) {
                Some(x) => {
                    self.set(row, i, x);
                },
                None => {
                    proof {
                        assert(!rat_mul_ok(old(self)@[row as int][i as int], f@));
                    }
                    return false;
                },
            }
            i += 1;
        }
        proof {
            let target = old(self)@.update(row as int, row_scale_s(old(self)@[row as int], f@));
            assert forall|rr: int|
                0 <= rr < rows implies #[trigger] self@[rr] =~= target[rr] by {
            }
            assert(self@ =~~= target);
            assert forall|cc: int|
                0 <= cc < old(self)@[row as int].len() implies rat_mul_ok(
                    #[trigger] old(self)@[row as int][cc], f@) by {
            }
        }
        true
    }

    /// Adds `f` times row `src` onto row `dest` in place; reports whether
    /// every intermediate value was representable.
    pub(crate) fn add_rows(&mut self, dest: usize, src: usize, f: Ratio) -> (ok: bool)
        requires
            old(self).wf(),
            dest < old(self).srows(),
            src < old(self).srows(),
            dest != src,
            f.wf(),
        ensures
            final(self).wf(),
            final(self).srows() == old(self).srows(),
            final(self).scols() == old(self).scols(),
            ok <==> row_addmul_ok(old(self)@[dest as int], old(self)@[src as int], f@),
            ok ==> final(self)@ == old(self)@.update(
                dest as int,
                row_addmul_s(old(self)@[dest as int], old(self)@[src as int], f@),
            ),
    {
        let ghost rows = self.srows();
        let ghost cols = self.scols();
        let n: usize = self.num_cols();
        let mut i: usize = 0;
        while i < n
            invariant
                self.wf(),
                self.srows() == rows,
                self.scols() == cols,
                old(self).wf(),
                rows == old(self).srows(),
                cols == old(self).scols(),
                n as int == cols,
                dest < rows,
                src < rows,
                dest != src,
                f.wf(),
                i <= n,
                forall|cc: int|
                    0 <= cc < i ==> rat_mul_ok(f@, #[trigger] old(self)@[src as int][cc])
                        && rat_add_ok(old(self)@[dest as int][cc], rat_mul_v(f@,
                        old(self)@[src as int][cc])),
                forall|rr: int, cc: int|
                    0 <= rr < rows && 0 <= cc < cols ==> #[trigger] self@[rr][cc] == (
                        if rr == dest && cc < i {
                            rat_add_v(
                                old(self)@[dest as int][cc],
                                rat_mul_v(f@, old(self)@[src as int][cc]),
                            )
                        } else {
                            old(self)@[rr][cc]
                        }),
            decreases n - i,
        {
            let cur = self.get(dest, i);
            let s = self.get(src, i);
            let t = match f.checked_mul(&s) {
                Some(t) => t,
                None => {
                    proof {
                        assert(!rat_mul_ok(f@, old(self)@[src as int][i as int]));
                    }
                    return false;
                },
            };
            let x = match cur.checked_add(&t) {
                Some(x) => x,
                None => {
                    proof {
                        assert(!rat_add_ok(old(self)@[dest as int][i as int], rat_mul_v(f@,
                            old(self)@[src as int][i as int])));
                    }
                    return false;
                },
            };
            self.set(dest, i, x);
            i += 1;
        }
        proof {
            let target = old(self)@.update(
                dest as int,
                row_addmul_s(old(self)@[dest as int], old(self)@[src as int], f@),
            );
            assert forall|rr: int|
                0 <= rr < rows implies #[trigger] self@[rr] =~= target[rr] by {
            }
            assert(self@ =~~= target);
        }
        true
    }
}

/// First row at or below `pr` with a usable pivot in column `pc`, or the row
/// count when none exists.
fn find_pivot_row(m: &Mat, pr: usize, pc: usize) -> (i: usize)
    requires
        m.wf(),
        pr <= m.srows(),
        pc < m.scols(),
    ensures
        i as int == find_pivot_s(m@, pc as int, pr as int, m.srows()),
        pr <= i <= m.srows(),
        i < m.srows() ==> !rat_small(m@[i as int][pc as int]),
{
    let rows: usize = m.num_rows();
    let mut i: usize = pr;
    while i < rows
        invariant
            m.wf(),
            rows as int == m.srows(),
            pc < m.scols(),
            pr <= i <= rows,
            find_pivot_s(m@, pc as int, pr as int, rows as int) == find_pivot_s(
                m@, pc as int, i as int, rows as int),
        decreases rows - i,
    {
        if !m.get(i, pc).is_small() {
            return i;
        }
        i += 1;
    }
    rows
}

impl Mat {
    /// Gauss-Jordan reduction with partial pivoting by first usable row.
    /// With `inverse` false, returns the reduced row-echelon form of `mat`;
    /// with `inverse` true, requires a square matrix, mirrors every row
    /// operation onto an identity companion, and returns that companion —
    /// the inverse — failing with `SingularError` when some column yields no
    /// usable pivot. The entire walk, including its tolerance decisions, is
    /// the one `rref_from` describes.
    #[verifier::rlimit(100)]
    #[verifier::loop_isolation(false)]
    pub fn rref(mat: &Mat, inverse: bool) -> (out: Result<Mat, MatError>)
        requires
            mat.wf(),
        ensures
            out == Err::<Mat, MatError>(MatError::NonSquareError) <==> (inverse && mat.srows()
                != mat.scols()),
            !(inverse && mat.srows() != mat.scols()) ==> {
                let goal = rref_from(
                    mat@,
                    if inverse { id_s(mat.srows()) } else { Seq::<Seq<Rat>>::empty() },
                    0, 0, mat.srows(), mat.scols(), inverse,
                );
                &&& (out matches Ok(m) ==> goal == RrefOutcome::Reduced(m@) && m.wf()
                    && m.srows() == mat.srows() && m.scols() == mat.scols())
                &&& (out is Ok <==> goal is Reduced)
                &&& (out == Err::<Mat, MatError>(MatError::SingularError) <==> goal is Singular)
                &&& (out == Err::<Mat, MatError>(MatError::Overflow) <==> goal is TooBig)
            },
    {
        let rows: usize = mat.num_rows();
        let cols: usize = mat.num_cols();
        if inverse && rows != cols {
            return Err(MatError::NonSquareError);
        }
        let _total: usize = mat.data_len();
        let mut res = Mat::copy(mat);
        let mut w = if inverse {
            Mat::identity(rows)
        } else {
            Mat::new(0, 0, Vec::new())
        };
        let ghost w0 = if inverse { id_s(rows as int) } else { Seq::<Seq<Rat>>::empty() };
        proof {
            if inverse {
                assert(w@ == w0);
            } else {
                assert(w@ =~~= Seq::<Seq<Rat>>::empty());
            }
        }
        let ghost goal = rref_from(mat@, w0, 0, 0, rows as int, cols as int, inverse);
        let mut pr: usize = 0;
        let mut pc: usize = 0;
        while pr < rows && pc < cols
            invariant
                mat.wf(),
                rows as int == mat.srows(),
                cols as int == mat.scols(),
                res.wf(),
                res.srows() == rows,
                res.scols() == cols,
                inverse ==> rows == cols && w.wf() && w.srows() == rows && w.scols() == rows,
                pr <= rows,
                pc <= cols,
                goal == rref_from(mat@, w0, 0, 0, rows as int, cols as int, inverse),
                rref_from(res@, w@, pr as int, pc as int, rows as int, cols as int, inverse)
                    == goal,
            decreases cols - pc,
        {
            let ghost res0 = res@;
            let ghost wa = w@;
            let pivot = res.get(pr, pc);
            let mut skip: bool = false;
            if pivot.is_small() {
                let piv = find_pivot_row(&res, pr, pc);
                if piv >= rows {
                    if inverse {
                        proof {
                            assert(goal is Singular);
                        }
                        return Err(MatError::SingularError);
                    }
                    skip = true;
                } else {
                    res.switch_rows(pr, piv);
                    if inverse {
                        w.switch_rows(pr, piv);
                    }
                    proof {
                        assert(res@ == row_swap_s(res0, pr as int, piv as int));
                        assert(rref_from(res0, wa, pr as int, pc as int, rows as int,
                            cols as int, inverse) == rref_step(res@, w@, pr as int, pc as int,
                            rows as int, cols as int, inverse));
                    }
                }
            } else {
                proof {
                    assert(rref_from(res0, wa, pr as int, pc as int, rows as int, cols as int,
                        inverse) == rref_step(res@, w@, pr as int, pc as int, rows as int,
                        cols as int, inverse));
                }
            }
            if skip {
                proof {
                    assert(rref_from(res@, w@, pr as int, pc as int + 1, rows as int,
                        cols as int, inverse) == goal);
                }
                pc += 1;
            } else {
                // a usable pivot stands at (pr, pc)
                let ghost res1 = res@;
                let ghost w1 = w@;
                proof {
                    assert(rref_step(res1, w1, pr as int, pc as int, rows as int, cols as int,
                        inverse) == goal);
                    assert(!rat_small(res1[pr as int][pc as int]));
                }
                let p = res.get(pr, pc);
                proof {
                    if p@.num == 0 {
                        assert(crate::rational::iabs(p@.num) == 0);
                        assert(rat_small(p@));
                    }
                }
                let ghost need = !rat_small(rat_sub_v(rat_one(), p@));
                let ghost f_s = rat_inv_v(p@);
                if !p.near_one() {
                    let f = p.recip();
                    let ok1 = res.mult_row(pr, f);
                    if !ok1 {
                        proof {
                            assert(goal is TooBig);
                        }
                        return Err(MatError::Overflow);
                    }
                    if inverse {
                        let ok2 = w.mult_row(pr, f);
                        if !ok2 {
                            proof {
                                assert(row_scale_ok(res1[pr as int], f_s));
                                assert(goal is TooBig);
                            }
                            return Err(MatError::Overflow);
                        }
                    }
                }
                let ghost res2 = res@;
                let ghost w2 = w@;
                proof {
                    if need {
                        assert(res2 == res1.update(pr as int, row_scale_s(res1[pr as int], f_s)));
                        if inverse {
                            assert(w2 == w1.update(pr as int, row_scale_s(w1[pr as int], f_s)));
                        }
                    } else {
                        assert(res2 == res1);
                        assert(w2 == w1);
                    }
                }
                let mut r: usize = 0;
                while r < rows
                    invariant
                        res.wf(),
                        res.srows() == rows,
                        res.scols() == cols,
                        inverse ==> rows == cols && w.wf() && w.srows() == rows
                            && w.scols() == rows,
                        !inverse ==> w@ == w2,
                        pr < rows,
                        pc < cols,
                        r <= rows,
                        crate::matrix::mat_wf_s(res2, rows as int, cols as int),
                        inverse ==> crate::matrix::mat_wf_s(w2, rows as int, rows as int),
                        forall|rr: int|
                            0 <= rr < rows ==> #[trigger] res@[rr] == (
                                if rr < r && rr != pr {
                                    row_addmul_s(res2[rr], res2[pr as int],
                                        rat_neg_v(res2[rr][pc as int]))
                                } else {
                                    res2[rr]
                                }),
                        forall|rr: int|
                            0 <= rr < r && rr != pr ==> row_addmul_ok(#[trigger] res2[rr],
                                res2[pr as int], rat_neg_v(res2[rr][pc as int])),
                        inverse ==> forall|rr: int|
                            0 <= rr < rows ==> #[trigger] w@[rr] == (
                                if rr < r && rr != pr {
                                    row_addmul_s(w2[rr], w2[pr as int],
                                        rat_neg_v(res2[rr][pc as int]))
                                } else {
                                    w2[rr]
                                }),
                        inverse ==> forall|rr: int|
                            0 <= rr < r && rr != pr ==> row_addmul_ok(#[trigger] w2[rr],
                                w2[pr as int], rat_neg_v(res2[rr][pc as int])),
                    decreases rows - r,
                {
                    if r != pr {
                        let factor = res.get(r, pc).neg();
                        let ok = res.add_rows(r, pr, factor);
                        if !ok {
                            proof {
                                assert(!row_addmul_ok(res2[r as int], res2[pr as int],
                                    rat_neg_v(res2[r as int][pc as int])));
                                assert(!elim_ok(res2, pr as int, pc as int));
                                assert(goal is TooBig);
                            }
                            return Err(MatError::Overflow);
                        }
                        if inverse {
                            let okw = w.add_rows(r, pr, factor);
                            if !okw {
                                proof {
                                    assert(!row_addmul_ok(w2[r as int], w2[pr as int],
                                        rat_neg_v(res2[r as int][pc as int])));
                                    assert(!elim2_ok(w2, res2, pr as int, pc as int));
                                    if elim_ok(res2, pr as int, pc as int) {
                                        assert(goal is TooBig);
                                    } else {
                                        assert(goal is TooBig);
                                    }
                                }
                                return Err(MatError::Overflow);
                            }
                        }
                    }
                    r += 1;
                }
                proof {
                    assert(elim_ok(res2, pr as int, pc as int));
                    assert(res@ =~~= elim_s(res2, pr as int, pc as int));
                    if inverse {
                        assert(elim2_ok(w2, res2, pr as int, pc as int));
                        assert(w@ =~~= elim2_s(w2, res2, pr as int, pc as int));
                    } else {
                        assert(w@ == w2);
                    }
                    assert(f_s == rat_inv_v(res1[pr as int][pc as int]));
                    assert(need ==> row_scale_ok(res1[pr as int], f_s));
                    assert(inverse && need ==> row_scale_ok(w1[pr as int], f_s));
                    assert(rref_step(res1, w1, pr as int, pc as int, rows as int, cols as int,
                        inverse) == rref_from(
                        elim_s(res2, pr as int, pc as int),
                        if inverse { elim2_s(w2, res2, pr as int, pc as int) } else { w2 },
                        pr as int + 1, pc as int + 1, rows as int, cols as int, inverse,
                    ));
                    assert(rref_from(res@, w@, pr as int + 1, pc as int + 1, rows as int,
                        cols as int, inverse) == goal);
                }
                pr += 1;
                pc += 1;
            }
        }
        proof {
            assert(rref_from(res@, w@, pr as int, pc as int, rows as int, cols as int, inverse)
                == RrefOutcome::Reduced(if inverse { w@ } else { res@ }));
        }
        if inverse {
            Ok(w)
        } else {
            Ok(res)
        }
    }
}

} // verus!
