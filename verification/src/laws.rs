use vstd::prelude::*;

use crate::elim::{find_pivot_s, row_swap_s, rref_from, rref_step, RrefOutcome};
use crate::matrix::{
    col_s, dot_ok, dot_val, id_s, mat_fits_s, mat_mult_ok_s, mat_scale_ok_s, mat_wf_s,
};
use crate::rational::{
    rat_add_ok, rat_add_v, rat_eqv, rat_fits, rat_make, rat_mul_ok, rat_mul_v, rat_one,
    rat_small, rat_sub_v, rat_wf, rat_zero, Rat,
};

verus! {

/// A fraction built by `rat_make` denotes `n / d` whenever the cross
/// products agree.
proof fn lemma_eqv_make(n: int, d: int, a: Rat)
    requires
        d > 0,
        rat_wf(a),
        n * a.den == a.num * d,
    ensures
        rat_eqv(rat_make(n, d), a),
        rat_wf(rat_make(n, d)),
{
    if n == 0 {
        assert(a.num == 0) by (nonlinear_arith)
            requires 0 * a.den == a.num * d, d > 0, a.den > 0;
    }
}

/// Adding `b` and then subtracting it again recovers the value of `a`
/// exactly.
pub proof fn lemma_add_sub_entry(a: Rat, b: Rat)
    requires
        rat_wf(a),
        rat_wf(b),
    ensures
        rat_eqv(rat_sub_v(rat_add_v(a, b), b), a),
{
    let s = rat_add_v(a, b);
    let n0 = a.num * b.den + b.num * a.den;
    let d0 = a.den * b.den;
    assert(a.den * b.den > 0) by (nonlinear_arith)
        requires a.den > 0, b.den > 0;
    if n0 == 0 {
        assert(s == Rat { num: 0int, den: 1int });
        assert((s.num * b.den - b.num * s.den) * a.den == a.num * (s.den * b.den))
            by (nonlinear_arith)
            requires s.num == 0, s.den == 1, a.num * b.den + b.num * a.den == 0;
    } else {
        assert(s == Rat { num: n0, den: d0 });
        assert((s.num * b.den - b.num * s.den) * a.den == a.num * (s.den * b.den))
            by (nonlinear_arith)
            requires s.num == a.num * b.den + b.num * a.den, s.den == a.den * b.den;
    }
    let sd = s.den;
    assert(sd * b.den > 0) by (nonlinear_arith)
        requires sd > 0, b.den > 0;
    lemma_eqv_make(s.num * b.den - b.num * s.den, s.den * b.den, a);
    assert(rat_sub_v(s, b) == rat_make(s.num * b.den - b.num * s.den, s.den * b.den));
}

/// Addition of two matrices is commutative: for every entry position the
/// two orders produce the same stored fraction and overflow identically.
pub proof fn lemma_add_comm(a: Seq<Seq<Rat>>, b: Seq<Seq<Rat>>, rows: int, cols: int)
    requires
        mat_wf_s(a, rows, cols),
        mat_wf_s(b, rows, cols),
    ensures
        forall|r: int, c: int|
            0 <= r < rows && 0 <= c < cols ==> #[trigger] rat_add_v(a[r][c], b[r][c])
                == rat_add_v(b[r][c], a[r][c]) && rat_add_ok(a[r][c], b[r][c]) == rat_add_ok(
                b[r][c], a[r][c]),
{
    assert forall|r: int, c: int|
        0 <= r < rows && 0 <= c < cols implies #[trigger] rat_add_v(a[r][c], b[r][c])
            == rat_add_v(b[r][c], a[r][c]) && rat_add_ok(a[r][c], b[r][c]) == rat_add_ok(
            b[r][c], a[r][c]) by {
        let x = a[r][c];
        let y = b[r][c];
        assert(x.num * y.den + y.num * x.den == y.num * x.den + x.num * y.den);
        assert(x.den * y.den == y.den * x.den) by (nonlinear_arith);
    }
}

/// Adding any same-shape matrix and subtracting it again recovers every
/// entry of the original as a rational value.
pub proof fn lemma_add_then_sub_recovers(a: Seq<Seq<Rat>>, b: Seq<Seq<Rat>>, rows: int, cols: int)
    requires
        mat_wf_s(a, rows, cols),
        mat_wf_s(b, rows, cols),
    ensures
        forall|r: int, c: int|
            0 <= r < rows && 0 <= c < cols ==> rat_eqv(
                #[trigger] rat_sub_v(rat_add_v(a[r][c], b[r][c]), b[r][c]),
                a[r][c],
            ),
{
    assert forall|r: int, c: int|
        0 <= r < rows && 0 <= c < cols implies rat_eqv(
            #[trigger] rat_sub_v(rat_add_v(a[r][c], b[r][c]), b[r][c]),
            a[r][c],
        ) by {
        lemma_add_sub_entry(a[r][c], b[r][c]);
    }
}

/// Inner product against an indicator column: the first `k` terms sum to
/// zero while `k` has not yet passed the indicator position `c`, and to the
/// value at `c` afterwards; every intermediate stays representable.
proof fn lemma_dot_indicator(row: Seq<Rat>, ind: Seq<Rat>, c: int, k: int)
    requires
        0 <= c < row.len(),
        ind.len() == row.len(),
        forall|i: int|
            0 <= i < row.len() ==> rat_wf(#[trigger] row[i]) && rat_fits(row[i]),
        forall|i: int|
            0 <= i < ind.len() ==> #[trigger] ind[i] == (
                if i == c { rat_one() } else { rat_zero() }),
        0 <= k <= row.len(),
    ensures
        dot_ok(row, ind, k),
        rat_wf(dot_val(row, ind, k)),
        rat_fits(dot_val(row, ind, k)),
        k <= c ==> dot_val(row, ind, k) == rat_zero(),
        k > c ==> rat_eqv(dot_val(row, ind, k), row[c]),
    decreases k,
{
    if k > 0 {
        lemma_dot_indicator(row, ind, c, k - 1);
        let acc = dot_val(row, ind, k - 1);
        let x = row[k - 1];
        vstd::arithmetic::mul::lemma_mul_basics(x.num);
        vstd::arithmetic::mul::lemma_mul_basics(x.den);
        vstd::arithmetic::mul::lemma_mul_basics(acc.num);
        vstd::arithmetic::mul::lemma_mul_basics(acc.den);
        let t = rat_mul_v(x, ind[k - 1]);
        if k - 1 == c {
            assert(t == rat_make(x.num, x.den));
            lemma_eqv_make(x.num, x.den, x);
            assert(dot_val(row, ind, k) == rat_add_v(rat_zero(), t));
            assert(rat_add_v(rat_zero(), t) == rat_make(t.num, t.den));
            lemma_eqv_make(t.num, t.den, x);
        } else {
            assert(t == rat_make(0, x.den * 1));
            assert(t == rat_zero());
            assert(dot_val(row, ind, k) == rat_add_v(acc, rat_zero()));
            assert(rat_add_v(acc, rat_zero()) == rat_make(acc.num, acc.den));
            if k - 1 > c {
                assert(k > c);
                lemma_eqv_make(acc.num, acc.den, acc);
                crate::rational::lemma_eqv_trans(rat_make(acc.num, acc.den), acc, row[c]);
            } else {
                assert(acc == rat_zero());
                assert(rat_make(acc.num, acc.den) == rat_zero());
            }
        }
    }
}

/// Multiplying on the right by the identity of matching size leaves every
/// entry unchanged as a rational value, and the product never overflows.
pub proof fn lemma_mult_identity_right(a: Seq<Seq<Rat>>, rows: int, cols: int)
    requires
        mat_wf_s(a, rows, cols),
        mat_fits_s(a, rows, cols),
    ensures
        mat_mult_ok_s(a, id_s(cols), rows, cols, cols),
        forall|r: int, c: int|
            0 <= r < rows && 0 <= c < cols ==> rat_eqv(
                #[trigger] dot_val(a[r], col_s(id_s(cols), c), cols),
                a[r][c],
            ),
{
    assert forall|r: int, c: int|
        0 <= r < rows && 0 <= c < cols implies #[trigger] dot_ok(a[r], col_s(id_s(cols), c),
            cols) && rat_eqv(dot_val(a[r], col_s(id_s(cols), c), cols), a[r][c]) by {
        let ind = col_s(id_s(cols), c);
        assert forall|i: int|
            0 <= i < ind.len() implies #[trigger] ind[i] == (
                if i == c { rat_one() } else { rat_zero() }) by {
            assert(ind[i] == id_s(cols)[i][c]);
        }
        lemma_dot_indicator(a[r], ind, c, cols);
    }
    assert forall|r: int, c: int|
        0 <= r < rows && 0 <= c < cols implies rat_eqv(
            #[trigger] dot_val(a[r], col_s(id_s(cols), c), cols), a[r][c]) by {
        assert(dot_ok(a[r], col_s(id_s(cols), c), cols));
    }
}

/// Multiplying on the left by the identity of matching size leaves every
/// entry unchanged as a rational value, and the product never overflows.
pub proof fn lemma_mult_identity_left(b: Seq<Seq<Rat>>, rows: int, cols: int)
    requires
        mat_wf_s(b, rows, cols),
        mat_fits_s(b, rows, cols),
    ensures
        mat_mult_ok_s(id_s(rows), b, rows, rows, cols),
        forall|r: int, c: int|
            0 <= r < rows && 0 <= c < cols ==> rat_eqv(
                #[trigger] dot_val(id_s(rows)[r], col_s(b, c), rows),
                b[r][c],
            ),
{
    assert forall|r: int, c: int|
        0 <= r < rows && 0 <= c < cols implies #[trigger] dot_ok(id_s(rows)[r], col_s(b, c),
            rows) && rat_eqv(dot_val(id_s(rows)[r], col_s(b, c), rows), b[r][c]) by {
        let ind = id_s(rows)[r];
        let vals = col_s(b, c);
        assert forall|i: int|
            0 <= i < ind.len() implies #[trigger] ind[i] == (
                if i == r { rat_one() } else { rat_zero() }) by {
        }
        assert forall|i: int|
            0 <= i < vals.len() implies rat_wf(#[trigger] vals[i]) && rat_fits(vals[i]) by {
            assert(vals[i] == b[i][c]);
        }
        lemma_dot_ind_left(ind, vals, r, rows);
        assert(vals[r] == b[r][c]);
    }
    assert forall|r: int, c: int|
        0 <= r < rows && 0 <= c < cols implies rat_eqv(
            #[trigger] dot_val(id_s(rows)[r], col_s(b, c), rows), b[r][c]) by {
        assert(dot_ok(id_s(rows)[r], col_s(b, c), rows));
    }
}

/// Mirror of `lemma_dot_indicator` with the indicator as the left factor.
proof fn lemma_dot_ind_left(ind: Seq<Rat>, vals: Seq<Rat>, c: int, k: int)
    requires
        0 <= c < vals.len(),
        ind.len() == vals.len(),
        forall|i: int|
            0 <= i < vals.len() ==> rat_wf(#[trigger] vals[i]) && rat_fits(vals[i]),
        forall|i: int|
            0 <= i < ind.len() ==> #[trigger] ind[i] == (
                if i == c { rat_one() } else { rat_zero() }),
        0 <= k <= vals.len(),
    ensures
        dot_ok(ind, vals, k),
        rat_wf(dot_val(ind, vals, k)),
        rat_fits(dot_val(ind, vals, k)),
        k <= c ==> dot_val(ind, vals, k) == rat_zero(),
        k > c ==> rat_eqv(dot_val(ind, vals, k), vals[c]),
    decreases k,
{
    if k > 0 {
        lemma_dot_ind_left(ind, vals, c, k - 1);
        let acc = dot_val(ind, vals, k - 1);
        let x = vals[k - 1];
        vstd::arithmetic::mul::lemma_mul_basics(x.num);
        vstd::arithmetic::mul::lemma_mul_basics(x.den);
        vstd::arithmetic::mul::lemma_mul_basics(acc.num);
        vstd::arithmetic::mul::lemma_mul_basics(acc.den);
        let t = rat_mul_v(ind[k - 1], x);
        if k - 1 == c {
            assert(t == rat_make(x.num, x.den));
            lemma_eqv_make(x.num, x.den, x);
            assert(dot_val(ind, vals, k) == rat_add_v(rat_zero(), t));
            assert(rat_add_v(rat_zero(), t) == rat_make(t.num, t.den));
            lemma_eqv_make(t.num, t.den, x);
        } else {
            assert(t == rat_make(0, 1 * x.den));
            assert(t == rat_zero());
            assert(dot_val(ind, vals, k) == rat_add_v(acc, rat_zero()));
            assert(rat_add_v(acc, rat_zero()) == rat_make(acc.num, acc.den));
            if k - 1 > c {
                assert(k > c);
                lemma_eqv_make(acc.num, acc.den, acc);
                crate::rational::lemma_eqv_trans(rat_make(acc.num, acc.den), acc, vals[c]);
            } else {
                assert(acc == rat_zero());
                assert(rat_make(acc.num, acc.den) == rat_zero());
            }
        }
    }
}

/// Scaling a matrix by one leaves every entry unchanged as a rational value
/// and never overflows.
pub proof fn lemma_scale_one(a: Seq<Seq<Rat>>, rows: int, cols: int)
    requires
        mat_wf_s(a, rows, cols),
        mat_fits_s(a, rows, cols),
    ensures
        mat_scale_ok_s(a, rat_one(), rows, cols),
        forall|r: int, c: int|
            0 <= r < rows && 0 <= c < cols ==> rat_eqv(
                #[trigger] rat_mul_v(a[r][c], rat_one()),
                a[r][c],
            ),
{
    assert forall|r: int, c: int|
        0 <= r < rows && 0 <= c < cols implies rat_mul_ok(#[trigger] a[r][c], rat_one())
            && rat_eqv(rat_mul_v(a[r][c], rat_one()), a[r][c]) by {
        let x = a[r][c];
        vstd::arithmetic::mul::lemma_mul_basics(x.num);
        vstd::arithmetic::mul::lemma_mul_basics(x.den);
        assert(rat_mul_v(x, rat_one()) == rat_make(x.num, x.den));
        lemma_eqv_make(x.num, x.den, x);
    }
    assert forall|r: int, c: int|
        0 <= r < rows && 0 <= c < cols implies rat_eqv(
            #[trigger] rat_mul_v(a[r][c], rat_one()), a[r][c]) by {
        let x = a[r][c];
        vstd::arithmetic::mul::lemma_mul_basics(x.num);
        vstd::arithmetic::mul::lemma_mul_basics(x.den);
        assert(rat_mul_v(x, rat_one()) == rat_make(x.num, x.den));
        lemma_eqv_make(x.num, x.den, x);
    }
}

/// Scaling a matrix by zero gives the all-zero matrix of the same shape and
/// never overflows.
pub proof fn lemma_scale_zero(a: Seq<Seq<Rat>>, rows: int, cols: int)
    requires
        mat_wf_s(a, rows, cols),
    ensures
        mat_scale_ok_s(a, rat_zero(), rows, cols),
        forall|r: int, c: int|
            0 <= r < rows && 0 <= c < cols ==> #[trigger] rat_mul_v(a[r][c], rat_zero())
                == rat_zero(),
{
    assert forall|r: int, c: int|
        0 <= r < rows && 0 <= c < cols implies rat_mul_ok(#[trigger] a[r][c], rat_zero())
            && rat_mul_v(a[r][c], rat_zero()) == rat_zero() by {
        let x = a[r][c];
        vstd::arithmetic::mul::lemma_mul_basics(x.num);
        vstd::arithmetic::mul::lemma_mul_basics(x.den);
        assert(rat_mul_v(x, rat_zero()) == rat_make(0, x.den * 1));
    }
    assert forall|r: int, c: int|
        0 <= r < rows && 0 <= c < cols implies #[trigger] rat_mul_v(a[r][c], rat_zero())
            == rat_zero() by {
        let x = a[r][c];
        vstd::arithmetic::mul::lemma_mul_basics(x.num);
        vstd::arithmetic::mul::lemma_mul_basics(x.den);
        assert(rat_mul_v(x, rat_zero()) == rat_make(0, x.den * 1));
    }
}

/// The pivot search settles on the first row at or below `i` whose entry in
/// column `pc` reaches the tolerance — never a later or larger one — and
/// every row it passed over holds an entry below the tolerance.
pub proof fn lemma_find_pivot_first(m: Seq<Seq<Rat>>, pc: int, i: int, rows: int)
    requires
        0 <= i <= rows,
    ensures
        ({
            let r = find_pivot_s(m, pc, i, rows);
            &&& i <= r <= rows
            &&& (r < rows ==> !rat_small(m[r][pc]))
            &&& forall|k: int| i <= k < r ==> rat_small(#[trigger] m[k][pc])
        }),
    decreases rows - i,
{
    if i < rows && rat_small(m[i][pc]) {
        lemma_find_pivot_first(m, pc, i + 1, rows);
    }
}

/// A pivot entry at or above the tolerance is used where it stands: the
/// elimination walk proceeds from it with no row swap.
pub proof fn lemma_pivot_above_tolerance_no_swap(
    res: Seq<Seq<Rat>>,
    w: Seq<Seq<Rat>>,
    pr: int,
    pc: int,
    rows: int,
    cols: int,
    inverse: bool,
)
    requires
        0 <= pr < rows,
        0 <= pc < cols,
        !rat_small(res[pr][pc]),
    ensures
        rref_from(res, w, pr, pc, rows, cols, inverse) == rref_step(res, w, pr, pc, rows, cols,
            inverse),
{
}

/// A pivot entry below the tolerance is treated as zero: the walk swaps in
/// the first usable row below, and where none exists it reports the matrix
/// singular (when inverting) or leaves the column behind.
pub proof fn lemma_pivot_below_tolerance_swaps(
    res: Seq<Seq<Rat>>,
    w: Seq<Seq<Rat>>,
    pr: int,
    pc: int,
    rows: int,
    cols: int,
    inverse: bool,
)
    requires
        0 <= pr < rows,
        0 <= pc < cols,
        rat_small(res[pr][pc]),
    ensures
        ({
            let i = find_pivot_s(res, pc, pr, rows);
            rref_from(res, w, pr, pc, rows, cols, inverse) == (if i >= rows {
                if inverse {
                    RrefOutcome::Singular
                } else {
                    rref_from(res, w, pr, pc + 1, rows, cols, inverse)
                }
            } else {
                rref_step(
                    row_swap_s(res, pr, i),
                    if inverse { row_swap_s(w, pr, i) } else { w },
                    pr, pc, rows, cols, inverse,
                )
            })
        }),
{
}

} // verus!
