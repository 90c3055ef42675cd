//! Sparse matrices read as multilinear polynomials in row and column
//! variables, and sparse vectors read as multilinear polynomials.
use crate::dense_mlpoly::{
    dot, eq_point, eq_table, lemma_dot_update_left, vec_add, vec_scale, lemma_dot_update_right, lemma_dot_zeros,
    lemma_eq_table_entry, EqPolynomial,
};
use crate::math::pow2;
use crate::scalar::{
    copy_scalars, fadd, fmul, group_order, lemma_fadd_swap4, lemma_fmul_assoc, lemma_fmul_comm, lemma_fmul_distrib,
    lemma_fmul_rotate, lemma_fmul_zero, values, Scalar,
};
use vstd::prelude::*;

verus! {

/// A nonzero entry `val` at (`row`, `col`) of a sparse matrix.
#[derive(Clone, Copy, Debug)]
pub struct SparseMatEntry {
    pub row: usize,
    pub col: usize,
    pub val: Scalar,
}

impl SparseMatEntry {
    pub fn new(row: usize, col: usize, val: Scalar) -> (e: SparseMatEntry)
        ensures
            e.row == row,
            e.col == col,
            e.val == val,
    {
        SparseMatEntry { row, col, val }
    }
}

/// Row `r` of the product of the entries `es` with the vector `z`:
/// the sum, modulo `L`, of `val * z[col]` over the entries in row `r`.
pub open spec fn row_dot(es: Seq<SparseMatEntry>, z: Seq<nat>, r: int) -> nat
    decreases es.len(),
{
    if es.len() == 0 {
        0
    } else {
        let e = es.last();
        let prev = row_dot(es.drop_last(), z, r);
        if e.row == r {
            fadd(prev, fmul(e.val@, z[e.col as int]))
        } else {
            prev
        }
    }
}

/// A row that holds no entry has product 0.
pub proof fn lemma_row_dot_absent(es: Seq<SparseMatEntry>, z: Seq<nat>, r: int)
    requires
        forall|k: int| 0 <= k < es.len() ==> (#[trigger] es[k]).row != r,
    ensures
        row_dot(es, z, r) == 0,
    decreases es.len(),
{
    if es.len() > 0 {
        let prefix = es.drop_last();
        assert forall|k: int| 0 <= k < prefix.len() implies (#[trigger] prefix[k]).row != r by {
            assert(prefix[k] == es[k]);
        }
        lemma_row_dot_absent(prefix, z, r);
        assert(es.last() == es[es.len() - 1]);
    }
}

/// Where entry `k` is the only entry of row `k`, row `i` of the product is
/// `val * z[col]` of entry `i`.
pub proof fn lemma_row_dot_diagonal(es: Seq<SparseMatEntry>, z: Seq<nat>, i: int)
    requires
        forall|k: int| 0 <= k < es.len() ==> (#[trigger] es[k]).row == k,
        0 <= i < es.len(),
    ensures
        row_dot(es, z, i) == fmul(es[i].val@, z[es[i].col as int]),
    decreases es.len(),
{
    let prefix = es.drop_last();
    let n = es.len() - 1;
    assert(es.last() == es[n]);
    assert forall|k: int| 0 <= k < prefix.len() implies (#[trigger] prefix[k]).row == k by {
        assert(prefix[k] == es[k]);
    }
    if i == n {
        assert forall|k: int| 0 <= k < prefix.len() implies (#[trigger] prefix[k]).row != i by {
            assert(prefix[k] == es[k]);
        }
        lemma_row_dot_absent(prefix, z, i);
        let t = fmul(es[i].val@, z[es[i].col as int]);
        vstd::arithmetic::div_mod::lemma_mod_twice((es[i].val@ * z[es[i].col as int]) as int, group_order() as int);
        assert(fadd(0, t) == t);
    } else {
        lemma_row_dot_diagonal(prefix, z, i);
        assert(prefix[i] == es[i]);
    }
}

/// A row of `M z` reads only the entries of `z` at the matrix's columns.
pub proof fn lemma_row_dot_ext(es: Seq<SparseMatEntry>, z: Seq<nat>, z2: Seq<nat>, m: nat, r: int)
    requires
        forall|k: int| 0 <= k < es.len() ==> (#[trigger] es[k]).col < m,
        forall|j: int| 0 <= j < m ==> z[j] == z2[j],
    ensures
        row_dot(es, z, r) == row_dot(es, z2, r),
    decreases es.len(),
{
    if es.len() > 0 {
        let prefix = es.drop_last();
        assert(es[es.len() - 1] == es.last());
        assert forall|k: int| 0 <= k < prefix.len() implies (#[trigger] prefix[k]).col < m by {
            assert(prefix[k] == es[k]);
        }
        lemma_row_dot_ext(prefix, z, z2, m, r);
    }
}

/// Each row of `M (z1 + z2)` is the sum of the rows of `M z1` and `M z2`.
pub proof fn lemma_row_dot_add(es: Seq<SparseMatEntry>, z1: Seq<nat>, z2: Seq<nat>, r: int)
    requires
        z1.len() == z2.len(),
        forall|k: int| 0 <= k < es.len() ==> (#[trigger] es[k]).col < z1.len(),
    ensures
        row_dot(es, vec_add(z1, z2), r) == fadd(row_dot(es, z1, r), row_dot(es, z2, r)),
    decreases es.len(),
{
    if es.len() > 0 {
        let prefix = es.drop_last();
        let e = es.last();
        assert(es[es.len() - 1] == e);
        assert forall|k: int| 0 <= k < prefix.len() implies (#[trigger] prefix[k]).col < z1.len() by {
            assert(prefix[k] == es[k]);
        }
        lemma_row_dot_add(prefix, z1, z2, r);
        let (p1, p2) = (row_dot(prefix, z1, r), row_dot(prefix, z2, r));
        if e.row == r {
            let c = e.col as int;
            lemma_fmul_distrib(z1[c], z2[c], e.val@);
            lemma_fadd_swap4(p1, p2, fmul(e.val@, z1[c]), fmul(e.val@, z2[c]));
        }
    } else {
        assert(fadd(0, 0) == 0);
    }
}

/// Each row of `M (s z)` is `s` times the row of `M z`.
pub proof fn lemma_row_dot_scale(es: Seq<SparseMatEntry>, s: nat, z: Seq<nat>, r: int)
    requires
        forall|k: int| 0 <= k < es.len() ==> (#[trigger] es[k]).col < z.len(),
    ensures
        row_dot(es, vec_scale(s, z), r) == fmul(s, row_dot(es, z, r)),
    decreases es.len(),
{
    if es.len() > 0 {
        let prefix = es.drop_last();
        let e = es.last();
        assert(es[es.len() - 1] == e);
        assert forall|k: int| 0 <= k < prefix.len() implies (#[trigger] prefix[k]).col < z.len() by {
            assert(prefix[k] == es[k]);
        }
        lemma_row_dot_scale(prefix, s, z, r);
        if e.row == r {
            let c = e.col as int;
            lemma_fmul_rotate(e.val@, s, z[c]);
            lemma_fmul_distrib(row_dot(prefix, z, r), fmul(e.val@, z[c]), s);
        }
    } else {
        lemma_fmul_zero(s);
    }
}

/// The product `M z` of the matrix with entries `es` and the vector `z`,
/// truncated or padded to `n` rows.
pub open spec fn mat_vec(es: Seq<SparseMatEntry>, z: Seq<nat>, n: nat) -> Seq<nat> {
    Seq::new(n, |r: int| row_dot(es, z, r))
}

/// Column `c` of the product of the vector `t` with the matrix: the sum,
/// modulo `L`, of `t[row] * val` over the entries in column `c`.
pub open spec fn col_dot(es: Seq<SparseMatEntry>, t: Seq<nat>, c: int) -> nat
    decreases es.len(),
{
    if es.len() == 0 {
        0
    } else {
        let e = es.last();
        let prev = col_dot(es.drop_last(), t, c);
        if e.col == c {
            fadd(prev, fmul(t[e.row as int], e.val@))
        } else {
            prev
        }
    }
}

/// Every column of `t^T M` is a residue modulo `L`.
pub proof fn lemma_col_dot_bound(es: Seq<SparseMatEntry>, t: Seq<nat>, c: int)
    ensures
        col_dot(es, t, c) < group_order(),
    decreases es.len(),
{
    if es.len() > 0 {
        lemma_col_dot_bound(es.drop_last(), t, c);
    }
}

/// The product `t^T M` of the vector `t` and the matrix, with `n` columns.
pub open spec fn vec_mat(es: Seq<SparseMatEntry>, t: Seq<nat>, n: nat) -> Seq<nat> {
    Seq::new(n, |c: int| col_dot(es, t, c))
}

/// The bilinear form `tx^T M ty`: the sum, modulo `L`, of
/// `tx[row] * ty[col] * val` over the entries.
pub open spec fn bilinear(es: Seq<SparseMatEntry>, tx: Seq<nat>, ty: Seq<nat>) -> nat
    decreases es.len(),
{
    if es.len() == 0 {
        0
    } else {
        let e = es.last();
        fadd(
            bilinear(es.drop_last(), tx, ty),
            fmul(fmul(tx[e.row as int], ty[e.col as int]), e.val@),
        )
    }
}

/// Every entry lies in the first `rows` rows and `cols` columns.
pub open spec fn entries_within(es: Seq<SparseMatEntry>, rows: nat, cols: nat) -> bool {
    forall|k: int| 0 <= k < es.len() ==> (#[trigger] es[k]).row < rows && es[k].col < cols
}

/// Transposition: for a matrix `M` within `rows` rows and `cols` columns,
/// `(t^T M) z == t^T (M z)`. This is what joins the two sum-checks of the
/// proof: the table the second runs over (`eq(rx, .)^T M`), taken against the
/// witness, gives the claim the first one ended with (`eq(rx, .)` against
/// `M z`).
pub proof fn lemma_vec_mat_transpose(es: Seq<SparseMatEntry>, t: Seq<nat>, z: Seq<nat>, rows: nat, cols: nat)
    requires
        entries_within(es, rows, cols),
    ensures
        dot(vec_mat(es, t, cols), z, cols) == dot(t, mat_vec(es, z, rows), rows),
    decreases es.len(),
{
    if es.len() == 0 {
        lemma_dot_zeros(vec_mat(es, t, cols), z, cols);
        lemma_dot_zeros(t, mat_vec(es, z, rows), rows);
    } else {
        let prev = es.drop_last();
        let e = es.last();
        assert(es[es.len() - 1] == e);
        assert(entries_within(prev, rows, cols)) by {
            assert forall|k: int| 0 <= k < prev.len() implies (#[trigger] prev[k]).row < rows && prev[k].col
                < cols by {
                assert(prev[k] == es[k]);
            }
        }
        lemma_vec_mat_transpose(prev, t, z, rows, cols);
        let d1 = fmul(t[e.row as int], e.val@);
        lemma_dot_update_left(vec_mat(prev, t, cols), vec_mat(es, t, cols), z, cols, e.col as nat, d1);
        let d2 = fmul(e.val@, z[e.col as int]);
        lemma_dot_update_right(t, mat_vec(prev, z, rows), mat_vec(es, z, rows), rows, e.row as nat, d2);
        lemma_fmul_assoc(t[e.row as int], e.val@, z[e.col as int]);
    }
}

/// The value `tx^T M ty` of the bilinear form is the table `tx^T M` taken
/// against `ty`: the second sum-check's table, bound at `ry`, is the
/// matrix's evaluation at `(rx, ry)`.
pub proof fn lemma_bilinear_vec_mat(es: Seq<SparseMatEntry>, tx: Seq<nat>, ty: Seq<nat>, cols: nat)
    requires
        forall|k: int| 0 <= k < es.len() ==> (#[trigger] es[k]).col < cols,
    ensures
        bilinear(es, tx, ty) == dot(vec_mat(es, tx, cols), ty, cols),
    decreases es.len(),
{
    if es.len() == 0 {
        lemma_dot_zeros(vec_mat(es, tx, cols), ty, cols);
    } else {
        let prev = es.drop_last();
        let e = es.last();
        assert(es[es.len() - 1] == e);
        assert forall|k: int| 0 <= k < prev.len() implies (#[trigger] prev[k]).col < cols by {
            assert(prev[k] == es[k]);
        }
        lemma_bilinear_vec_mat(prev, tx, ty, cols);
        let d = fmul(tx[e.row as int], e.val@);
        lemma_dot_update_left(vec_mat(prev, tx, cols), vec_mat(es, tx, cols), ty, cols, e.col as nat, d);
        let (a, b, c) = (tx[e.row as int], ty[e.col as int], e.val@);
        lemma_fmul_assoc(a, b, c);
        lemma_fmul_assoc(a, c, b);
        lemma_fmul_comm(b, c);
    }
}

/// A sparse matrix, read as a multilinear polynomial in `num_vars_x` row
/// variables and `num_vars_y` column variables.
pub struct SparseMatPolynomial {
    num_vars_x: usize,
    num_vars_y: usize,
    M: Vec<SparseMatEntry>,
}

impl SparseMatPolynomial {
    /// The nonzero entries.
    pub closed spec fn entries(&self) -> Seq<SparseMatEntry> {
        self.M@
    }

    /// The number of row variables.
    pub closed spec fn spec_num_vars_x(&self) -> nat {
        self.num_vars_x as nat
    }

    /// The number of column variables.
    pub closed spec fn spec_num_vars_y(&self) -> nat {
        self.num_vars_y as nat
    }

    pub fn new(num_vars_x: usize, num_vars_y: usize, M: Vec<SparseMatEntry>) -> (p: SparseMatPolynomial)
        ensures
            p.entries() == M@,
            p.spec_num_vars_x() == num_vars_x,
            p.spec_num_vars_y() == num_vars_y,
    {
        SparseMatPolynomial { num_vars_x, num_vars_y, M }
    }

    /// The number of row variables.
    pub fn get_num_vars_x(&self) -> (r: usize)
        ensures
            r == self.spec_num_vars_x(),
    {
        self.num_vars_x
    }

    /// The number of column variables.
    pub fn get_num_vars_y(&self) -> (r: usize)
        ensures
            r == self.spec_num_vars_y(),
    {
        self.num_vars_y
    }

    /// The `k`-th nonzero entry.
    pub fn get_entry(&self, k: usize) -> (e: SparseMatEntry)
        requires
            k < self.entries().len(),
        ensures
            e == self.entries()[k as int],
    {
        self.M[k]
    }

    /// The number of nonzero entries.
    pub fn get_num_nz_entries(&self) -> (r: usize)
        ensures
            r == self.entries().len(),
    {
        self.M.len()
    }

    /// The product `M z`, with `num_rows` rows.
    pub fn multiply_vec(&self, num_rows: usize, num_cols: usize, z: &[Scalar]) -> (r: Vec<Scalar>)
        requires
            z@.len() == num_cols,
            entries_within(self.entries(), num_rows as nat, num_cols as nat),
        ensures
            r.len() == num_rows,
            values(r@) == mat_vec(self.entries(), values(z@), num_rows as nat),
    {
        let ghost es = self.M@;
        let ghost zv = values(z@);
        let mut Mz: Vec<Scalar> = Vec::new();
        let mut i: usize = 0;
        while i < num_rows
            invariant
                i <= num_rows,
                Mz.len() == i,
                forall|r: int| 0 <= r < i ==> (#[trigger] Mz@[r])@ == 0,
            decreases num_rows - i,
        {
            Mz.push(Scalar::zero());
            i = i + 1;
        }
        proof {
            assert(es.take(0) =~= Seq::<SparseMatEntry>::empty());
        }
        let mut k: usize = 0;
        while k < self.M.len()
            invariant
                k <= es.len(),
                es == self.M@,
                zv == values(z@),
                z@.len() == num_cols,
                entries_within(es, num_rows as nat, num_cols as nat),
                Mz.len() == num_rows,
                forall|r: int| 0 <= r < num_rows ==> (#[trigger] Mz@[r])@ == row_dot(es.take(k as int), zv, r),
            decreases es.len() - k,
        {
            let e = &self.M[k];
            let prod = e.val.mul(&z[e.col]);
            let updated = Mz[e.row].add(&prod);
            let ghost old_Mz = Mz@;
            Mz.set(e.row, updated);
            proof {
                let s = es.take(k + 1);
                assert(s.drop_last() =~= es.take(k as int));
                assert(s.last() == es[k as int]);
                assert forall|r: int| 0 <= r < num_rows implies (#[trigger] Mz@[r])@ == row_dot(s, zv, r) by {
                    if r != e.row as int {
                        assert(Mz@[r] == old_Mz[r]);
                    }
                }
            }
            k = k + 1;
        }
        proof {
            assert(es.take(es.len() as int) =~= es);
            assert(values(Mz@) =~= mat_vec(es, zv, num_rows as nat));
        }
        Mz
    }

    /// The product `rx^T M` of the vector `rx` (one entry per row) with the
    /// matrix, with `num_cols` columns.
    pub fn compute_eval_table_sparse(&self, rx: &[Scalar], num_rows: usize, num_cols: usize) -> (r: Vec<Scalar>)
        requires
            rx@.len() == num_rows,
            entries_within(self.entries(), num_rows as nat, num_cols as nat),
        ensures
            r.len() == num_cols,
            values(r@) == vec_mat(self.entries(), values(rx@), num_cols as nat),
    {
        let ghost es = self.M@;
        let ghost tv = values(rx@);
        let mut M_evals: Vec<Scalar> = Vec::new();
        let mut i: usize = 0;
        while i < num_cols
            invariant
                i <= num_cols,
                M_evals.len() == i,
                forall|c: int| 0 <= c < i ==> (#[trigger] M_evals@[c])@ == 0,
            decreases num_cols - i,
        {
            M_evals.push(Scalar::zero());
            i = i + 1;
        }
        proof {
            assert(es.take(0) =~= Seq::<SparseMatEntry>::empty());
        }
        let mut k: usize = 0;
        while k < self.M.len()
            invariant
                k <= es.len(),
                es == self.M@,
                tv == values(rx@),
                rx@.len() == num_rows,
                entries_within(es, num_rows as nat, num_cols as nat),
                M_evals.len() == num_cols,
                forall|c: int| 0 <= c < num_cols ==> (#[trigger] M_evals@[c])@ == col_dot(es.take(k as int), tv, c),
            decreases es.len() - k,
        {
            let e = &self.M[k];
            let prod = rx[e.row].mul(&e.val);
            let updated = M_evals[e.col].add(&prod);
            let ghost old_evals = M_evals@;
            M_evals.set(e.col, updated);
            proof {
                let s = es.take(k + 1);
                assert(s.drop_last() =~= es.take(k as int));
                assert(s.last() == es[k as int]);
                assert forall|c: int| 0 <= c < num_cols implies (#[trigger] M_evals@[c])@ == col_dot(s, tv, c) by {
                    if c != e.col as int {
                        assert(M_evals@[c] == old_evals[c]);
                    }
                }
            }
            k = k + 1;
        }
        proof {
            assert(es.take(es.len() as int) =~= es);
            assert(values(M_evals@) =~= vec_mat(es, tv, num_cols as nat));
        }
        M_evals
    }

    /// The bilinear form `tx^T M ty` with the tables `tx` and `ty` of
    /// `eq(rx, .)` and `eq(ry, .)`: the polynomial's value at `(rx, ry)`.
    pub fn evaluate_with_tables(&self, eval_table_rx: &[Scalar], eval_table_ry: &[Scalar]) -> (r: Scalar)
        requires
            pow2(self.spec_num_vars_x()) == eval_table_rx@.len(),
            pow2(self.spec_num_vars_y()) == eval_table_ry@.len(),
            entries_within(self.entries(), eval_table_rx@.len(), eval_table_ry@.len()),
        ensures
            r@ == bilinear(self.entries(), values(eval_table_rx@), values(eval_table_ry@)),
    {
        let ghost es = self.M@;
        let ghost tx = values(eval_table_rx@);
        let ghost ty = values(eval_table_ry@);
        let mut acc = Scalar::zero();
        proof {
            assert(es.take(0) =~= Seq::<SparseMatEntry>::empty());
        }
        let mut k: usize = 0;
        while k < self.M.len()
            invariant
                k <= es.len(),
                es == self.M@,
                tx == values(eval_table_rx@),
                ty == values(eval_table_ry@),
                entries_within(es, eval_table_rx@.len(), eval_table_ry@.len()),
                acc@ == bilinear(es.take(k as int), tx, ty),
            decreases es.len() - k,
        {
            let e = &self.M[k];
            let term = eval_table_rx[e.row].mul(&eval_table_ry[e.col]).mul(&e.val);
            acc = acc.add(&term);
            proof {
                let s = es.take(k + 1);
                assert(s.drop_last() =~= es.take(k as int));
                assert(s.last() == es[k as int]);
            }
            k = k + 1;
        }
        proof {
            assert(es.take(es.len() as int) =~= es);
        }
        acc
    }

    /// The values of each polynomial of `polys` at the point `(rx, ry)`.
    pub fn multi_evaluate(polys: &[&SparseMatPolynomial], rx: &[Scalar], ry: &[Scalar]) -> (r: Vec<Scalar>)
        requires
            pow2(rx@.len()) <= usize::MAX,
            pow2(ry@.len()) <= usize::MAX,
            forall|i: int|
                0 <= i < polys@.len() ==> {
                    &&& (#[trigger] polys@[i]).spec_num_vars_x() == rx@.len()
                    &&& polys@[i].spec_num_vars_y() == ry@.len()
                    &&& entries_within(polys@[i].entries(), pow2(rx@.len()), pow2(ry@.len()))
                },
        ensures
            r.len() == polys@.len(),
            forall|i: int|
                0 <= i < polys@.len() ==> (#[trigger] r@[i])@ == bilinear(
                    polys@[i].entries(),
                    eq_table(values(rx@)),
                    eq_table(values(ry@)),
                ),
    {
        let eval_table_rx = EqPolynomial::new(copy_scalars(rx)).evals();
        let eval_table_ry = EqPolynomial::new(copy_scalars(ry)).evals();
        proof {
            assert(values(rx@).len() == rx@.len());
            assert(values(ry@).len() == ry@.len());
        }
        let mut evals: Vec<Scalar> = Vec::new();
        let mut i: usize = 0;
        while i < polys.len()
            invariant
                i <= polys@.len(),
                evals.len() == i,
                values(eval_table_rx@) == eq_table(values(rx@)),
                values(eval_table_ry@) == eq_table(values(ry@)),
                eval_table_rx@.len() == pow2(rx@.len()),
                eval_table_ry@.len() == pow2(ry@.len()),
                forall|j: int|
                    0 <= j < polys@.len() ==> {
                        &&& (#[trigger] polys@[j]).spec_num_vars_x() == rx@.len()
                        &&& polys@[j].spec_num_vars_y() == ry@.len()
                        &&& entries_within(polys@[j].entries(), pow2(rx@.len()), pow2(ry@.len()))
                    },
                forall|j: int|
                    0 <= j < i ==> (#[trigger] evals@[j])@ == bilinear(
                        polys@[j].entries(),
                        eq_table(values(rx@)),
                        eq_table(values(ry@)),
                    ),
            decreases polys@.len() - i,
        {
            let e = polys[i].evaluate_with_tables(eval_table_rx.as_slice(), eval_table_ry.as_slice());
            evals.push(e);
            i = i + 1;
        }
        evals
    }
}

/// A nonzero entry `val` at index `idx` of a sparse vector.
#[derive(Clone, Copy, Debug)]
pub struct SparsePolyEntry {
    pub idx: usize,
    pub val: Scalar,
}

impl SparsePolyEntry {
    pub fn new(idx: usize, val: Scalar) -> (e: SparsePolyEntry)
        ensures
            e.idx == idx,
            e.val == val,
    {
        SparsePolyEntry { idx, val }
    }
}

/// The value at `r` of the multilinear extension of the sparse vector with
/// entries `es`: the sum, modulo `L`, of `eq(r, idx) * val`.
pub open spec fn sparse_vec_eval(es: Seq<SparsePolyEntry>, r: Seq<nat>) -> nat
    decreases es.len(),
{
    if es.len() == 0 {
        0
    } else {
        let e = es.last();
        fadd(sparse_vec_eval(es.drop_last(), r), fmul(eq_point(r, e.idx as nat), e.val@))
    }
}

/// A sparse vector, read as a multilinear polynomial in `num_vars` variables.
pub struct SparsePolynomial {
    num_vars: usize,
    Z: Vec<SparsePolyEntry>,
}

impl SparsePolynomial {
    /// The nonzero entries.
    pub closed spec fn entries(&self) -> Seq<SparsePolyEntry> {
        self.Z@
    }

    /// The number of variables.
    pub closed spec fn spec_num_vars(&self) -> nat {
        self.num_vars as nat
    }

    pub fn new(num_vars: usize, Z: Vec<SparsePolyEntry>) -> (p: SparsePolynomial)
        ensures
            p.entries() == Z@,
            p.spec_num_vars() == num_vars,
    {
        SparsePolynomial { num_vars, Z }
    }

    /// The value of the polynomial at the point `r`.
    pub fn evaluate(&self, r: &[Scalar]) -> (v: Scalar)
        requires
            self.spec_num_vars() == r@.len(),
            pow2(r@.len()) <= usize::MAX,
            forall|k: int| 0 <= k < self.entries().len() ==> (#[trigger] self.entries()[k]).idx < pow2(r@.len()),
        ensures
            v@ == sparse_vec_eval(self.entries(), values(r@)),
    {
        let ghost rv = values(r@);
        let ghost es = self.Z@;
        let table = EqPolynomial::new(copy_scalars(r)).evals();
        proof {
            assert(rv.len() == r@.len());
            assert(es.take(0) =~= Seq::<SparsePolyEntry>::empty());
            assert forall|j: int| 0 <= j < es.len() implies (#[trigger] es[j]).idx < pow2(rv.len()) by {
                assert(self.entries()[j] == es[j]);
            }
        }
        let mut acc = Scalar::zero();
        let mut k: usize = 0;
        while k < self.Z.len()
            invariant
                k <= es.len(),
                es == self.Z@,
                rv == values(r@),
                values(table@) == eq_table(rv),
                table@.len() == pow2(rv.len()),
                forall|j: int| 0 <= j < es.len() ==> (#[trigger] es[j]).idx < pow2(rv.len()),
                acc@ == sparse_vec_eval(es.take(k as int), rv),
            decreases es.len() - k,
        {
            let e = &self.Z[k];
            proof {
                lemma_eq_table_entry(rv, e.idx as nat);
            }
            let term = table[e.idx].mul(&e.val);
            acc = acc.add(&term);
            proof {
                let s = es.take(k + 1);
                assert(s.drop_last() =~= es.take(k as int));
                assert(s.last() == es[k as int]);
            }
            k = k + 1;
        }
        proof {
            assert(es.take(es.len() as int) =~= es);
        }
        acc
    }
}

} // verus!
