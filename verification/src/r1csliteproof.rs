//! The arithmetic that the R1CS-Lite satisfiability proof performs around
//! its commitments and sum-checks: the prover's witness layout and the table
//! of the second sum-check, the verifier's checks on the statement's
//! dimensions, and the values the verifier derives for the final checks.
use crate::dense_mlpoly::{
    bits, dot, eq_extend, eq_point, eq_table, lemma_dot_comm, lemma_dot_ext, lemma_dot_indicator, lemma_eq_table_bits, lemma_dot_scale, lemma_dot_split, lemma_dot_update_left,
    lemma_dot_update_right, lemma_dot_zero_tail, lemma_dot_zeros, lemma_eq_point_first, lemma_eq_table_bound,
    lemma_eq_table_entry, lemma_eq_table_len, lemma_fsub_mul,
};
use crate::errors::ProofVerifyError;
use crate::math::{is_pow2, is_power_of_two, lemma_pow2_log2, log2_ceil, log_2, pow2};
use crate::r1csliteinstance::{
    implicit_c_col, implicit_c_eval, implicit_c_rows, implicit_c_sum, implicit_c_within,
    lemma_project_witness_entry, lemma_satisfied_iff_hadamard, project_witness, witness, R1CSLiteInstance,
};
use crate::scalar::{
    fadd, fmul, fsub, group_order, lemma_fadd3, lemma_fadd_assoc, lemma_fadd_comm, lemma_fadd_of_sums,
    lemma_fadd_zero, lemma_fmul_assoc, lemma_fmul_comm, lemma_fmul_distrib, lemma_fmul_one, lemma_fmul_zero,
    lemma_value_bound, lemma_values_push, values, zeros, Scalar,
};
use crate::sparse_mlpoly::{
    bilinear, entries_within, lemma_bilinear_vec_mat, lemma_col_dot_bound, lemma_row_dot_absent, lemma_row_dot_ext, lemma_vec_mat_transpose,
    mat_vec, sparse_vec_eval, vec_mat,
    SparsePolyEntry, SparsePolynomial,
};
use vstd::arithmetic::div_mod::{lemma_add_mod_noop, lemma_add_mod_noop_right, lemma_small_mod};
use vstd::prelude::*;

verus! {

/// The witness the prover runs the sum-checks over:
/// `vars ++ [1] ++ input`, padded with zeros to twice the length of `vars`.
pub open spec fn prover_witness_spec(vars: Seq<nat>, input: Seq<nat>) -> Seq<nat> {
    witness(vars, input) + zeros((vars.len() - input.len() - 1) as nat)
}

/// The prover's witness `vars ++ [1] ++ input ++ 0^(|vars| - |input| - 1)`,
/// of length `2 |vars|`.
pub fn prover_witness(vars: Vec<Scalar>, input: &[Scalar]) -> (z: Vec<Scalar>)
    requires
        input@.len() < vars@.len(),
        2 * vars@.len() <= usize::MAX,
    ensures
        values(z@) == prover_witness_spec(values(vars@), values(input@)),
        z.len() == 2 * vars.len(),
{
    let num_inputs = input.len();
    let num_vars = vars.len();
    let ghost v = values(vars@);
    let ghost inp = values(input@);
    let mut z = vars;
    let one = Scalar::one();
    proof {
        lemma_values_push(z@, one);
    }
    z.push(one);
    let mut i: usize = 0;
    proof {
        assert(values(z@) =~= v + seq![1nat] + inp.take(0));
    }
    while i < num_inputs
        invariant
            i <= num_inputs,
            num_inputs == input@.len(),
            inp == values(input@),
            z.len() == num_vars + 1 + i,
            num_inputs < num_vars,
            2 * num_vars <= usize::MAX,
            values(z@) == v + seq![1nat] + inp.take(i as int),
        decreases num_inputs - i,
    {
        proof {
            lemma_values_push(z@, input@[i as int]);
        }
        z.push(input[i]);
        i = i + 1;
        proof {
            assert(values(z@) =~= v + seq![1nat] + inp.take(i as int));
        }
    }
    proof {
        assert(inp.take(num_inputs as int) =~= inp);
    }
    let n_zeros = num_vars - num_inputs - 1;
    let ghost prefix = values(z@);
    let mut k: usize = 0;
    proof {
        assert(values(z@) =~= prefix + zeros(0));
    }
    while k < n_zeros
        invariant
            k <= n_zeros,
            z.len() == prefix.len() + k,
            prefix.len() + n_zeros == 2 * num_vars,
            2 * num_vars <= usize::MAX,
            values(z@) == prefix + zeros(k as nat),
        decreases n_zeros - k,
    {
        let zero = Scalar::zero();
        proof {
            lemma_values_push(z@, zero);
        }
        z.push(zero);
        k = k + 1;
        proof {
            assert(values(z@) =~= prefix + zeros(k as nat));
        }
    }
    z
}

/// Column `c` of `t^T C` for the implicit matrix `C` over its first `k`
/// rows: the sum, modulo `L`, of `t[i] * 1` over the rows `i < k` whose
/// entry lies in column `c`.
pub open spec fn implicit_c_col_sum(num_vars: nat, num_unpadded_vars: nat, k: nat, t: Seq<nat>, c: nat) -> nat
    decreases k,
{
    if k == 0 {
        0
    } else {
        let i = (k - 1) as nat;
        let prev = implicit_c_col_sum(num_vars, num_unpadded_vars, i, t, c);
        if implicit_c_col(num_vars, num_unpadded_vars, i) == c {
            fadd(prev, fmul(t[i as int], 1))
        } else {
            prev
        }
    }
}

/// The table `t^T C` of the implicit matrix `C`, with `n` columns.
pub open spec fn implicit_c_table(num_vars: nat, num_unpadded_vars: nat, num_unpadded_cons: nat, t: Seq<nat>, n: nat) -> Seq<nat> {
    Seq::new(
        n,
        |c: int|
            implicit_c_col_sum(
                num_vars,
                num_unpadded_vars,
                implicit_c_rows(num_unpadded_vars, num_unpadded_cons),
                t,
                c as nat,
            ),
    )
}

/// `C z` over the first `k` rows of the implicit matrix `C`, with `n`
/// entries: entry `i < k` is `z` at the column of row `i`, the rest are 0.
pub open spec fn implicit_c_proj(num_vars: nat, num_unpadded_vars: nat, k: nat, z: Seq<nat>, n: nat) -> Seq<nat> {
    Seq::new(n, |i: int| if i < k { z[implicit_c_col(num_vars, num_unpadded_vars, i as nat) as int] } else { 0 })
}

proof fn lemma_implicit_c_transpose_rows(
    num_vars: nat,
    num_unpadded_vars: nat,
    k: nat,
    t: Seq<nat>,
    z: Seq<nat>,
    rows: nat,
    cols: nat,
)
    requires
        k <= rows,
        forall|i: nat| i < k ==> #[trigger] implicit_c_col(num_vars, num_unpadded_vars, i) < cols,
        forall|j: int| 0 <= j < z.len() ==> z[j] < group_order(),
        z.len() == cols,
    ensures
        dot(Seq::new(cols, |c: int| implicit_c_col_sum(num_vars, num_unpadded_vars, k, t, c as nat)), z, cols)
            == dot(t, implicit_c_proj(num_vars, num_unpadded_vars, k, z, rows), rows),
    decreases k,
{
    let x2 = Seq::new(cols, |c: int| implicit_c_col_sum(num_vars, num_unpadded_vars, k, t, c as nat));
    let y2 = implicit_c_proj(num_vars, num_unpadded_vars, k, z, rows);
    if k == 0 {
        lemma_dot_zeros(x2, z, cols);
        lemma_dot_zeros(t, y2, rows);
    } else {
        let i = (k - 1) as nat;
        let col = implicit_c_col(num_vars, num_unpadded_vars, i);
        assert(col < cols);
        lemma_implicit_c_transpose_rows(num_vars, num_unpadded_vars, i, t, z, rows, cols);
        let x = Seq::new(cols, |c: int| implicit_c_col_sum(num_vars, num_unpadded_vars, i, t, c as nat));
        let y = implicit_c_proj(num_vars, num_unpadded_vars, i, z, rows);
        let d1 = fmul(t[i as int], 1);
        lemma_dot_update_left(x, x2, z, cols, col, d1);
        let d2 = z[col as int];
        lemma_fadd_zero(d2);
        lemma_dot_update_right(t, y, y2, rows, i, d2);
        lemma_fmul_one(t[i as int], d2);
        assert(fmul(t[i as int], 1) == fmul(fmul(t[i as int], 1), 1)) by {
            lemma_fmul_one(t[i as int], 1);
        }
    }
}

/// The projected witness is `C z` over the rows of the implicit matrix `C`,
/// for a witness `z` that reaches every column of `C`.
pub proof fn lemma_project_witness_rows(
    z: Seq<nat>,
    num_vars: nat,
    num_unpadded_vars: nat,
    num_unpadded_cons: nat,
    rows: nat,
)
    requires
        num_unpadded_vars <= num_unpadded_cons,
        num_vars <= z.len(),
        implicit_c_within(num_vars, num_unpadded_vars, num_unpadded_cons, rows, z.len()),
    ensures
        project_witness(z, num_vars, num_unpadded_vars, num_unpadded_cons, rows) == implicit_c_proj(
            num_vars,
            num_unpadded_vars,
            num_unpadded_cons,
            z,
            rows,
        ),
{
    let (nv, nuv, nuc) = (num_vars, num_unpadded_vars, num_unpadded_cons);
    assert(implicit_c_rows(nuv, nuc) == nuc);
    if nuc > 0 {
        let last = (nuc - 1) as nat;
        assert(implicit_c_within(nv, nuv, nuc, rows, z.len()));
        assert(last < implicit_c_rows(nuv, nuc));
        let cl = implicit_c_col(nv, nuv, last);
        assert(last < rows);
        assert(cl < z.len());
    }
    if nuv > 0 {
        let lastv = (nuv - 1) as nat;
        assert(implicit_c_col(nv, nuv, lastv) < z.len());
    }
    let want = (nuc - nuv) as nat;
    if want > 0 {
        let last = (nuc - 1) as nat;
        assert(implicit_c_col(nv, nuv, last) == last + nv - nuv);
        assert(nv + want <= z.len());
    }
    let a = if nuv < z.len() { nuv } else { z.len() };
    let rest = (z.len() - nv) as nat;
    let b = if want < rest { want } else { rest };
    assert(a == nuv);
    assert(b == want);
    assert(nuc <= rows);
    let p = project_witness(z, nv, nuv, nuc, rows);
    let q = implicit_c_proj(nv, nuv, nuc, z, rows);
    assert(p.len() == rows);
    assert forall|i: int| 0 <= i < rows implies p[i] == q[i] by {
        if i < nuv {
        } else if i < nuc {
            assert(implicit_c_col(nv, nuv, i as nat) == i + nv - nuv);
        }
    }
    assert(p =~= q);
}

/// Transposition for the implicit matrix `C`: `(t^T C) z == t^T (C z)`,
/// where `t^T C` is the table the prover builds for the second sum-check
/// and `C z` is the projected witness of the first.
pub proof fn lemma_implicit_c_transpose(
    num_vars: nat,
    num_unpadded_vars: nat,
    num_unpadded_cons: nat,
    t: Seq<nat>,
    z: Seq<Scalar>,
    rows: nat,
    cols: nat,
)
    requires
        num_unpadded_vars <= num_unpadded_cons,
        num_vars <= cols,
        z.len() == cols,
        implicit_c_within(num_vars, num_unpadded_vars, num_unpadded_cons, rows, cols),
    ensures
        dot(implicit_c_table(num_vars, num_unpadded_vars, num_unpadded_cons, t, cols), values(z), cols)
            == dot(t, project_witness(values(z), num_vars, num_unpadded_vars, num_unpadded_cons, rows), rows),
{
    let zv = values(z);
    assert forall|j: int| 0 <= j < zv.len() implies zv[j] < group_order() by {
        lemma_value_bound(z[j]);
    }
    assert(implicit_c_rows(num_unpadded_vars, num_unpadded_cons) == num_unpadded_cons);
    if num_unpadded_cons > 0 {
        let last = (num_unpadded_cons - 1) as nat;
        assert(implicit_c_within(num_vars, num_unpadded_vars, num_unpadded_cons, rows, cols));
        let cl = implicit_c_col(num_vars, num_unpadded_vars, last);
        assert(last < rows);
    }
    assert forall|i: nat| i < num_unpadded_cons implies #[trigger] implicit_c_col(
        num_vars,
        num_unpadded_vars,
        i,
    ) < cols by {
        assert(implicit_c_within(num_vars, num_unpadded_vars, num_unpadded_cons, rows, cols));
        assert(i < implicit_c_rows(num_unpadded_vars, num_unpadded_cons));
        let cl = implicit_c_col(num_vars, num_unpadded_vars, i);
        assert(cl < cols);
    }
    lemma_implicit_c_transpose_rows(num_vars, num_unpadded_vars, num_unpadded_cons, t, zv, rows, cols);
    lemma_project_witness_rows(zv, num_vars, num_unpadded_vars, num_unpadded_cons, rows);
    assert(implicit_c_table(num_vars, num_unpadded_vars, num_unpadded_cons, t, cols) =~= Seq::new(
        cols,
        |c: int| implicit_c_col_sum(num_vars, num_unpadded_vars, num_unpadded_cons, t, c as nat),
    ));
}

proof fn lemma_implicit_c_sum_table(
    num_vars: nat,
    num_unpadded_vars: nat,
    k: nat,
    tx: Seq<nat>,
    ty: Seq<nat>,
    cols: nat,
)
    requires
        forall|i: nat| i < k ==> #[trigger] implicit_c_col(num_vars, num_unpadded_vars, i) < cols,
    ensures
        implicit_c_sum(num_vars, num_unpadded_vars, k, tx, ty) == dot(
            Seq::new(cols, |c: int| implicit_c_col_sum(num_vars, num_unpadded_vars, k, tx, c as nat)),
            ty,
            cols,
        ),
    decreases k,
{
    let x2 = Seq::new(cols, |c: int| implicit_c_col_sum(num_vars, num_unpadded_vars, k, tx, c as nat));
    if k == 0 {
        lemma_dot_zeros(x2, ty, cols);
    } else {
        let i = (k - 1) as nat;
        let col = implicit_c_col(num_vars, num_unpadded_vars, i);
        assert(col < cols);
        lemma_implicit_c_sum_table(num_vars, num_unpadded_vars, i, tx, ty, cols);
        let x = Seq::new(cols, |c: int| implicit_c_col_sum(num_vars, num_unpadded_vars, i, tx, c as nat));
        lemma_dot_update_left(x, x2, ty, cols, col, fmul(tx[i as int], 1));
        lemma_fmul_one(tx[i as int], ty[col as int]);
        lemma_small_mod(fmul(tx[i as int], ty[col as int]), group_order());
    }
}

/// The value `C~(rx, ry)` of the implicit matrix is the prover's table
/// `eq(rx, .)^T C` taken against `eq(ry, .)`: the second sum-check's table
/// for `C`, bound at `ry`, is the value the verifier derives.
pub proof fn lemma_implicit_c_eval_table(
    num_vars: nat,
    num_unpadded_vars: nat,
    num_unpadded_cons: nat,
    tx: Seq<nat>,
    ty: Seq<nat>,
    rows: nat,
    cols: nat,
)
    requires
        implicit_c_within(num_vars, num_unpadded_vars, num_unpadded_cons, rows, cols),
    ensures
        implicit_c_eval(num_vars, num_unpadded_vars, num_unpadded_cons, tx, ty) == dot(
            implicit_c_table(num_vars, num_unpadded_vars, num_unpadded_cons, tx, cols),
            ty,
            cols,
        ),
{
    let k = implicit_c_rows(num_unpadded_vars, num_unpadded_cons);
    assert forall|i: nat| i < k implies #[trigger] implicit_c_col(num_vars, num_unpadded_vars, i) < cols by {
        assert(implicit_c_within(num_vars, num_unpadded_vars, num_unpadded_cons, rows, cols));
    }
    lemma_implicit_c_sum_table(num_vars, num_unpadded_vars, k, tx, ty, cols);
    assert(implicit_c_table(num_vars, num_unpadded_vars, num_unpadded_cons, tx, cols) =~= Seq::new(
        cols,
        |c: int| implicit_c_col_sum(num_vars, num_unpadded_vars, k, tx, c as nat),
    ));
}

/// The table `evals_rx^T C` of the implicit matrix `C`, with `num_cols`
/// entries: what the prover combines with `evals_rx^T A` and
/// `evals_rx^T B` for the second sum-check.
pub fn implicit_c_eval_table(
    num_vars: usize,
    num_unpadded_vars: usize,
    num_unpadded_cons: usize,
    evals_rx: &[Scalar],
    num_cols: usize,
) -> (r: Vec<Scalar>)
    requires
        num_unpadded_vars <= num_vars,
        implicit_c_within(
            num_vars as nat,
            num_unpadded_vars as nat,
            num_unpadded_cons as nat,
            evals_rx@.len(),
            num_cols as nat,
        ),
    ensures
        r.len() == num_cols,
        values(r@) == implicit_c_table(
            num_vars as nat,
            num_unpadded_vars as nat,
            num_unpadded_cons as nat,
            values(evals_rx@),
            num_cols as nat,
        ),
{
    let ghost t = values(evals_rx@);
    let ghost nv = num_vars as nat;
    let ghost nuv = num_unpadded_vars as nat;
    let mut evals_C: Vec<Scalar> = Vec::new();
    let mut j: usize = 0;
    while j < num_cols
        invariant
            j <= num_cols,
            evals_C.len() == j,
            forall|c: int| 0 <= c < j ==> (#[trigger] evals_C@[c])@ == 0,
        decreases num_cols - j,
    {
        evals_C.push(Scalar::zero());
        j = j + 1;
    }
    let one = Scalar::one();
    let gap = num_vars - num_unpadded_vars;
    let rows = if num_unpadded_cons > num_unpadded_vars { num_unpadded_cons } else { num_unpadded_vars };
    let mut i: usize = 0;
    while i < rows
        invariant
            i <= rows,
            rows == implicit_c_rows(nuv, num_unpadded_cons as nat),
            gap == num_vars - num_unpadded_vars,
            nv == num_vars,
            nuv == num_unpadded_vars,
            num_unpadded_vars <= num_vars,
            one@ == 1,
            t == values(evals_rx@),
            evals_C.len() == num_cols,
            implicit_c_within(nv, nuv, num_unpadded_cons as nat, evals_rx@.len(), num_cols as nat),
            forall|c: int| 0 <= c < num_cols ==> (#[trigger] evals_C@[c])@ == implicit_c_col_sum(nv, nuv, i as nat, t, c as nat),
        decreases rows - i,
    {
        assert(implicit_c_col(nv, nuv, i as nat) < num_cols);
        assert(i < evals_rx@.len());
        let col = if i < num_unpadded_vars { i } else { i + gap };
        let term = evals_rx[i].mul(&one);
        let updated = evals_C[col].add(&term);
        let ghost old_C = evals_C@;
        evals_C.set(col, updated);
        proof {
            assert forall|c: int| 0 <= c < num_cols implies (#[trigger] evals_C@[c])@ == implicit_c_col_sum(
                nv,
                nuv,
                (i + 1) as nat,
                t,
                c as nat,
            ) by {
                if c != col as int {
                    assert(evals_C@[c] == old_C[c]);
                }
            }
        }
        i = i + 1;
    }
    proof {
        assert(values(evals_C@) =~= implicit_c_table(nv, nuv, num_unpadded_cons as nat, t, num_cols as nat));
    }
    evals_C
}

/// Entry `i` of the random linear combination `r_A a + r_B b + r_z c`.
pub open spec fn combine(r_A: nat, r_B: nat, r_z: nat, a: nat, b: nat, c: nat) -> nat {
    fadd(fadd(fmul(r_A, a), fmul(r_B, b)), fmul(r_z, c))
}

/// The entrywise combination `r_A a + r_B b + r_z c` of three tables.
pub open spec fn combine_tables_spec(r_A: nat, r_B: nat, r_z: nat, a: Seq<nat>, b: Seq<nat>, c: Seq<nat>) -> Seq<nat> {
    Seq::new(a.len(), |i: int| combine(r_A, r_B, r_z, a[i], b[i], c[i]))
}

/// Scaling a combination scales each of its parts:
/// `(r_A a + r_B b + r_z c) z == r_A (a z) + r_B (b z) + r_z (c z)`.
pub proof fn lemma_combine_scale(r_A: nat, r_B: nat, r_z: nat, a: nat, b: nat, c: nat, z: nat)
    ensures
        fmul(combine(r_A, r_B, r_z, a, b, c), z) == combine(r_A, r_B, r_z, fmul(a, z), fmul(b, z), fmul(c, z)),
{
    let X = fmul(r_A, a);
    let Y = fmul(r_B, b);
    let W = fmul(r_z, c);
    lemma_fmul_distrib(fadd(X, Y), W, z);
    lemma_fmul_distrib(X, Y, z);
    lemma_fmul_assoc(r_A, a, z);
    lemma_fmul_assoc(r_B, b, z);
    lemma_fmul_assoc(r_z, c, z);
}

/// The sum of two combinations with the same coefficients is the
/// combination of the sums.
pub proof fn lemma_combine_add(
    r_A: nat,
    r_B: nat,
    r_z: nat,
    a1: nat,
    b1: nat,
    c1: nat,
    a2: nat,
    b2: nat,
    c2: nat,
)
    ensures
        fadd(combine(r_A, r_B, r_z, a1, b1, c1), combine(r_A, r_B, r_z, a2, b2, c2)) == combine(
            r_A,
            r_B,
            r_z,
            fadd(a1, a2),
            fadd(b1, b2),
            fadd(c1, c2),
        ),
{
    let L = group_order();
    let (X1, Y1, W1) = (fmul(r_A, a1), fmul(r_B, b1), fmul(r_z, c1));
    let (X2, Y2, W2) = (fmul(r_A, a2), fmul(r_B, b2), fmul(r_z, c2));
    lemma_fadd3(X1, Y1, W1);
    lemma_fadd3(X2, Y2, W2);
    lemma_fadd_of_sums(X1 + Y1 + W1, X2 + Y2 + W2);
    lemma_fmul_distrib(a1, a2, r_A);
    lemma_fmul_distrib(b1, b2, r_B);
    lemma_fmul_distrib(c1, c2, r_z);
    lemma_fadd3(fadd(X1, X2), fadd(Y1, Y2), fadd(W1, W2));
    let P = (X1 + X2) as nat;
    let Q = (Y1 + Y2) as nat;
    let R = (W1 + W2) as nat;
    lemma_fadd_of_sums(P, Q);
    lemma_add_mod_noop_right(
        (P % L) as int + (Q % L) as int,
        R as int,
        L as int,
    );
    lemma_add_mod_noop(P as int + Q as int, R as int, L as int);
    lemma_add_mod_noop(P as int, Q as int, L as int);
    lemma_add_mod_noop_right(((P + Q) % L) as int, R as int, L as int);
    assert(((P % L + Q % L) % L + R % L) % L == (P + Q + R) % L);
    assert(X1 + Y1 + W1 + (X2 + Y2 + W2) == P + Q + R);
}

/// The inner product is linear in a combination of tables:
/// `(r_A a + r_B b + r_z c) . z == r_A (a . z) + r_B (b . z) + r_z (c . z)`.
pub proof fn lemma_dot_combine(r_A: nat, r_B: nat, r_z: nat, a: Seq<nat>, b: Seq<nat>, c: Seq<nat>, z: Seq<nat>, n: nat)
    requires
        n <= a.len(),
        a.len() == b.len(),
        a.len() == c.len(),
    ensures
        dot(combine_tables_spec(r_A, r_B, r_z, a, b, c), z, n) == combine(
            r_A,
            r_B,
            r_z,
            dot(a, z, n),
            dot(b, z, n),
            dot(c, z, n),
        ),
    decreases n,
{
    let t = combine_tables_spec(r_A, r_B, r_z, a, b, c);
    if n == 0 {
        assert(fmul(r_A, 0) == 0 && fmul(r_B, 0) == 0 && fmul(r_z, 0) == 0);
    } else {
        let i = n - 1;
        assert(t[i] == combine(r_A, r_B, r_z, a[i], b[i], c[i]));
        lemma_dot_combine(r_A, r_B, r_z, a, b, c, z, (n - 1) as nat);
        lemma_combine_scale(r_A, r_B, r_z, a[i], b[i], c[i], z[i]);
        lemma_combine_add(
            r_A,
            r_B,
            r_z,
            dot(a, z, (n - 1) as nat),
            dot(b, z, (n - 1) as nat),
            dot(c, z, (n - 1) as nat),
            fmul(a[i], z[i]),
            fmul(b[i], z[i]),
            fmul(c[i], z[i]),
        );
    }
}

/// `r_A x + r_B y + r_z w`: the joint claim of the second sum-check, both
/// the prover's (from the claimed values of `A z`, `B z` and `C z`) and the
/// verifier's (from the evaluations of `A`, `B` and `C`).
pub fn combine_claims(r_A: &Scalar, r_B: &Scalar, r_z: &Scalar, x: &Scalar, y: &Scalar, w: &Scalar) -> (r: Scalar)
    ensures
        r@ == combine(r_A@, r_B@, r_z@, x@, y@, w@),
        r@ == (r_A@ * x@ + r_B@ * y@ + r_z@ * w@) % group_order(),
{
    let r = r_A.mul(x).add(&r_B.mul(y)).add(&r_z.mul(w));
    proof {
        lemma_combine_value(r_A@, r_B@, r_z@, x@, y@, w@);
    }
    r
}

/// The combination is `r_A a + r_B b + r_z c`, reduced once modulo `L`.
pub proof fn lemma_combine_value(r_A: nat, r_B: nat, r_z: nat, a: nat, b: nat, c: nat)
    ensures
        combine(r_A, r_B, r_z, a, b, c) == (r_A * a + r_B * b + r_z * c) % group_order(),
{
    let L = group_order() as int;
    let (X, Y, W) = (fmul(r_A, a), fmul(r_B, b), fmul(r_z, c));
    lemma_fadd3(X, Y, W);
    let (p, q, t) = ((r_A * a) as int, (r_B * b) as int, (r_z * c) as int);
    let (x, y) = (X as int, Y as int);
    assert(x == p % L && y == q % L && W as int == t % L);
    lemma_add_mod_noop(p, q, L);
    lemma_add_mod_noop_right(x + y, t, L);
    lemma_add_mod_noop(x + y, t, L);
    lemma_add_mod_noop(p + q, t, L);
    assert((x + y + (t % L)) % L == (p + q + t) % L);
}

/// On unit claims the combination gives back each coefficient:
/// `combine(1, 0, 0) == r_A`, `combine(0, 1, 0) == r_B` and
/// `combine(0, 0, 1) == r_z`, for coefficients reduced modulo `L`.
pub proof fn lemma_combine_units(r_A: nat, r_B: nat, r_z: nat)
    requires
        r_A < group_order(),
        r_B < group_order(),
        r_z < group_order(),
    ensures
        combine(r_A, r_B, r_z, 1, 0, 0) == r_A,
        combine(r_A, r_B, r_z, 0, 1, 0) == r_B,
        combine(r_A, r_B, r_z, 0, 0, 1) == r_z,
{
    lemma_combine_value(r_A, r_B, r_z, 1, 0, 0);
    lemma_combine_value(r_A, r_B, r_z, 0, 1, 0);
    lemma_combine_value(r_A, r_B, r_z, 0, 0, 1);
    assert(r_A * 1 + r_B * 0 + r_z * 0 == r_A);
    assert(r_A * 0 + r_B * 1 + r_z * 0 == r_B);
    assert(r_A * 0 + r_B * 0 + r_z * 1 == r_z);
    lemma_small_mod(r_A, group_order());
    lemma_small_mod(r_B, group_order());
    lemma_small_mod(r_z, group_order());
}

/// The entrywise combination `r_A a + r_B b + r_z c` of three tables of
/// equal length.
pub fn combine_tables(r_A: &Scalar, r_B: &Scalar, r_z: &Scalar, a: &[Scalar], b: &[Scalar], c: &[Scalar]) -> (r: Vec<
    Scalar,
>)
    requires
        a@.len() == b@.len(),
        a@.len() == c@.len(),
    ensures
        values(r@) == combine_tables_spec(r_A@, r_B@, r_z@, values(a@), values(b@), values(c@)),
{
    let mut r: Vec<Scalar> = Vec::new();
    let mut i: usize = 0;
    while i < a.len()
        invariant
            i <= a@.len(),
            a@.len() == b@.len(),
            a@.len() == c@.len(),
            r.len() == i,
            forall|k: int| 0 <= k < i ==> (#[trigger] r@[k])@ == combine(r_A@, r_B@, r_z@, a@[k]@, b@[k]@, c@[k]@),
        decreases a@.len() - i,
    {
        let e = combine_claims(r_A, r_B, r_z, &a[i], &b[i], &c[i]);
        r.push(e);
        i = i + 1;
    }
    proof {
        assert(values(r@) =~= combine_tables_spec(r_A@, r_B@, r_z@, values(a@), values(b@), values(c@)));
    }
    r
}

/// The table the prover's second sum-check runs over: the combination
/// `r_A (evals_rx^T A) + r_B (evals_rx^T B) + r_z (evals_rx^T C)`, with
/// `num_cols` entries, `C` being the implicit projection.
pub fn prover_joint_eval_table(
    inst: &R1CSLiteInstance,
    evals_rx: &[Scalar],
    num_cols: usize,
    r_A: &Scalar,
    r_B: &Scalar,
    r_z: &Scalar,
) -> (r: Vec<Scalar>)
    requires
        evals_rx@.len() == inst.spec_num_cons(),
        num_cols > inst.spec_num_vars(),
        entries_within(inst.A_entries(), inst.spec_num_cons(), num_cols as nat),
        entries_within(inst.B_entries(), inst.spec_num_cons(), num_cols as nat),
        inst.spec_num_unpadded_vars() <= inst.spec_num_vars(),
        implicit_c_within(
            inst.spec_num_vars(),
            inst.spec_num_unpadded_vars(),
            inst.spec_num_unpadded_cons(),
            inst.spec_num_cons(),
            num_cols as nat,
        ),
    ensures
        values(r@) == combine_tables_spec(
            r_A@,
            r_B@,
            r_z@,
            vec_mat(inst.A_entries(), values(evals_rx@), num_cols as nat),
            vec_mat(inst.B_entries(), values(evals_rx@), num_cols as nat),
            implicit_c_table(
                inst.spec_num_vars(),
                inst.spec_num_unpadded_vars(),
                inst.spec_num_unpadded_cons(),
                values(evals_rx@),
                num_cols as nat,
            ),
        ),
{
    let (evals_A, evals_B) = inst.compute_eval_table_sparse(inst.get_num_cons(), num_cols, evals_rx);
    let evals_C = implicit_c_eval_table(
        inst.get_num_vars(),
        inst.get_num_unpadded_vars(),
        inst.get_num_unpadded_cons(),
        evals_rx,
        num_cols,
    );
    proof {
        assert(values(evals_A@).len() == num_cols);
    }
    combine_tables(r_A, r_B, r_z, evals_A.as_slice(), evals_B.as_slice(), evals_C.as_slice())
}

/// The second sum-check starts from the claim the first one ends with.
/// Taking the prover's joint table `r_A (t^T A) + r_B (t^T B) + r_z (t^T C)`
/// (what `prover_joint_eval_table` returns) against the witness `z` gives
/// `r_A (t . Az) + r_B (t . Bz) + r_z (t . Cz)`, the combination of the
/// three tables that `multiply_vec` returns, each taken against `t`.
pub proof fn lemma_joint_claim(inst: R1CSLiteInstance, t: Seq<nat>, z: Seq<Scalar>, r_A: nat, r_B: nat, r_z: nat)
    requires
        z.len() > inst.spec_num_vars(),
        entries_within(inst.A_entries(), inst.spec_num_cons(), z.len()),
        entries_within(inst.B_entries(), inst.spec_num_cons(), z.len()),
        inst.spec_num_unpadded_vars() <= inst.spec_num_unpadded_cons(),
        implicit_c_within(
            inst.spec_num_vars(),
            inst.spec_num_unpadded_vars(),
            inst.spec_num_unpadded_cons(),
            inst.spec_num_cons(),
            z.len(),
        ),
    ensures
        dot(
            combine_tables_spec(
                r_A,
                r_B,
                r_z,
                vec_mat(inst.A_entries(), t, z.len()),
                vec_mat(inst.B_entries(), t, z.len()),
                implicit_c_table(
                    inst.spec_num_vars(),
                    inst.spec_num_unpadded_vars(),
                    inst.spec_num_unpadded_cons(),
                    t,
                    z.len(),
                ),
            ),
            values(z),
            z.len(),
        ) == combine(
            r_A,
            r_B,
            r_z,
            dot(t, mat_vec(inst.A_entries(), values(z), inst.spec_num_cons()), inst.spec_num_cons()),
            dot(t, mat_vec(inst.B_entries(), values(z), inst.spec_num_cons()), inst.spec_num_cons()),
            dot(
                t,
                project_witness(
                    values(z),
                    inst.spec_num_vars(),
                    inst.spec_num_unpadded_vars(),
                    inst.spec_num_unpadded_cons(),
                    inst.spec_num_cons(),
                ),
                inst.spec_num_cons(),
            ),
        ),
{
    let cols = z.len();
    let rows = inst.spec_num_cons();
    let (nv, nuv, nuc) = (inst.spec_num_vars(), inst.spec_num_unpadded_vars(), inst.spec_num_unpadded_cons());
    let ta = vec_mat(inst.A_entries(), t, cols);
    let tb = vec_mat(inst.B_entries(), t, cols);
    let tc = implicit_c_table(nv, nuv, nuc, t, cols);
    lemma_dot_combine(r_A, r_B, r_z, ta, tb, tc, values(z), cols);
    lemma_vec_mat_transpose(inst.A_entries(), t, values(z), rows, cols);
    lemma_vec_mat_transpose(inst.B_entries(), t, values(z), rows, cols);
    lemma_implicit_c_transpose(nv, nuv, nuc, t, z, rows, cols);
}

/// The second sum-check ends on the value the verifier derives. The
/// prover's joint table for the point `rx` (with `tx` the table of
/// `eq(rx, .)`), bound at `ry` (taken against `ty`, the table of
/// `eq(ry, .)`), is `r_A A~(rx, ry) + r_B B~(rx, ry) + r_z C~(rx, ry)`: the
/// combination of the values `evaluate` returns, whose third is the value
/// `evaluate_implicit_c` derives from the dimensions alone.
pub proof fn lemma_joint_table_at_ry(
    inst: R1CSLiteInstance,
    tx: Seq<nat>,
    ty: Seq<nat>,
    cols: nat,
    r_A: nat,
    r_B: nat,
    r_z: nat,
)
    requires
        entries_within(inst.A_entries(), inst.spec_num_cons(), cols),
        entries_within(inst.B_entries(), inst.spec_num_cons(), cols),
        implicit_c_within(
            inst.spec_num_vars(),
            inst.spec_num_unpadded_vars(),
            inst.spec_num_unpadded_cons(),
            inst.spec_num_cons(),
            cols,
        ),
    ensures
        dot(
            combine_tables_spec(
                r_A,
                r_B,
                r_z,
                vec_mat(inst.A_entries(), tx, cols),
                vec_mat(inst.B_entries(), tx, cols),
                implicit_c_table(
                    inst.spec_num_vars(),
                    inst.spec_num_unpadded_vars(),
                    inst.spec_num_unpadded_cons(),
                    tx,
                    cols,
                ),
            ),
            ty,
            cols,
        ) == combine(
            r_A,
            r_B,
            r_z,
            bilinear(inst.A_entries(), tx, ty),
            bilinear(inst.B_entries(), tx, ty),
            implicit_c_eval(
                inst.spec_num_vars(),
                inst.spec_num_unpadded_vars(),
                inst.spec_num_unpadded_cons(),
                tx,
                ty,
            ),
        ),
{
    let (nv, nuv, nuc) = (inst.spec_num_vars(), inst.spec_num_unpadded_vars(), inst.spec_num_unpadded_cons());
    let ta = vec_mat(inst.A_entries(), tx, cols);
    let tb = vec_mat(inst.B_entries(), tx, cols);
    let tc = implicit_c_table(nv, nuv, nuc, tx, cols);
    lemma_dot_combine(r_A, r_B, r_z, ta, tb, tc, ty, cols);
    lemma_bilinear_vec_mat(inst.A_entries(), tx, ty, cols);
    lemma_bilinear_vec_mat(inst.B_entries(), tx, ty, cols);
    lemma_implicit_c_eval_table(nv, nuv, nuc, tx, ty, inst.spec_num_cons(), cols);
}

/// The witness the prover builds for an instance from `vars` (the unpadded
/// variables) and `input`: the variables padded with zeros to `num_vars`,
/// then `1`, the inputs and zeros up to `2 num_vars` entries.
pub open spec fn instance_prover_witness(inst: R1CSLiteInstance, vars: Seq<Scalar>, input: Seq<Scalar>) -> Seq<nat> {
    prover_witness_spec(values(vars) + zeros((inst.spec_num_vars() - vars.len()) as nat), values(input))
}

/// `is_sat` decides the relation the first sum-check proves. Where the
/// matrices hold no entry in the padding rows, `vars` and `input` satisfy the
/// instance (what `is_sat` returns) if and only if `(A z)_i * (B z)_i ==
/// (C z)_i` for every one of the `num_cons` rows, with `A z`, `B z` and the
/// projection `C z` taken (as `multiply_vec` does) over the prover's witness
/// `z` of `2 num_vars` entries.
pub proof fn lemma_satisfied_iff_prover_hadamard(inst: R1CSLiteInstance, vars: Seq<Scalar>, input: Seq<Scalar>)
    requires
        inst.spec_num_inputs() < inst.spec_num_vars(),
        vars.len() == inst.spec_num_unpadded_vars(),
        inst.spec_num_unpadded_vars() <= inst.spec_num_vars(),
        input.len() == inst.spec_num_inputs(),
        inst.spec_num_unpadded_vars() <= inst.spec_num_unpadded_cons(),
        inst.spec_num_unpadded_cons() <= inst.spec_num_cons(),
        inst.spec_num_unpadded_cons() <= vars.len() + 1 + input.len(),
        entries_within(inst.A_entries(), inst.spec_num_cons(), inst.spec_num_vars() + inst.spec_num_inputs() + 1),
        entries_within(inst.B_entries(), inst.spec_num_cons(), inst.spec_num_vars() + inst.spec_num_inputs() + 1),
        forall|k: int| 0 <= k < inst.A_entries().len() ==> (#[trigger] inst.A_entries()[k]).row < inst.spec_num_unpadded_cons(),
        forall|k: int| 0 <= k < inst.B_entries().len() ==> (#[trigger] inst.B_entries()[k]).row < inst.spec_num_unpadded_cons(),
    ensures
        inst.satisfied(vars, input) <==> (forall|i: int|
            0 <= i < inst.spec_num_cons() ==> fmul(
                #[trigger] mat_vec(inst.A_entries(), instance_prover_witness(inst, vars, input), inst.spec_num_cons())[i],
                mat_vec(inst.B_entries(), instance_prover_witness(inst, vars, input), inst.spec_num_cons())[i],
            ) == project_witness(
                instance_prover_witness(inst, vars, input),
                inst.spec_num_vars(),
                inst.spec_num_unpadded_vars(),
                inst.spec_num_unpadded_cons(),
                inst.spec_num_cons(),
            )[i]),
{
    let (nv, nuv, nuc, nc, ni) = (
        inst.spec_num_vars(),
        inst.spec_num_unpadded_vars(),
        inst.spec_num_unpadded_cons(),
        inst.spec_num_cons(),
        inst.spec_num_inputs(),
    );
    let (A, B) = (inst.A_entries(), inst.B_entries());
    let z = inst.spec_padded_witness(vars, input);
    let zp = instance_prover_witness(inst, vars, input);
    let m = nv + ni + 1;
    assert(z.len() == m);
    assert(zp.len() == 2 * nv);
    assert forall|j: int| 0 <= j < m implies z[j] == zp[j] by {}
    assert forall|k: int| 0 <= k < A.len() implies (#[trigger] A[k]).col < m by {}
    assert forall|k: int| 0 <= k < B.len() implies (#[trigger] B[k]).col < m by {}
    lemma_satisfied_iff_hadamard(inst, vars, input);
    assert forall|i: int| 0 <= i < nc implies mat_vec(A, zp, nc)[i] == mat_vec(A, z, nc)[i] && mat_vec(B, zp, nc)[i]
        == mat_vec(B, z, nc)[i] && project_witness(zp, nv, nuv, nuc, nc)[i] == project_witness(z, nv, nuv, nuc, nc)[i]
        && (i >= nuc ==> mat_vec(A, z, nc)[i] == 0 && project_witness(z, nv, nuv, nuc, nc)[i] == 0) by {
        lemma_row_dot_ext(A, z, zp, m, i);
        lemma_row_dot_ext(B, z, zp, m, i);
        lemma_project_witness_entry(z, nv, nuv, nuc, nc, i);
        lemma_project_witness_entry(zp, nv, nuv, nuc, nc, i);
        if i >= nuc {
            assert forall|k: int| 0 <= k < A.len() implies (#[trigger] A[k]).row != i by {}
            lemma_row_dot_absent(A, z, i);
        }
    }
    let had_p = forall|i: int|
        0 <= i < nc ==> fmul(#[trigger] mat_vec(A, zp, nc)[i], mat_vec(B, zp, nc)[i]) == project_witness(
            zp,
            nv,
            nuv,
            nuc,
            nc,
        )[i];
    if inst.satisfied(vars, input) {
        assert forall|i: int| 0 <= i < nc implies fmul(#[trigger] mat_vec(A, zp, nc)[i], mat_vec(B, zp, nc)[i])
            == project_witness(zp, nv, nuv, nuc, nc)[i] by {
            if i < nuc {
                assert(fmul(mat_vec(A, z, nc)[i], mat_vec(B, z, nc)[i]) == project_witness(z, nv, nuv, nuc, nc)[i]);
            } else {
                lemma_fmul_zero(mat_vec(B, z, nc)[i]);
            }
        }
    }
    if had_p {
        assert forall|i: int| 0 <= i < nuc implies fmul(#[trigger] mat_vec(A, z, nc)[i], mat_vec(B, z, nc)[i])
            == project_witness(z, nv, nuv, nuc, nc)[i] by {
            assert(fmul(mat_vec(A, zp, nc)[i], mat_vec(B, zp, nc)[i]) == project_witness(zp, nv, nuv, nuc, nc)[i]);
        }
    }
}

proof fn lemma_implicit_c_col_sum_bound(num_vars: nat, num_unpadded_vars: nat, k: nat, t: Seq<nat>, c: nat)
    ensures
        implicit_c_col_sum(num_vars, num_unpadded_vars, k, t, c) < group_order(),
    decreases k,
{
    if k > 0 {
        lemma_implicit_c_col_sum_bound(num_vars, num_unpadded_vars, (k - 1) as nat, t, c);
    }
}

/// `evaluate` at the Boolean points recovers the products of the first
/// sum-check. With `ry` running over the Boolean points `bits(j, k)` of the
/// columns `j < 2^k`, the values `A~(rx, ry)`, `B~(rx, ry)` and
/// `C~(rx, ry)` that `evaluate` returns, weighted by `z_j` and summed, are
/// the values at `rx` of `A z`, `B z` and the projection `C z` that
/// `multiply_vec` returns (as `DensePolynomial::evaluate` computes them):
/// the implicit `C` of the evaluation is the projection of the products.
pub proof fn lemma_evaluate_at_boolean_points(inst: R1CSLiteInstance, rx: Seq<nat>, z: Seq<Scalar>, k: nat)
    requires
        z.len() == pow2(k),
        inst.spec_num_vars() <= pow2(k),
        entries_within(inst.A_entries(), inst.spec_num_cons(), pow2(k)),
        entries_within(inst.B_entries(), inst.spec_num_cons(), pow2(k)),
        inst.spec_num_unpadded_vars() <= inst.spec_num_unpadded_cons(),
        implicit_c_within(
            inst.spec_num_vars(),
            inst.spec_num_unpadded_vars(),
            inst.spec_num_unpadded_cons(),
            inst.spec_num_cons(),
            pow2(k),
        ),
    ensures
        dot(
            Seq::new(pow2(k), |j: int| bilinear(inst.A_entries(), eq_table(rx), eq_table(bits(j as nat, k)))),
            values(z),
            pow2(k),
        ) == dot(mat_vec(inst.A_entries(), values(z), inst.spec_num_cons()), eq_table(rx), inst.spec_num_cons()),
        dot(
            Seq::new(pow2(k), |j: int| bilinear(inst.B_entries(), eq_table(rx), eq_table(bits(j as nat, k)))),
            values(z),
            pow2(k),
        ) == dot(mat_vec(inst.B_entries(), values(z), inst.spec_num_cons()), eq_table(rx), inst.spec_num_cons()),
        dot(
            Seq::new(
                pow2(k),
                |j: int|
                    implicit_c_eval(
                        inst.spec_num_vars(),
                        inst.spec_num_unpadded_vars(),
                        inst.spec_num_unpadded_cons(),
                        eq_table(rx),
                        eq_table(bits(j as nat, k)),
                    ),
            ),
            values(z),
            pow2(k),
        ) == dot(
            project_witness(
                values(z),
                inst.spec_num_vars(),
                inst.spec_num_unpadded_vars(),
                inst.spec_num_unpadded_cons(),
                inst.spec_num_cons(),
            ),
            eq_table(rx),
            inst.spec_num_cons(),
        ),
{
    let cols = pow2(k);
    let nc = inst.spec_num_cons();
    let (nv, nuv, nuc) = (inst.spec_num_vars(), inst.spec_num_unpadded_vars(), inst.spec_num_unpadded_cons());
    let (A, B) = (inst.A_entries(), inst.B_entries());
    let tx = eq_table(rx);
    let zv = values(z);
    let ea = Seq::new(cols, |j: int| bilinear(A, tx, eq_table(bits(j as nat, k))));
    let eb = Seq::new(cols, |j: int| bilinear(B, tx, eq_table(bits(j as nat, k))));
    let ec = Seq::new(cols, |j: int| implicit_c_eval(nv, nuv, nuc, tx, eq_table(bits(j as nat, k))));
    let ta = vec_mat(A, tx, cols);
    let tb = vec_mat(B, tx, cols);
    let tc = implicit_c_table(nv, nuv, nuc, tx, cols);
    assert forall|j: int| 0 <= j < cols implies ea[j] == ta[j] && eb[j] == tb[j] && ec[j] == tc[j] by {
        let e = eq_table(bits(j as nat, k));
        lemma_eq_table_bits(j as nat, k);
        lemma_bilinear_vec_mat(A, tx, e, cols);
        lemma_bilinear_vec_mat(B, tx, e, cols);
        lemma_implicit_c_eval_table(nv, nuv, nuc, tx, e, nc, cols);
        lemma_col_dot_bound(A, tx, j);
        lemma_col_dot_bound(B, tx, j);
        lemma_implicit_c_col_sum_bound(nv, nuv, implicit_c_rows(nuv, nuc), tx, j as nat);
        lemma_dot_indicator(ta, e, cols, j as nat);
        lemma_dot_indicator(tb, e, cols, j as nat);
        lemma_dot_indicator(tc, e, cols, j as nat);
    }
    lemma_dot_ext(ea, ta, zv, zv, cols);
    lemma_dot_ext(eb, tb, zv, zv, cols);
    lemma_dot_ext(ec, tc, zv, zv, cols);
    lemma_vec_mat_transpose(A, tx, zv, nc, cols);
    lemma_vec_mat_transpose(B, tx, zv, nc, cols);
    lemma_implicit_c_transpose(nv, nuv, nuc, tx, z, nc, cols);
    lemma_dot_comm(tx, mat_vec(A, zv, nc), nc);
    lemma_dot_comm(tx, mat_vec(B, zv, nc), nc);
    lemma_dot_comm(tx, project_witness(zv, nv, nuv, nuc, nc), nc);
}

/// The dimensions of a statement that the verifier accepts: both padded
/// counts are powers of two, twice the padded variables fit in a `usize`,
/// the unpadded counts do not exceed the padded ones, there are no more
/// unpadded variables than unpadded constraints, and fewer inputs than
/// padded variables.
pub open spec fn verifier_dimensions_ok(num_vars: nat, num_cons: nat, num_unpadded_vars: nat, num_unpadded_cons: nat, num_inputs: nat) -> bool {
    &&& is_pow2(num_cons)
    &&& is_pow2(num_vars)
    &&& 2 * num_vars <= usize::MAX
    &&& num_unpadded_cons <= num_cons
    &&& num_unpadded_vars <= num_vars
    &&& num_unpadded_vars <= num_unpadded_cons
    &&& num_inputs < num_vars
}

/// The verifier's first check: the statement's dimensions are accepted, or
/// the proof is rejected with `InternalError`.
pub fn check_verifier_dimensions(
    num_vars: usize,
    num_cons: usize,
    num_unpadded_vars: usize,
    num_unpadded_cons: usize,
    input: &[Scalar],
) -> (r: Result<(), ProofVerifyError>)
    ensures
        r is Ok <==> verifier_dimensions_ok(
            num_vars as nat,
            num_cons as nat,
            num_unpadded_vars as nat,
            num_unpadded_cons as nat,
            input@.len(),
        ),
        r is Err ==> r == Err::<(), ProofVerifyError>(ProofVerifyError::InternalError),
        is_pow2(num_cons as nat) && is_pow2(num_vars as nat) && 2 * num_vars <= usize::MAX && num_unpadded_cons
            <= num_cons && num_unpadded_vars <= num_vars && num_unpadded_vars <= num_unpadded_cons && input@.len()
            < num_vars ==> r is Ok,
{
    if !is_power_of_two(num_cons) || !is_power_of_two(num_vars) || num_vars.checked_mul(2).is_none()
        || num_unpadded_cons > num_cons || num_unpadded_vars > num_vars || num_unpadded_vars
        > num_unpadded_cons || input.len() >= num_vars {
        return Err(ProofVerifyError::InternalError);
    }
    Ok(())
}

/// The verifier accepts the statement of every instance: the padded and
/// unpadded counts of an instance (both padded counts powers of two, fewer
/// inputs than padded variables) with no more unpadded variables than
/// padded ones or than unpadded constraints, and no more unpadded
/// constraints than padded ones, with as many inputs as the instance has,
/// pass the verifier's dimension checks. In particular every instance whose
/// unpadded counts equal its padded ones (every synthetic instance) does.
pub proof fn lemma_instance_statement_accepted(inst: R1CSLiteInstance, num_inputs: nat)
    requires
        inst.wf(),
        num_inputs == inst.spec_num_inputs(),
        inst.spec_num_unpadded_vars() <= inst.spec_num_vars(),
        inst.spec_num_unpadded_vars() <= inst.spec_num_unpadded_cons(),
        inst.spec_num_unpadded_cons() <= inst.spec_num_cons(),
    ensures
        verifier_dimensions_ok(
            inst.spec_num_vars(),
            inst.spec_num_cons(),
            inst.spec_num_unpadded_vars(),
            inst.spec_num_unpadded_cons(),
            num_inputs,
        ),
{
    inst.lemma_wf_dims();
}

/// One factor `x y + (1 - x)(1 - y)` of the multilinear equality polynomial.
pub open spec fn eq_factor(x: nat, y: nat) -> nat {
    fadd(fmul(x, y), fmul(fsub(1, x), fsub(1, y)))
}

/// `eq(rx, tau)` over the first `n` coordinates: the product, modulo `L`, of
/// `eq_factor(rx_i, tau_i)`.
pub open spec fn eq_eval(rx: Seq<nat>, tau: Seq<nat>, n: nat) -> nat
    decreases n,
{
    if n == 0 {
        1
    } else {
        fmul(eq_eval(rx, tau, (n - 1) as nat), eq_factor(rx[n - 1], tau[n - 1]))
    }
}

proof fn lemma_eq_eval_ext(a: Seq<nat>, a2: Seq<nat>, b: Seq<nat>, b2: Seq<nat>, n: nat)
    requires
        forall|i: int| 0 <= i < n ==> a[i] == a2[i] && b[i] == b2[i],
    ensures
        eq_eval(a, b, n) == eq_eval(a2, b2, n),
    decreases n,
{
    if n > 0 {
        lemma_eq_eval_ext(a, a2, b, b2, (n - 1) as nat);
    }
}

/// `(a b)(e f) == (a e)(b f)` modulo `L`.
proof fn lemma_fmul_swap_middle(a: nat, b: nat, e: nat, f: nat)
    ensures
        fmul(fmul(a, b), fmul(e, f)) == fmul(fmul(a, e), fmul(b, f)),
{
    lemma_fmul_assoc(a, b, fmul(e, f));
    lemma_fmul_assoc(b, e, f);
    lemma_fmul_comm(b, e);
    lemma_fmul_assoc(e, b, f);
    lemma_fmul_assoc(a, e, fmul(b, f));
}

/// Extending two tables by one coordinate each multiplies their inner
/// product by the equality factor of the two coordinates.
proof fn lemma_eq_extend_dot(t: Seq<nat>, u: Seq<nat>, c: nat, d: nat, m: nat)
    requires
        m <= t.len(),
        t.len() == u.len(),
        forall|i: int| 0 <= i < t.len() ==> #[trigger] t[i] < group_order(),
        forall|i: int| 0 <= i < u.len() ==> #[trigger] u[i] < group_order(),
    ensures
        dot(eq_extend(t, c), eq_extend(u, d), 2 * m) == fmul(dot(t, u, m), eq_factor(d, c)),
    decreases m,
{
    let X = eq_extend(t, c);
    let Y = eq_extend(u, d);
    let E = eq_factor(d, c);
    if m == 0 {
        lemma_fmul_zero(E);
    } else {
        let k = (m - 1) as nat;
        let k2 = 2 * k as int;
        lemma_eq_extend_dot(t, u, c, d, k);
        let (tk, uk) = (t[k as int], u[k as int]);
        let (c0, d0) = (fsub(1, c), fsub(1, d));
        assert(X[k2] == fsub(tk, fmul(tk, c)));
        assert(X[k2 + 1] == fmul(tk, c));
        assert(Y[k2] == fsub(uk, fmul(uk, d)));
        assert(Y[k2 + 1] == fmul(uk, d));
        lemma_fsub_mul(tk, c);
        lemma_fsub_mul(uk, d);
        let P = fmul(tk, uk);
        let term0 = fmul(fmul(tk, c0), fmul(uk, d0));
        let term1 = fmul(fmul(tk, c), fmul(uk, d));
        lemma_fmul_swap_middle(tk, c0, uk, d0);
        lemma_fmul_swap_middle(tk, c, uk, d);
        let D = dot(X, Y, 2 * k);
        assert(X[k2] == fmul(tk, c0));
        assert(Y[k2] == fmul(uk, d0));
        assert(dot(X, Y, (k2 + 1) as nat) == fadd(D, term0));
        assert(dot(X, Y, 2 * m) == fadd(dot(X, Y, (k2 + 1) as nat), term1));
        lemma_fadd_assoc(D, term0, term1);
        lemma_fmul_distrib(fmul(c0, d0), fmul(c, d), P);
        lemma_fmul_comm(c0, d0);
        lemma_fmul_comm(c, d);
        lemma_fadd_comm(fmul(d0, c0), fmul(d, c));
        assert(fadd(term0, term1) == fmul(P, E));
        lemma_fmul_distrib(dot(t, u, k), P, E);
        lemma_fmul_comm(P, E);
    }
}

/// Binding the prover's table of `eq(tau, .)` at `rx` gives the product
/// `eq(rx, tau)` that the verifier computes: the inner product of the two
/// equality tables is the product of the equality factors.
pub proof fn lemma_eq_tables_dot(tau: Seq<nat>, rx: Seq<nat>)
    requires
        tau.len() == rx.len(),
    ensures
        dot(eq_table(tau), eq_table(rx), pow2(tau.len())) == eq_eval(rx, tau, rx.len()),
    decreases tau.len(),
{
    let n = tau.len();
    if n == 0 {
        assert(eq_table(tau) == seq![1nat]);
        assert(eq_table(rx) == seq![1nat]);
        assert(eq_table(tau)[0] == 1 && eq_table(rx)[0] == 1);
        assert(dot(eq_table(tau), eq_table(rx), 0) == 0);
        assert(dot(eq_table(tau), eq_table(rx), 1) == fadd(0, fmul(1, 1)));
        lemma_small_mod(1, group_order());
    } else {
        let (tau2, rx2) = (tau.drop_last(), rx.drop_last());
        lemma_eq_tables_dot(tau2, rx2);
        lemma_eq_table_len(tau2);
        lemma_eq_table_len(rx2);
        lemma_eq_table_bound(tau2);
        lemma_eq_table_bound(rx2);
        let m = pow2((n - 1) as nat);
        lemma_eq_extend_dot(eq_table(tau2), eq_table(rx2), tau.last(), rx.last(), m);
        assert(pow2(n) == 2 * m);
        lemma_eq_eval_ext(rx, rx2, tau, tau2, (n - 1) as nat);
    }
}

/// `eq(rx, tau)`: what the verifier uses for `eq(tau, .)` bound at `rx` at
/// the end of the first sum-check.
pub fn bound_eq_eval(rx: &[Scalar], tau: &[Scalar]) -> (r: Scalar)
    requires
        rx@.len() <= tau@.len(),
    ensures
        r@ == eq_eval(values(rx@), values(tau@), rx@.len()),
{
    let one = Scalar::one();
    let mut acc = Scalar::one();
    let mut i: usize = 0;
    while i < rx.len()
        invariant
            i <= rx@.len(),
            rx@.len() <= tau@.len(),
            one@ == 1,
            acc@ == eq_eval(values(rx@), values(tau@), i as nat),
        decreases rx@.len() - i,
    {
        let factor = rx[i].mul(&tau[i]).add(&one.sub(&rx[i]).mul(&one.sub(&tau[i])));
        acc = acc.mul(&factor);
        i = i + 1;
    }
    acc
}

/// The value at `r` of the multilinear extension of the vector
/// `(1, input_0, input_1, ...)` over its first `k + 1` entries.
pub open spec fn input_poly_value(input: Seq<nat>, r: Seq<nat>, k: nat) -> nat
    decreases k,
{
    if k == 0 {
        fadd(0, fmul(eq_point(r, 0), 1))
    } else {
        fadd(input_poly_value(input, r, (k - 1) as nat), fmul(eq_point(r, k), input[k - 1]))
    }
}

/// The value at `ry` of the multilinear extension, over `log2(n)`
/// variables, of the vector `(1, input...)`: the constant and the public
/// inputs, which the verifier knows without the prover.
pub fn input_poly_eval(input: &[Scalar], n: usize, ry: &[Scalar]) -> (r: Scalar)
    requires
        is_pow2(n as nat),
        ry@.len() == log2_ceil(n as nat),
        input@.len() < n,
    ensures
        r@ == input_poly_value(values(input@), values(ry@), input@.len()),
{
    proof {
        lemma_pow2_log2(n as nat);
    }
    let ghost inp = values(input@);
    let mut entries: Vec<SparsePolyEntry> = Vec::new();
    entries.push(SparsePolyEntry::new(0, Scalar::one()));
    let mut i: usize = 0;
    while i < input.len()
        invariant
            i <= input@.len(),
            input@.len() < n,
            inp == values(input@),
            entries.len() == i + 1,
            entries@[0].idx == 0,
            entries@[0].val@ == 1,
            forall|k: int| 1 <= k <= i ==> (#[trigger] entries@[k]).idx == k && entries@[k].val@ == inp[k - 1],
        decreases input@.len() - i,
    {
        entries.push(SparsePolyEntry::new(i + 1, input[i]));
        i = i + 1;
    }
    let ghost es = entries@;
    let poly = SparsePolynomial::new(log_2(n), entries);
    proof {
        assert forall|k: int| 0 <= k < es.len() implies (#[trigger] es[k]).idx < pow2(ry@.len()) by {
            if k > 0 {
                assert(es[k].idx == k);
            }
        }
        lemma_input_poly_value(es, inp, values(ry@), input@.len());
    }
    poly.evaluate(ry)
}

/// The public parameters of the satisfiability proof, held as the inputs
/// from which the polynomial commitment to the variables and the
/// sum-checks derive their generators: the label and the number of
/// variables of the committed polynomial. The commitment and sum-check
/// schemes themselves are not part of this crate.
pub struct R1CSLiteGens {
    label: &'static [u8],
    num_poly_vars: usize,
}

impl R1CSLiteGens {
    /// The label the generators are derived from.
    pub closed spec fn spec_label(&self) -> Seq<u8> {
        self.label@
    }

    /// The number of variables of the committed polynomial of variables.
    pub closed spec fn spec_num_poly_vars(&self) -> nat {
        self.num_poly_vars as nat
    }

    /// The parameters for instances with `num_vars` (padded) variables: a
    /// polynomial of `log2(num_vars)` variables; the number of constraints
    /// does not enter.
    pub fn new(label: &'static [u8], _num_cons: usize, num_vars: usize) -> (gens: R1CSLiteGens)
        requires
            num_vars != 0,
        ensures
            gens.spec_label() == label@,
            gens.spec_num_poly_vars() == log2_ceil(num_vars as nat),
    {
        let num_poly_vars = log_2(num_vars);
        R1CSLiteGens { label, num_poly_vars }
    }
}

/// The name that binds the proof's transcripts to this protocol: the ASCII
/// bytes of `"R1CSLite proof"`.
pub fn protocol_name() -> (r: [u8; 14])
    ensures
        r@ == seq![82u8, 49u8, 67u8, 83u8, 76u8, 105u8, 116u8, 101u8, 32u8, 112u8, 114u8, 111u8, 111u8, 102u8],
{
    let r: [u8; 14] = [82u8, 49u8, 67u8, 83u8, 76u8, 105u8, 116u8, 101u8, 32u8, 112u8, 114u8, 111u8, 111u8, 102u8];
    proof {
        assert(r@ =~= seq![82u8, 49u8, 67u8, 83u8, 76u8, 105u8, 116u8, 101u8, 32u8, 112u8, 114u8, 111u8, 111u8, 102u8]);
    }
    r
}

/// `(1 - ry_0) v + ry_0 w`: the witness's value at `ry` from the value `v`
/// of the variables and the value `w` of `(1, input)` at the other
/// coordinates.
pub open spec fn witness_split(ry0: nat, v: nat, w: nat) -> nat {
    fadd(fmul(fsub(1, ry0), v), fmul(ry0, w))
}

/// The value `(1 - ry_0) eval_vars + ry_0 eval_io` that the verifier's last
/// check commits to, from the opened value of the variables and the value of
/// `(1, input)`, both at the coordinates of `ry` after the first.
pub fn eval_z_at_ry(ry0: &Scalar, eval_vars_at_ry: &Scalar, eval_io_at_ry: &Scalar) -> (r: Scalar)
    ensures
        r@ == witness_split(ry0@, eval_vars_at_ry@, eval_io_at_ry@),
{
    let one_minus = Scalar::one().sub(ry0);
    one_minus.mul(eval_vars_at_ry).add(&ry0.mul(eval_io_at_ry))
}

/// `(Az * Bz - z) * tau`: the claim the first sum-check ends on, from the
/// claimed values of `A z`, `B z` and `C z` at `rx` and the value of
/// `eq(tau, rx)`.
pub fn claim_post_phase1(Az_claim: &Scalar, Bz_claim: &Scalar, z_claim: &Scalar, taus_bound_rx: &Scalar) -> (r: Scalar)
    ensures
        r@ == fmul(fsub(fmul(Az_claim@, Bz_claim@), z_claim@), taus_bound_rx@),
{
    Az_claim.mul(Bz_claim).sub(z_claim).mul(taus_bound_rx)
}

/// The entries `(1, input...)` at the head of `tail`, taken against the
/// table of `eq(r, .)`, give the value `input_poly_value` describes.
proof fn lemma_io_dot(tail: Seq<nat>, input: Seq<nat>, r: Seq<nat>, k: nat)
    requires
        k <= input.len(),
        tail.len() > input.len(),
        tail[0] == 1,
        forall|j: int| 0 <= j < input.len() ==> tail[j + 1] == input[j],
        input.len() < pow2(r.len()),
    ensures
        dot(tail, eq_table(r), k + 1) == input_poly_value(input, r, k),
    decreases k,
{
    lemma_eq_table_entry(r, k);
    let t = eq_table(r);
    if k == 0 {
        assert(dot(tail, t, 0) == 0);
        lemma_fmul_comm(1, t[0]);
    } else {
        lemma_io_dot(tail, input, r, (k - 1) as nat);
        assert(tail[k as int] == input[k - 1]);
        lemma_fmul_comm(input[k - 1], t[k as int]);
    }
}

/// The prover's witness at `ry` splits on the first coordinate `ry_0`:
/// `z~(ry) == (1 - ry_0) vars~(ry') + ry_0 io~(ry')`, where `ry'` holds the
/// other coordinates, `vars~(ry')` is the value of the variables'
/// polynomial that the prover opens (`DensePolynomial::evaluate`) and
/// `io~(ry')` is the value of `(1, input)` that the verifier computes itself
/// (`input_poly_eval`). This is the value the verifier's last check
/// multiplies the combined evaluations of `A`, `B` and `C` by.
pub proof fn lemma_witness_at_ry(vars: Seq<nat>, input: Seq<nat>, ry: Seq<nat>)
    requires
        ry.len() >= 1,
        vars.len() == pow2((ry.len() - 1) as nat),
        input.len() < vars.len(),
    ensures
        dot(prover_witness_spec(vars, input), eq_table(ry), 2 * vars.len()) == witness_split(
            ry[0],
            dot(vars, eq_table(ry.drop_first()), vars.len()),
            input_poly_value(input, ry.drop_first(), input.len()),
        ),
{
    let n = vars.len();
    let k = (ry.len() - 1) as nat;
    let rp = ry.drop_first();
    let c0 = ry[0];
    let z = prover_witness_spec(vars, input);
    let t = eq_table(ry);
    let tp = eq_table(rp);
    lemma_eq_table_len(ry);
    lemma_eq_table_len(rp);
    assert(pow2(ry.len()) == 2 * n);
    assert(z.len() == 2 * n);
    // the two halves of the table of eq(ry, .)
    assert forall|i: int| 0 <= i < 2 * n implies #[trigger] t[i] == fmul(
        tp[i % (n as int)],
        if i < n { fsub(1, c0) } else { c0 },
    ) by {
        lemma_eq_table_entry(ry, i as nat);
        lemma_eq_point_first(ry, i as nat);
        vstd::arithmetic::div_mod::lemma_mod_bound(i, n as int);
        lemma_eq_table_entry(rp, (i % (n as int)) as nat);
    }
    let zh = z.skip(n as int);
    let th = t.skip(n as int);
    lemma_dot_split(z, t, n, n);
    // the lower half holds the variables
    assert forall|i: int| 0 <= i < n implies t[i] == fmul(tp[i], fsub(1, c0)) by {
        vstd::arithmetic::div_mod::lemma_small_mod(i as nat, n);
        assert(t[i] == fmul(tp[i % (n as int)], fsub(1, c0)));
    }
    lemma_dot_ext(z, vars, t, t, n);
    lemma_dot_scale(vars, tp, t, fsub(1, c0), n);
    // the upper half holds (1, input) and zeros
    assert forall|i: int| 0 <= i < n implies th[i] == fmul(tp[i], c0) by {
        vstd::arithmetic::div_mod::lemma_fundamental_div_mod_converse_mod(n + i, n as int, 1, i);
        assert(th[i] == t[n + i]);
        assert(t[n + i] == fmul(tp[(n + i) % (n as int)], c0));
    }
    lemma_dot_scale(zh, tp, th, c0, n);
    let ni = input.len();
    assert forall|i: int| ni + 1 <= i < n implies zh[i] == 0 by {
        assert(zh[i] == z[n + i]);
    }
    lemma_dot_zero_tail(zh, tp, ni + 1, n);
    assert(zh[0] == 1);
    assert forall|j: int| 0 <= j < ni implies zh[j + 1] == input[j] by {
        assert(zh[j + 1] == z[n + j + 1]);
    }
    lemma_io_dot(zh, input, rp, ni);
    lemma_fmul_comm(dot(vars, tp, n), fsub(1, c0));
    lemma_fmul_comm(input_poly_value(input, rp, ni), c0);
}

proof fn lemma_input_poly_value(es: Seq<SparsePolyEntry>, input: Seq<nat>, r: Seq<nat>, k: nat)
    requires
        es.len() == k + 1,
        es[0].idx == 0,
        es[0].val@ == 1,
        forall|j: int| 1 <= j <= k ==> (#[trigger] es[j]).idx == j && es[j].val@ == input[j - 1],
    ensures
        sparse_vec_eval(es, r) == input_poly_value(input, r, k),
    decreases k,
{
    let prefix = es.drop_last();
    assert(es.last() == es[k as int]);
    if k == 0 {
        assert(prefix.len() == 0);
        assert(sparse_vec_eval(prefix, r) == 0);
        assert(sparse_vec_eval(es, r) == fadd(0, fmul(eq_point(r, 0), es[0].val@)));
    } else {
        assert(es[k as int].idx == k && es[k as int].val@ == input[k - 1]);
        assert forall|j: int| 1 <= j <= k - 1 implies (#[trigger] prefix[j]).idx == j && prefix[j].val@
            == input[j - 1] by {
            assert(prefix[j] == es[j]);
        }
        assert(prefix[0] == es[0]);
        lemma_input_poly_value(prefix, input, r, (k - 1) as nat);
    }
}

} // verus!
