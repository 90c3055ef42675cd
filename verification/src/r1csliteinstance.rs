//! R1CS-Lite instances: two sparse matrices `A` and `B` over the witness
//! `z = (vars, 1, inputs)`, where constraint `i` states that
//! `(A z)_i * (B z)_i` equals the `i`-th entry of the unpadded witness.
//! The third matrix `C` of ordinary R1CS is a fixed projection that is
//! never stored.
use crate::dense_mlpoly::{dot, eq_table, lemma_dot_zeros, vec_add, vec_scale, DensePolynomial};
use crate::math::{is_pow2, log2_ceil, log_2, pow2, lemma_pow2_log2, lemma_log2_double};
use crate::scalar::{
    copy_range, copy_scalars, fadd, fmul, fsub, group_order, lemma_fmul_rotate, lemma_value_bound, lemma_values_push,
    values, zeros, Scalar,
};
use crate::sparse_mlpoly::{
    bilinear, entries_within, lemma_row_dot_absent, lemma_row_dot_add, lemma_row_dot_diagonal, lemma_row_dot_scale,
    mat_vec, row_dot, vec_mat, SparseMatEntry,
    SparseMatPolynomial,
};
use vstd::prelude::*;

verus! {

/// The sparse entries `(row, col, val)` of a matrix given as triples.
pub open spec fn entries_of(t: Seq<(usize, usize, Scalar)>) -> Seq<SparseMatEntry> {
    t.map_values(|x: (usize, usize, Scalar)| SparseMatEntry { row: x.0, col: x.1, val: x.2 })
}

/// The witness `vars ++ [1] ++ input`.
pub open spec fn witness(vars: Seq<nat>, input: Seq<nat>) -> Seq<nat> {
    vars + seq![1nat] + input
}

/// The witness with `vars` padded by zeros to `num_vars` entries:
/// `vars ++ 0^(num_vars - |vars|) ++ [1] ++ input`.
pub open spec fn padded_witness(vars: Seq<nat>, num_vars: nat, input: Seq<nat>) -> Seq<nat> {
    witness(vars + zeros((num_vars - vars.len()) as nat), input)
}

/// The column of the implicit matrix `C` in row `i`: the identity on the
/// first `num_unpadded_vars` rows, then shifted past the padding gap so that
/// the remaining rows select the constant 1 and the inputs.
pub open spec fn implicit_c_col(num_vars: nat, num_unpadded_vars: nat, i: nat) -> nat {
    if i < num_unpadded_vars {
        i
    } else {
        (i + num_vars - num_unpadded_vars) as nat
    }
}

/// The number of rows that hold an entry of the implicit matrix `C`.
pub open spec fn implicit_c_rows(num_unpadded_vars: nat, num_unpadded_cons: nat) -> nat {
    if num_unpadded_cons > num_unpadded_vars {
        num_unpadded_cons
    } else {
        num_unpadded_vars
    }
}

/// The bilinear form `tx^T C ty` over the first `k` entries of the implicit
/// matrix `C`, whose entries are all 1.
pub open spec fn implicit_c_sum(num_vars: nat, num_unpadded_vars: nat, k: nat, tx: Seq<nat>, ty: Seq<nat>) -> nat
    decreases k,
{
    if k == 0 {
        0
    } else {
        let i = (k - 1) as nat;
        crate::scalar::fadd(
            implicit_c_sum(num_vars, num_unpadded_vars, i, tx, ty),
            fmul(fmul(tx[i as int], ty[implicit_c_col(num_vars, num_unpadded_vars, i) as int]), 1),
        )
    }
}

/// The value `C~(rx, ry)` of the multilinear extension of the implicit
/// matrix `C`, with `tx` and `ty` the tables of `eq(rx, .)` and `eq(ry, .)`.
pub open spec fn implicit_c_eval(num_vars: nat, num_unpadded_vars: nat, num_unpadded_cons: nat, tx: Seq<nat>, ty: Seq<nat>) -> nat {
    implicit_c_sum(num_vars, num_unpadded_vars, implicit_c_rows(num_unpadded_vars, num_unpadded_cons), tx, ty)
}

/// Every entry of the implicit matrix `C` lies within `rows` rows and `cols`
/// columns.
pub open spec fn implicit_c_within(num_vars: nat, num_unpadded_vars: nat, num_unpadded_cons: nat, rows: nat, cols: nat) -> bool {
    forall|i: nat|
        i < implicit_c_rows(num_unpadded_vars, num_unpadded_cons) ==> i < rows
            && #[trigger] implicit_c_col(num_vars, num_unpadded_vars, i) < cols
}

/// The projected witness `C z`: the first `num_unpadded_vars` entries of `z`,
/// then the `num_unpadded_cons - num_unpadded_vars` entries that start at
/// index `num_vars` (the constant and the inputs), then zeros up to `n`
/// entries (each part cut short where `z` ends).
pub open spec fn project_witness(z: Seq<nat>, num_vars: nat, num_unpadded_vars: nat, num_unpadded_cons: nat, n: nat) -> Seq<nat> {
    let a = if num_unpadded_vars < z.len() { num_unpadded_vars } else { z.len() };
    let rest = (z.len() - num_vars) as nat;
    let want = (num_unpadded_cons - num_unpadded_vars) as nat;
    let b = if want < rest { want } else { rest };
    z.take(a as int) + z.subrange(num_vars as int, (num_vars + b) as int) + zeros((n - a - b) as nat)
}

/// The number of entries of `project_witness` before the zero padding.
pub open spec fn projected_len(z_len: nat, num_vars: nat, num_unpadded_vars: nat, num_unpadded_cons: nat) -> nat {
    let a = if num_unpadded_vars < z_len { num_unpadded_vars } else { z_len };
    let rest = (z_len - num_vars) as nat;
    let want = (num_unpadded_cons - num_unpadded_vars) as nat;
    let b = if want < rest { want } else { rest };
    a + b
}

/// The public parameters for committing to the matrices of an instance,
/// held as the inputs from which the sparse-matrix polynomial commitment
/// derives its generators: the label, the numbers of row and column
/// variables, the number of nonzero entries and the batch size. The
/// commitment scheme itself is not part of this crate.
pub struct R1CSLiteCommitmentGens {
    label: &'static [u8],
    num_poly_vars_x: usize,
    num_poly_vars_y: usize,
    num_nz_entries: usize,
    batch_size: usize,
}

impl R1CSLiteCommitmentGens {
    /// The label the generators are derived from.
    pub closed spec fn spec_label(&self) -> Seq<u8> {
        self.label@
    }

    /// The number of row variables of the committed matrices.
    pub closed spec fn spec_num_poly_vars_x(&self) -> nat {
        self.num_poly_vars_x as nat
    }

    /// The number of column variables of the committed matrices.
    pub closed spec fn spec_num_poly_vars_y(&self) -> nat {
        self.num_poly_vars_y as nat
    }

    /// The number of nonzero entries the generators allow for.
    pub closed spec fn spec_num_nz_entries(&self) -> nat {
        self.num_nz_entries as nat
    }

    /// The number of matrices committed together.
    pub closed spec fn spec_batch_size(&self) -> nat {
        self.batch_size as nat
    }

    /// The parameters for instances with `num_cons` constraints and
    /// `num_vars` variables (both padded), `num_inputs` inputs and up to
    /// `num_nz_entries` nonzero entries per matrix: `log2(num_cons)` row and
    /// `log2(2 num_vars)` column variables, for a batch of three matrices.
    pub fn new(
        label: &'static [u8],
        num_cons: usize,
        num_vars: usize,
        num_inputs: usize,
        num_nz_entries: usize,
    ) -> (gens: R1CSLiteCommitmentGens)
        requires
            num_inputs < num_vars,
            num_cons != 0,
            2 * num_vars <= usize::MAX,
        ensures
            gens.spec_label() == label@,
            gens.spec_num_poly_vars_x() == log2_ceil(num_cons as nat),
            gens.spec_num_poly_vars_y() == log2_ceil(2 * num_vars as nat),
            gens.spec_num_nz_entries() == num_nz_entries,
            gens.spec_batch_size() == 3,
    {
        let num_poly_vars_x = log_2(num_cons);
        let num_poly_vars_y = log_2(2 * num_vars);
        R1CSLiteCommitmentGens { label, num_poly_vars_x, num_poly_vars_y, num_nz_entries, batch_size: 3 }
    }
}

/// An R1CS-Lite instance.
pub struct R1CSLiteInstance {
    num_cons: usize,
    num_vars: usize,
    num_inputs: usize,
    A: SparseMatPolynomial,
    B: SparseMatPolynomial,
    num_unpadded_cons: usize,
    num_unpadded_vars: usize,
}

impl R1CSLiteInstance {
    /// The padded number of constraints.
    pub closed spec fn spec_num_cons(&self) -> nat {
        self.num_cons as nat
    }

    /// The padded number of variables.
    pub closed spec fn spec_num_vars(&self) -> nat {
        self.num_vars as nat
    }

    /// The number of public inputs.
    pub closed spec fn spec_num_inputs(&self) -> nat {
        self.num_inputs as nat
    }

    /// The number of constraints before padding.
    pub closed spec fn spec_num_unpadded_cons(&self) -> nat {
        self.num_unpadded_cons as nat
    }

    /// The number of variables before padding.
    pub closed spec fn spec_num_unpadded_vars(&self) -> nat {
        self.num_unpadded_vars as nat
    }

    /// The entries of `A`.
    pub closed spec fn A_entries(&self) -> Seq<SparseMatEntry> {
        self.A.entries()
    }

    /// The entries of `B`.
    pub closed spec fn B_entries(&self) -> Seq<SparseMatEntry> {
        self.B.entries()
    }

    /// The dimensions that every instance has: both padded counts are powers
    /// of two, there are fewer inputs than padded variables, twice the
    /// padded variables fit in a `usize`, and the matrix polynomials have
    /// `log2(num_cons)` row and `log2(2 num_vars)` column variables.
    pub closed spec fn wf(&self) -> bool {
        &&& is_pow2(self.num_cons as nat)
        &&& is_pow2(self.num_vars as nat)
        &&& self.num_inputs < self.num_vars
        &&& 2 * self.num_vars <= usize::MAX
        &&& self.A.spec_num_vars_x() == log2_ceil(self.num_cons as nat)
        &&& self.B.spec_num_vars_x() == log2_ceil(self.num_cons as nat)
        &&& self.A.spec_num_vars_y() == log2_ceil(2 * self.num_vars as nat)
        &&& self.B.spec_num_vars_y() == log2_ceil(2 * self.num_vars as nat)
    }

    #[verifier::type_invariant]
    closed spec fn inv(&self) -> bool {
        self.wf()
    }

    /// What `wf` says of the dimensions.
    pub proof fn lemma_wf_dims(self)
        requires
            self.wf(),
        ensures
            is_pow2(self.spec_num_cons()),
            is_pow2(self.spec_num_vars()),
            self.spec_num_inputs() < self.spec_num_vars(),
            2 * self.spec_num_vars() <= usize::MAX,
    {
    }

    /// The padded witness `(vars padded to num_vars, 1, input)`.
    pub open spec fn spec_padded_witness(&self, vars: Seq<Scalar>, input: Seq<Scalar>) -> Seq<nat> {
        padded_witness(values(vars), self.spec_num_vars(), values(input))
    }

    /// Constraint `i` holds: `(A z)_i * (B z)_i` equals entry `i` of the
    /// unpadded witness `(vars, 1, input)`, with `z` the padded witness.
    pub open spec fn constraint_holds(&self, vars: Seq<Scalar>, input: Seq<Scalar>, i: int) -> bool {
        let z = self.spec_padded_witness(vars, input);
        fmul(row_dot(self.A_entries(), z, i), row_dot(self.B_entries(), z, i))
            == witness(values(vars), values(input))[i]
    }

    /// The instance is satisfied by `vars` and `input`: every unpadded
    /// constraint holds.
    pub open spec fn satisfied(&self, vars: Seq<Scalar>, input: Seq<Scalar>) -> bool {
        forall|i: int| 0 <= i < self.spec_num_unpadded_cons() ==> #[trigger] self.constraint_holds(vars, input, i)
    }

    /// Checking the constraints in order never reaches a constraint index
    /// beyond the padded constraints or the unpadded witness before a
    /// constraint fails.
    pub open spec fn check_stays_in_range(&self, vars: Seq<Scalar>, input: Seq<Scalar>) -> bool {
        forall|i: int|
            0 <= i < self.spec_num_unpadded_cons() && #[trigger] self.holds_before(vars, input, i) ==> i
                < self.spec_num_cons() && i < vars.len() + 1 + input.len()
    }

    /// Every constraint before index `i` holds.
    pub open spec fn holds_before(&self, vars: Seq<Scalar>, input: Seq<Scalar>, i: int) -> bool {
        forall|j: int| 0 <= j < i ==> #[trigger] self.constraint_holds(vars, input, j)
    }

    /// A new instance.
    pub fn new(
        num_cons: usize,
        num_vars: usize,
        num_inputs: usize,
        A: &[(usize, usize, Scalar)],
        B: &[(usize, usize, Scalar)],
        num_unpadded_cons: usize,
        num_unpadded_vars: usize,
    ) -> (inst: R1CSLiteInstance)
        requires
            is_pow2(num_cons as nat),
            is_pow2(num_vars as nat),
            num_inputs < num_vars,
            2 * num_vars <= usize::MAX,
        ensures
            inst.wf(),
            inst.spec_num_cons() == num_cons,
            inst.spec_num_vars() == num_vars,
            inst.spec_num_inputs() == num_inputs,
            inst.spec_num_unpadded_cons() == num_unpadded_cons,
            inst.spec_num_unpadded_vars() == num_unpadded_vars,
            inst.A_entries() == entries_of(A@),
            inst.B_entries() == entries_of(B@),
    {
        let num_poly_vars_x = log_2(num_cons);
        let num_poly_vars_y = log_2(2 * num_vars);
        let mat_A = to_entries(A);
        let mat_B = to_entries(B);
        let poly_A = SparseMatPolynomial::new(num_poly_vars_x, num_poly_vars_y, mat_A);
        let poly_B = SparseMatPolynomial::new(num_poly_vars_x, num_poly_vars_y, mat_B);
        R1CSLiteInstance {
            num_cons,
            num_vars,
            num_inputs,
            A: poly_A,
            B: poly_B,
            num_unpadded_cons,
            num_unpadded_vars,
        }
    }

    pub fn get_num_vars(&self) -> (r: usize)
        ensures
            r == self.spec_num_vars(),
    {
        self.num_vars
    }

    pub fn get_num_cons(&self) -> (r: usize)
        ensures
            r == self.spec_num_cons(),
    {
        self.num_cons
    }

    pub fn get_num_inputs(&self) -> (r: usize)
        ensures
            r == self.spec_num_inputs(),
    {
        self.num_inputs
    }

    pub fn get_num_unpadded_cons(&self) -> (r: usize)
        ensures
            r == self.spec_num_unpadded_cons(),
    {
        self.num_unpadded_cons
    }

    pub fn get_num_unpadded_vars(&self) -> (r: usize)
        ensures
            r == self.spec_num_unpadded_vars(),
    {
        self.num_unpadded_vars
    }

    /// The matrix `A`.
    pub fn get_A(&self) -> (m: &SparseMatPolynomial)
        ensures
            m.entries() == self.A_entries(),
            m.spec_num_vars_x() == log2_ceil(self.spec_num_cons()),
            m.spec_num_vars_y() == log2_ceil(2 * self.spec_num_vars()),
    {
        proof {
            use_type_invariant(self);
        }
        &self.A
    }

    /// The matrix `B`.
    pub fn get_B(&self) -> (m: &SparseMatPolynomial)
        ensures
            m.entries() == self.B_entries(),
            m.spec_num_vars_x() == log2_ceil(self.spec_num_cons()),
            m.spec_num_vars_y() == log2_ceil(2 * self.spec_num_vars()),
    {
        proof {
            use_type_invariant(self);
        }
        &self.B
    }

    /// Every instance has the dimensions that `wf` describes.
    pub fn check_wf(&self)
        ensures
            self.wf(),
    {
        proof {
            use_type_invariant(self);
        }
    }

    /// `z` padded with zeros to `num_vars` entries.
    fn pad(&self, z: Vec<Scalar>) -> (r: Vec<Scalar>)
        requires
            z.len() <= self.spec_num_vars(),
        ensures
            r.len() == self.spec_num_vars(),
            values(r@) == values(z@) + zeros((self.spec_num_vars() - z.len()) as nat),
    {
        let mut padded_z = z;
        let ghost orig = values(padded_z@);
        let n = self.num_vars - padded_z.len();
        let mut i: usize = 0;
        proof {
            assert(values(padded_z@) =~= orig + zeros(0));
        }
        while i < n
            invariant
                i <= n,
                n + orig.len() == self.spec_num_vars(),
                padded_z.len() == orig.len() + i,
                values(padded_z@) == orig + zeros(i as nat),
            decreases n - i,
        {
            let zero = Scalar::zero();
            proof {
                lemma_values_push(padded_z@, zero);
            }
            padded_z.push(zero);
            i = i + 1;
            proof {
                assert(values(padded_z@) =~= orig + zeros(i as nat));
            }
        }
        padded_z
    }

    /// `z ++ [1] ++ input`.
    fn extend_one_input(&self, z: Vec<Scalar>, input: &[Scalar]) -> (r: Vec<Scalar>)
        requires
            z.len() + 1 + input.len() <= usize::MAX,
        ensures
            r.len() == z.len() + 1 + input.len(),
            values(r@) == witness(values(z@), values(input@)),
    {
        let mut final_z = z;
        let ghost orig = values(final_z@);
        let one = Scalar::one();
        proof {
            lemma_values_push(final_z@, one);
        }
        final_z.push(one);
        let mut i: usize = 0;
        proof {
            assert(values(final_z@) =~= orig + seq![1nat] + values(input@).take(0));
        }
        while i < input.len()
            invariant
                i <= input@.len(),
                final_z.len() == orig.len() + 1 + i,
                orig.len() + 1 + input@.len() <= usize::MAX,
                values(final_z@) == orig + seq![1nat] + values(input@).take(i as int),
            decreases input@.len() - i,
        {
            proof {
                lemma_values_push(final_z@, input@[i as int]);
            }
            final_z.push(input[i]);
            i = i + 1;
            proof {
                assert(values(final_z@) =~= orig + seq![1nat] + values(input@).take(i as int));
            }
        }
        proof {
            assert(values(input@).take(input@.len() as int) =~= values(input@));
        }
        final_z
    }

    /// Whether `vars` and `input` satisfy every unpadded constraint.
    pub fn is_sat(&self, vars: &[Scalar], input: &[Scalar]) -> (r: bool)
        requires
            input@.len() == self.spec_num_inputs(),
            vars@.len() <= self.spec_num_vars(),
            entries_within(self.A_entries(), self.spec_num_cons(), self.spec_num_vars() + self.spec_num_inputs() + 1),
            entries_within(self.B_entries(), self.spec_num_cons(), self.spec_num_vars() + self.spec_num_inputs() + 1),
            self.check_stays_in_range(vars@, input@),
        ensures
            r == self.satisfied(vars@, input@),
    {
        proof {
            use_type_invariant(self);
        }
        let unpad_z = self.extend_one_input(copy_scalars(vars), input);
        let padded_z = self.pad(copy_scalars(vars));
        let z = self.extend_one_input(padded_z, input);
        let num_cols = self.num_vars + self.num_inputs + 1;
        let Az = self.A.multiply_vec(self.num_cons, num_cols, z.as_slice());
        let Bz = self.B.multiply_vec(self.num_cons, num_cols, z.as_slice());
        let ghost zv = self.spec_padded_witness(vars@, input@);
        proof {
            assert(values(z@) == zv);
        }
        let mut i: usize = 0;
        while i < self.num_unpadded_cons
            invariant
                i <= self.spec_num_unpadded_cons(),
                values(unpad_z@) == witness(values(vars@), values(input@)),
                values(Az@) == mat_vec(self.A_entries(), zv, self.spec_num_cons()),
                values(Bz@) == mat_vec(self.B_entries(), zv, self.spec_num_cons()),
                zv == self.spec_padded_witness(vars@, input@),
                unpad_z.len() == vars@.len() + 1 + input@.len(),
                Az.len() == self.spec_num_cons(),
                Bz.len() == self.spec_num_cons(),
                self.check_stays_in_range(vars@, input@),
                forall|j: int| 0 <= j < i ==> #[trigger] self.constraint_holds(vars@, input@, j),
            decreases self.num_unpadded_cons - i,
        {
            assert(self.holds_before(vars@, input@, i as int));
            assert(i < self.spec_num_cons() && i < vars@.len() + 1 + input@.len());
            let prod = Az[i].mul(&Bz[i]);
            let ok = prod.equals(&unpad_z[i]);
            proof {
                assert(values(Az@)[i as int] == Az@[i as int]@);
                assert(values(Bz@)[i as int] == Bz@[i as int]@);
                assert(values(unpad_z@)[i as int] == unpad_z@[i as int]@);
                assert(ok == self.constraint_holds(vars@, input@, i as int));
            }
            if !ok {
                return false;
            }
            i = i + 1;
        }
        true
    }

    /// The tables `A z`, `B z` and the projected witness `C z` that the
    /// first sum-check runs over, each with `num_rows` entries.
    pub fn multiply_vec(&self, num_rows: usize, num_cols: usize, z: &[Scalar]) -> (r: (
        DensePolynomial,
        DensePolynomial,
        DensePolynomial,
    ))
        requires
            num_rows == self.spec_num_cons(),
            z@.len() == num_cols,
            num_cols > self.spec_num_vars(),
            entries_within(self.A_entries(), num_rows as nat, num_cols as nat),
            entries_within(self.B_entries(), num_rows as nat, num_cols as nat),
            self.spec_num_unpadded_vars() <= self.spec_num_unpadded_cons(),
            projected_len(
                num_cols as nat,
                self.spec_num_vars(),
                self.spec_num_unpadded_vars(),
                self.spec_num_unpadded_cons(),
            ) <= num_rows,
        ensures
            r.0@ == mat_vec(self.A_entries(), values(z@), num_rows as nat),
            r.1@ == mat_vec(self.B_entries(), values(z@), num_rows as nat),
            r.2@ == project_witness(
                values(z@),
                self.spec_num_vars(),
                self.spec_num_unpadded_vars(),
                self.spec_num_unpadded_cons(),
                num_rows as nat,
            ),
            r.0.spec_num_vars() == log2_ceil(num_rows as nat),
            r.1.spec_num_vars() == log2_ceil(num_rows as nat),
            r.2.spec_num_vars() == log2_ceil(num_rows as nat),
    {
        proof {
            use_type_invariant(self);
        }
        let ghost zv = values(z@);
        let nuv = self.num_unpadded_vars;
        let nv = self.num_vars;
        let a = if nuv < num_cols { nuv } else { num_cols };
        let rest = num_cols - nv;
        let want = self.num_unpadded_cons - nuv;
        let b = if want < rest { want } else { rest };
        let mut z_new: Vec<Scalar> = Vec::new();
        let mut i: usize = 0;
        while i < a
            invariant
                i <= a,
                a <= z@.len(),
                zv == values(z@),
                values(z_new@) == zv.take(i as int),
            decreases a - i,
        {
            proof {
                lemma_values_push(z_new@, z@[i as int]);
            }
            z_new.push(z[i]);
            i = i + 1;
            proof {
                assert(values(z_new@) =~= zv.take(i as int));
            }
        }
        let mut j: usize = 0;
        proof {
            assert(values(z_new@) =~= zv.take(a as int) + zv.subrange(nv as int, nv as int));
        }
        while j < b
            invariant
                j <= b,
                nv + b <= z@.len(),
                z@.len() == num_cols,
                zv == values(z@),
                values(z_new@) == zv.take(a as int) + zv.subrange(nv as int, nv + j),
            decreases b - j,
        {
            proof {
                lemma_values_push(z_new@, z@[nv + j]);
            }
            z_new.push(z[nv + j]);
            j = j + 1;
            proof {
                assert(values(z_new@) =~= zv.take(a as int) + zv.subrange(nv as int, nv + j));
            }
        }
        let n_zeros = num_rows - (a + b);
        let ghost prefix = values(z_new@);
        let mut k: usize = 0;
        while k < n_zeros
            invariant
                k <= n_zeros,
                values(z_new@) == prefix + zeros(k as nat),
            decreases n_zeros - k,
        {
            let zero = Scalar::zero();
            proof {
                lemma_values_push(z_new@, zero);
            }
            z_new.push(zero);
            k = k + 1;
            proof {
                assert(values(z_new@) =~= prefix + zeros(k as nat));
            }
        }
        proof {
            lemma_pow2_log2(self.num_cons as nat);
        }
        let Az = self.A.multiply_vec(num_rows, num_cols, z);
        let Bz = self.B.multiply_vec(num_rows, num_cols, z);
        proof {
            assert(values(z_new@) =~= project_witness(
                zv,
                self.spec_num_vars(),
                self.spec_num_unpadded_vars(),
                self.spec_num_unpadded_cons(),
                num_rows as nat,
            ));
        }
        (DensePolynomial::new(Az), DensePolynomial::new(Bz), DensePolynomial::new(z_new))
    }

    /// The tables `evals^T A` and `evals^T B`, each with `num_cols` entries,
    /// that the second sum-check runs over.
    pub fn compute_eval_table_sparse(&self, num_rows: usize, num_cols: usize, evals: &[Scalar]) -> (r: (
        Vec<Scalar>,
        Vec<Scalar>,
    ))
        requires
            num_rows == self.spec_num_cons(),
            num_cols > self.spec_num_vars(),
            evals@.len() == num_rows,
            entries_within(self.A_entries(), num_rows as nat, num_cols as nat),
            entries_within(self.B_entries(), num_rows as nat, num_cols as nat),
        ensures
            r.0.len() == num_cols,
            r.1.len() == num_cols,
            values(r.0@) == vec_mat(self.A_entries(), values(evals@), num_cols as nat),
            values(r.1@) == vec_mat(self.B_entries(), values(evals@), num_cols as nat),
    {
        let evals_A = self.A.compute_eval_table_sparse(evals, num_rows, num_cols);
        let evals_B = self.B.compute_eval_table_sparse(evals, num_rows, num_cols);
        (evals_A, evals_B)
    }

    /// The values `A~(rx, ry)`, `B~(rx, ry)` and `C~(rx, ry)` of the
    /// multilinear extensions of the three matrices, the third being the
    /// implicit projection.
    pub fn evaluate(&self, rx: &[Scalar], ry: &[Scalar]) -> (r: (Scalar, Scalar, Scalar))
        requires
            self.spec_num_unpadded_vars() <= self.spec_num_vars(),
            rx@.len() == log2_ceil(self.spec_num_cons()),
            ry@.len() == log2_ceil(2 * self.spec_num_vars()),
            entries_within(self.A_entries(), self.spec_num_cons(), 2 * self.spec_num_vars()),
            entries_within(self.B_entries(), self.spec_num_cons(), 2 * self.spec_num_vars()),
            implicit_c_within(
                self.spec_num_vars(),
                self.spec_num_unpadded_vars(),
                self.spec_num_unpadded_cons(),
                self.spec_num_cons(),
                2 * self.spec_num_vars(),
            ),
        ensures
            r.0@ == bilinear(self.A_entries(), eq_table(values(rx@)), eq_table(values(ry@))),
            r.1@ == bilinear(self.B_entries(), eq_table(values(rx@)), eq_table(values(ry@))),
            r.2@ == implicit_c_eval(
                self.spec_num_vars(),
                self.spec_num_unpadded_vars(),
                self.spec_num_unpadded_cons(),
                eq_table(values(rx@)),
                eq_table(values(ry@)),
            ),
    {
        proof {
            use_type_invariant(self);
            lemma_pow2_log2(self.num_cons as nat);
            lemma_log2_double(self.num_vars as nat);
            lemma_pow2_log2(2 * self.num_vars as nat);
        }
        let sparse_C = implicit_c_polynomial(self.num_cons, self.num_vars, self.num_unpadded_cons, self.num_unpadded_vars);
        let ghost tx = eq_table(values(rx@));
        let ghost ty = eq_table(values(ry@));
        let polys = [&self.A, &self.B, &sparse_C];
        let evals = SparseMatPolynomial::multi_evaluate(&polys, rx, ry);
        proof {
            assert(polys@[2] == &sparse_C);
            lemma_implicit_c_bilinear(
                sparse_C.entries(),
                self.num_vars as nat,
                self.num_unpadded_vars as nat,
                implicit_c_rows(self.num_unpadded_vars as nat, self.num_unpadded_cons as nat),
                tx,
                ty,
            );
        }
        (evals[0], evals[1], evals[2])
    }

    /// The value `C~(rx, ry)` of the implicit matrix `C`, derived from the
    /// dimensions alone: what the verifier computes in place of a claimed
    /// evaluation of `C`.
    pub fn evaluate_implicit_c(
        num_cons: usize,
        num_vars: usize,
        num_unpadded_cons: usize,
        num_unpadded_vars: usize,
        rx: &[Scalar],
        ry: &[Scalar],
    ) -> (r: Scalar)
        requires
            is_pow2(num_cons as nat),
            is_pow2(num_vars as nat),
            2 * num_vars <= usize::MAX,
            num_unpadded_vars <= num_vars,
            implicit_c_within(
                num_vars as nat,
                num_unpadded_vars as nat,
                num_unpadded_cons as nat,
                num_cons as nat,
                2 * num_vars as nat,
            ),
            rx@.len() == log2_ceil(num_cons as nat),
            ry@.len() == log2_ceil(2 * num_vars as nat),
        ensures
            r@ == implicit_c_eval(
                num_vars as nat,
                num_unpadded_vars as nat,
                num_unpadded_cons as nat,
                eq_table(values(rx@)),
                eq_table(values(ry@)),
            ),
    {
        proof {
            lemma_pow2_log2(num_cons as nat);
            lemma_log2_double(num_vars as nat);
            lemma_pow2_log2(2 * num_vars as nat);
        }
        let sparse_C = implicit_c_polynomial(num_cons, num_vars, num_unpadded_cons, num_unpadded_vars);
        let polys = [&sparse_C];
        let evals = SparseMatPolynomial::multi_evaluate(&polys, rx, ry);
        proof {
            assert(polys@[0] == &sparse_C);
            lemma_implicit_c_bilinear(
                sparse_C.entries(),
                num_vars as nat,
                num_unpadded_vars as nat,
                implicit_c_rows(num_unpadded_vars as nat, num_unpadded_cons as nat),
                eq_table(values(rx@)),
                eq_table(values(ry@)),
            );
        }
        evals[0]
    }
}


/// The R1CS-Lite relation in matrix form. For `vars` holding exactly the
/// unpadded variables, `vars` and `input` satisfy the instance if and only
/// if `(A z)_i * (B z)_i == (C z)_i` for every unpadded constraint `i`,
/// where `z` is the padded witness and `C z` its projection: the products
/// of the first sum-check vanish against the projected witness exactly on
/// satisfying assignments.
pub proof fn lemma_satisfied_iff_hadamard(inst: R1CSLiteInstance, vars: Seq<Scalar>, input: Seq<Scalar>)
    requires
        vars.len() == inst.spec_num_unpadded_vars(),
        inst.spec_num_unpadded_vars() <= inst.spec_num_vars(),
        input.len() == inst.spec_num_inputs(),
        inst.spec_num_unpadded_vars() <= inst.spec_num_unpadded_cons(),
        inst.spec_num_unpadded_cons() <= inst.spec_num_cons(),
        inst.spec_num_unpadded_cons() <= vars.len() + 1 + input.len(),
    ensures
        inst.satisfied(vars, input) <==> (forall|i: int|
            0 <= i < inst.spec_num_unpadded_cons() ==> fmul(
                #[trigger] mat_vec(inst.A_entries(), inst.spec_padded_witness(vars, input), inst.spec_num_cons())[i],
                mat_vec(inst.B_entries(), inst.spec_padded_witness(vars, input), inst.spec_num_cons())[i],
            ) == project_witness(
                inst.spec_padded_witness(vars, input),
                inst.spec_num_vars(),
                inst.spec_num_unpadded_vars(),
                inst.spec_num_unpadded_cons(),
                inst.spec_num_cons(),
            )[i]),
{
    let nv = inst.spec_num_vars();
    let nuv = inst.spec_num_unpadded_vars();
    let nuc = inst.spec_num_unpadded_cons();
    let nc = inst.spec_num_cons();
    let z = inst.spec_padded_witness(vars, input);
    let w = witness(values(vars), values(input));
    let head = values(vars) + zeros((nv - nuv) as nat);
    assert(z == head + seq![1nat] + values(input));
    assert(head.len() == nv);
    assert(z.len() == nv + 1 + input.len());
    let p = project_witness(z, nv, nuv, nuc, nc);
    assert forall|i: int| 0 <= i < nuc implies p[i] == w[i] by {
        if i < nuv {
            assert(p[i] == z[i]);
            assert(z[i] == head[i]);
        } else {
            assert(p[i] == z[nv + (i - nuv)]);
            assert(z[nv + (i - nuv)] == (seq![1nat] + values(input))[i - nuv]);
            assert(w[i] == (seq![1nat] + values(input))[i - nuv]);
        }
    }
    assert forall|i: int| 0 <= i < nuc implies #[trigger] inst.constraint_holds(vars, input, i) <==> fmul(
        mat_vec(inst.A_entries(), z, nc)[i],
        mat_vec(inst.B_entries(), z, nc)[i],
    ) == p[i] by {
        assert(mat_vec(inst.A_entries(), z, nc)[i] == row_dot(inst.A_entries(), z, i));
        assert(mat_vec(inst.B_entries(), z, nc)[i] == row_dot(inst.B_entries(), z, i));
    }
    let hadamard = forall|i: int|
        0 <= i < nuc ==> fmul(#[trigger] mat_vec(inst.A_entries(), z, nc)[i], mat_vec(inst.B_entries(), z, nc)[i])
            == p[i];
    if inst.satisfied(vars, input) {
        assert forall|i: int| 0 <= i < nuc implies fmul(
            #[trigger] mat_vec(inst.A_entries(), z, nc)[i],
            mat_vec(inst.B_entries(), z, nc)[i],
        ) == p[i] by {
            assert(inst.constraint_holds(vars, input, i));
        }
    }
    if hadamard {
        assert forall|i: int| 0 <= i < nuc implies #[trigger] inst.constraint_holds(vars, input, i) by {
            assert(fmul(mat_vec(inst.A_entries(), z, nc)[i], mat_vec(inst.B_entries(), z, nc)[i]) == p[i]);
        }
    }
}

/// The entries of the projected witness: the first `a` entries of `z`, then
/// `b` entries from index `num_vars` on, then zeros, with `a` and `b` as in
/// `project_witness`.
pub proof fn lemma_project_witness_entry(z: Seq<nat>, num_vars: nat, num_unpadded_vars: nat, num_unpadded_cons: nat, n: nat, i: int)
    requires
        num_vars <= z.len(),
        num_unpadded_vars <= num_unpadded_cons,
        projected_len(z.len(), num_vars, num_unpadded_vars, num_unpadded_cons) <= n,
        0 <= i < n,
    ensures
        project_witness(z, num_vars, num_unpadded_vars, num_unpadded_cons, n).len() == n,
        project_witness(z, num_vars, num_unpadded_vars, num_unpadded_cons, n)[i] == ({
            let a = if num_unpadded_vars < z.len() { num_unpadded_vars } else { z.len() };
            let b = projected_len(z.len(), num_vars, num_unpadded_vars, num_unpadded_cons) - a;
            if i < a {
                z[i]
            } else if i < a + b {
                z[num_vars + i - a]
            } else {
                0
            }
        }),
{
}

/// `multiply_vec` is linear in the witness: on `z1 + z2` each of `A z`,
/// `B z` and the projection `C z` is the sum of its values on `z1` and on
/// `z2`, and on `s z1` each is `s` times its value on `z1`.
pub proof fn lemma_multiply_vec_linear(inst: R1CSLiteInstance, z1: Seq<nat>, z2: Seq<nat>, s: nat, num_rows: nat)
    requires
        z1.len() == z2.len(),
        z1.len() > inst.spec_num_vars(),
        entries_within(inst.A_entries(), num_rows, z1.len()),
        entries_within(inst.B_entries(), num_rows, z1.len()),
        inst.spec_num_unpadded_vars() <= inst.spec_num_unpadded_cons(),
        projected_len(
            z1.len(),
            inst.spec_num_vars(),
            inst.spec_num_unpadded_vars(),
            inst.spec_num_unpadded_cons(),
        ) <= num_rows,
    ensures
        mat_vec(inst.A_entries(), vec_add(z1, z2), num_rows) == vec_add(
            mat_vec(inst.A_entries(), z1, num_rows),
            mat_vec(inst.A_entries(), z2, num_rows),
        ),
        mat_vec(inst.B_entries(), vec_add(z1, z2), num_rows) == vec_add(
            mat_vec(inst.B_entries(), z1, num_rows),
            mat_vec(inst.B_entries(), z2, num_rows),
        ),
        project_witness(
            vec_add(z1, z2),
            inst.spec_num_vars(),
            inst.spec_num_unpadded_vars(),
            inst.spec_num_unpadded_cons(),
            num_rows,
        ) == vec_add(
            project_witness(
                z1,
                inst.spec_num_vars(),
                inst.spec_num_unpadded_vars(),
                inst.spec_num_unpadded_cons(),
                num_rows,
            ),
            project_witness(
                z2,
                inst.spec_num_vars(),
                inst.spec_num_unpadded_vars(),
                inst.spec_num_unpadded_cons(),
                num_rows,
            ),
        ),
        mat_vec(inst.A_entries(), vec_scale(s, z1), num_rows) == vec_scale(s, mat_vec(inst.A_entries(), z1, num_rows)),
        mat_vec(inst.B_entries(), vec_scale(s, z1), num_rows) == vec_scale(s, mat_vec(inst.B_entries(), z1, num_rows)),
        project_witness(
            vec_scale(s, z1),
            inst.spec_num_vars(),
            inst.spec_num_unpadded_vars(),
            inst.spec_num_unpadded_cons(),
            num_rows,
        ) == vec_scale(
            s,
            project_witness(
                z1,
                inst.spec_num_vars(),
                inst.spec_num_unpadded_vars(),
                inst.spec_num_unpadded_cons(),
                num_rows,
            ),
        ),
{
    let (nv, nuv, nuc) = (inst.spec_num_vars(), inst.spec_num_unpadded_vars(), inst.spec_num_unpadded_cons());
    let (A, B) = (inst.A_entries(), inst.B_entries());
    let zs = vec_add(z1, z2);
    let zc = vec_scale(s, z1);
    assert forall|k: int| 0 <= k < A.len() implies (#[trigger] A[k]).col < z1.len() by {}
    assert forall|k: int| 0 <= k < B.len() implies (#[trigger] B[k]).col < z1.len() by {}
    assert forall|r: int| 0 <= r < num_rows implies mat_vec(A, zs, num_rows)[r] == vec_add(
        mat_vec(A, z1, num_rows),
        mat_vec(A, z2, num_rows),
    )[r] && mat_vec(B, zs, num_rows)[r] == vec_add(mat_vec(B, z1, num_rows), mat_vec(B, z2, num_rows))[r]
        && mat_vec(A, zc, num_rows)[r] == vec_scale(s, mat_vec(A, z1, num_rows))[r] && mat_vec(B, zc, num_rows)[r]
        == vec_scale(s, mat_vec(B, z1, num_rows))[r] by {
        lemma_row_dot_add(A, z1, z2, r);
        lemma_row_dot_add(B, z1, z2, r);
        lemma_row_dot_scale(A, s, z1, r);
        lemma_row_dot_scale(B, s, z1, r);
    }
    assert(mat_vec(A, zs, num_rows) =~= vec_add(mat_vec(A, z1, num_rows), mat_vec(A, z2, num_rows)));
    assert(mat_vec(B, zs, num_rows) =~= vec_add(mat_vec(B, z1, num_rows), mat_vec(B, z2, num_rows)));
    assert(mat_vec(A, zc, num_rows) =~= vec_scale(s, mat_vec(A, z1, num_rows)));
    assert(mat_vec(B, zc, num_rows) =~= vec_scale(s, mat_vec(B, z1, num_rows)));
    let p1 = project_witness(z1, nv, nuv, nuc, num_rows);
    let p2 = project_witness(z2, nv, nuv, nuc, num_rows);
    let ps = project_witness(zs, nv, nuv, nuc, num_rows);
    let pc = project_witness(zc, nv, nuv, nuc, num_rows);
    assert forall|i: int| 0 <= i < num_rows implies ps[i] == vec_add(p1, p2)[i] && pc[i] == vec_scale(s, p1)[i] by {
        lemma_project_witness_entry(z1, nv, nuv, nuc, num_rows, i);
        lemma_project_witness_entry(z2, nv, nuv, nuc, num_rows, i);
        lemma_project_witness_entry(zs, nv, nuv, nuc, num_rows, i);
        lemma_project_witness_entry(zc, nv, nuv, nuc, num_rows, i);
        crate::scalar::lemma_fmul_zero(s);
    }
    if num_rows > 0 {
        lemma_project_witness_entry(z1, nv, nuv, nuc, num_rows, 0);
        lemma_project_witness_entry(z2, nv, nuv, nuc, num_rows, 0);
        lemma_project_witness_entry(zs, nv, nuv, nuc, num_rows, 0);
        lemma_project_witness_entry(zc, nv, nuv, nuc, num_rows, 0);
    }
    assert(ps =~= vec_add(p1, p2));
    assert(pc =~= vec_scale(s, p1));
}

/// The table the first sum-check runs over, less its factor `eq(tau, .)`:
/// entry `i` is `(A z)_i * (B z)_i - (C z)_i` for the padded witness `z`.
pub open spec fn phase_one_table(inst: R1CSLiteInstance, vars: Seq<Scalar>, input: Seq<Scalar>) -> Seq<nat> {
    let z = inst.spec_padded_witness(vars, input);
    let nc = inst.spec_num_cons();
    Seq::new(
        nc,
        |i: int|
            fsub(
                fmul(mat_vec(inst.A_entries(), z, nc)[i], mat_vec(inst.B_entries(), z, nc)[i]),
                project_witness(
                    z,
                    inst.spec_num_vars(),
                    inst.spec_num_unpadded_vars(),
                    inst.spec_num_unpadded_cons(),
                    nc,
                )[i],
            ),
    )
}

/// The first sum-check's claim vanishes on satisfying assignments: where
/// `vars` and `input` satisfy an instance whose matrices hold no entry in
/// the padding rows, `sum_x eq(tau, x) ((A z)_x (B z)_x - (C z)_x)` is 0 for
/// every `tau`.
pub proof fn lemma_phase_one_claim_zero(
    inst: R1CSLiteInstance,
    vars: Seq<Scalar>,
    input: Seq<Scalar>,
    tau: Seq<nat>,
)
    requires
        vars.len() == inst.spec_num_unpadded_vars(),
        inst.spec_num_unpadded_vars() <= inst.spec_num_vars(),
        input.len() == inst.spec_num_inputs(),
        inst.spec_num_unpadded_vars() <= inst.spec_num_unpadded_cons(),
        inst.spec_num_unpadded_cons() <= inst.spec_num_cons(),
        inst.spec_num_unpadded_cons() <= vars.len() + 1 + input.len(),
        forall|k: int| 0 <= k < inst.A_entries().len() ==> (#[trigger] inst.A_entries()[k]).row < inst.spec_num_unpadded_cons(),
        forall|k: int| 0 <= k < inst.B_entries().len() ==> (#[trigger] inst.B_entries()[k]).row < inst.spec_num_unpadded_cons(),
        inst.satisfied(vars, input),
    ensures
        dot(eq_table(tau), phase_one_table(inst, vars, input), inst.spec_num_cons()) == 0,
{
    let z = inst.spec_padded_witness(vars, input);
    let nc = inst.spec_num_cons();
    let nuc = inst.spec_num_unpadded_cons();
    let d = phase_one_table(inst, vars, input);
    let p = project_witness(z, inst.spec_num_vars(), inst.spec_num_unpadded_vars(), nuc, nc);
    lemma_satisfied_iff_hadamard(inst, vars, input);
    assert forall|i: int| 0 <= i < nc implies eq_table(tau)[i] == 0 || d[i] == 0 by {
        let az = mat_vec(inst.A_entries(), z, nc)[i];
        let bz = mat_vec(inst.B_entries(), z, nc)[i];
        assert(d[i] == fsub(fmul(az, bz), p[i]));
        if i < nuc {
            assert(fmul(az, bz) == p[i]);
            assert(fsub(p[i], p[i]) == 0);
        } else {
            assert forall|k: int| 0 <= k < inst.A_entries().len() implies (#[trigger] inst.A_entries()[k]).row != i by {}
            lemma_row_dot_absent(inst.A_entries(), z, i);
            assert(az == 0);
            assert(p[i] == 0);
            crate::scalar::lemma_fmul_zero(bz);
            assert(fsub(0, 0) == 0);
        }
    }
    lemma_dot_zeros(eq_table(tau), d, nc);
}

/// Row `i` of the synthetic instance over the assignment `z` can be met:
/// with `a = z[i mod |z|]` and `b = z[(i + 2) mod |z|]`, if `a * b` is zero
/// then so is `a`.
pub open spec fn synthetic_row_ok(z: Seq<nat>, i: int) -> bool {
    let a = z[i % (z.len() as int)];
    let b = z[(i + 2) % (z.len() as int)];
    fmul(a, b) == 0 ==> a == 0
}

/// Every one of the first `num_cons` rows of the synthetic instance over `z`
/// can be met.
pub open spec fn synthetic_nondegenerate(z: Seq<nat>, num_cons: nat) -> bool {
    forall|i: int| 0 <= i < num_cons ==> #[trigger] synthetic_row_ok(z, i)
}

/// The matrices of the synthetic instance over the assignment `z`: row `i`
/// of `A` holds a 1 in column `i mod |z|`; row `i` of `B` holds, in column
/// `(i + 2) mod |z|`, the value `v` with `v * a * b == a` (for
/// `a = z[i mod |z|]`, `b = z[(i + 2) mod |z|]`), or 1 where `a * b` is zero.
pub open spec fn is_synthetic_matrices(A: Seq<SparseMatEntry>, B: Seq<SparseMatEntry>, z: Seq<nat>, num_cons: nat) -> bool {
    let s = z.len() as int;
    &&& A.len() == num_cons
    &&& B.len() == num_cons
    &&& forall|i: int|
        0 <= i < num_cons ==> {
            let a = z[i % s];
            let b = z[(i + 2) % s];
            &&& (#[trigger] A[i]).row == i
            &&& A[i].col == i % s
            &&& A[i].val@ == 1
            &&& B[i].row == i
            &&& B[i].col == (i + 2) % s
            &&& (fmul(a, b) == 0 ==> B[i].val@ == 1)
            &&& (fmul(a, b) != 0 ==> fmul(B[i].val@, fmul(a, b)) == a)
        }
}

/// Every row of the synthetic instance with these dimensions multiplies by
/// the constant 1 (its second operand `Z[(i + 2) mod |Z|]` is the constant
/// entry `Z[num_vars]`), so that every assignment meets every row.
pub open spec fn synthetic_rows_hit_constant(num_cons: nat, num_vars: nat, num_inputs: nat) -> bool {
    forall|i: int| 0 <= i < num_cons ==> #[trigger] synthetic_partner(i, num_vars + num_inputs + 1) == num_vars
}

/// The column of the second operand of row `i` of a synthetic instance over
/// an assignment of length `size_z`.
pub open spec fn synthetic_partner(i: int, size_z: nat) -> int {
    (i + 2) % (size_z as int)
}

impl R1CSLiteInstance {
    /// The synthetic instance with `num_cons` constraints over the assignment
    /// `Z = (vars, 1, inputs)`, with `num_vars` variables and `num_inputs`
    /// inputs: constraint `i` multiplies `Z[i mod |Z|]` by a multiple of
    /// `Z[(i + 2) mod |Z|]` chosen so that the product is `Z[i]`, wherever
    /// that can be done.
    pub fn synthetic_r1cs_lite_from_assignment(num_cons: usize, num_vars: usize, num_inputs: usize, Z: &[Scalar]) -> (inst: R1CSLiteInstance)
        requires
            is_pow2(num_cons as nat),
            is_pow2(num_vars as nat),
            num_inputs < num_vars,
            2 * num_vars <= usize::MAX,
            Z@.len() == num_vars + num_inputs + 1,
            num_cons <= Z@.len(),
            Z@[num_vars as int]@ == 1,
        ensures
            inst.wf(),
            inst.spec_num_cons() == num_cons,
            inst.spec_num_vars() == num_vars,
            inst.spec_num_inputs() == num_inputs,
            inst.spec_num_unpadded_cons() == num_cons,
            inst.spec_num_unpadded_vars() == num_vars,
            is_synthetic_matrices(inst.A_entries(), inst.B_entries(), values(Z@), num_cons as nat),
            inst.satisfied(
                Z@.subrange(0, num_vars as int),
                Z@.subrange(num_vars + 1, Z@.len() as int),
            ) <==> synthetic_nondegenerate(values(Z@), num_cons as nat),
    {
        let size_z = num_vars + num_inputs + 1;
        let ghost zv = values(Z@);
        let mut A: Vec<(usize, usize, Scalar)> = Vec::new();
        let mut B: Vec<(usize, usize, Scalar)> = Vec::new();
        let one = Scalar::one();
        let mut i: usize = 0;
        while i < num_cons
            invariant
                i <= num_cons,
                num_cons <= size_z,
                size_z == Z@.len(),
                size_z <= 2 * num_vars,
                2 * num_vars <= usize::MAX,
                zv == values(Z@),
                one@ == 1,
                is_synthetic_matrices(entries_of(A@), entries_of(B@), zv, i as nat),
            decreases num_cons - i,
        {
            let A_idx = i % size_z;
            let B_idx = (i + 2) % size_z;
            let z_idx = i % size_z;
            let ghost oldA = entries_of(A@);
            let ghost oldB = entries_of(B@);
            A.push((i, A_idx, one));
            let A_val = Z[A_idx];
            let B_val = Z[B_idx];
            let z_val = Z[z_idx];
            let prod = A_val.mul(&B_val);
            let zero = Scalar::zero();
            let b_entry = if prod.equals(&zero) {
                one
            } else {
                let inv = prod.invert();
                let v = z_val.mul(&inv);
                proof {
                    lemma_value_bound(z_val);
                    lemma_mul_inverse_scaled(z_val@, prod@, inv@, v@);
                }
                v
            };
            B.push((i, B_idx, b_entry));
            proof {
                assert(entries_of(A@) =~= oldA.push(SparseMatEntry { row: i, col: A_idx, val: one }));
                assert(entries_of(B@) =~= oldB.push(SparseMatEntry { row: i, col: B_idx, val: b_entry }));
                assert(zv[A_idx as int] == A_val@);
                assert(zv[B_idx as int] == B_val@);
                let ni = (i + 1) as nat;
                assert forall|k: int| 0 <= k < ni implies {
                    let s = zv.len() as int;
                    let a = zv[k % s];
                    let b = zv[(k + 2) % s];
                    &&& (#[trigger] entries_of(A@)[k]).row == k
                    &&& entries_of(A@)[k].col == k % s
                    &&& entries_of(A@)[k].val@ == 1
                    &&& entries_of(B@)[k].row == k
                    &&& entries_of(B@)[k].col == (k + 2) % s
                    &&& (fmul(a, b) == 0 ==> entries_of(B@)[k].val@ == 1)
                    &&& (fmul(a, b) != 0 ==> fmul(entries_of(B@)[k].val@, fmul(a, b)) == a)
                } by {
                    if k < i {
                        assert(entries_of(A@)[k] == oldA[k]);
                        assert(entries_of(B@)[k] == oldB[k]);
                    }
                }
            }
            i = i + 1;
        }
        let inst = R1CSLiteInstance::new(num_cons, num_vars, num_inputs, A.as_slice(), B.as_slice(), num_cons, num_vars);
        proof {
            lemma_synthetic_satisfied(inst, Z@, num_cons as nat);
        }
        inst
    }

    /// The synthetic instance over the assignment `Z = (vars, 1, inputs)`,
    /// with `vars` and `inputs`, where the assignment satisfies it (every row
    /// can be met), and `None` where it does not.
    pub fn synthetic_r1cs_lite_checked(num_cons: usize, num_vars: usize, num_inputs: usize, Z: &[Scalar]) -> (r: Option<
        (R1CSLiteInstance, Vec<Scalar>, Vec<Scalar>),
    >)
        requires
            is_pow2(num_cons as nat),
            is_pow2(num_vars as nat),
            num_inputs < num_vars,
            2 * num_vars <= usize::MAX,
            Z@.len() == num_vars + num_inputs + 1,
            num_cons <= Z@.len(),
            Z@[num_vars as int]@ == 1,
        ensures
            r is Some <==> synthetic_nondegenerate(values(Z@), num_cons as nat),
            match r {
                Some((inst, vars, inputs)) => {
                    &&& inst.wf()
                    &&& inst.spec_num_cons() == num_cons
                    &&& inst.spec_num_vars() == num_vars
                    &&& inst.spec_num_inputs() == num_inputs
                    &&& inst.spec_num_unpadded_cons() == num_cons
                    &&& inst.spec_num_unpadded_vars() == num_vars
                    &&& vars@ == Z@.subrange(0, num_vars as int)
                    &&& inputs@ == Z@.subrange(num_vars + 1, Z@.len() as int)
                    &&& inst.satisfied(vars@, inputs@)
                    &&& is_synthetic_matrices(inst.A_entries(), inst.B_entries(), values(Z@), num_cons as nat)
                },
                None => true,
            },
    {
        let size_z = num_vars + num_inputs + 1;
        let inst = R1CSLiteInstance::synthetic_r1cs_lite_from_assignment(num_cons, num_vars, num_inputs, Z);
        let vars = copy_range(Z, 0, num_vars);
        let inputs = copy_range(Z, num_vars + 1, size_z);
        proof {
            lemma_synthetic_entries_within(inst, values(Z@), num_cons as nat);
            assert forall|k: int|
                0 <= k < inst.spec_num_unpadded_cons() && #[trigger] inst.holds_before(vars@, inputs@, k) implies k
                < inst.spec_num_cons() && k < vars@.len() + 1 + inputs@.len() by {}
        }
        if inst.is_sat(vars.as_slice(), inputs.as_slice()) {
            Some((inst, vars, inputs))
        } else {
            None
        }
    }

    /// A synthetic instance with `num_cons` constraints, `num_vars`
    /// variables and `num_inputs` inputs, with a random assignment
    /// `(vars, inputs)` that satisfies it: the instance that
    /// `synthetic_r1cs_lite_checked` builds over a random `Z` with
    /// `Z[num_vars] = 1`. `None` where the random assignment happens to make
    /// some constraint unsatisfiable (a zero product with a nonzero target),
    /// which has negligible probability and cannot happen where every row
    /// multiplies by the constant 1. So `None` comes only where some
    /// assignment of these dimensions (the drawn one) is degenerate: where
    /// every assignment meets every row, the result is `Some`.
    pub fn produce_synthetic_r1cs_lite(num_cons: usize, num_vars: usize, num_inputs: usize) -> (r: Option<
        (R1CSLiteInstance, Vec<Scalar>, Vec<Scalar>),
    >)
        requires
            is_pow2(num_cons as nat),
            is_pow2(num_vars as nat),
            num_inputs < num_vars,
            2 * num_vars <= usize::MAX,
            num_cons <= num_vars + num_inputs + 1,
        ensures
            match r {
                Some((inst, vars, inputs)) => {
                    &&& inst.wf()
                    &&& inst.spec_num_cons() == num_cons
                    &&& inst.spec_num_vars() == num_vars
                    &&& inst.spec_num_inputs() == num_inputs
                    &&& inst.spec_num_unpadded_cons() == num_cons
                    &&& inst.spec_num_unpadded_vars() == num_vars
                    &&& vars.len() == num_vars
                    &&& inputs.len() == num_inputs
                    &&& inst.satisfied(vars@, inputs@)
                    &&& is_synthetic_matrices(
                        inst.A_entries(),
                        inst.B_entries(),
                        witness(values(vars@), values(inputs@)),
                        num_cons as nat,
                    )
                },
                None => {
                    &&& !synthetic_rows_hit_constant(num_cons as nat, num_vars as nat, num_inputs as nat)
                    &&& exists|Z: Seq<Scalar>|
                        Z.len() == num_vars + num_inputs + 1 && Z[num_vars as int]@ == 1 && !(#[trigger] synthetic_nondegenerate(
                            values(Z),
                            num_cons as nat,
                        ))
                },
            },
    {
        let size_z = num_vars + num_inputs + 1;
        let mut Z: Vec<Scalar> = Vec::new();
        let mut i: usize = 0;
        while i < size_z
            invariant
                i <= size_z,
                Z.len() == i,
            decreases size_z - i,
        {
            Z.push(Scalar::random());
            i = i + 1;
        }
        Z.set(num_vars, Scalar::one());
        proof {
            if synthetic_rows_hit_constant(num_cons as nat, num_vars as nat, num_inputs as nat) {
                let zv = values(Z@);
                let sz = zv.len() as int;
                assert(zv[num_vars as int] == 1);
                assert forall|i: int| 0 <= i < num_cons implies #[trigger] synthetic_row_ok(zv, i) by {
                    assert(sz == (num_vars + num_inputs + 1) as int);
                    assert(synthetic_partner(i, num_vars as nat + num_inputs as nat + 1) == num_vars);
                    let a = zv[i % sz];
                    vstd::arithmetic::div_mod::lemma_mod_bound(i, sz);
                    lemma_value_bound(Z@[i % sz]);
                    vstd::arithmetic::div_mod::lemma_small_mod(a, group_order());
                    assert(fmul(a, 1) == a);
                }
                assert(synthetic_nondegenerate(zv, num_cons as nat));
            }
        }
        let r = R1CSLiteInstance::synthetic_r1cs_lite_checked(num_cons, num_vars, num_inputs, Z.as_slice());
        proof {
            if let Some(t) = &r {
                assert(witness(values(t.1@), values(t.2@)) =~= values(Z@));
            } else {
                assert(!synthetic_nondegenerate(values(Z@), num_cons as nat));
                assert(Z@[num_vars as int]@ == 1);
            }
        }
        r
    }
}

/// `z * inv` times `p` is `z`, for `inv` the inverse of a nonzero `p`.
proof fn lemma_mul_inverse_scaled(z: nat, p: nat, inv: nat, v: nat)
    requires
        z < group_order(),
        fmul(inv, p) == 1,
        v == fmul(z, inv),
    ensures
        fmul(v, p) == z,
{
    let L = group_order() as int;
    let (zi, ii, pi) = (z as int, inv as int, p as int);
    vstd::arithmetic::div_mod::lemma_mul_mod_noop_left(zi * ii, pi, L);
    assert(zi * ii * pi == zi * (ii * pi)) by (nonlinear_arith);
    vstd::arithmetic::div_mod::lemma_mul_mod_noop_right(zi, ii * pi, L);
    vstd::arithmetic::div_mod::lemma_small_mod(z, group_order());
}


proof fn lemma_synthetic_entries_within(inst: R1CSLiteInstance, z: Seq<nat>, num_cons: nat)
    requires
        is_synthetic_matrices(inst.A_entries(), inst.B_entries(), z, num_cons),
        z.len() > 0,
    ensures
        entries_within(inst.A_entries(), num_cons, z.len()),
        entries_within(inst.B_entries(), num_cons, z.len()),
{
    let s = z.len() as int;
    assert forall|k: int| 0 <= k < inst.A_entries().len() implies (#[trigger] inst.A_entries()[k]).row
        < num_cons && inst.A_entries()[k].col < z.len() by {
        vstd::arithmetic::div_mod::lemma_mod_bound(k, s);
    }
    assert forall|k: int| 0 <= k < inst.B_entries().len() implies (#[trigger] inst.B_entries()[k]).row
        < num_cons && inst.B_entries()[k].col < z.len() by {
        assert(inst.A_entries()[k].row == k);
        vstd::arithmetic::div_mod::lemma_mod_bound(k + 2, s);
    }
}

proof fn lemma_synthetic_satisfied(inst: R1CSLiteInstance, Z: Seq<Scalar>, num_cons: nat)
    requires
        is_synthetic_matrices(inst.A_entries(), inst.B_entries(), values(Z), num_cons),
        inst.spec_num_unpadded_cons() == num_cons,
        num_cons <= Z.len(),
        inst.spec_num_vars() < Z.len(),
        Z[inst.spec_num_vars() as int]@ == 1,
    ensures
        inst.satisfied(
            Z.subrange(0, inst.spec_num_vars() as int),
            Z.subrange((inst.spec_num_vars() + 1) as int, Z.len() as int),
        ) <==> synthetic_nondegenerate(values(Z), num_cons),
{
    let nv = inst.spec_num_vars() as int;
    let vars = Z.subrange(0, nv);
    let inputs = Z.subrange(nv + 1, Z.len() as int);
    let zv = values(Z);
    let s = Z.len() as int;
    assert(inst.spec_padded_witness(vars, inputs) =~= zv);
    assert(witness(values(vars), values(inputs)) =~= zv);
    assert forall|i: int| 0 <= i < num_cons implies #[trigger] inst.constraint_holds(vars, inputs, i)
        <==> synthetic_row_ok(zv, i) by {
        let A = inst.A_entries();
        let B = inst.B_entries();
        assert(A[i].row == i);
        assert forall|k: int| 0 <= k < A.len() implies (#[trigger] A[k]).row == k by {}
        assert forall|k: int| 0 <= k < B.len() implies (#[trigger] B[k]).row == k by {
            assert(A[k].row == k);
        }
        let a = zv[i % s];
        let b = zv[(i + 2) % s];
        vstd::arithmetic::div_mod::lemma_small_mod(i as nat, s as nat);
        assert(i % s == i);
        lemma_value_bound(Z[i]);
        lemma_value_bound(Z[(i + 2) % s]);
        vstd::arithmetic::div_mod::lemma_mod_bound(i + 2, s);
        lemma_row_dot_diagonal(A, zv, i);
        lemma_row_dot_diagonal(B, zv, i);
        let v = B[i].val@;
        vstd::arithmetic::div_mod::lemma_small_mod(a, group_order());
        vstd::arithmetic::div_mod::lemma_small_mod(b, group_order());
        assert(row_dot(A, zv, i) == a);
        assert(row_dot(B, zv, i) == fmul(v, b));
        lemma_fmul_rotate(a, v, b);
    }
    if inst.satisfied(vars, inputs) {
        assert forall|i: int| 0 <= i < num_cons implies #[trigger] synthetic_row_ok(zv, i) by {
            assert(inst.constraint_holds(vars, inputs, i));
        }
    }
    if synthetic_nondegenerate(zv, num_cons) {
        assert forall|i: int| 0 <= i < inst.spec_num_unpadded_cons() implies #[trigger] inst.constraint_holds(
            vars,
            inputs,
            i,
        ) by {
            assert(synthetic_row_ok(zv, i));
        }
    }
}

/// The implicit matrix `C` as a sparse polynomial with `log2(num_cons)` row
/// and `log2(2 num_vars)` column variables.
fn implicit_c_polynomial(num_cons: usize, num_vars: usize, num_unpadded_cons: usize, num_unpadded_vars: usize) -> (p: SparseMatPolynomial)
    requires
        is_pow2(num_cons as nat),
        is_pow2(num_vars as nat),
        2 * num_vars <= usize::MAX,
        num_unpadded_vars <= num_vars,
        implicit_c_within(
            num_vars as nat,
            num_unpadded_vars as nat,
            num_unpadded_cons as nat,
            num_cons as nat,
            2 * num_vars as nat,
        ),
    ensures
        is_implicit_c(
            p.entries(),
            num_vars as nat,
            num_unpadded_vars as nat,
            implicit_c_rows(num_unpadded_vars as nat, num_unpadded_cons as nat),
        ),
        entries_within(p.entries(), num_cons as nat, 2 * num_vars as nat),
        p.spec_num_vars_x() == log2_ceil(num_cons as nat),
        p.spec_num_vars_y() == log2_ceil(2 * num_vars as nat),
{
    proof {
        assert forall|i: nat|
            i < implicit_c_rows(num_unpadded_vars as nat, num_unpadded_cons as nat) implies i
            < usize::MAX as nat && #[trigger] implicit_c_col(num_vars as nat, num_unpadded_vars as nat, i)
            < usize::MAX as nat by {
            assert(implicit_c_col(num_vars as nat, num_unpadded_vars as nat, i) < 2 * num_vars);
            assert(i < num_cons);
        }
    }
    let c_entries = implicit_c_entries(num_vars, num_unpadded_vars, num_unpadded_cons);
    proof {
        lemma_implicit_c_entries_within(
            c_entries@,
            num_vars as nat,
            num_unpadded_vars as nat,
            num_unpadded_cons as nat,
            num_cons as nat,
            2 * num_vars as nat,
        );
    }
    SparseMatPolynomial::new(log_2(num_cons), log_2(2 * num_vars), c_entries)
}

/// The entries of a matrix given as triples.
fn to_entries(t: &[(usize, usize, Scalar)]) -> (r: Vec<SparseMatEntry>)
    ensures
        r@ == entries_of(t@),
{
    let mut r: Vec<SparseMatEntry> = Vec::new();
    let mut i: usize = 0;
    while i < t.len()
        invariant
            i <= t@.len(),
            r@ == entries_of(t@.take(i as int)),
        decreases t@.len() - i,
    {
        let (row, col, val) = t[i];
        r.push(SparseMatEntry::new(row, col, val));
        i = i + 1;
        proof {
            assert(r@ =~= entries_of(t@.take(i as int)));
        }
    }
    proof {
        assert(t@.take(t@.len() as int) =~= t@);
    }
    r
}

/// The entries of the implicit matrix `C`, each with value 1.
pub open spec fn is_implicit_c(es: Seq<SparseMatEntry>, num_vars: nat, num_unpadded_vars: nat, k: nat) -> bool {
    &&& es.len() == k
    &&& forall|i: int|
        0 <= i < k ==> (#[trigger] es[i]).row == i && es[i].col == implicit_c_col(
            num_vars,
            num_unpadded_vars,
            i as nat,
        ) && es[i].val@ == 1
}

/// The entries of the implicit matrix `C`: `(i, i)` for the first
/// `num_unpadded_vars` rows, `(i, i + num_vars - num_unpadded_vars)` for the
/// rows up to `num_unpadded_cons`.
fn implicit_c_entries(num_vars: usize, num_unpadded_vars: usize, num_unpadded_cons: usize) -> (r: Vec<SparseMatEntry>)
    requires
        num_unpadded_vars <= num_vars,
        implicit_c_within(
            num_vars as nat,
            num_unpadded_vars as nat,
            num_unpadded_cons as nat,
            usize::MAX as nat,
            usize::MAX as nat,
        ),
    ensures
        is_implicit_c(
            r@,
            num_vars as nat,
            num_unpadded_vars as nat,
            implicit_c_rows(num_unpadded_vars as nat, num_unpadded_cons as nat),
        ),
{
    let mut C: Vec<SparseMatEntry> = Vec::new();
    let mut i: usize = 0;
    while i < num_unpadded_vars
        invariant
            i <= num_unpadded_vars,
            is_implicit_c(C@, num_vars as nat, num_unpadded_vars as nat, i as nat),
        decreases num_unpadded_vars - i,
    {
        C.push(SparseMatEntry::new(i, i, Scalar::one()));
        i = i + 1;
    }
    let gap = num_vars - num_unpadded_vars;
    while i < num_unpadded_cons
        invariant
            num_unpadded_vars <= i,
            i <= implicit_c_rows(num_unpadded_vars as nat, num_unpadded_cons as nat),
            gap == num_vars - num_unpadded_vars,
            num_unpadded_vars <= num_vars,
            implicit_c_within(
                num_vars as nat,
                num_unpadded_vars as nat,
                num_unpadded_cons as nat,
                usize::MAX as nat,
                usize::MAX as nat,
            ),
            is_implicit_c(C@, num_vars as nat, num_unpadded_vars as nat, i as nat),
        decreases num_unpadded_cons - i,
    {
        assert(implicit_c_col(num_vars as nat, num_unpadded_vars as nat, i as nat) < usize::MAX);
        C.push(SparseMatEntry::new(i, i + gap, Scalar::one()));
        i = i + 1;
    }
    C
}

proof fn lemma_implicit_c_entries_within(es: Seq<SparseMatEntry>, num_vars: nat, num_unpadded_vars: nat, num_unpadded_cons: nat, rows: nat, cols: nat)
    requires
        is_implicit_c(es, num_vars, num_unpadded_vars, implicit_c_rows(num_unpadded_vars, num_unpadded_cons)),
        implicit_c_within(num_vars, num_unpadded_vars, num_unpadded_cons, rows, cols),
    ensures
        entries_within(es, rows, cols),
{
    assert forall|k: int| 0 <= k < es.len() implies (#[trigger] es[k]).row < rows && es[k].col < cols by {
        let i = k as nat;
        assert(es.len() == implicit_c_rows(num_unpadded_vars, num_unpadded_cons));
        assert(i < implicit_c_rows(num_unpadded_vars, num_unpadded_cons));
        assert(implicit_c_col(num_vars, num_unpadded_vars, i) < cols);
        assert(i < rows);
    }
}

proof fn lemma_implicit_c_bilinear(es: Seq<SparseMatEntry>, num_vars: nat, num_unpadded_vars: nat, k: nat, tx: Seq<nat>, ty: Seq<nat>)
    requires
        is_implicit_c(es, num_vars, num_unpadded_vars, k),
    ensures
        bilinear(es, tx, ty) == implicit_c_sum(num_vars, num_unpadded_vars, k, tx, ty),
    decreases k,
{
    if k > 0 {
        let prefix = es.drop_last();
        assert(is_implicit_c(prefix, num_vars, num_unpadded_vars, (k - 1) as nat)) by {
            assert forall|i: int| 0 <= i < k - 1 implies (#[trigger] prefix[i]).row == i && prefix[i].col
                == implicit_c_col(num_vars, num_unpadded_vars, i as nat) && prefix[i].val@ == 1 by {
                assert(prefix[i] == es[i]);
            }
        }
        lemma_implicit_c_bilinear(prefix, num_vars, num_unpadded_vars, (k - 1) as nat, tx, ty);
        assert(es.last() == es[k - 1]);
    }
}

} // verus!
