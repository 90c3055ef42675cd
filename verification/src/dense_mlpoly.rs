//! Dense multilinear polynomials (tables of evaluations over the Boolean
//! hypercube) and the table of the equality polynomial `eq(r, .)`.
use crate::math::{log2_ceil, log_2, pow2, lemma_pow2_grows};
use crate::scalar::{
    fadd, fmul, fsub, group_order, lemma_fadd_assoc, lemma_fmul_assoc, lemma_fmul_comm, lemma_fmul_distrib, values,
    Scalar,
};
use vstd::prelude::*;

verus! {

/// One step of building the equality table: each entry `t` of the table so
/// far splits into `t - t*c` (next bit 0) and `t*c` (next bit 1).
pub open spec fn eq_extend(t: Seq<nat>, c: nat) -> Seq<nat> {
    Seq::new(
        2 * t.len(),
        |i: int|
            if i % 2 == 1 {
                fmul(t[i / 2], c)
            } else {
                fsub(t[i / 2], fmul(t[i / 2], c))
            },
    )
}

/// The evaluations of `eq(r, x)` at every point `x` of the Boolean hypercube
/// `{0,1}^|r|`, where the first coordinate of `r` goes with the most
/// significant bit of the index: built one coordinate at a time.
pub open spec fn eq_table(r: Seq<nat>) -> Seq<nat>
    decreases r.len(),
{
    if r.len() == 0 {
        seq![1nat]
    } else {
        eq_extend(eq_table(r.drop_last()), r.last())
    }
}

/// Every entry of the equality table is a residue modulo `L`.
pub proof fn lemma_eq_table_bound(r: Seq<nat>)
    ensures
        forall|i: int| 0 <= i < eq_table(r).len() ==> #[trigger] eq_table(r)[i] < group_order(),
{
    if r.len() > 0 {
        let t = eq_table(r.drop_last());
        let c = r.last();
        assert forall|i: int| 0 <= i < eq_table(r).len() implies #[trigger] eq_table(r)[i] < group_order() by {
            if i % 2 == 0 {
                vstd::arithmetic::div_mod::lemma_mod_bound(t[i / 2] as int - fmul(t[i / 2], c) as int, group_order() as int);
            }
        }
    }
}

/// `eq(r, x)` for the point `x` of `{0,1}^|r|` with index `i`: the product of
/// `r_j` where bit `j` of `x` is set and `1 - r_j` where it is clear.
pub open spec fn eq_point(r: Seq<nat>, i: nat) -> nat
    decreases r.len(),
{
    if r.len() == 0 {
        1
    } else {
        let c = r.last();
        let rest = eq_point(r.drop_last(), i / 2);
        if i % 2 == 1 {
            fmul(rest, c)
        } else {
            fmul(rest, fsub(1, c))
        }
    }
}

/// The equality table has `2^|r|` entries.
pub proof fn lemma_eq_table_len(r: Seq<nat>)
    ensures
        eq_table(r).len() == pow2(r.len()),
    decreases r.len(),
{
    if r.len() > 0 {
        lemma_eq_table_len(r.drop_last());
    }
}

/// Every entry of the equality table is the product formula `eq(r, x)`.
pub proof fn lemma_eq_table_entry(r: Seq<nat>, i: nat)
    requires
        i < pow2(r.len()),
    ensures
        eq_table(r)[i as int] == eq_point(r, i),
    decreases r.len(),
{
    lemma_eq_table_len(r);
    if r.len() > 0 {
        let L = group_order();
        let rest = r.drop_last();
        let c = r.last();
        lemma_eq_table_len(rest);
        assert(i / 2 < pow2(rest.len()));
        lemma_eq_table_entry(rest, i / 2);
        let t = eq_table(rest)[(i / 2) as int];
        if i % 2 == 0 {
            // t - t*c == t * (1 - c) (mod L)
            let tc = fmul(t, c);
            assert(fsub(t, tc) == fmul(t, fsub(1, c))) by {
                lemma_fsub_mul(t, c);
            }
        }
    }
}

/// `t - (t*c mod L) == t * (1 - c)` modulo `L`, for a residue `t`.
pub proof fn lemma_fsub_mul(t: nat, c: nat)
    requires
        t < group_order(),
    ensures
        fsub(t, fmul(t, c)) == fmul(t, fsub(1, c)),
{
    let L = group_order() as int;
    let ti = t as int;
    let ci = c as int;
    vstd::arithmetic::div_mod::lemma_sub_mod_noop_right(ti, ti * ci, L);
    vstd::arithmetic::div_mod::lemma_mul_mod_noop_right(ti, 1 - ci, L);
    assert(ti * (1 - ci) == ti - ti * ci) by (nonlinear_arith);
    vstd::arithmetic::div_mod::lemma_mod_bound(ti * (1 - ci), L);
    vstd::arithmetic::div_mod::lemma_mod_bound(1 - ci, L);
}

/// The inner product `sum_{i < n} x_i y_i` modulo `L`.
pub open spec fn dot(x: Seq<nat>, y: Seq<nat>, n: nat) -> nat
    decreases n,
{
    if n == 0 {
        0
    } else {
        fadd(dot(x, y, (n - 1) as nat), fmul(x[n - 1], y[n - 1]))
    }
}

/// The inner product over `n` entries reads only the first `n` entries.
pub proof fn lemma_dot_ext(x: Seq<nat>, x2: Seq<nat>, y: Seq<nat>, y2: Seq<nat>, n: nat)
    requires
        forall|i: int| 0 <= i < n ==> x[i] == x2[i] && y[i] == y2[i],
    ensures
        dot(x, y, n) == dot(x2, y2, n),
    decreases n,
{
    if n > 0 {
        lemma_dot_ext(x, x2, y, y2, (n - 1) as nat);
    }
}

/// The inner product with a vector of zeros is zero.
pub proof fn lemma_dot_zeros(x: Seq<nat>, y: Seq<nat>, n: nat)
    requires
        forall|i: int| 0 <= i < n ==> x[i] == 0 || y[i] == 0,
    ensures
        dot(x, y, n) == 0,
    decreases n,
{
    if n > 0 {
        lemma_dot_zeros(x, y, (n - 1) as nat);
    }
}

/// Adding `d` to entry `c` of the left vector adds `d * y_c`.
pub proof fn lemma_dot_update_left(x: Seq<nat>, x2: Seq<nat>, y: Seq<nat>, n: nat, c: nat, d: nat)
    requires
        c < n,
        x2[c as int] == fadd(x[c as int], d),
        forall|i: int| 0 <= i < n && i != c ==> x2[i] == x[i],
    ensures
        dot(x2, y, n) == fadd(dot(x, y, n), fmul(d, y[c as int])),
    decreases n,
{
    let m = (n - 1) as nat;
    if m == c {
        lemma_dot_ext(x2, x, y, y, m);
        lemma_fmul_distrib(x[c as int], d, y[c as int]);
        lemma_fadd_assoc(dot(x, y, m), fmul(x[c as int], y[c as int]), fmul(d, y[c as int]));
    } else {
        lemma_dot_update_left(x, x2, y, m, c, d);
        let D = dot(x, y, m);
        let Q = fmul(d, y[c as int]);
        let T = fmul(x[m as int], y[m as int]);
        lemma_fadd_assoc(D, Q, T);
        lemma_fadd_assoc(D, T, Q);
    }
}

/// Adding `d` to entry `c` of the right vector adds `x_c * d`.
pub proof fn lemma_dot_update_right(x: Seq<nat>, y: Seq<nat>, y2: Seq<nat>, n: nat, c: nat, d: nat)
    requires
        c < n,
        y2[c as int] == fadd(y[c as int], d),
        forall|i: int| 0 <= i < n && i != c ==> y2[i] == y[i],
    ensures
        dot(x, y2, n) == fadd(dot(x, y, n), fmul(x[c as int], d)),
    decreases n,
{
    let m = (n - 1) as nat;
    if m == c {
        lemma_dot_ext(x, x, y2, y, m);
        lemma_fmul_distrib(y[c as int], d, x[c as int]);
        lemma_fadd_assoc(dot(x, y, m), fmul(x[c as int], y[c as int]), fmul(x[c as int], d));
    } else {
        lemma_dot_update_right(x, y, y2, m, c, d);
        let D = dot(x, y, m);
        let Q = fmul(x[c as int], d);
        let T = fmul(x[m as int], y[m as int]);
        lemma_fadd_assoc(D, Q, T);
        lemma_fadd_assoc(D, T, Q);
    }
}

/// `eq(r, x)` factors through the first coordinate `c` of `r`: for the point
/// with index `i` of `{0,1}^|r|`, it is `eq(r', i mod 2^|r'|)` times `1 - c`
/// in the lower half of the indices and times `c` in the upper half, where
/// `r'` is `r` without its first coordinate.
pub proof fn lemma_eq_point_first(r: Seq<nat>, i: nat)
    requires
        r.len() >= 1,
        i < 2 * pow2((r.len() - 1) as nat),
    ensures
        eq_point(r, i) == fmul(
            eq_point(r.drop_first(), i % pow2((r.len() - 1) as nat)),
            if i < pow2((r.len() - 1) as nat) { fsub(1, r[0]) } else { r[0] },
        ),
    decreases r.len(),
{
    let k = (r.len() - 1) as nat;
    let n = pow2(k);
    let c0 = r[0];
    let h = if i < n { fsub(1, c0) } else { c0 };
    if k == 0 {
        assert(n == 1);
        assert(i % n == 0);
        assert(r.drop_last().len() == 0);
        assert(r.drop_first().len() == 0);
        assert(r.last() == c0);
        assert(eq_point(r.drop_last(), i / 2) == 1);
        assert(eq_point(r.drop_first(), 0) == 1);
    } else {
        let n2 = pow2((k - 1) as nat);
        assert(n == 2 * n2);
        let rl = r.drop_last();
        let rp = r.drop_first();
        assert(rl.drop_first() =~= rp.drop_last());
        assert(rl[0] == c0);
        assert(rp.last() == r.last());
        let i2 = i / 2;
        lemma_eq_point_first(rl, i2);
        let j = i % n;
        // j / 2 == (i / 2) mod n2 and j % 2 == i % 2
        if i < n {
            vstd::arithmetic::div_mod::lemma_small_mod(i, n);
            vstd::arithmetic::div_mod::lemma_small_mod(i2, n2);
        } else {
            vstd::arithmetic::div_mod::lemma_fundamental_div_mod_converse_mod(i as int, n as int, 1, i - n);
            vstd::arithmetic::div_mod::lemma_fundamental_div_mod_converse_mod(i2 as int, n2 as int, 1, i2 - n2);
        }
        assert(j / 2 == i2 % n2);
        assert(j % 2 == i % 2);
        assert((i2 < n2) == (i < n));
        let e0 = eq_point(rp.drop_last(), i2 % n2);
        let g = if i % 2 == 1 { r.last() } else { fsub(1, r.last()) };
        assert(eq_point(rl, i2) == fmul(e0, h));
        assert(eq_point(r, i) == fmul(fmul(e0, h), g));
        assert(eq_point(rp, j) == fmul(e0, g));
        lemma_fmul_assoc(e0, h, g);
        lemma_fmul_assoc(e0, g, h);
        lemma_fmul_comm(h, g);
    }
}

/// Every inner product is a residue modulo `L`.
pub proof fn lemma_dot_bound(x: Seq<nat>, y: Seq<nat>, n: nat)
    ensures
        dot(x, y, n) < group_order(),
{
}

/// The inner product over `a + b` entries is the one over the first `a`
/// plus the one over the next `b`.
pub proof fn lemma_dot_split(x: Seq<nat>, y: Seq<nat>, a: nat, b: nat)
    requires
        a + b <= x.len(),
        a + b <= y.len(),
    ensures
        dot(x, y, a + b) == fadd(dot(x, y, a), dot(x.skip(a as int), y.skip(a as int), b)),
    decreases b,
{
    if b == 0 {
        lemma_dot_bound(x, y, a);
        vstd::arithmetic::div_mod::lemma_small_mod(dot(x, y, a), group_order());
    } else {
        let m = (b - 1) as nat;
        lemma_dot_split(x, y, a, m);
        let (xs, ys) = (x.skip(a as int), y.skip(a as int));
        let am = (a + m) as int;
        assert(xs[m as int] == x[am]);
        assert(ys[m as int] == y[am]);
        assert((a + b - 1) as nat == a + m);
        lemma_fadd_assoc(dot(x, y, a), dot(xs, ys, m), fmul(x[am], y[am]));
    }
}

/// Scaling one side of an inner product scales the product.
pub proof fn lemma_dot_scale(x: Seq<nat>, y: Seq<nat>, y2: Seq<nat>, s: nat, n: nat)
    requires
        forall|i: int| 0 <= i < n ==> y2[i] == fmul(y[i], s),
    ensures
        dot(x, y2, n) == fmul(dot(x, y, n), s),
    decreases n,
{
    if n == 0 {
        crate::scalar::lemma_fmul_zero(s);
    } else {
        let i = n - 1;
        lemma_dot_scale(x, y, y2, s, (n - 1) as nat);
        crate::scalar::lemma_fmul_assoc(x[i], y[i], s);
        lemma_fmul_distrib(dot(x, y, (n - 1) as nat), fmul(x[i], y[i]), s);
    }
}

/// Entries of the left vector that are zero add nothing.
pub proof fn lemma_dot_zero_tail(x: Seq<nat>, y: Seq<nat>, a: nat, b: nat)
    requires
        a <= b,
        forall|i: int| a <= i < b ==> x[i] == 0,
    ensures
        dot(x, y, b) == dot(x, y, a),
    decreases b,
{
    if b > a {
        lemma_dot_zero_tail(x, y, a, (b - 1) as nat);
        crate::scalar::lemma_fmul_zero(y[b - 1]);
        lemma_dot_bound(x, y, (b - 1) as nat);
        vstd::arithmetic::div_mod::lemma_small_mod(dot(x, y, (b - 1) as nat), group_order());
    }
}

/// The Boolean point `{0,1}^k` with index `j`, most significant bit first.
pub open spec fn bits(j: nat, k: nat) -> Seq<nat>
    decreases k,
{
    if k == 0 {
        Seq::empty()
    } else {
        bits(j / 2, (k - 1) as nat).push(j % 2)
    }
}

/// At the Boolean point with index `j`, the table of `eq(bits(j), .)` is the
/// indicator of `j`.
pub proof fn lemma_eq_table_bits(j: nat, k: nat)
    requires
        j < pow2(k),
    ensures
        eq_table(bits(j, k)).len() == pow2(k),
        forall|i: int| 0 <= i < pow2(k) ==> #[trigger] eq_table(bits(j, k))[i] == (if i == j { 1nat } else { 0nat }),
    decreases k,
{
    let b = bits(j, k);
    assert(b.len() == k) by {
        lemma_bits_len(j, k);
    }
    lemma_eq_table_len(b);
    if k == 0 {
        assert(eq_table(b) == seq![1nat]);
    } else {
        let j2 = j / 2;
        let c = j % 2;
        assert(b.drop_last() =~= bits(j2, (k - 1) as nat));
        assert(b.last() == c);
        lemma_eq_table_bits(j2, (k - 1) as nat);
        let t = eq_table(bits(j2, (k - 1) as nat));
        assert forall|i: int| 0 <= i < pow2(k) implies #[trigger] eq_table(b)[i] == (if i == j { 1nat } else { 0nat }) by {
            assert(eq_table(b)[i] == eq_extend(t, c)[i]);
            assert(0 <= i / 2 < pow2((k - 1) as nat));
            let ti = t[i / 2];
            if i / 2 == j2 {
                assert(ti == 1);
                vstd::arithmetic::div_mod::lemma_small_mod(c, group_order());
                assert(fmul(1, c) == c);
            } else {
                assert(ti == 0);
                assert(fmul(0, c) == 0);
            }
        }
    }
}

proof fn lemma_bits_len(j: nat, k: nat)
    ensures
        bits(j, k).len() == k,
    decreases k,
{
    if k > 0 {
        lemma_bits_len(j / 2, (k - 1) as nat);
    }
}

/// The inner product with the indicator of `j` picks entry `j`.
pub proof fn lemma_dot_indicator(x: Seq<nat>, e: Seq<nat>, n: nat, j: nat)
    requires
        j < n,
        x[j as int] < group_order(),
        forall|i: int| 0 <= i < n ==> #[trigger] e[i] == (if i == j { 1nat } else { 0nat }),
    ensures
        dot(x, e, n) == x[j as int],
    decreases n,
{
    let m = (n - 1) as nat;
    if m == j {
        assert forall|i: int| 0 <= i < m implies x[i] == 0 || e[i] == 0 by {
            assert(e[i] == 0);
        }
        lemma_dot_zeros(x, e, m);
        vstd::arithmetic::div_mod::lemma_small_mod(x[j as int], group_order());
        assert(e[j as int] == 1);
    } else {
        lemma_dot_indicator(x, e, m, j);
        assert(e[m as int] == 0);
        crate::scalar::lemma_fmul_zero(x[m as int]);
        vstd::arithmetic::div_mod::lemma_small_mod(x[j as int], group_order());
    }
}

/// The inner product is symmetric.
pub proof fn lemma_dot_comm(x: Seq<nat>, y: Seq<nat>, n: nat)
    ensures
        dot(x, y, n) == dot(y, x, n),
    decreases n,
{
    if n > 0 {
        lemma_dot_comm(x, y, (n - 1) as nat);
        lemma_fmul_comm(x[n - 1], y[n - 1]);
    }
}

/// The entrywise sum `a + b` modulo `L`, over the length of `a`.
pub open spec fn vec_add(a: Seq<nat>, b: Seq<nat>) -> Seq<nat> {
    Seq::new(a.len(), |i: int| fadd(a[i], b[i]))
}

/// The vector `a` scaled by `s` modulo `L`.
pub open spec fn vec_scale(s: nat, a: Seq<nat>) -> Seq<nat> {
    Seq::new(a.len(), |i: int| fmul(s, a[i]))
}

/// A dense multilinear polynomial, given by its evaluations on the Boolean
/// hypercube.
pub struct DensePolynomial {
    num_vars: usize,
    Z: Vec<Scalar>,
}

impl View for DensePolynomial {
    type V = Seq<nat>;

    /// The values of the evaluation table.
    closed spec fn view(&self) -> Seq<nat> {
        values(self.Z@)
    }
}

impl DensePolynomial {
    /// The number of variables: `log2_ceil` of the table's length.
    pub closed spec fn spec_num_vars(&self) -> nat {
        self.num_vars as nat
    }

    /// The polynomial with evaluation table `Z`.
    pub fn new(Z: Vec<Scalar>) -> (p: DensePolynomial)
        requires
            Z.len() > 0,
        ensures
            p@ == values(Z@),
            p.spec_num_vars() == log2_ceil(Z.len() as nat),
    {
        let num_vars = log_2(Z.len());
        DensePolynomial { num_vars, Z }
    }

    /// The number of variables.
    pub fn get_num_vars(&self) -> (r: usize)
        ensures
            r == self.spec_num_vars(),
    {
        self.num_vars
    }

    /// The number of entries of the evaluation table.
    pub fn len(&self) -> (r: usize)
        ensures
            r == self@.len(),
    {
        self.Z.len()
    }

    /// The entry at index `i` of the evaluation table.
    pub fn get(&self, i: usize) -> (r: Scalar)
        requires
            i < self@.len(),
        ensures
            r@ == self@[i as int],
    {
        self.Z[i]
    }

    /// The value of the polynomial at the point `r`: the evaluation table
    /// taken against the table of `eq(r, .)`.
    pub fn evaluate(&self, r: &[Scalar]) -> (v: Scalar)
        requires
            pow2(r@.len()) == self@.len(),
        ensures
            v@ == dot(self@, eq_table(values(r@)), self@.len()),
    {
        let n = self.Z.len();
        let r_vec = crate::scalar::copy_scalars(r);
        proof {
            assert(self@.len() == n);
            assert(values(r_vec@).len() == r@.len());
        }
        let chis = EqPolynomial::new(r_vec).evals();
        let ghost t = eq_table(values(r@));
        proof {
            assert(values(r@).len() == r@.len());
        }
        let mut acc = Scalar::zero();
        let mut i: usize = 0;
        while i < self.Z.len()
            invariant
                i <= self.Z@.len(),
                chis@.len() == self.Z@.len(),
                values(chis@) == t,
                acc@ == dot(values(self.Z@), t, i as nat),
            decreases self.Z@.len() - i,
        {
            let term = self.Z[i].mul(&chis[i]);
            acc = acc.add(&term);
            i = i + 1;
        }
        acc
    }

    /// The evaluation table.
    pub fn to_vec(&self) -> (r: Vec<Scalar>)
        ensures
            values(r@) == self@,
    {
        self.Z.clone()
    }
}

/// The multilinear extension of equality, `eq(r, x)`, at a fixed point `r`.
pub struct EqPolynomial {
    r: Vec<Scalar>,
}

impl EqPolynomial {
    /// The point `r`.
    pub closed spec fn point(&self) -> Seq<nat> {
        values(self.r@)
    }

    /// The equality polynomial at the point `r`.
    pub fn new(r: Vec<Scalar>) -> (p: EqPolynomial)
        ensures
            p.point() == values(r@),
    {
        EqPolynomial { r }
    }

    /// The evaluations of `eq(r, x)` at all `2^|r|` points `x` of the
    /// Boolean hypercube.
    pub fn evals(&self) -> (t: Vec<Scalar>)
        requires
            pow2(self.point().len()) <= usize::MAX,
        ensures
            values(t@) == eq_table(self.point()),
            t.len() == pow2(self.point().len()),
    {
        let ell = self.r.len();
        let ghost r = self.point();
        let mut evals: Vec<Scalar> = Vec::new();
        evals.push(Scalar::one());
        let mut j: usize = 0;
        proof {
            assert(r.take(0) =~= Seq::<nat>::empty());
            assert(values(evals@) =~= eq_table(r.take(0)));
        }
        while j < ell
            invariant
                j <= ell,
                ell == self.r.len(),
                r == self.point(),
                r.len() == ell,
                pow2(ell as nat) <= usize::MAX,
                values(evals@) == eq_table(r.take(j as int)),
                evals.len() == pow2(j as nat),
            decreases ell - j,
        {
            let c = self.r[j];
            let mut next: Vec<Scalar> = Vec::new();
            let n = evals.len();
            let ghost prev = values(evals@);
            proof {
                assert(r.take(j + 1).drop_last() =~= r.take(j as int));
                assert(r.take(j + 1).last() == r[j as int]);
                assert(c@ == r[j as int]);
                lemma_pow2_grows(j as nat, ell as nat);
            }
            let mut i: usize = 0;
            while i < n
                invariant
                    i <= n,
                    n == evals.len(),
                    prev == values(evals@),
                    2 * n <= usize::MAX,
                    next.len() == 2 * i,
                    forall|k: int|
                        0 <= k < 2 * i ==> values(next@)[k] == (if k % 2 == 1 {
                            fmul(prev[k / 2], c@)
                        } else {
                            fsub(prev[k / 2], fmul(prev[k / 2], c@))
                        }),
                decreases n - i,
            {
                let s = evals[i];
                let hi = s.mul(&c);
                let lo = s.sub(&hi);
                let ghost old_next = values(next@);
                next.push(lo);
                next.push(hi);
                proof {
                    assert(prev[i as int] == s@);
                    assert forall|k: int| 0 <= k < 2 * (i + 1) implies values(next@)[k] == (if k
                        % 2 == 1 {
                        fmul(prev[k / 2], c@)
                    } else {
                        fsub(prev[k / 2], fmul(prev[k / 2], c@))
                    }) by {
                        if k < 2 * i {
                            assert(values(next@)[k] == old_next[k]);
                        } else if k == 2 * i {
                            assert(k / 2 == i as int);
                            assert(values(next@)[k] == lo@);
                        } else {
                            assert(k / 2 == i as int);
                            assert(values(next@)[k] == hi@);
                        }
                    }
                }
                i = i + 1;
            }
            proof {
                assert(values(next@) =~= eq_table(r.take(j + 1)));
            }
            evals = next;
            j = j + 1;
        }
        proof {
            assert(r.take(ell as int) =~= r);
        }
        evals
    }
}

} // verus!
