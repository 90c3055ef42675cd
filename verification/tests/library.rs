#![allow(non_snake_case)]
use viking::dense_mlpoly::{DensePolynomial, EqPolynomial};
use viking::errors::ProofVerifyError;
use viking::math::{is_power_of_two, log_2};
use viking::r1csliteinstance::{R1CSLiteCommitmentGens, R1CSLiteInstance};
use viking::r1csliteproof::{
    R1CSLiteGens, bound_eq_eval, check_verifier_dimensions, claim_post_phase1, combine_claims, combine_tables, eval_z_at_ry,
    implicit_c_eval_table, input_poly_eval, protocol_name, prover_joint_eval_table, prover_witness,
};
use viking::scalar::{copy_range, copy_scalars, Scalar};
use viking::sparse_mlpoly::{SparseMatEntry, SparseMatPolynomial, SparsePolyEntry, SparsePolynomial};

fn s(x: u64) -> Scalar {
    Scalar::from_u64(x)
}

fn neg(x: u64) -> Scalar {
    Scalar::zero().sub(&s(x))
}

fn eq_scalar(a: &Scalar, b: &Scalar) -> bool {
    a.equals(b)
}

fn dot(a: &[Scalar], b: &[Scalar]) -> Scalar {
    assert_eq!(a.len(), b.len());
    let mut acc = Scalar::zero();
    for i in 0..a.len() {
        acc = acc.add(&a[i].mul(&b[i]));
    }
    acc
}

// ---------------------------------------------------------------- scalars

#[test]
fn scalar_arithmetic_small_values() {
    assert!(eq_scalar(&s(6).mul(&s(7)), &s(42)));
    assert!(eq_scalar(&s(40).add(&s(2)), &s(42)));
    assert!(eq_scalar(&s(50).sub(&s(8)), &s(42)));
    assert!(!eq_scalar(&s(41), &s(42)));
}

#[test]
fn scalar_zero_and_one() {
    assert!(eq_scalar(&Scalar::zero(), &s(0)));
    assert!(eq_scalar(&Scalar::one(), &s(1)));
    let mut one_bytes = [0u8; 32];
    one_bytes[0] = 1;
    assert_eq!(Scalar::one().to_bytes(), one_bytes);
    assert_eq!(Scalar::zero().to_bytes(), [0u8; 32]);
}

#[test]
fn scalar_subtraction_wraps_modulo_the_group_order() {
    // 0 - 1 is L - 1, and adding 1 back gives 0
    let minus_one = Scalar::zero().sub(&Scalar::one());
    assert!(eq_scalar(&minus_one.add(&Scalar::one()), &Scalar::zero()));
    // L - 1 = 2^252 + 27742317777372353535851937790883648492
    let bytes = minus_one.to_bytes();
    assert_eq!(bytes[0], 0xec);
    assert_eq!(bytes[31], 0x10);
}

#[test]
fn scalar_from_bytes_reduces_modulo_the_group_order() {
    // the little-endian encoding of L
    let l: [u8; 32] = [
        0xed, 0xd3, 0xf5, 0x5c, 0x1a, 0x63, 0x12, 0x58, 0xd6, 0x9c, 0xf7, 0xa2, 0xde, 0xf9, 0xde, 0x14, 0, 0, 0,
        0, 0, 0, 0, 0, 0, 0, 0, 0, 0, 0, 0, 0x10,
    ];
    assert!(eq_scalar(&Scalar::from_bytes_mod_order(l), &Scalar::zero()));
    let mut l_plus_5 = l;
    l_plus_5[0] += 5;
    assert!(eq_scalar(&Scalar::from_bytes_mod_order(l_plus_5), &s(5)));
    let mut wide = [0u8; 64];
    wide[..32].copy_from_slice(&l);
    wide[0] += 7;
    assert!(eq_scalar(&Scalar::from_bytes_mod_order_wide(&wide), &s(7)));
}

#[test]
fn scalar_inverse() {
    let x = s(5);
    let inv = x.invert();
    assert!(eq_scalar(&inv.mul(&x), &Scalar::one()));
    assert!(!eq_scalar(&inv, &s(5)));
}

#[test]
fn scalar_random_values_differ() {
    let a = Scalar::random();
    let b = Scalar::random();
    assert!(!eq_scalar(&a, &b));
}

#[test]
fn copy_helpers() {
    let v = vec![s(1), s(2), s(3), s(4)];
    let c = copy_range(&v, 1, 3);
    assert_eq!(c.len(), 2);
    assert!(eq_scalar(&c[0], &s(2)) && eq_scalar(&c[1], &s(3)));
    let all = copy_scalars(&v);
    assert_eq!(all.len(), 4);
    assert!(eq_scalar(&all[3], &s(4)));
}

// ---------------------------------------------------------------- math

#[test]
fn log_2_rounds_up() {
    assert_eq!(log_2(1), 0);
    assert_eq!(log_2(2), 1);
    assert_eq!(log_2(3), 2);
    assert_eq!(log_2(5), 3);
    assert_eq!(log_2(8), 3);
    assert_eq!(log_2(1024), 10);
    assert_eq!(log_2(1025), 11);
}

#[test]
fn power_of_two() {
    assert!(!is_power_of_two(0));
    assert!(is_power_of_two(1));
    assert!(is_power_of_two(2));
    assert!(!is_power_of_two(6));
    assert!(is_power_of_two(1024));
    assert!(!is_power_of_two(1023));
}

// ---------------------------------------------------------------- dense polynomials

#[test]
fn eq_table_of_two_coordinates() {
    // r = (2, 3): entries (1-2)(1-3), (1-2)3, 2(1-3), 2*3
    let t = EqPolynomial::new(vec![s(2), s(3)]).evals();
    assert_eq!(t.len(), 4);
    assert!(eq_scalar(&t[0], &s(2)));
    assert!(eq_scalar(&t[1], &neg(3)));
    assert!(eq_scalar(&t[2], &neg(4)));
    assert!(eq_scalar(&t[3], &s(6)));
}

#[test]
fn eq_table_at_a_boolean_point_is_an_indicator() {
    // r = (1, 0, 1) selects the index 0b101
    let t = EqPolynomial::new(vec![s(1), s(0), s(1)]).evals();
    assert_eq!(t.len(), 8);
    for (i, e) in t.iter().enumerate() {
        if i == 5 {
            assert!(eq_scalar(e, &Scalar::one()));
        } else {
            assert!(eq_scalar(e, &Scalar::zero()));
        }
    }
}

#[test]
fn eq_table_of_no_coordinates() {
    let t = EqPolynomial::new(vec![]).evals();
    assert_eq!(t.len(), 1);
    assert!(eq_scalar(&t[0], &Scalar::one()));
}

#[test]
fn bound_eq_eval_matches_the_tables() {
    let tau = vec![s(3), s(10), s(7)];
    let rx = vec![s(5), s(2), s(11)];
    let t_tau = EqPolynomial::new(tau.clone()).evals();
    let t_rx = EqPolynomial::new(rx.clone()).evals();
    let v = bound_eq_eval(&rx, &tau);
    assert!(eq_scalar(&dot(&t_tau, &t_rx), &v));
    // the single factor 5*3 + (1-5)(1-3) = 23 for one coordinate
    assert!(eq_scalar(&bound_eq_eval(&[s(5)], &[s(3)]), &s(23)));
}

#[test]
fn dense_polynomial_accessors() {
    let p = DensePolynomial::new(vec![s(1), s(2), s(3), s(4), s(5)]);
    assert_eq!(p.get_num_vars(), 3);
    assert_eq!(p.len(), 5);
    assert!(eq_scalar(&p.get(2), &s(3)));
    let v = p.to_vec();
    assert_eq!(v.len(), 5);
    assert!(eq_scalar(&v[4], &s(5)));
}

// ---------------------------------------------------------------- sparse polynomials

fn small_matrix() -> SparseMatPolynomial {
    // [[2, 0, 1, 0],
    //  [0, 3, 0, 0]]
    SparseMatPolynomial::new(
        1,
        2,
        vec![
            SparseMatEntry::new(0, 0, s(2)),
            SparseMatEntry::new(1, 1, s(3)),
            SparseMatEntry::new(0, 2, s(1)),
        ],
    )
}

#[test]
fn sparse_matrix_times_vector() {
    let m = small_matrix();
    assert_eq!(m.get_num_nz_entries(), 3);
    let z = vec![s(5), s(7), s(11), s(13)];
    let mz = m.multiply_vec(2, 4, &z);
    assert_eq!(mz.len(), 2);
    assert!(eq_scalar(&mz[0], &s(21)));
    assert!(eq_scalar(&mz[1], &s(21)));
    // extra rows are zero
    let mz4 = m.multiply_vec(4, 4, &z);
    assert!(eq_scalar(&mz4[3], &Scalar::zero()));
}

#[test]
fn vector_times_sparse_matrix() {
    let m = small_matrix();
    let t = vec![s(10), s(100)];
    let tm = m.compute_eval_table_sparse(&t, 2, 4);
    assert_eq!(tm.len(), 4);
    assert!(eq_scalar(&tm[0], &s(20)));
    assert!(eq_scalar(&tm[1], &s(300)));
    assert!(eq_scalar(&tm[2], &s(10)));
    assert!(eq_scalar(&tm[3], &Scalar::zero()));
}

#[test]
fn transposition_on_concrete_values() {
    let m = small_matrix();
    let t = vec![s(10), s(100)];
    let z = vec![s(5), s(7), s(11), s(13)];
    let tm = m.compute_eval_table_sparse(&t, 2, 4);
    let mz = m.multiply_vec(2, 4, &z);
    assert!(eq_scalar(&dot(&tm, &z), &dot(&t, &mz)));
}

#[test]
fn sparse_matrix_evaluation() {
    let m = small_matrix();
    let tx = vec![s(10), s(100)];
    let ty = vec![s(1), s(2), s(3), s(4)];
    let v = m.evaluate_with_tables(&tx, &ty);
    // 10*1*2 + 100*2*3 + 10*3*1
    assert!(eq_scalar(&v, &s(650)));
    let rx = vec![s(4)];
    let ry = vec![s(6), s(9)];
    let evals = SparseMatPolynomial::multi_evaluate(&[&m, &m], &rx, &ry);
    assert_eq!(evals.len(), 2);
    let ex = EqPolynomial::new(rx).evals();
    let ey = EqPolynomial::new(ry).evals();
    let direct = m.evaluate_with_tables(&ex, &ey);
    assert!(eq_scalar(&evals[0], &direct));
    assert!(eq_scalar(&evals[1], &direct));
}

#[test]
fn sparse_vector_evaluation() {
    let entries = vec![SparsePolyEntry::new(0, s(1)), SparsePolyEntry::new(3, s(5))];
    let p = SparsePolynomial::new(2, entries);
    let r = vec![s(2), s(3)];
    let t = EqPolynomial::new(r.clone()).evals();
    let expected = t[0].add(&t[3].mul(&s(5)));
    assert!(eq_scalar(&p.evaluate(&r), &expected));
}

// ---------------------------------------------------------------- instances

/// Constraints over `z = (x0, x1, 0, 0, 1, in0, ...)` with two unpadded
/// variables: `in0 * 1 = x0`, `x0 * x0 = x1`, `1 * 1 = 1`.
fn square_instance() -> R1CSLiteInstance {
    let one = Scalar::one();
    let A = vec![(0, 5, one), (1, 0, one), (2, 4, one)];
    let B = vec![(0, 4, one), (1, 0, one), (2, 4, one)];
    R1CSLiteInstance::new(4, 4, 1, &A, &B, 3, 2)
}

#[test]
fn square_instance_satisfaction() {
    let inst = square_instance();
    assert!(inst.is_sat(&[s(6), s(36)], &[s(6)]));
    assert!(!inst.is_sat(&[s(6), s(35)], &[s(6)]));
    assert!(!inst.is_sat(&[s(5), s(25)], &[s(6)]));
}

#[test]
fn multiply_vec_projects_the_witness() {
    let inst = square_instance();
    // padded witness (6, 36, 0, 0, 1, 6, 0, 0)
    let z = vec![s(6), s(36), s(0), s(0), s(1), s(6), s(0), s(0)];
    let (az, bz, cz) = inst.multiply_vec(4, 8, &z);
    assert_eq!(az.len(), 4);
    assert!(eq_scalar(&az.get(0), &s(6)));
    assert!(eq_scalar(&az.get(1), &s(6)));
    assert!(eq_scalar(&az.get(2), &s(1)));
    assert!(eq_scalar(&az.get(3), &s(0)));
    assert!(eq_scalar(&bz.get(0), &s(1)));
    assert!(eq_scalar(&bz.get(1), &s(6)));
    // C z = (x0, x1, 1, 0): the unpadded variables, then the constant
    assert!(eq_scalar(&cz.get(0), &s(6)));
    assert!(eq_scalar(&cz.get(1), &s(36)));
    assert!(eq_scalar(&cz.get(2), &s(1)));
    assert!(eq_scalar(&cz.get(3), &s(0)));
    // the products meet the projection on every unpadded row
    for i in 0..3 {
        assert!(eq_scalar(&az.get(i).mul(&bz.get(i)), &cz.get(i)));
    }
}

#[test]
fn eval_tables_of_an_instance() {
    let inst = square_instance();
    let t = vec![s(1), s(2), s(3), s(4)];
    let (ta, tb) = inst.compute_eval_table_sparse(4, 8, &t);
    assert_eq!(ta.len(), 8);
    assert!(eq_scalar(&ta[0], &s(2)));
    assert!(eq_scalar(&ta[4], &s(3)));
    assert!(eq_scalar(&ta[5], &s(1)));
    assert!(eq_scalar(&tb[4], &s(4)));
    assert!(eq_scalar(&tb[0], &s(2)));
}

#[test]
fn implicit_c_table_selects_the_outputs() {
    // rows 0, 1 read columns 0, 1; row 2 reads column 4 (past the gap)
    let t = vec![s(1), s(2), s(3), s(4)];
    let tc = implicit_c_eval_table(4, 2, 3, &t, 8);
    let expected = [1, 2, 0, 0, 3, 0, 0, 0];
    for i in 0..8 {
        assert!(eq_scalar(&tc[i], &s(expected[i])));
    }
}

#[test]
fn evaluate_agrees_with_the_verifiers_implicit_c() {
    let inst = square_instance();
    let rx = vec![s(3), s(8)];
    let ry = vec![s(2), s(5), s(7)];
    let (ea, eb, ec) = inst.evaluate(&rx, &ry);
    let c = R1CSLiteInstance::evaluate_implicit_c(4, 4, 3, 2, &rx, &ry);
    assert!(eq_scalar(&ec, &c));
    // the values are the tables' bilinear forms
    let tx = EqPolynomial::new(rx).evals();
    let ty = EqPolynomial::new(ry).evals();
    let (ta, tb) = inst.compute_eval_table_sparse(4, 8, &tx);
    assert!(eq_scalar(&ea, &dot(&ta, &ty)));
    assert!(eq_scalar(&eb, &dot(&tb, &ty)));
    let tc = implicit_c_eval_table(4, 2, 3, &tx, 8);
    assert!(eq_scalar(&ec, &dot(&tc, &ty)));
}

#[test]
fn synthetic_instance_over_a_degenerate_assignment() {
    // Z = (0, 0, 1, 9): row 2 multiplies 1 by 0 and must give 1
    let Z = vec![s(0), s(0), s(1), s(9)];
    let inst = R1CSLiteInstance::synthetic_r1cs_lite_from_assignment(4, 2, 1, &Z);
    assert!(!inst.is_sat(&Z[..2], &Z[3..]));
}

#[test]
fn synthetic_instance_over_a_nonzero_assignment() {
    let Z = vec![s(4), s(5), s(1), s(9)];
    let inst = R1CSLiteInstance::synthetic_r1cs_lite_from_assignment(4, 2, 1, &Z);
    assert_eq!(inst.get_num_unpadded_cons(), 4);
    assert_eq!(inst.get_num_unpadded_vars(), 2);
    assert!(inst.is_sat(&Z[..2], &Z[3..]));
}

#[test]
fn synthetic_instance_small() {
    let (inst, vars, inputs) = R1CSLiteInstance::produce_synthetic_r1cs_lite(8, 8, 3).unwrap();
    assert_eq!(vars.len(), 8);
    assert_eq!(inputs.len(), 3);
    assert_eq!(inst.get_num_cons(), 8);
    assert!(inst.is_sat(&vars, &inputs));
}

#[test]
fn commitment_generators_accept_fewer_inputs_than_variables() {
    let _gens = R1CSLiteCommitmentGens::new(b"gens", 1024, 1024, 10, 1024);
}

// ---------------------------------------------------------------- proof arithmetic

#[test]
fn prover_witness_layout() {
    let vars = vec![s(1), s(2), s(3), s(4)];
    let z = prover_witness(vars, &[s(7), s(8)]);
    let expected = [1, 2, 3, 4, 1, 7, 8, 0];
    assert_eq!(z.len(), 8);
    for i in 0..8 {
        assert!(eq_scalar(&z[i], &s(expected[i])));
    }
}

#[test]
fn combination_of_claims_and_tables() {
    let c = combine_claims(&s(2), &s(3), &s(5), &s(7), &s(11), &s(13));
    assert!(eq_scalar(&c, &s(2 * 7 + 3 * 11 + 5 * 13)));
    let t = combine_tables(&s(2), &s(3), &s(5), &[s(1), s(0)], &[s(0), s(1)], &[s(1), s(1)]);
    assert_eq!(t.len(), 2);
    assert!(eq_scalar(&t[0], &s(7)));
    assert!(eq_scalar(&t[1], &s(8)));
}

#[test]
fn joint_table_meets_the_first_sum_check_claim() {
    let inst = square_instance();
    let z = vec![s(6), s(36), s(0), s(0), s(1), s(6), s(0), s(0)];
    let rx = vec![s(3), s(8)];
    let t = EqPolynomial::new(rx).evals();
    let (ra, rb, rz) = (s(17), s(19), s(23));
    let joint = prover_joint_eval_table(&inst, &t, 8, &ra, &rb, &rz);
    let (az, bz, cz) = inst.multiply_vec(4, 8, &z);
    let claim = combine_claims(&ra, &rb, &rz, &dot(&t, &az.to_vec()), &dot(&t, &bz.to_vec()), &dot(&t, &cz.to_vec()));
    assert!(eq_scalar(&dot(&joint, &z), &claim));
}

#[test]
fn verifier_dimension_checks() {
    let input = vec![s(1), s(2)];
    assert_eq!(check_verifier_dimensions(8, 16, 5, 10, &input), Ok(()));
    let err = Err(ProofVerifyError::InternalError);
    assert_eq!(check_verifier_dimensions(8, 12, 5, 10, &input), err);
    assert_eq!(check_verifier_dimensions(6, 16, 5, 10, &input), err);
    assert_eq!(check_verifier_dimensions(8, 16, 5, 17, &input), err);
    assert_eq!(check_verifier_dimensions(8, 16, 9, 10, &input), err);
    assert_eq!(check_verifier_dimensions(8, 16, 6, 5, &input), err);
    assert_eq!(check_verifier_dimensions(2, 16, 1, 1, &input), err);
    assert_eq!(check_verifier_dimensions(1usize << 63, 16, 5, 10, &input), err);
}

#[test]
fn input_polynomial_evaluation() {
    let ry = vec![s(3), s(5)];
    let v = input_poly_eval(&[s(9), s(4)], 4, &ry);
    let t = EqPolynomial::new(ry).evals();
    let expected = t[0].add(&t[1].mul(&s(9))).add(&t[2].mul(&s(4)));
    assert!(eq_scalar(&v, &expected));
}

#[test]
fn dense_polynomial_evaluation() {
    let p = DensePolynomial::new(vec![s(1), s(2), s(3), s(4)]);
    // at a Boolean point the polynomial takes the table's value
    assert!(eq_scalar(&p.evaluate(&[s(1), s(0)]), &s(3)));
    // multilinear: (1-x)(1-y) 1 + (1-x) y 2 + x (1-y) 3 + x y 4 = 1 + y + 2x
    assert!(eq_scalar(&p.evaluate(&[s(5), s(7)]), &s(1 + 7 + 10)));
}

#[test]
fn witness_at_ry_splits_on_the_first_coordinate() {
    let vars = vec![s(3), s(1), s(4), s(1)];
    let input = vec![s(5), s(9)];
    let z = prover_witness(vars.clone(), &input);
    let ry = vec![s(2), s(6), s(11)];
    let whole = EqPolynomial::new(ry.clone()).evals();
    let lhs = dot(&z, &whole);
    let eval_vars = DensePolynomial::new(vars).evaluate(&ry[1..]);
    let eval_io = input_poly_eval(&input, 4, &ry[1..]);
    let rhs = eval_z_at_ry(&ry[0], &eval_vars, &eval_io);
    assert!(eq_scalar(&lhs, &rhs));
}

#[test]
fn eval_z_at_ry_formula() {
    // (1 - 3) 5 + 3 * 7 = 11
    assert!(eq_scalar(&eval_z_at_ry(&s(3), &s(5), &s(7)), &s(11)));
}

#[test]
fn claim_post_phase1_formula() {
    // (4 * 5 - 6) * 2 = 28
    assert!(eq_scalar(&claim_post_phase1(&s(4), &s(5), &s(6), &s(2)), &s(28)));
    // a satisfied constraint gives 0 whatever tau is
    assert!(eq_scalar(&claim_post_phase1(&s(4), &s(5), &s(20), &s(99)), &Scalar::zero()));
}

#[test]
fn protocol_name_bytes() {
    assert_eq!(&protocol_name()[..], b"R1CSLite proof");
}

#[test]
fn first_sum_check_claim_vanishes_on_a_satisfying_assignment() {
    let inst = square_instance();
    let z = vec![s(6), s(36), s(0), s(0), s(1), s(6)];
    let (az, bz, cz) = inst.multiply_vec(4, 6, &z);
    let tau = vec![s(13), s(29)];
    let t = EqPolynomial::new(tau).evals();
    let mut acc = Scalar::zero();
    for i in 0..4 {
        acc = acc.add(&t[i].mul(&az.get(i).mul(&bz.get(i)).sub(&cz.get(i))));
    }
    assert!(eq_scalar(&acc, &Scalar::zero()));
    // and not on a wrong one
    let bad = vec![s(6), s(35), s(0), s(0), s(1), s(6)];
    let (az, bz, cz) = inst.multiply_vec(4, 6, &bad);
    let mut acc = Scalar::zero();
    for i in 0..4 {
        acc = acc.add(&t[i].mul(&az.get(i).mul(&bz.get(i)).sub(&cz.get(i))));
    }
    assert!(!eq_scalar(&acc, &Scalar::zero()));
}

#[test]
fn instance_matrices_are_readable() {
    let inst = square_instance();
    let a = inst.get_A();
    assert_eq!(a.get_num_vars_x(), 2);
    assert_eq!(a.get_num_vars_y(), 3);
    assert_eq!(a.get_num_nz_entries(), 3);
    let e = a.get_entry(0);
    assert_eq!((e.row, e.col), (0, 5));
    assert!(eq_scalar(&e.val, &Scalar::one()));
    let b = inst.get_B();
    assert_eq!(b.get_entry(2).col, 4);
}

#[test]
fn implicit_c_transposition_on_concrete_values() {
    let inst = square_instance();
    let z = vec![s(6), s(36), s(0), s(0), s(1), s(6), s(0), s(0)];
    let t = vec![s(2), s(3), s(5), s(7)];
    let tc = implicit_c_eval_table(4, 2, 3, &t, 8);
    let (_az, _bz, cz) = inst.multiply_vec(4, 8, &z);
    assert!(eq_scalar(&dot(&tc, &z), &dot(&t, &cz.to_vec())));
}

#[test]
fn joint_table_at_ry_is_the_verifiers_combination() {
    let inst = square_instance();
    let rx = vec![s(3), s(8)];
    let ry = vec![s(2), s(5), s(7)];
    let tx = EqPolynomial::new(rx.clone()).evals();
    let ty = EqPolynomial::new(ry.clone()).evals();
    let (ra, rb, rz) = (s(17), s(19), s(23));
    let joint = prover_joint_eval_table(&inst, &tx, 8, &ra, &rb, &rz);
    let (ea, eb, _ec) = inst.evaluate(&rx, &ry);
    let ec = R1CSLiteInstance::evaluate_implicit_c(4, 4, 3, 2, &rx, &ry);
    assert!(eq_scalar(&dot(&joint, &ty), &combine_claims(&ra, &rb, &rz, &ea, &eb, &ec)));
}

#[test]
fn synthetic_instance_whose_rows_multiply_by_the_constant() {
    // one row over (x0, x1, 1): x0 * (v * 1) = x0 always succeeds
    let (inst, vars, inputs) = R1CSLiteInstance::produce_synthetic_r1cs_lite(1, 2, 0).unwrap();
    assert_eq!(vars.len(), 2);
    assert_eq!(inputs.len(), 0);
    assert!(inst.is_sat(&vars, &inputs));
}

fn padded(vars: &[Scalar], n: usize) -> Vec<Scalar> {
    let mut v = vars.to_vec();
    v.resize(n, Scalar::zero());
    v
}

fn hadamard_on_prover_witness(inst: &R1CSLiteInstance, vars: &[Scalar], input: &[Scalar]) -> bool {
    let nv = inst.get_num_vars();
    let nc = inst.get_num_cons();
    let z = prover_witness(padded(vars, nv), input);
    let (az, bz, cz) = inst.multiply_vec(nc, 2 * nv, &z);
    (0..nc).all(|i| eq_scalar(&az.get(i).mul(&bz.get(i)), &cz.get(i)))
}

#[test]
fn is_sat_is_the_hadamard_relation_on_the_prover_witness() {
    let inst = square_instance();
    for (vars, input) in [
        (vec![s(6), s(36)], vec![s(6)]),
        (vec![s(6), s(35)], vec![s(6)]),
        (vec![s(5), s(25)], vec![s(6)]),
        (vec![s(0), s(0)], vec![s(0)]),
    ] {
        assert_eq!(inst.is_sat(&vars, &input), hadamard_on_prover_witness(&inst, &vars, &input));
    }
    assert!(hadamard_on_prover_witness(&inst, &[s(6), s(36)], &[s(6)]));
}

#[test]
fn multiply_vec_is_linear() {
    let inst = square_instance();
    let z1: Vec<Scalar> = (1..9).map(s).collect();
    let z2: Vec<Scalar> = (20..28).map(s).collect();
    let sum: Vec<Scalar> = z1.iter().zip(z2.iter()).map(|(a, b)| a.add(b)).collect();
    let scaled: Vec<Scalar> = z1.iter().map(|a| s(7).mul(a)).collect();
    let (a1, b1, c1) = inst.multiply_vec(4, 8, &z1);
    let (a2, b2, c2) = inst.multiply_vec(4, 8, &z2);
    let (a3, b3, c3) = inst.multiply_vec(4, 8, &sum);
    let (a4, b4, c4) = inst.multiply_vec(4, 8, &scaled);
    for i in 0..4 {
        assert!(eq_scalar(&a3.get(i), &a1.get(i).add(&a2.get(i))));
        assert!(eq_scalar(&b3.get(i), &b1.get(i).add(&b2.get(i))));
        assert!(eq_scalar(&c3.get(i), &c1.get(i).add(&c2.get(i))));
        assert!(eq_scalar(&a4.get(i), &s(7).mul(&a1.get(i))));
        assert!(eq_scalar(&b4.get(i), &s(7).mul(&b1.get(i))));
        assert!(eq_scalar(&c4.get(i), &s(7).mul(&c1.get(i))));
    }
}

#[test]
fn evaluate_at_boolean_points_recovers_the_products() {
    let inst = square_instance();
    let z: Vec<Scalar> = vec![s(6), s(36), s(2), s(9), s(1), s(6), s(4), s(5)];
    let rx = vec![s(3), s(8)];
    let (mut sa, mut sb, mut sc) = (Scalar::zero(), Scalar::zero(), Scalar::zero());
    for j in 0..8u64 {
        let ry = vec![s((j >> 2) & 1), s((j >> 1) & 1), s(j & 1)];
        let (ea, eb, ec) = inst.evaluate(&rx, &ry);
        let zj = &z[j as usize];
        sa = sa.add(&ea.mul(zj));
        sb = sb.add(&eb.mul(zj));
        sc = sc.add(&ec.mul(zj));
    }
    let (az, bz, cz) = inst.multiply_vec(4, 8, &z);
    assert!(eq_scalar(&sa, &az.evaluate(&rx)));
    assert!(eq_scalar(&sb, &bz.evaluate(&rx)));
    assert!(eq_scalar(&sc, &cz.evaluate(&rx)));
}

#[test]
fn proof_generators_accept_a_power_of_two_of_variables() {
    let _gens = R1CSLiteGens::new(b"gens", 1024, 1024);
}

#[test]
fn checked_synthetic_instance() {
    let Z = vec![s(4), s(5), s(1), s(9)];
    let (inst, vars, inputs) = R1CSLiteInstance::synthetic_r1cs_lite_checked(4, 2, 1, &Z).unwrap();
    assert_eq!(vars.len(), 2);
    assert!(eq_scalar(&vars[0], &s(4)) && eq_scalar(&vars[1], &s(5)));
    assert_eq!(inputs.len(), 1);
    assert!(eq_scalar(&inputs[0], &s(9)));
    assert!(inst.is_sat(&vars, &inputs));
    // row 2 multiplies 1 by 0 and must give 1
    let degenerate = vec![s(0), s(0), s(1), s(9)];
    assert!(R1CSLiteInstance::synthetic_r1cs_lite_checked(4, 2, 1, &degenerate).is_none());
}

#[test]
fn multiply_vec_tables_have_log_num_rows_variables() {
    let inst = square_instance();
    let z = vec![s(6), s(36), s(0), s(0), s(1), s(6), s(0), s(0)];
    let (az, bz, cz) = inst.multiply_vec(4, 8, &z);
    assert_eq!(az.get_num_vars(), 2);
    assert_eq!(bz.get_num_vars(), 2);
    assert_eq!(cz.get_num_vars(), 2);
}
