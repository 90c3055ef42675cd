#![allow(non_snake_case)]
use viking::r1csliteinstance::R1CSLiteInstance;
use viking::scalar::Scalar;

fn next_power_of_two(n: usize) -> usize {
    let mut p = 1;
    while p < n {
        p *= 2;
    }
    p
}

fn produce_tiny_r1cs_lite() -> (R1CSLiteInstance, Vec<Scalar>, Vec<Scalar>) {
    let num_unpadded_cons: usize = 8;
    let num_unpadded_vars: usize = 5;
    let num_inputs = 2;
    let num_cons = next_power_of_two(num_unpadded_cons);
    let num_vars = next_power_of_two(num_unpadded_vars);
    let constant = num_vars;
    let input_0 = constant + 1;
    let input_1 = constant + 2;

    let mut A: Vec<(usize, usize, Scalar)> = Vec::new();
    let mut B: Vec<(usize, usize, Scalar)> = Vec::new();

    let one = Scalar::one();
    A.push((0, input_0, one));
    B.push((0, input_1, one));
    A.push((1, 0, one));
    B.push((1, 0, one));
    A.push((2, 0, one));
    A.push((2, 1, one));
    B.push((2, input_0, one));
    A.push((3, 0, one));
    A.push((3, input_1, one));
    B.push((3, 2, one));
    A.push((5, constant, one));
    B.push((5, constant, one));
    A.push((6, constant, one));
    B.push((6, input_0, one));
    A.push((7, constant, one));
    B.push((7, input_1, one));

    let inst = R1CSLiteInstance::new(
        num_cons,
        num_vars,
        num_inputs,
        &A,
        &B,
        num_unpadded_cons,
        num_unpadded_vars,
    );

    // compute a satisfying assignment
    let i0 = Scalar::random();
    let i1 = Scalar::random();
    let z1 = i0.mul(&i1);
    let z2 = z1.mul(&z1);
    let z3 = z1.add(&z2).mul(&i0);
    let z4 = z1.add(&i1).mul(&z3);
    let z5 = Scalar::zero();

    let mut vars = vec![Scalar::zero(); num_vars];
    vars[0] = z1;
    vars[1] = z2;
    vars[2] = z3;
    vars[3] = z4;
    vars[4] = z5;

    let mut input = vec![Scalar::zero(); num_inputs];
    input[0] = i0;
    input[1] = i1;

    (inst, vars, input)
}

#[test]
fn test_tiny_r1cs_lite() {
    let (inst, vars, input) = produce_tiny_r1cs_lite();
    let is_sat = inst.is_sat(&vars[..inst.get_num_unpadded_vars()], &input);
    assert!(is_sat);
}

#[test]
fn test_synthetic_r1cs_lite() {
    let (inst, vars, input) = R1CSLiteInstance::produce_synthetic_r1cs_lite(1024, 1024, 10).unwrap();
    let is_sat = inst.is_sat(&vars, &input);
    assert!(is_sat);
}

#[test]
fn tiny_instance_rejects_a_wrong_output() {
    let (inst, mut vars, input) = produce_tiny_r1cs_lite();
    vars[1] = vars[1].add(&Scalar::one());
    assert!(!inst.is_sat(&vars[..inst.get_num_unpadded_vars()], &input));
}

#[test]
fn tiny_instance_rejects_a_wrong_input() {
    let (inst, vars, mut input) = produce_tiny_r1cs_lite();
    input[1] = input[1].add(&Scalar::one());
    assert!(!inst.is_sat(&vars[..inst.get_num_unpadded_vars()], &input));
}

#[test]
fn tiny_instance_dimensions() {
    let (inst, _vars, _input) = produce_tiny_r1cs_lite();
    assert_eq!(inst.get_num_cons(), 8);
    assert_eq!(inst.get_num_vars(), 8);
    assert_eq!(inst.get_num_inputs(), 2);
    assert_eq!(inst.get_num_unpadded_cons(), 8);
    assert_eq!(inst.get_num_unpadded_vars(), 5);
}

/// The output-form instance for `y = x^16 + 1`: constraint `i < 5` squares
/// (or copies) a variable into variable `i`, constraint 5 pins the constant
/// to 1 and constraint 6 computes the public output.
fn cubic_instance() -> (R1CSLiteInstance, Vec<Scalar>, Vec<Scalar>) {
    let num_cons = 8;
    let num_vars = 8;
    let num_inputs = 1;
    let constant = num_vars;
    let one = Scalar::one();
    let mut A: Vec<(usize, usize, Scalar)> = Vec::new();
    let mut B: Vec<(usize, usize, Scalar)> = Vec::new();
    A.push((0, 0, one));
    B.push((0, constant, one));
    A.push((1, 0, one));
    B.push((1, 0, one));
    A.push((2, 1, one));
    B.push((2, 1, one));
    A.push((3, 2, one));
    B.push((3, 2, one));
    A.push((4, 3, one));
    B.push((4, 3, one));
    A.push((5, constant, one));
    B.push((5, constant, one));
    A.push((6, 4, one));
    A.push((6, constant, one));
    B.push((6, constant, one));
    let inst = R1CSLiteInstance::new(num_cons, num_vars, num_inputs, &A, &B, 7, 5);

    let z0 = Scalar::from_u64(3);
    let z1 = z0.mul(&z0);
    let z2 = z1.mul(&z1);
    let z3 = z2.mul(&z2);
    let z4 = z3.mul(&z3);
    let i0 = z4.add(&Scalar::one());
    (inst, vec![z0, z1, z2, z3, z4], vec![i0])
}

#[test]
fn cubic_instance_is_satisfied() {
    let (inst, vars, input) = cubic_instance();
    assert!(inst.is_sat(&vars, &input));
    // 3^16 + 1
    assert!(input[0].equals(&Scalar::from_u64(43046722)));
}

#[test]
fn cubic_instance_rejects_a_wrong_output() {
    let (inst, vars, _input) = cubic_instance();
    assert!(!inst.is_sat(&vars, &[Scalar::from_u64(43046721)]));
}
