# viking

R1CS-Lite instances for a Spartan-style proof system, verified with Verus.

An R1CS-Lite instance holds two sparse matrices `A` and `B` over the witness
`z = (vars, 1, inputs)`; constraint `i` states that `(A z)_i * (B z)_i` is the
`i`-th entry of the unpadded witness. The third matrix `C` of ordinary R1CS is
a fixed projection, derived from the instance's dimensions and never stored.

## Layout

- `src/scalar.rs`: the scalar field of ristretto255. Values are held in
  canonical form; the arithmetic is done by `curve25519-dalek` behind small
  trusted wrappers whose contracts state the modular operation.
- `src/math.rs`: powers of two and base-two logarithms of sizes.
- `src/dense_mlpoly.rs`: dense multilinear polynomials and the table of the
  equality polynomial `eq(r, .)`.
- `src/sparse_mlpoly.rs`: sparse matrices and vectors read as multilinear
  polynomials: matrix-vector products, the tables of the second sum-check,
  and evaluations.
- `src/r1csliteinstance.rs`: instances, their satisfiability check, the
  tables and evaluations the prover and verifier use, the implicit `C`, and
  synthetic satisfiable instances.
- `src/r1csliteproof.rs`: the arithmetic of the satisfiability proof around
  its commitments and sum-checks: the prover's witness and joint table, the
  verifier's dimension checks and the values it derives itself.
- `app/lib.rs`: serialisable copies of the instance types and the instance
  digest (serde, bincode, flate2).

Each public function states its result in its `ensures`, except
`Scalar::random`, whose value is left to chance (it is only a valid scalar); the laws that tie the
prover's tables to the verifier's values (the satisfiability check as the
Hadamard relation over the prover's witness, linearity of the products,
transposition, the evaluations at the Boolean points, the vanishing first
sum-check claim, the value of the second sum-check at `ry`, the split of the
witness on its first coordinate, the binding of `eq(tau, .)`) are public proof
functions next to the functions they relate.

The commitment schemes, the sum-check protocol, transcripts and the
zero-knowledge sub-proofs are not part of this crate.
