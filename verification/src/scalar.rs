//! Elements of the scalar field of the ristretto255 group, the integers
//! modulo the prime group order `L`.
//!
//! A `Scalar` holds the canonical little-endian encoding of its value; its
//! view is that value as a natural number below `L`. The arithmetic itself is
//! done by `curve25519-dalek`, behind the wrappers at the end of this file.
use vstd::prelude::*;
use vstd::arithmetic::div_mod::*;

verus! {

/// The prime order `L = 2^252 + 27742317777372353535851937790883648493` of
/// the ristretto255 group, the modulus of every `Scalar`.
pub open spec fn group_order() -> nat {
    7237005577332262213973186563042994240857116359379907606001950938285454250989nat
}

/// Field addition on values.
pub open spec fn fadd(a: nat, b: nat) -> nat {
    (a + b) % group_order()
}

/// Field multiplication on values.
pub open spec fn fmul(a: nat, b: nat) -> nat {
    (a * b) % group_order()
}

/// Field subtraction on values.
pub open spec fn fsub(a: nat, b: nat) -> nat {
    ((a as int - b as int) % (group_order() as int)) as nat
}

/// The natural number whose little-endian base-256 digits are `s`.
pub open spec fn bytes_to_nat(s: Seq<u8>) -> nat
    decreases s.len(),
{
    if s.len() == 0 {
        0
    } else {
        s[0] as nat + 256 * bytes_to_nat(s.drop_first())
    }
}

/// `(a + b) + c == a + (b + c)` modulo `L`.
pub proof fn lemma_fadd_assoc(a: nat, b: nat, c: nat)
    ensures
        fadd(fadd(a, b), c) == fadd(a, fadd(b, c)),
{
    let L = group_order() as int;
    lemma_add_mod_noop_right(c as int, (a + b) as int, L);
    lemma_add_mod_noop_right(a as int, (b + c) as int, L);
    assert(c + (a + b) == a + (b + c));
}

/// `a + b == b + a` modulo `L`.
pub proof fn lemma_fadd_comm(a: nat, b: nat)
    ensures
        fadd(a, b) == fadd(b, a),
{
}

/// `0 + a == a` for a residue `a`.
pub proof fn lemma_fadd_zero(a: nat)
    requires
        a < group_order(),
    ensures
        fadd(0, a) == a,
        fadd(a, 0) == a,
{
    lemma_small_mod(a, group_order());
}

/// `(p + q) + r` modulo `L` is `p + q + r` reduced once.
pub proof fn lemma_fadd3(p: nat, q: nat, r: nat)
    ensures
        fadd(fadd(p, q), r) == (p + q + r) % group_order(),
{
    lemma_add_mod_noop_right(r as int, (p + q) as int, group_order() as int);
    assert(r + (p + q) == p + q + r);
}

/// Adding two sums reduced modulo `L` reduces their total.
pub proof fn lemma_fadd_of_sums(u: nat, v: nat)
    ensures
        fadd(u % group_order(), v % group_order()) == (u + v) % group_order(),
{
    lemma_add_mod_noop(u as int, v as int, group_order() as int);
}

/// `a * (v * b) == v * (a * b)` modulo `L`.
pub proof fn lemma_fmul_rotate(a: nat, v: nat, b: nat)
    ensures
        fmul(a, fmul(v, b)) == fmul(v, fmul(a, b)),
{
    let L = group_order() as int;
    let (ai, vi, bi) = (a as int, v as int, b as int);
    vstd::arithmetic::div_mod::lemma_mul_mod_noop_right(ai, vi * bi, L);
    vstd::arithmetic::div_mod::lemma_mul_mod_noop_right(vi, ai * bi, L);
    assert(ai * (vi * bi) == vi * (ai * bi)) by (nonlinear_arith);
}

/// `(p + q) + (r + s) == (p + r) + (q + s)` modulo `L`.
pub proof fn lemma_fadd_swap4(p: nat, q: nat, r: nat, s: nat)
    ensures
        fadd(fadd(p, q), fadd(r, s)) == fadd(fadd(p, r), fadd(q, s)),
{
    lemma_fadd_of_sums(p + q, r + s);
    lemma_fadd_of_sums(p + r, q + s);
    assert(p + q + (r + s) == p + r + (q + s));
}

/// `a * b == b * a` modulo `L`.
pub proof fn lemma_fmul_comm(a: nat, b: nat)
    ensures
        fmul(a, b) == fmul(b, a),
{
    assert(a * b == b * a) by (nonlinear_arith);
}

/// `(a * b) * c == a * (b * c)` modulo `L`.
pub proof fn lemma_fmul_assoc(a: nat, b: nat, c: nat)
    ensures
        fmul(fmul(a, b), c) == fmul(a, fmul(b, c)),
{
    let L = group_order() as int;
    let (ai, bi, ci) = (a as int, b as int, c as int);
    lemma_mul_mod_noop_left(ai * bi, ci, L);
    lemma_mul_mod_noop_right(ai, bi * ci, L);
    assert(ai * bi * ci == ai * (bi * ci)) by (nonlinear_arith);
}

/// `(a + d) * y == a * y + d * y` modulo `L`.
pub proof fn lemma_fmul_distrib(a: nat, d: nat, y: nat)
    ensures
        fmul(fadd(a, d), y) == fadd(fmul(a, y), fmul(d, y)),
        fmul(y, fadd(a, d)) == fadd(fmul(y, a), fmul(y, d)),
{
    let L = group_order() as int;
    let (ai, di, yi) = (a as int, d as int, y as int);
    lemma_mul_mod_noop_left(ai + di, yi, L);
    assert((ai + di) * yi == ai * yi + di * yi) by (nonlinear_arith);
    lemma_add_mod_noop(ai * yi, di * yi, L);
    lemma_fmul_comm(fadd(a, d), y);
    lemma_fmul_comm(a, y);
    lemma_fmul_comm(d, y);
}

/// `0 * y == 0` and `y * 0 == 0` modulo `L`.
pub proof fn lemma_fmul_zero(y: nat)
    ensures
        fmul(0, y) == 0,
        fmul(y, 0) == 0,
{
}

/// `(a * 1) * z == a * z` modulo `L`.
pub proof fn lemma_fmul_one(a: nat, z: nat)
    ensures
        fmul(fmul(a, 1), z) == fmul(a, z),
{
    lemma_mul_mod_noop_left(a as int, z as int, group_order() as int);
}

/// An element of the integers modulo `group_order()`, held as its canonical
/// little-endian encoding.
#[derive(Clone, Copy, Debug, PartialEq, Eq)]
pub struct Scalar {
    bytes: [u8; 32],
}

impl View for Scalar {
    type V = nat;

    /// The value of the scalar, in `[0, group_order())`.
    closed spec fn view(&self) -> nat {
        bytes_to_nat(self.bytes@) % group_order()
    }
}

/// The values of a sequence of scalars.
pub open spec fn values(s: Seq<Scalar>) -> Seq<nat> {
    s.map_values(|x: Scalar| x@)
}

/// Pushing a scalar pushes its value.
pub proof fn lemma_values_push(s: Seq<Scalar>, x: Scalar)
    ensures
        values(s.push(x)) == values(s).push(x@),
{
    assert(values(s.push(x)) =~= values(s).push(x@));
}

/// `n` zeros.
pub open spec fn zeros(n: nat) -> Seq<nat> {
    Seq::new(n, |i: int| 0nat)
}

pub proof fn lemma_bytes_to_nat_injective(a: Seq<u8>, b: Seq<u8>)
    requires
        a.len() == b.len(),
        bytes_to_nat(a) == bytes_to_nat(b),
    ensures
        a == b,
    decreases a.len(),
{
    if a.len() > 0 {
        let x = bytes_to_nat(a.drop_first());
        let y = bytes_to_nat(b.drop_first());
        let a0 = a[0] as int;
        let b0 = b[0] as int;
        assert(a0 == b0 && x == y) by (nonlinear_arith)
            requires
                a0 + 256 * x == b0 + 256 * y,
                0 <= a0 < 256,
                0 <= b0 < 256,
                x >= 0,
                y >= 0,
        ;
        lemma_bytes_to_nat_injective(a.drop_first(), b.drop_first());
        assert forall|i: int| 0 <= i < a.len() implies a[i] == b[i] by {
            if i > 0 {
                assert(a[i] == a.drop_first()[i - 1]);
                assert(b[i] == b.drop_first()[i - 1]);
            }
        }
        assert(a =~= b);
    }
}

proof fn lemma_bytes_to_nat_zeros(s: Seq<u8>)
    requires
        forall|i: int| 0 <= i < s.len() ==> s[i] == 0,
    ensures
        bytes_to_nat(s) == 0,
    decreases s.len(),
{
    if s.len() > 0 {
        lemma_bytes_to_nat_zeros(s.drop_first());
    }
}

/// The value of a scalar is a residue modulo `group_order()`.
pub proof fn lemma_value_bound(s: Scalar)
    ensures
        s@ < group_order(),
{
}

impl Scalar {
    /// Every scalar is held in canonical form.
    #[verifier::type_invariant]
    pub closed spec fn is_canonical(self) -> bool {
        bytes_to_nat(self.bytes@) < group_order()
    }

    /// The scalar 0.
    pub fn zero() -> (r: Scalar)
        ensures
            r@ == 0,
    {
        let bytes = [0u8; 32];
        proof {
            lemma_bytes_to_nat_zeros(bytes@);
        }
        Scalar { bytes }
    }

    /// The scalar 1.
    pub fn one() -> (r: Scalar)
        ensures
            r@ == 1,
    {
        let mut bytes = [0u8; 32];
        bytes[0] = 1;
        proof {
            lemma_bytes_to_nat_zeros(bytes@.drop_first());
        }
        Scalar { bytes }
    }

    /// The canonical little-endian encoding of the scalar.
    pub fn to_bytes(&self) -> (r: [u8; 32])
        ensures
            bytes_to_nat(r@) == self@,
            bytes_to_nat(r@) < group_order(),
    {
        proof {
            use_type_invariant(self);
            lemma_small_mod(bytes_to_nat(self.bytes@), group_order());
        }
        self.bytes
    }

    /// Whether two scalars have the same value.
    pub fn equals(&self, other: &Scalar) -> (r: bool)
        ensures
            r == (self@ == other@),
    {
        proof {
            use_type_invariant(self);
            use_type_invariant(other);
            lemma_small_mod(bytes_to_nat(self.bytes@), group_order());
            lemma_small_mod(bytes_to_nat(other.bytes@), group_order());
        }
        let mut i: usize = 0;
        while i < 32
            invariant
                i <= 32,
                forall|j: int| 0 <= j < i ==> self.bytes@[j] == other.bytes@[j],
            decreases 32 - i,
        {
            if self.bytes[i] != other.bytes[i] {
                proof {
                    use_type_invariant(self);
                    use_type_invariant(other);
                    lemma_small_mod(bytes_to_nat(self.bytes@), group_order());
                    lemma_small_mod(bytes_to_nat(other.bytes@), group_order());
                    if self@ == other@ {
                        lemma_bytes_to_nat_injective(self.bytes@, other.bytes@);
                    }
                }
                return false;
            }
            i = i + 1;
        }
        proof {
            assert(self.bytes@ =~= other.bytes@);
        }
        true
    }

    /// A uniformly random scalar, obtained by reducing 64 random bytes from
    /// the operating system modulo `group_order()`.
    pub fn random() -> Scalar {
        let wide = random_wide_bytes();
        Scalar::from_bytes_mod_order_wide(&wide)
    }

    /// The scalar `bytes_to_nat(bytes) mod L`.
    pub fn from_bytes_mod_order(bytes: [u8; 32]) -> (r: Scalar)
        ensures
            r@ == bytes_to_nat(bytes@) % group_order(),
    {
        dalek_from_bytes_mod_order(bytes)
    }

    /// The scalar `bytes_to_nat(bytes) mod L` of a 64-byte integer.
    pub fn from_bytes_mod_order_wide(bytes: &[u8; 64]) -> (r: Scalar)
        ensures
            r@ == bytes_to_nat(bytes@) % group_order(),
    {
        dalek_from_bytes_mod_order_wide(bytes)
    }

    /// The scalar with value `x`.
    pub fn from_u64(x: u64) -> (r: Scalar)
        ensures
            r@ == x as nat,
    {
        let r = dalek_from_u64(x);
        proof {
            lemma_small_mod(x as nat, group_order());
        }
        r
    }

    /// `self + other` modulo `L`.
    pub fn add(&self, other: &Scalar) -> (r: Scalar)
        ensures
            r@ == fadd(self@, other@),
    {
        dalek_add(self, other)
    }

    /// `self - other` modulo `L`.
    pub fn sub(&self, other: &Scalar) -> (r: Scalar)
        ensures
            r@ == fsub(self@, other@),
    {
        dalek_sub(self, other)
    }

    /// `self * other` modulo `L`.
    pub fn mul(&self, other: &Scalar) -> (r: Scalar)
        ensures
            r@ == fmul(self@, other@),
    {
        dalek_mul(self, other)
    }

    /// The multiplicative inverse of a nonzero scalar.
    pub fn invert(&self) -> (r: Scalar)
        requires
            self@ != 0,
        ensures
            fmul(r@, self@) == 1,
    {
        dalek_invert(self)
    }
}

/// A vector holding the scalars `s[lo..hi]`.
pub fn copy_range(s: &[Scalar], lo: usize, hi: usize) -> (v: Vec<Scalar>)
    requires
        lo <= hi <= s@.len(),
    ensures
        v@ == s@.subrange(lo as int, hi as int),
{
    let mut v: Vec<Scalar> = Vec::new();
    let mut i: usize = lo;
    while i < hi
        invariant
            lo <= i <= hi,
            hi <= s@.len(),
            v@ == s@.subrange(lo as int, i as int),
        decreases hi - i,
    {
        v.push(s[i]);
        i = i + 1;
        proof {
            assert(v@ =~= s@.subrange(lo as int, i as int));
        }
    }
    v
}

/// A vector holding the scalars of `s`.
pub fn copy_scalars(s: &[Scalar]) -> (v: Vec<Scalar>)
    ensures
        v@ == s@,
{
    let v = copy_range(s, 0, s.len());
    proof {
        assert(s@.subrange(0, s@.len() as int) =~= s@);
    }
    v
}

/// 64 bytes from the operating system's random number generator, through
/// `rand::rngs::OsRng` (`RngCore::fill_bytes`). Nothing is stated of them:
/// they depend on chance alone.
#[verifier::external_body]
fn random_wide_bytes() -> [u8; 64] {
    let mut bytes = [0u8; 64];
    rand::RngCore::fill_bytes(&mut rand::rngs::OsRng, &mut bytes);
    bytes
}

/// `curve25519_dalek::scalar::Scalar::from_bytes_mod_order`, which reduces a
/// 256-bit little-endian integer modulo the group order; `to_bytes` hands back
/// its canonical encoding.
#[verifier::external_body]
fn dalek_from_bytes_mod_order(bytes: [u8; 32]) -> (r: Scalar)
    ensures
        r@ == bytes_to_nat(bytes@) % group_order(),
{
    Scalar { bytes: curve25519_dalek::scalar::Scalar::from_bytes_mod_order(bytes).to_bytes() }
}

/// `curve25519_dalek::scalar::Scalar::from_bytes_mod_order_wide`, which
/// reduces a 512-bit little-endian integer modulo the group order.
#[verifier::external_body]
fn dalek_from_bytes_mod_order_wide(bytes: &[u8; 64]) -> (r: Scalar)
    ensures
        r@ == bytes_to_nat(bytes@) % group_order(),
{
    Scalar { bytes: curve25519_dalek::scalar::Scalar::from_bytes_mod_order_wide(bytes).to_bytes() }
}

/// `curve25519_dalek::scalar::Scalar::from(u64)`: the scalar whose value is `x`.
#[verifier::external_body]
fn dalek_from_u64(x: u64) -> (r: Scalar)
    ensures
        r@ == x as nat % group_order(),
{
    Scalar { bytes: curve25519_dalek::scalar::Scalar::from(x).to_bytes() }
}

/// `Add` of `curve25519_dalek::scalar::Scalar`: addition modulo the group order.
#[verifier::external_body]
fn dalek_add(a: &Scalar, b: &Scalar) -> (r: Scalar)
    ensures
        r@ == fadd(a@, b@),
{
    let x = curve25519_dalek::scalar::Scalar::from_bytes_mod_order(a.bytes);
    let y = curve25519_dalek::scalar::Scalar::from_bytes_mod_order(b.bytes);
    Scalar { bytes: (x + y).to_bytes() }
}

/// `Sub` of `curve25519_dalek::scalar::Scalar`: subtraction modulo the group order.
#[verifier::external_body]
fn dalek_sub(a: &Scalar, b: &Scalar) -> (r: Scalar)
    ensures
        r@ == fsub(a@, b@),
{
    let x = curve25519_dalek::scalar::Scalar::from_bytes_mod_order(a.bytes);
    let y = curve25519_dalek::scalar::Scalar::from_bytes_mod_order(b.bytes);
    Scalar { bytes: (x - y).to_bytes() }
}

/// `Mul` of `curve25519_dalek::scalar::Scalar`: multiplication modulo the group order.
#[verifier::external_body]
fn dalek_mul(a: &Scalar, b: &Scalar) -> (r: Scalar)
    ensures
        r@ == fmul(a@, b@),
{
    let x = curve25519_dalek::scalar::Scalar::from_bytes_mod_order(a.bytes);
    let y = curve25519_dalek::scalar::Scalar::from_bytes_mod_order(b.bytes);
    Scalar { bytes: (x * y).to_bytes() }
}

/// `curve25519_dalek::scalar::Scalar::invert`: the multiplicative inverse of a
/// nonzero scalar modulo the group order.
#[verifier::external_body]
fn dalek_invert(a: &Scalar) -> (r: Scalar)
    requires
        a@ != 0,
    ensures
        fmul(r@, a@) == 1,
{
    let x = curve25519_dalek::scalar::Scalar::from_bytes_mod_order(a.bytes);
    Scalar { bytes: x.invert().to_bytes() }
}

} // verus!
