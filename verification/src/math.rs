//! Powers of two and base-two logarithms of sizes.
use vstd::prelude::*;

verus! {

/// `2^k`.
pub open spec fn pow2(k: nat) -> nat
    decreases k,
{
    if k == 0 {
        1
    } else {
        2 * pow2((k - 1) as nat)
    }
}

/// Whether `n` is a power of two (`1, 2, 4, ...`).
pub open spec fn is_pow2(n: nat) -> bool
    decreases n,
{
    if n == 0 {
        false
    } else if n == 1 {
        true
    } else {
        n % 2 == 0 && is_pow2(n / 2)
    }
}

/// The least `k` with `2^k >= n`, for `n >= 1` (and 0 for `n == 0`).
pub open spec fn log2_ceil(n: nat) -> nat
    decreases n,
{
    if n <= 1 {
        0
    } else {
        1 + log2_ceil(((n + 1) / 2) as nat)
    }
}

/// `log2_ceil(n)` is the least exponent of two that reaches `n`.
pub proof fn lemma_log2_ceil_bounds(n: nat)
    requires
        n >= 1,
    ensures
        pow2(log2_ceil(n)) >= n,
        log2_ceil(n) > 0 ==> pow2((log2_ceil(n) - 1) as nat) < n,
    decreases n,
{
    if n > 1 {
        let m = ((n + 1) / 2) as nat;
        lemma_log2_ceil_bounds(m);
    }
}

proof fn lemma_log2_ceil_le(n: nat)
    ensures
        log2_ceil(n) <= n,
    decreases n,
{
    if n > 1 {
        lemma_log2_ceil_le(((n + 1) / 2) as nat);
    }
}

/// For a power of two `n`, `2^log2_ceil(n) == n`.
pub proof fn lemma_pow2_log2(n: nat)
    requires
        is_pow2(n),
    ensures
        pow2(log2_ceil(n)) == n,
    decreases n,
{
    if n > 1 {
        assert((n + 1) / 2 == n / 2);
        lemma_pow2_log2(n / 2);
    }
}

/// Doubling a power of two adds one to its logarithm.
pub proof fn lemma_log2_double(n: nat)
    requires
        is_pow2(n),
    ensures
        is_pow2(2 * n),
        log2_ceil(2 * n) == log2_ceil(n) + 1,
{
    assert((2 * n + 1) / 2 == n);
    assert((2 * n) / 2 == n);
}

/// The base-two logarithm of `n`, rounded up: the least `k` with `2^k >= n`.
pub fn log_2(n: usize) -> (r: usize)
    requires
        n != 0,
    ensures
        r == log2_ceil(n as nat),
        pow2(r as nat) >= n,
        r > 0 ==> pow2((r - 1) as nat) < n,
{
    proof {
        lemma_log2_ceil_bounds(n as nat);
        lemma_log2_ceil_le(n as nat);
    }
    let mut m: usize = n;
    let mut k: usize = 0;
    while m > 1
        invariant
            1 <= m <= n,
            k + log2_ceil(m as nat) == log2_ceil(n as nat),
            log2_ceil(n as nat) <= n,
        decreases m,
    {
        let half = m / 2 + m % 2;
        proof {
            assert(half == (m + 1) / 2);
        }
        m = half;
        k = k + 1;
    }
    k
}

/// Whether `n` is a power of two.
pub fn is_power_of_two(n: usize) -> (r: bool)
    ensures
        r == is_pow2(n as nat),
{
    if n == 0 {
        return false;
    }
    let mut m: usize = n;
    while m > 1 && m % 2 == 0
        invariant
            m >= 1,
            is_pow2(m as nat) == is_pow2(n as nat),
        decreases m,
    {
        m = m / 2;
    }
    m == 1
}

/// `2^a <= 2^b` for `a <= b`; in particular `2 * 2^a <= 2^b` for `a < b`.
pub proof fn lemma_pow2_grows(a: nat, b: nat)
    requires
        a <= b,
    ensures
        pow2(a) <= pow2(b),
        a < b ==> 2 * pow2(a) <= pow2(b),
    decreases b - a,
{
    if a < b {
        lemma_pow2_grows(a + 1, b);
    }
}

} // verus!
