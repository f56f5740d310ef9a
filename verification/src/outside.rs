//! Trusted wrappers around the outside crates: integer helpers from
//! `num-integer` and seeded random draws from `rand`.
use vstd::prelude::*;

verus! {

/// The greatest common divisor of two naturals, by Euclid's rule.
pub open spec fn gcd_nat(a: nat, b: nat) -> nat
    decreases b,
{
    if b == 0 {
        a
    } else {
        gcd_nat(b, a % b)
    }
}

/// The binomial coefficient, by Pascal's rule.
pub open spec fn binom_nat(n: nat, k: nat) -> nat
    decreases n, k,
{
    if k == 0 {
        1
    } else if k > n {
        0
    } else {
        binom_nat((n - 1) as nat, (k - 1) as nat) + binom_nat(
            (n - 1) as nat,
            k,
        )
    }
}

/// The absolute value of an integer.
pub open spec fn abs_int(a: int) -> nat {
    if a >= 0 {
        a as nat
    } else {
        (-a) as nat
    }
}

/// Relies on num_integer::gcd (Stein's algorithm on the absolute values):
/// the result is the greatest common divisor of |a| and |b|. The excluded
/// inputs are those whose divisor, 2^63, has no 64-bit representation.
#[verifier::external_body]
pub fn gcd_i64(a: i64, b: i64) -> (r: i64)
    requires
        !(a == i64::MIN && b == i64::MIN),
        !(a == i64::MIN && b == 0),
        !(a == 0 && b == i64::MIN),
    ensures
        r >= 0,
        r as nat == gcd_nat(abs_int(a as int), abs_int(b as int)),
{
    num_integer::gcd(a, b)
}

/// Relies on num_integer::binomial (incremental multiply-and-divide): the
/// result is the binomial coefficient. The crate's own table gives 66 as
/// the largest operand whose coefficients all fit a 64-bit integer.
#[verifier::external_body]
pub fn binom_i64(n: i64, k: i64) -> (r: i64)
    requires
        0 <= k <= n <= 66,
    ensures
        r >= 0,
        r as nat == binom_nat(n as nat, k as nat),
{
    num_integer::binomial(n, k)
}

/// What one seeded uniform draw below `n` returns: a function of the seed
/// and the bound alone, since the generator is a deterministic cipher.
pub uninterp spec fn rand_of(seed: u64, n: u64) -> u64;

/// What a seeded sample of `k` distinct indices below `n` returns.
pub uninterp spec fn sample_of(seed: u64, n: usize, k: usize) -> Seq<usize>;

/// Relies on rand's StdRng (a deterministic generator seeded from the
/// given word) and Rng::gen_range, which returns a value of the non-empty
/// range.
#[verifier::external_body]
pub fn rand_below(seed: u64, n: u64) -> (r: u64)
    requires
        n > 0,
    ensures
        r == rand_of(seed, n),
        r < n,
{
    let mut rng = <rand::rngs::StdRng as rand::SeedableRng>::seed_from_u64(
        seed,
    );
    rand::Rng::gen_range(&mut rng, 0..n)
}

/// Relies on rand's StdRng and rand::seq::index::sample, which returns
/// `k` distinct indices below `n` (sampling without replacement; it panics
/// only when `k > n`, which the precondition rules out).
#[verifier::external_body]
pub fn sample_idx(seed: u64, n: usize, k: usize) -> (r: Vec<usize>)
    requires
        k <= n,
    ensures
        r@ == sample_of(seed, n, k),
        r@.len() == k,
        forall|i: int| 0 <= i < r@.len() ==> r@[i] < n,
        forall|i: int, j: int|
            0 <= i < j < r@.len() ==> r@[i] != r@[j],
{
    let mut rng = <rand::rngs::StdRng as rand::SeedableRng>::seed_from_u64(
        seed,
    );
    rand::seq::index::sample(&mut rng, n, k).into_vec()
}

} // verus!

verus! {

/// The greatest common divisor of two naturals, one of them positive, is
/// positive.
pub proof fn lemma_gcd_pos(a: nat, b: nat)
    requires
        a > 0 || b > 0,
    ensures
        gcd_nat(a, b) > 0,
    decreases b,
{
    if b > 0 {
        lemma_gcd_pos(b, a % b);
    }
}

} // verus!

verus! {

/// Choosing more than there is leaves nothing: the coefficient is zero.
pub proof fn lemma_binom_over(n: nat, k: nat)
    requires
        k > n,
    ensures
        binom_nat(n, k) == 0,
{
}

} // verus!

verus! {

/// Choosing one leaves the count itself.
pub proof fn lemma_binom_one(n: nat)
    ensures
        binom_nat(n, 1) == n,
    decreases n,
{
    reveal_with_fuel(binom_nat, 3);
    if n > 0 {
        lemma_binom_one((n - 1) as nat);
    }
}

/// Choosing everything leaves one way.
pub proof fn lemma_binom_diag(n: nat)
    ensures
        binom_nat(n, n) == 1,
    decreases n,
{
    reveal_with_fuel(binom_nat, 3);
    if n > 0 {
        lemma_binom_diag((n - 1) as nat);
        lemma_binom_over((n - 1) as nat, n);
    }
}

/// Leaving one out picks which one: the count itself.
pub proof fn lemma_binom_subdiag(n: nat)
    requires
        n >= 1,
    ensures
        binom_nat(n, (n - 1) as nat) == n,
    decreases n,
{
    reveal_with_fuel(binom_nat, 3);
    if n > 1 {
        lemma_binom_subdiag((n - 1) as nat);
        lemma_binom_diag((n - 1) as nat);
    }
}

} // verus!
