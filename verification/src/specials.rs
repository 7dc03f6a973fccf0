//! Special arithmetic functions on natural numbers: the divisor-sum function
//! σ and the perfect-number test, with contracts that pin each result to the
//! model in [`crate::divisors`].

use vstd::prelude::*;

verus! {

use crate::divisors::sum_of_divisors;
use crate::divisors::trial_pair_sum;
use crate::divisors::lemma_paired;
use crate::divisors::lemma_sqrt_test;
use crate::divisors::lemma_trial_pair_sum_bound;
use crate::divisors::lemma_trial_pair_sum_correct;
use crate::divisors::lemma_sum_of_divisors_square_bound;

/// The error a function of this library reports for an argument outside its
/// mathematical domain.
#[derive(Clone, Copy, Debug, PartialEq, Eq, Structural)]
pub enum MathError {
    /// The argument lies outside the function's domain.
    DomainError,
}

/// The value `sigma` returns for each argument: σ(n) for `n >= 1`, and a
/// domain error for `n == 0`.
pub open spec fn sigma_spec(n: u64) -> Result<u64, MathError> {
    if n == 0 {
        Err(MathError::DomainError)
    } else {
        Ok((sum_of_divisors(n as nat) as u64))
    }
}

/// The value `is_perfect` returns: whether `n` is at least 2 and equal to the
/// sum of its proper divisors, that is, σ(n) == 2n.
pub open spec fn is_perfect_spec(n: u64) -> bool {
    n >= 2 && sum_of_divisors(n as nat) == 2 * n
}

/// Computes σ(n) by trial division: scan `i` from 1 while `i <= ⌊√n⌋`, and
/// for each `i` that divides `n` add both `i` and the cofactor `n / i`,
/// counting a square root of `n` only once.  The accumulator is wide enough
/// that no overflow is possible for any `n`.
fn divisor_sum_trial(n: u64) -> (s: u128)
    requires
        n >= 1,
    ensures
        s == sum_of_divisors(n as nat),
{
    let mut sum: u128 = 0;
    let mut i: u64 = 1;
    while i <= n / i
        invariant
            n >= 1,
            1 <= i,
            i <= n + 1,
            ((i - 1) as int) * ((i - 1) as int) <= n,
            sum == trial_pair_sum(n as nat, (i - 1) as nat),
        decreases n + 1 - i,
    {
        proof {
            lemma_sqrt_test(n as nat, i as nat);
            assert(i - 1 < 0x1_0000_0000 && i <= n) by (nonlinear_arith)
                requires
                    ((i - 1) as int) * ((i - 1) as int) <= n < 0x1_0000_0000_0000_0000,
                    (i as int) * (i as int) <= n,
                    i >= 1,
            ;
            lemma_trial_pair_sum_bound(n as nat, (i - 1) as nat);
            assert(2 * (n as int) * ((i - 1) as int) < 0x2_0000_0000_0000_0000_0000_0000)
                by (nonlinear_arith)
                requires
                    n < 0x1_0000_0000_0000_0000,
                    0 <= ((i - 1) as int) < 0x1_0000_0000,
            ;
        }
        if n % i == 0 {
            let q = n / i;
            proof {
                lemma_paired(n as nat, i as nat, (n as nat) / (i as nat));
            }
            sum = sum + (i as u128);
            if q != i {
                sum = sum + (q as u128);
            }
        }
        i = i + 1;
    }
    proof {
        lemma_sqrt_test(n as nat, i as nat);
        lemma_trial_pair_sum_correct(n as nat, (i - 1) as nat);
    }
    sum
}

/// The sum-of-divisors function σ(n): the sum of every positive divisor of
/// `n`, including 1 and `n` itself.
///
/// Reports a domain error for `n == 0`, where the divisor sum is undefined,
/// and otherwise returns exactly σ(n).  The precondition admits every `n`
/// whose divisor sum fits in a 64-bit word; any `n` up to `u32::MAX` fits,
/// since σ(n) ≤ n².
pub fn sigma(n: u64) -> (r: Result<u64, MathError>)
    requires
        n <= 0xFFFF_FFFF || sum_of_divisors(n as nat) <= u64::MAX,
    ensures
        r == sigma_spec(n),
        r is Err <==> n == 0,
{
    if n == 0 {
        return Err(MathError::DomainError);
    }
    proof {
        if n <= 0xFFFF_FFFF {
            lemma_sum_of_divisors_square_bound(n as nat);
            assert((n as int) * (n as int) <= 0xFFFF_FFFE_0000_0001) by (nonlinear_arith)
                requires
                    1 <= n <= 0xFFFF_FFFF,
            ;
        }
    }
    let s = divisor_sum_trial(n);
    Ok(s as u64)
}

/// Whether `n` is a perfect number: equal to the sum of its proper divisors,
/// that is, σ(n) == 2n.  Total on all of `u64`; 0 and 1 are not perfect.
pub fn is_perfect(n: u64) -> (r: bool)
    ensures
        r == is_perfect_spec(n),
{
    if n <= 1 {
        return false;
    }
    let s = divisor_sum_trial(n);
    s == 2 * (n as u128)
}

/// `sigma` has no hidden state: two calls on the same argument return
/// identical results, since each result equals `sigma_spec` of the argument.
pub proof fn lemma_sigma_deterministic(
    n: u64,
    r1: Result<u64, MathError>,
    r2: Result<u64, MathError>,
)
    requires
        r1 == sigma_spec(n),
        r2 == sigma_spec(n),
    ensures
        r1 == r2,
{
}

/// `is_perfect` has no hidden state: two calls on the same argument return
/// identical results, since each result equals `is_perfect_spec` of the
/// argument.
pub proof fn lemma_is_perfect_deterministic(n: u64, r1: bool, r2: bool)
    requires
        r1 == is_perfect_spec(n),
        r2 == is_perfect_spec(n),
    ensures
        r1 == r2,
{
}

} // verus!
