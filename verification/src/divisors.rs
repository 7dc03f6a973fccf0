//! The mathematical model of the divisor-sum function σ(n), together with the
//! lemmas that justify computing it by trial division up to ⌊√n⌋.
//!
//! `sum_of_divisors(n)` is the reference definition: the sum of every `d` in
//! `1..=n` that divides `n`.  The executable code scans only `1..=⌊√n⌋` and
//! adds each divisor it finds together with its cofactor; `trial_pair_sum`
//! describes that scan, and `lemma_trial_pair_sum_correct` proves the two
//! definitions agree.

use vstd::prelude::*;

verus! {

use vstd::arithmetic::div_mod::lemma_fundamental_div_mod;
use vstd::arithmetic::div_mod::lemma_mod_multiples_basic;
use vstd::arithmetic::div_mod::lemma_div_by_multiple;
use vstd::arithmetic::div_mod::lemma_small_mod;
use vstd::arithmetic::div_mod::lemma_mod_self_0;
use vstd::arithmetic::div_mod::lemma_mod_division_less_than_divisor;

/// The sum of the divisors of `n` that lie in `1..=k`.
pub open spec fn sum_of_divisors_upto(n: nat, k: nat) -> nat
    decreases k,
{
    if k == 0 {
        0
    } else {
        sum_of_divisors_upto(n, (k - 1) as nat) + if n % k == 0 {
            k
        } else {
            0nat
        }
    }
}

/// σ(n): the sum of all positive divisors of `n`.
pub open spec fn sum_of_divisors(n: nat) -> nat {
    sum_of_divisors_upto(n, n)
}

/// `p` is prime: at least 2, and no `d` strictly between 1 and `p` divides it.
pub open spec fn is_prime(p: nat) -> bool {
    p >= 2 && forall|d: nat| 2 <= d < p ==> #[trigger] (p % d) != 0
}

/// What the trial-division scan accumulates after testing the candidates
/// `1..=k`: each divisor `i` in that range, plus its cofactor `n / i` when the
/// two differ.
pub open spec fn trial_pair_sum(n: nat, k: nat) -> nat
    decreases k,
{
    if k == 0 {
        0
    } else {
        trial_pair_sum(n, (k - 1) as nat) + if n % k == 0 {
            if k * k == n {
                k
            } else {
                ((k + n / k) as nat)
            }
        } else {
            0nat
        }
    }
}

/// The sum of the divisors of `n` in `1..=m` whose square is at most `n`.
spec fn sum_small_divisors(n: nat, m: nat) -> nat
    decreases m,
{
    if m == 0 {
        0
    } else {
        sum_small_divisors(n, (m - 1) as nat) + if n % m == 0 && m * m <= n {
            m
        } else {
            0nat
        }
    }
}

/// The sum of the divisors of `n` in `1..=m` whose square exceeds `n`.
spec fn sum_large_divisors(n: nat, m: nat) -> nat
    decreases m,
{
    if m == 0 {
        0
    } else {
        sum_large_divisors(n, (m - 1) as nat) + if n % m == 0 && m * m > n {
            m
        } else {
            0nat
        }
    }
}

/// As `sum_large_divisors`, but keeping only the divisors whose cofactor is
/// at most `k`.  Raising `k` by one admits at most one new divisor, which is
/// what the induction in `lemma_capped_step` exploits.
spec fn sum_large_divisors_capped(n: nat, k: nat, m: nat) -> nat
    decreases m,
{
    if m == 0 {
        0
    } else {
        sum_large_divisors_capped(n, k, (m - 1) as nat) + if n % m == 0 && m * m > n && n / m
            <= k {
            m
        } else {
            0nat
        }
    }
}

/// Basic facts relating a divisor `d` of `n` to its cofactor `n / d`.
proof fn lemma_cofactor(n: nat, d: nat)
    requires
        n >= 1,
        d >= 1,
        n % d == 0,
    ensures
        d <= n,
        n / d >= 1,
        n / d <= n,
        n == d * (n / d),
        n % (n / d) == 0,
        n / (n / d) == d,
{
    if n < d {
        lemma_small_mod(n, d);
    }
    lemma_fundamental_div_mod(n as int, d as int);
    let q = n / d;
    assert(n == d * q);
    assert(q >= 1 && q <= n) by (nonlinear_arith)
        requires
            n == d * q,
            n >= 1,
            d >= 1,
            q >= 0,
    ;
    lemma_mod_multiples_basic(d as int, q as int);
    lemma_div_by_multiple(d as int, q as int);
}

/// `i <= n / i` is how executable code asks whether `i` is still at most
/// `⌊√n⌋` without risking overflow in `i * i`.
pub(crate) proof fn lemma_sqrt_test(n: nat, i: nat)
    requires
        i >= 1,
    ensures
        i <= n / i <==> i * i <= n,
{
    lemma_fundamental_div_mod(n as int, i as int);
    lemma_mod_division_less_than_divisor(n as int, i as int);
    assert(i <= n / i <==> i * i <= n) by (nonlinear_arith)
        requires
            n == i * (n / i) + n % i,
            0 <= n % i < i,
            i >= 1,
    ;
}

/// A divisor and its cofactor sit on opposite sides of √n, and coincide
/// exactly on it.
pub(crate) proof fn lemma_paired(n: nat, a: nat, b: nat)
    requires
        n >= 1,
        a >= 1,
        n % a == 0,
        b == n / a,
    ensures
        b >= 1,
        b <= n,
        n % b == 0,
        n / b == a,
        n == a * b,
        a * a < n <==> b * b > n,
        a * a == n <==> a == b,
{
    lemma_cofactor(n, a);
    assert((a * a < n <==> b * b > n) && (a * a == n <==> a == b)) by (nonlinear_arith)
        requires
            n == a * b,
            a >= 1,
            b >= 1,
    ;
}

/// Every divisor counts either as small (square at most `n`) or as large.
proof fn lemma_split(n: nat, m: nat)
    ensures
        sum_of_divisors_upto(n, m) == sum_small_divisors(n, m) + sum_large_divisors(n, m),
    decreases m,
{
    if m > 0 {
        lemma_split(n, (m - 1) as nat);
    }
}

/// Above `r = ⌊√n⌋` the small sum picks up nothing more.
proof fn lemma_small_caps(n: nat, r: nat, m: nat)
    requires
        r * r <= n,
        n < (r + 1) * (r + 1),
        r <= m,
    ensures
        sum_small_divisors(n, m) == sum_small_divisors(n, r),
    decreases m,
{
    if m > r {
        assert(m * m > n) by (nonlinear_arith)
            requires
                m >= r + 1,
                n < (r + 1) * (r + 1),
        ;
        lemma_small_caps(n, r, (m - 1) as nat);
    }
}

/// Up to `⌊√n⌋` every divisor is small, so the small sum is the plain sum.
proof fn lemma_small_eq_upto(n: nat, m: nat)
    requires
        m * m <= n,
    ensures
        sum_small_divisors(n, m) == sum_of_divisors_upto(n, m),
    decreases m,
{
    if m > 0 {
        assert((m - 1) * (m - 1) <= m * m) by (nonlinear_arith)
            requires
                m >= 1,
        ;
        lemma_small_eq_upto(n, (m - 1) as nat);
    }
}

/// With no room for a cofactor, the capped sum is empty.
proof fn lemma_capped_zero(n: nat, m: nat)
    requires
        n >= 1,
    ensures
        sum_large_divisors_capped(n, 0, m) == 0,
    decreases m,
{
    if m > 0 {
        lemma_capped_zero(n, (m - 1) as nat);
        if n % m == 0 {
            lemma_cofactor(n, m);
        }
    }
}

/// Raising the cofactor cap from `k - 1` to `k` admits exactly one candidate,
/// the cofactor `n / k` — and only if `k` really divides `n` and `n / k` is a
/// large divisor within `1..=m`.
proof fn lemma_capped_step(n: nat, k: nat, m: nat)
    requires
        n >= 1,
        k >= 1,
    ensures
        sum_large_divisors_capped(n, k, m) == sum_large_divisors_capped(n, (k - 1) as nat, m) + if n
            % k == 0 && k * k < n && n / k <= m {
            n / k
        } else {
            0nat
        },
    decreases m,
{
    if n % k == 0 {
        lemma_cofactor(n, k);
    }
    if m > 0 {
        lemma_capped_step(n, k, (m - 1) as nat);
        if n % m == 0 {
            lemma_paired(n, m, n / m);
            lemma_paired(n, n / m, m);
        }
    }
}

/// The pairing scan over `1..=k` accounts exactly for the divisors up to `k`
/// plus the large divisors whose cofactor is at most `k`.
proof fn lemma_pair_decompose(n: nat, k: nat)
    requires
        n >= 1,
        k * k <= n,
    ensures
        trial_pair_sum(n, k) == sum_of_divisors_upto(n, k) + sum_large_divisors_capped(n, k, n),
    decreases k,
{
    if k == 0 {
        lemma_capped_zero(n, n);
    } else {
        assert((k - 1) * (k - 1) <= k * k) by (nonlinear_arith)
            requires
                k >= 1,
        ;
        lemma_pair_decompose(n, (k - 1) as nat);
        lemma_capped_step(n, k, n);
        if n % k == 0 {
            lemma_cofactor(n, k);
        }
    }
}

/// Every large divisor has its cofactor at or below `⌊√n⌋`, so capping the
/// cofactor at `r = ⌊√n⌋` excludes nothing.
proof fn lemma_capped_eq_large(n: nat, r: nat, m: nat)
    requires
        n >= 1,
        r * r <= n,
        n < (r + 1) * (r + 1),
    ensures
        sum_large_divisors_capped(n, r, m) == sum_large_divisors(n, m),
    decreases m,
{
    if m > 0 {
        lemma_capped_eq_large(n, r, (m - 1) as nat);
        if n % m == 0 && m * m > n {
            lemma_cofactor(n, m);
            assert(n / m <= r) by (nonlinear_arith)
                requires
                    n == m * (n / m),
                    m * m > n,
                    r * r <= n,
                    n < (r + 1) * (r + 1),
                    n / m >= 1,
                    m >= 1,
            ;
        }
    }
}

/// The trial-division scan up to `r = ⌊√n⌋`, pairing each divisor it meets
/// with its cofactor, sums exactly the divisors of `n`.
pub(crate) proof fn lemma_trial_pair_sum_correct(n: nat, r: nat)
    requires
        n >= 1,
        r * r <= n,
        n < (r + 1) * (r + 1),
    ensures
        trial_pair_sum(n, r) == sum_of_divisors(n),
{
    assert(r >= 1) by (nonlinear_arith)
        requires
            n >= 1,
            n < (r + 1) * (r + 1),
    ;
    assert(r <= n) by (nonlinear_arith)
        requires
            r >= 1,
            r * r <= n,
    ;
    lemma_pair_decompose(n, r);
    lemma_capped_eq_large(n, r, n);
    lemma_split(n, n);
    lemma_small_caps(n, r, n);
    lemma_small_eq_upto(n, r);
}

/// What the pairing scan holds after `k` candidates never exceeds `2·n·k`,
/// since each step adds at most a divisor and a cofactor, each at most `n`.
pub(crate) proof fn lemma_trial_pair_sum_bound(n: nat, k: nat)
    requires
        k * k <= n,
    ensures
        trial_pair_sum(n, k) <= 2 * n * k,
    decreases k,
{
    if k > 0 {
        assert((k - 1) * (k - 1) <= k * k && k <= n) by (nonlinear_arith)
            requires
                k >= 1,
                k * k <= n,
        ;
        lemma_trial_pair_sum_bound(n, (k - 1) as nat);
        if n % k == 0 {
            lemma_cofactor(n, k);
        }
        assert(2 * n * ((k - 1) as nat) + 2 * n == 2 * n * k) by (nonlinear_arith)
            requires
                k >= 1,
        ;
    }
}

/// σ(n) is at most n², since each of the at most `n` divisors is at most `n`.
/// Callers may use this to show that σ(n) fits in a machine word.
pub proof fn lemma_sum_of_divisors_square_bound(n: nat)
    requires
        n >= 1,
    ensures
        sum_of_divisors(n) <= n * n,
{
    lemma_upto_linear_bound(n, n);
}

/// The divisors of `n` that lie in `1..=k` sum to at most `n·k`.
proof fn lemma_upto_linear_bound(n: nat, k: nat)
    requires
        k <= n,
    ensures
        sum_of_divisors_upto(n, k) <= n * k,
    decreases k,
{
    if k > 0 {
        lemma_upto_linear_bound(n, (k - 1) as nat);
        assert(n * ((k - 1) as nat) + n == n * k) by (nonlinear_arith)
            requires
                k >= 1,
        ;
    }
}

/// The divisor sum of a prime: only 1 divides `p` among `1..=k` when
/// `k < p`.
proof fn lemma_prime_upto(p: nat, k: nat)
    requires
        is_prime(p),
        1 <= k < p,
    ensures
        sum_of_divisors_upto(p, k) == 1,
    decreases k,
{
    if k == 1 {
        assert(p % 1 == 0) by (nonlinear_arith);
        assert(sum_of_divisors_upto(p, 0) == 0);
    } else {
        lemma_prime_upto(p, (k - 1) as nat);
    }
}

/// A prime `p` has exactly the divisors 1 and `p`, so σ(p) = p + 1.
pub proof fn lemma_sum_of_divisors_of_prime(p: nat)
    requires
        is_prime(p),
    ensures
        sum_of_divisors(p) == p + 1,
{
    lemma_prime_upto(p, (p - 1) as nat);
    lemma_mod_self_0(p as int);
}

} // verus!
