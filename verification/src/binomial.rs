//! Binomial coefficients, by Pascal's rule.

use vstd::prelude::*;

verus! {

/// The number of ways to choose `k` items out of `n`.
pub open spec fn binomial(n: nat, k: nat) -> nat
    decreases n,
{
    if k == 0 {
        1
    } else if n == 0 {
        0
    } else {
        binomial((n - 1) as nat, (k - 1) as nat) + binomial((n - 1) as nat, k)
    }
}

/// The product `1 * 2 * ... * n`.
pub open spec fn factorial(n: nat) -> nat
    decreases n,
{
    if n == 0 {
        1
    } else {
        n * factorial((n - 1) as nat)
    }
}

/// Nothing can be chosen in more ways than zero when more is asked than there is.
pub proof fn lemma_binomial_zero(n: nat, k: nat)
    requires
        k > n,
    ensures
        binomial(n, k) == 0,
    decreases n,
{
    if n > 0 {
        lemma_binomial_zero((n - 1) as nat, (k - 1) as nat);
        lemma_binomial_zero((n - 1) as nat, k);
    }
}

/// There is exactly one way to choose everything.
pub proof fn lemma_binomial_all(n: nat)
    ensures
        binomial(n, n) == 1,
    decreases n,
{
    if n > 0 {
        lemma_binomial_all((n - 1) as nat);
        lemma_binomial_zero((n - 1) as nat, n);
    }
}

/// Pascal's rule agrees with the closed form `n! / (k! (n - k)!)`.
pub proof fn lemma_binomial_factorial(n: nat, k: nat)
    requires
        k <= n,
    ensures
        binomial(n, k) * factorial(k) * factorial((n - k) as nat) == factorial(n),
    decreases n,
{
    if k == 0 {
        assert(binomial(n, 0) == 1);
        assert(factorial(0) == 1);
        assert(1 * 1 * factorial(n) == factorial(n));
    } else if k == n {
        lemma_binomial_all(n);
        assert(factorial(0) == 1);
        assert(1 * factorial(n) * 1 == factorial(n));
    } else {
        let a = binomial((n - 1) as nat, (k - 1) as nat);
        let b = binomial((n - 1) as nat, k);
        let fk1 = factorial((k - 1) as nat);
        let fnk1 = factorial((n - k - 1) as nat);
        let fn1 = factorial((n - 1) as nat);
        lemma_binomial_factorial((n - 1) as nat, (k - 1) as nat);
        lemma_binomial_factorial((n - 1) as nat, k);
        assert(a * fk1 * factorial((n - k) as nat) == fn1);
        assert(b * factorial(k) * fnk1 == fn1);
        assert(factorial(k) == k * fk1);
        assert(factorial((n - k) as nat) == (n - k) * fnk1);
        assert(factorial(n) == n * fn1);
        let fk = factorial(k);
        let fnk = factorial((n - k) as nat);
        assert((a + b) * fk * fnk == n * fn1) by (nonlinear_arith)
            requires
                a * fk1 * fnk == fn1,
                b * fk * fnk1 == fn1,
                fk == k * fk1,
                fnk == (n - k) * fnk1,
        {
            assert(a * fk * fnk == k * (a * fk1 * fnk));
            assert(b * fk * fnk == (n - k) * (b * fk * fnk1));
        }
    }
}

} // verus!
