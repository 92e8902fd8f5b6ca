//! Impedance-matching design: the binomial weights of a multi-section
//! quarter-wave transformer and the tag of an L-network's topology.

use vstd::prelude::*;
use vstd::arithmetic::div_mod::lemma_div_by_multiple;
use vstd::arithmetic::power2::{pow2, lemma_pow2_unfold, lemma2_to64};

verus! {

/// L-network matching topology.
#[derive(Debug, Clone, Copy, PartialEq, Eq, Structural)]
pub enum LNetworkTopology {
    /// Series element first (closer to source), then shunt element.
    SeriesShunt,
    /// Shunt element first, then series element.
    ShuntSeries,
}

/// The binomial coefficient C(n, k): the number of ways to pick `k` of `n`
/// things, given by Pascal's rule.
pub open spec fn binom(n: nat, k: nat) -> nat
    decreases n,
{
    if k == 0 {
        1
    } else if n == 0 {
        0
    } else {
        binom((n - 1) as nat, (k - 1) as nat) + binom((n - 1) as nat, k)
    }
}

/// The smaller of `k` and `n - k`: the number of factors that the
/// multiplicative formula for C(n, k) needs.
pub open spec fn short_side(n: nat, k: nat) -> nat
    recommends
        k <= n,
{
    if k <= n - k {
        k
    } else {
        (n - k) as nat
    }
}

/// Whether C(n, k) can be computed by the multiplicative formula in machine
/// words: the largest product formed on the way, C(n, m)·m with
/// m = min(k, n − k), fits in a `usize`. For `k > n` nothing is multiplied.
pub open spec fn binomial_fits(n: nat, k: nat) -> bool {
    k <= n ==> binom(n, short_side(n, k)) * short_side(n, k) <= usize::MAX
}

/// The sum of the first `count` entries of row `n` of Pascal's triangle.
pub open spec fn row_prefix_sum(n: nat, count: nat) -> nat
    decreases count,
{
    if count == 0 {
        0
    } else {
        row_prefix_sum(n, (count - 1) as nat) + binom(n, (count - 1) as nat)
    }
}

/// Nothing can be picked in more ways than zero when more is asked for than
/// there is: C(n, k) = 0 for k > n.
pub proof fn lemma_binom_beyond_row(n: nat, k: nat)
    requires
        k > n,
    ensures
        binom(n, k) == 0,
    decreases n,
{
    if n > 0 {
        lemma_binom_beyond_row((n - 1) as nat, (k - 1) as nat);
        lemma_binom_beyond_row((n - 1) as nat, k);
    }
}

/// C(n, n) = 1.
pub proof fn lemma_binom_all(n: nat)
    ensures
        binom(n, n) == 1,
    decreases n,
{
    if n > 0 {
        lemma_binom_all((n - 1) as nat);
        lemma_binom_beyond_row((n - 1) as nat, n);
    }
}

/// The step of the multiplicative formula:
/// C(n, k)·(n − k) = C(n, k + 1)·(k + 1).
pub proof fn lemma_binom_step(n: nat, k: nat)
    ensures
        binom(n, k) * (n - k) == binom(n, k + 1) * (k + 1),
    decreases n,
{
    let x = binom(n, k);
    let y = binom(n, k + 1);
    if n == 0 {
        lemma_binom_beyond_row(0, k + 1);
        if k > 0 {
            lemma_binom_beyond_row(0, k);
        }
        assert(x * (n - k) == y * (k + 1)) by (nonlinear_arith)
            requires
                y == 0,
                x == 0 || n - k == 0,
        ;
    } else if k == 0 {
        let p = (n - 1) as nat;
        let b = binom(p, 1);
        lemma_binom_step(p, 0);
        assert(binom(p, 0) == 1);
        assert(b == p) by (nonlinear_arith)
            requires
                1 * (p - 0) == b * (0 + 1),
        ;
        assert(y == binom(p, 0) + b);
        assert(x * (n - k) == y * (k + 1)) by (nonlinear_arith)
            requires
                x == 1,
                y == n,
                k == 0,
        ;
    } else {
        let p = (n - 1) as nat;
        let a = binom(p, (k - 1) as nat);
        let b = binom(p, k);
        let c = binom(p, k + 1);
        lemma_binom_step(p, (k - 1) as nat);
        lemma_binom_step(p, k);
        assert(((k - 1) as nat) + 1 == k);
        assert(x == a + b);
        assert(y == b + c);
        assert(x * (n - k) == y * (k + 1)) by (nonlinear_arith)
            requires
                x == a + b,
                y == b + c,
                a * (p - (k - 1)) == b * k,
                b * (p - k) == c * (k + 1),
                p == n - 1,
        ;
    }
}

/// n! = 1·2·…·n.
pub open spec fn factorial(n: nat) -> nat
    decreases n,
{
    if n == 0 {
        1
    } else {
        n * factorial((n - 1) as nat)
    }
}

/// The closed form of the binomial coefficient, without the division:
/// C(n, k)·k!·(n − k)! = n! for k ≤ n.
pub proof fn lemma_binom_factorials(n: nat, k: nat)
    requires
        k <= n,
    ensures
        binom(n, k) * factorial(k) * factorial((n - k) as nat) == factorial(n),
    decreases k,
{
    if k == 0 {
        assert(binom(n, 0) * factorial(0) * factorial(n) == factorial(n)) by (nonlinear_arith)
            requires
                binom(n, 0) == 1,
                factorial(0) == 1,
        ;
    } else {
        let j = (k - 1) as nat;
        let x = binom(n, j);
        let y = binom(n, k);
        let fj = factorial(j);
        let fk = factorial(k);
        let rest = factorial((n - k) as nat);
        let rest_before = factorial((n - j) as nat);
        lemma_binom_factorials(n, j);
        lemma_binom_step(n, j);
        assert(fk == k * fj);
        assert(rest_before == (n - j) * rest);
        assert(y * fk * rest == x * fj * rest_before) by (nonlinear_arith)
            requires
                x * (n - j) == y * k,
                fk == k * fj,
                rest_before == (n - j) * rest,
        ;
    }
}

/// Picking `k` of `n` is leaving `n − k` of them: C(n, k) = C(n, n − k).
pub proof fn lemma_binom_symmetric(n: nat, k: nat)
    requires
        k <= n,
    ensures
        binom(n, k) == binom(n, (n - k) as nat),
    decreases n,
{
    if k == 0 || k == n {
        lemma_binom_all(n);
    } else {
        let p = (n - 1) as nat;
        lemma_binom_symmetric(p, (k - 1) as nat);
        lemma_binom_symmetric(p, k);
        assert(binom(n, k) == binom(p, (k - 1) as nat) + binom(p, k));
        assert(binom(n, (n - k) as nat) == binom(p, (n - k - 1) as nat) + binom(p, (n - k) as nat));
    }
}

/// In the first half of a row the entries do not fall:
/// C(n, j) ≤ C(n, j + 1) whenever 2·(j + 1) ≤ n + 1.
pub proof fn lemma_binom_rises(n: nat, j: nat)
    requires
        2 * (j + 1) <= n + 1,
    ensures
        binom(n, j) <= binom(n, j + 1),
{
    lemma_binom_step(n, j);
    let x = binom(n, j);
    let y = binom(n, j + 1);
    assert(x <= y) by (nonlinear_arith)
        requires
            x * (n - j) == y * (j + 1),
            n - j >= j + 1,
            j + 1 > 0,
            x >= 0,
            y >= 0,
    ;
}

/// Every product that the multiplicative formula forms on the way to
/// C(n, m), with m in the first half of the row, is at most the last one:
/// C(n, j)·j ≤ C(n, m)·m for j ≤ m.
pub proof fn lemma_products_rise(n: nat, j: nat, m: nat)
    requires
        j <= m,
        2 * m <= n,
    ensures
        binom(n, j) * j <= binom(n, m) * m,
    decreases m - j,
{
    if j < m {
        lemma_binom_rises(n, j);
        lemma_products_rise(n, j + 1, m);
        let x = binom(n, j);
        let y = binom(n, j + 1);
        assert(x * j <= y * (j + 1)) by (nonlinear_arith)
            requires
                x <= y,
                x >= 0,
                j >= 0,
        ;
    }
}

/// Row `n + 1` of Pascal's triangle, summed over its first `count` entries,
/// is row `n` summed over its first `count − 1` and its first `count`.
pub proof fn lemma_row_prefix_pascal(n: nat, count: nat)
    requires
        count >= 1,
    ensures
        row_prefix_sum(n + 1, count) == row_prefix_sum(n, (count - 1) as nat) + row_prefix_sum(
            n,
            count,
        ),
    decreases count,
{
    if count == 1 {
        assert(row_prefix_sum(n + 1, 0) == 0);
        assert(row_prefix_sum(n, 0) == 0);
        assert(row_prefix_sum(n + 1, 1) == row_prefix_sum(n + 1, 0) + binom(n + 1, 0));
        assert(row_prefix_sum(n, 1) == row_prefix_sum(n, 0) + binom(n, 0));
    } else {
        let c = (count - 1) as nat;
        lemma_row_prefix_pascal(n, c);
        assert(row_prefix_sum(n + 1, count) == row_prefix_sum(n + 1, c) + binom(n + 1, c));
        assert(binom(n + 1, c) == binom(n, (c - 1) as nat) + binom(n, c));
        assert(row_prefix_sum(n, c) == row_prefix_sum(n, (c - 1) as nat) + binom(
            n,
            (c - 1) as nat,
        ));
        assert(row_prefix_sum(n, count) == row_prefix_sum(n, c) + binom(n, c));
    }
}

/// A whole row of Pascal's triangle sums to a power of two:
/// C(n, 0) + … + C(n, n) = 2ⁿ.
pub proof fn lemma_row_sum(n: nat)
    ensures
        row_prefix_sum(n, n + 1) == pow2(n),
    decreases n,
{
    if n == 0 {
        lemma2_to64();
        assert(row_prefix_sum(0, 0) == 0);
        assert(row_prefix_sum(0, 1) == row_prefix_sum(0, 0) + binom(0, 0));
    } else {
        let p = (n - 1) as nat;
        lemma_row_sum(p);
        lemma_row_prefix_pascal(p, n + 1);
        lemma_binom_beyond_row(p, n);
        assert(row_prefix_sum(p, n + 1) == row_prefix_sum(p, n) + binom(p, n));
        lemma_pow2_unfold(n);
    }
}

/// The weights C(n, k) / 2ⁿ of the `n` sections of a binomial transformer,
/// k = 0, …, n − 1, fall short of one by exactly the weight 1 / 2ⁿ of the
/// junction between the last section and the load:
/// C(n, 0) + … + C(n, n − 1) + 1 = 2ⁿ.
pub proof fn lemma_section_weights_sum(n: nat)
    ensures
        row_prefix_sum(n, n) + 1 == pow2(n),
{
    lemma_row_sum(n);
    lemma_binom_all(n);
    assert(row_prefix_sum(n, n + 1) == row_prefix_sum(n, n) + binom(n, n));
}

/// Compute the binomial coefficient C(n, k) by the multiplicative formula,
/// over the shorter side of the row.
pub fn binomial(n: usize, k: usize) -> (result: usize)
    requires
        binomial_fits(n as nat, k as nat),
    ensures
        result == binom(n as nat, k as nat),
{
    if k > n {
        proof {
            lemma_binom_beyond_row(n as nat, k as nat);
        }
        return 0;
    }
    let m: usize = if k <= n - k {
        k
    } else {
        n - k
    };
    proof {
        lemma_binom_symmetric(n as nat, k as nat);
    }
    let mut result: usize = 1;
    for i in 0..m
        invariant
            2 * m <= n,
            result == binom(n as nat, i as nat),
            binom(n as nat, m as nat) * m <= usize::MAX,
    {
        proof {
            lemma_binom_step(n as nat, i as nat);
            lemma_products_rise(n as nat, (i + 1) as nat, m as nat);
            lemma_div_by_multiple(binom(n as nat, (i + 1) as nat) as int, (i + 1) as int);
        }
        result = result * (n - i) / (i + 1);
    }
    result
}

/// Compute C(n, k) as [`binomial`] does, or report that a product formed on
/// the way does not fit in a machine word.
pub fn binomial_checked(n: usize, k: usize) -> (result: Option<usize>)
    ensures
        result.is_some() <==> binomial_fits(n as nat, k as nat),
        result.is_some() ==> result.unwrap() == binom(n as nat, k as nat),
{
    if k > n {
        proof {
            lemma_binom_beyond_row(n as nat, k as nat);
        }
        return Some(0);
    }
    let m: usize = if k <= n - k {
        k
    } else {
        n - k
    };
    proof {
        lemma_binom_symmetric(n as nat, k as nat);
    }
    let mut result: usize = 1;
    for i in 0..m
        invariant
            k <= n,
            m == short_side(n as nat, k as nat),
            2 * m <= n,
            result == binom(n as nat, i as nat),
            binom(n as nat, i as nat) * i <= usize::MAX,
    {
        proof {
            lemma_binom_step(n as nat, i as nat);
            lemma_products_rise(n as nat, (i + 1) as nat, m as nat);
            lemma_div_by_multiple(binom(n as nat, (i + 1) as nat) as int, (i + 1) as int);
        }
        match result.checked_mul(n - i) {
            Some(product) => {
                result = product / (i + 1);
            },
            None => {
                return None;
            },
        }
    }
    Some(result)
}

/// Whether every weight of an `n`-section binomial transformer, C(n, 0) to
/// C(n, n − 1), can be computed in machine words.
pub open spec fn weights_fit(n: nat) -> bool {
    forall|k: nat| k < n ==> #[trigger] binomial_fits(n, k)
}

/// The weights of an `n`-section transformer all fit exactly when the one in
/// the middle of the row does: its product is the largest that is formed.
pub proof fn lemma_weights_fit_by_middle(n: nat)
    ensures
        weights_fit(n) <==> (n == 0 || binomial_fits(n, n / 2)),
{
    let mid = n / 2;
    if n > 0 && binomial_fits(n, mid) {
        assert(short_side(n, mid) == mid);
        assert forall|k: nat| k < n implies #[trigger] binomial_fits(n, k) by {
            lemma_products_rise(n, short_side(n, k), mid);
        }
    }
    if n > 0 && weights_fit(n) {
        assert(binomial_fits(n, mid));
    }
}

/// The integer weights of an N-section binomial (maximally flat) quarter-wave
/// transformer, from source to load: section `k` steps the impedance by the
/// factor (R_L / Z₀) ^ (C(N, k) / 2ᴺ), and this is the list of the C(N, k) for
/// k = 0, …, N − 1. `None` where one of them cannot be computed in machine
/// words.
pub fn section_weights(num_sections: usize) -> (weights: Option<Vec<usize>>)
    ensures
        weights.is_some() <==> weights_fit(num_sections as nat),
        weights.is_some() ==> weights.unwrap()@.len() == num_sections,
        weights.is_some() ==> forall|k: int|
            0 <= k < num_sections ==> #[trigger] weights.unwrap()@[k] == binom(
                num_sections as nat,
                k as nat,
            ),
{
    let mut weights: Vec<usize> = Vec::new();
    for i in 0..num_sections
        invariant
            weights@.len() == i,
            forall|k: nat| k < i ==> #[trigger] binomial_fits(num_sections as nat, k),
            forall|k: int|
                0 <= k < i ==> #[trigger] weights@[k] == binom(num_sections as nat, k as nat),
    {
        match binomial_checked(num_sections, i) {
            Some(coefficient) => {
                weights.push(coefficient);
            },
            None => {
                assert(!binomial_fits(num_sections as nat, i as nat));
                return None;
            },
        }
    }
    Some(weights)
}

} // verus!
