//! Overflow-aware integer helpers and the nonlinear facts the planners lean on.

use vstd::prelude::*;

verus! {

/// The product of all factors.
pub open spec fn product_of(factors: Seq<usize>) -> nat
    decreases factors.len(),
{
    if factors.len() == 0 {
        1
    } else {
        product_of(factors.drop_last()) * (factors.last() as nat)
    }
}

/// The product of the factors after position `i` bounds every shorter prefix
/// product, provided no factor is zero.
proof fn lemma_prefix_product(factors: Seq<usize>, i: int)
    requires
        0 <= i <= factors.len(),
        forall|j: int| 0 <= j < factors.len() ==> factors[j] > 0,
    ensures
        product_of(factors.take(i)) <= product_of(factors),
    decreases factors.len() - i,
{
    if i == factors.len() {
        assert(factors.take(i) =~= factors);
    } else {
        lemma_prefix_product(factors, i + 1);
        assert(factors.take(i + 1).drop_last() =~= factors.take(i));
        let p = product_of(factors.take(i));
        let f = factors[i] as nat;
        assert(p <= p * f) by (nonlinear_arith)
            requires
                f >= 1,
        ;
    }
}

/// A zero factor makes the whole product zero.
proof fn lemma_zero_product(factors: Seq<usize>, z: int)
    requires
        0 <= z < factors.len(),
        factors[z] == 0,
    ensures
        product_of(factors) == 0,
    decreases factors.len(),
{
    let p = product_of(factors.drop_last());
    let l = factors.last() as nat;
    if z == factors.len() - 1 {
        assert(p * l == 0) by (nonlinear_arith)
            requires
                l == 0,
        ;
    } else {
        lemma_zero_product(factors.drop_last(), z);
        assert(p * l == 0) by (nonlinear_arith)
            requires
                p == 0,
        ;
    }
}

/// Multiplies all factors; only the final product has to fit.
pub fn product(factors: &[usize]) -> (r: usize)
    requires
        product_of(factors@) <= usize::MAX,
    ensures
        r == product_of(factors@),
{
    let mut i: usize = 0;
    while i < factors.len()
        invariant
            i <= factors.len(),
            forall|j: int| 0 <= j < i ==> factors[j] > 0,
        decreases factors.len() - i,
    {
        if factors[i] == 0 {
            proof {
                lemma_zero_product(factors@, i as int);
            }
            return 0;
        }
        i += 1;
    }
    let mut r: usize = 1;
    let mut k: usize = 0;
    assert(factors@.take(0).len() == 0);
    while k < factors.len()
        invariant
            k <= factors.len(),
            forall|j: int| 0 <= j < factors.len() ==> factors[j] > 0,
            product_of(factors@) <= usize::MAX,
            r == product_of(factors@.take(k as int)),
        decreases factors.len() - k,
    {
        proof {
            lemma_prefix_product(factors@, k + 1);
            assert(factors@.take(k + 1).drop_last() =~= factors@.take(k as int));
        }
        r = r * factors[k];
        k += 1;
    }
    assert(factors@.take(k as int) =~= factors@);
    r
}

/// `a` divided by `b`, rounded up.
pub open spec fn ceil_div(a: int, b: int) -> int {
    (a + b - 1) / b
}

/// Rounds `a / b` up without forming `a + b - 1`.
pub fn div_ceil(a: usize, b: usize) -> (r: usize)
    requires
        b > 0,
    ensures
        r == ceil_div(a as int, b as int),
{
    let q: usize = a / b;
    let rem: usize = a % b;
    proof {
        lemma_ceil_div(a as int, b as int);
    }
    if rem == 0 {
        q
    } else {
        q + 1
    }
}

/// Rounding up adds one exactly when the division leaves a remainder.
pub proof fn lemma_ceil_div(a: int, b: int)
    requires
        a >= 0,
        b > 0,
    ensures
        ceil_div(a, b) == a / b + if a % b == 0 { 0int } else { 1int },
        0 <= a / b <= a,
        a % b != 0 ==> a / b + 1 <= a,
{
    let q = a / b;
    let r = a % b;
    assert(a == b * q + r) by {
        vstd::arithmetic::div_mod::lemma_fundamental_div_mod(a, b);
    }
    assert(0 <= r < b) by {
        vstd::arithmetic::div_mod::lemma_mod_bound(a, b);
    }
    assert(0 <= q) by (nonlinear_arith)
        requires
            a == b * q + r,
            0 <= r < b,
            a >= 0,
            b > 0,
    ;
    assert(q <= b * q) by (nonlinear_arith)
        requires
            b >= 1,
            q >= 0,
    ;
    if r == 0 {
        vstd::arithmetic::div_mod::lemma_fundamental_div_mod_converse(a + b - 1, b, q, b - 1);
    } else {
        assert(a + b - 1 == b * (q + 1) + (r - 1)) by (nonlinear_arith)
            requires
                a == b * q + r,
        ;
        vstd::arithmetic::div_mod::lemma_fundamental_div_mod_converse(a + b - 1, b, q + 1, r - 1);
    }
}

/// Scaling an index below a bound keeps the scaled index below the scaled bound.
pub proof fn lemma_scaled_index(i: int, n: int, k: int)
    requires
        0 <= i < n,
        k >= 0,
    ensures
        0 <= i * k,
        i * k + k <= n * k,
        i * k <= n * k,
{
    assert(0 <= i * k && i * k + k <= n * k) by (nonlinear_arith)
        requires
            0 <= i < n,
            k >= 0,
    ;
}

/// Multiplication by a non-negative factor is monotone.
pub proof fn lemma_mul_mono(a: int, b: int, k: int)
    requires
        0 <= a <= b,
        k >= 0,
    ensures
        0 <= a * k <= b * k,
{
    assert(0 <= a * k <= b * k) by (nonlinear_arith)
        requires
            0 <= a <= b,
            k >= 0,
    ;
}

/// What fits into `n` parts needs no more than `n`.
pub proof fn lemma_ceil_div_fits(a: int, b: int, n: int)
    requires
        0 <= a <= n * b,
        b > 0,
    ensures
        ceil_div(a, b) <= n,
{
    lemma_ceil_div(a, b);
    let (q, r) = (a / b, a % b);
    vstd::arithmetic::div_mod::lemma_fundamental_div_mod(a, b);
    vstd::arithmetic::div_mod::lemma_mod_bound(a, b);
    if r == 0 {
        assert(q <= n) by (nonlinear_arith)
            requires
                b * q <= n * b,
                b > 0,
        ;
    } else {
        assert(q < n) by (nonlinear_arith)
            requires
                b * q < n * b,
                b > 0,
        ;
    }
}

/// More needs no fewer parts.
pub proof fn lemma_ceil_div_mono(a: int, b: int, k: int)
    requires
        0 <= a <= b,
        k > 0,
    ensures
        ceil_div(a, k) <= ceil_div(b, k),
{
    lemma_ceil_div(b, k);
    let (q, r) = (b / k, b % k);
    vstd::arithmetic::div_mod::lemma_fundamental_div_mod(b, k);
    vstd::arithmetic::div_mod::lemma_mod_bound(b, k);
    let parts = ceil_div(b, k);
    assert(b <= parts * k) by (nonlinear_arith)
        requires
            b == k * q + r,
            0 <= r < k,
            parts == q + if r == 0 { 0int } else { 1int },
    ;
    lemma_ceil_div_fits(a, k, parts);
}

} // verus!
