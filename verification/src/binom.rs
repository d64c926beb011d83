//! Binomial coefficients as a mathematical function, with the identities
//! that the executable computations of the crate rely on.

use vstd::prelude::*;
use vstd::arithmetic::div_mod::lemma_div_multiples_vanish;

verus! {

/// The binomial coefficient C(n, k), given by Pascal's rule.
pub open spec fn binom(n: nat, k: nat) -> nat
    decreases n,
{
    if k == 0 {
        1
    } else if n == 0 {
        0
    } else {
        binom((n - 1) as nat, (k - 1) as nat) + binom((n - 1) as nat, k)
    }
}

/// The smaller of two natural numbers.
pub open spec fn min_nat(a: nat, b: nat) -> nat {
    if a < b {
        a
    } else {
        b
    }
}

/// Whether every step `result * (n - i)` of the multiplicative computation of
/// C(n, k) fits in a `usize`; the steps run for i below min(k, n − k).
pub open spec fn binomial_steps_fit(n: nat, k: nat) -> bool {
    k > n || forall|i: nat|
        i < min_nat(k, (n - k) as nat) ==> #[trigger] binom(n, i) * (n - i) <= usize::MAX
}

/// The no-overflow condition of the multiplicative formula, written out:
/// it holds for k > n, and for k ≤ n exactly when C(n, i) · (n − i) fits in a
/// `usize` for every step i with i < k and i < n − k.
pub proof fn law_binomial_steps_fit_meaning(n: nat, k: nat, i: nat)
    ensures
        k > n ==> binomial_steps_fit(n, k),
        binomial_steps_fit(n, k) && k <= n && i < k && i < n - k ==> binom(n, i) * (n - i)
            <= usize::MAX,
        k <= n && !binomial_steps_fit(n, k) ==> exists|j: nat|
            j < k && j < n - k && #[trigger] binom(n, j) * (n - j) > usize::MAX,
{
}

/// C(n, k) vanishes when k exceeds n.
pub proof fn lemma_binom_above(n: nat, k: nat)
    requires
        k > n,
    ensures
        binom(n, k) == 0,
    decreases n,
{
    if n > 0 {
        lemma_binom_above((n - 1) as nat, (k - 1) as nat);
        lemma_binom_above((n - 1) as nat, k);
    }
}

/// C(n, k) is positive for k ≤ n.
pub proof fn lemma_binom_positive(n: nat, k: nat)
    requires
        k <= n,
    ensures
        binom(n, k) >= 1,
    decreases n,
{
    if k > 0 {
        lemma_binom_positive((n - 1) as nat, (k - 1) as nat);
    }
}

/// C(n, n) is one.
pub proof fn lemma_binom_diagonal(n: nat)
    ensures
        binom(n, n) == 1,
    decreases n,
{
    if n > 0 {
        lemma_binom_diagonal((n - 1) as nat);
        lemma_binom_above((n - 1) as nat, n);
    }
}

/// C(n, 1) is n.
pub proof fn lemma_binom_one(n: nat)
    ensures
        binom(n, 1) == n,
    decreases n,
{
    if n > 0 {
        lemma_binom_one((n - 1) as nat);
        assert(binom((n - 1) as nat, 0) == 1);
    }
}

/// Symmetry of the binomial coefficients: C(n, k) = C(n, n - k).
pub proof fn lemma_binom_symmetric(n: nat, k: nat)
    requires
        k <= n,
    ensures
        binom(n, k) == binom(n, (n - k) as nat),
    decreases n,
{
    if n == 0 {
    } else if k == 0 {
        lemma_binom_diagonal(n);
    } else if k == n {
        lemma_binom_diagonal(n);
    } else {
        let m = (n - 1) as nat;
        lemma_binom_symmetric(m, (k - 1) as nat);
        lemma_binom_symmetric(m, k);
        assert((m - (k - 1)) as nat == (n - k) as nat);
        assert(((n - k) - 1) as nat == (m - k) as nat);
    }
}

/// The step of the multiplicative formula:
/// C(n, k + 1) · (k + 1) = C(n, k) · (n − k).
pub proof fn lemma_binom_step(n: nat, k: nat)
    ensures
        binom(n, k + 1) * (k + 1) == binom(n, k) * (n - k),
    decreases n,
{
    if n == 0 {
        lemma_binom_above(0, k + 1);
        if k > 0 {
            lemma_binom_above(0, k);
        }
        assert(binom(0, k) * (0 - k) == 0) by (nonlinear_arith)
            requires
                k == 0 || binom(0, k) == 0,
        ;
        assert(binom(0, k + 1) * (k + 1) == 0) by (nonlinear_arith)
            requires
                binom(0, k + 1) == 0,
        ;
    } else {
        let m = (n - 1) as nat;
        if k == 0 {
            lemma_binom_one(n);
            assert(binom(n, 0) == 1);
            assert(binom(n, k + 1) * (k + 1) == binom(n, k) * (n - k)) by (nonlinear_arith)
                requires
                    k == 0,
                    binom(n, k + 1) == n,
                    binom(n, k) == 1,
            ;
        } else {
            lemma_binom_step(m, k);
            lemma_binom_step(m, (k - 1) as nat);
            let a = binom(m, (k - 1) as nat);
            let b = binom(m, k);
            let c = binom(m, k + 1);
            assert(binom(n, k + 1) == b + c);
            assert(binom(n, k) == a + b);
            assert((b + c) * (k + 1) == (a + b) * (n - k)) by (nonlinear_arith)
                requires
                    c * (k + 1) == b * (m - k),
                    b * k == a * (m - (k - 1)),
                    m == n - 1,
            ;
        }
    }
}


/// Each step of the multiplicative formula divides exactly:
/// C(n, i) · (n − i) / (i + 1) = C(n, i + 1).
pub proof fn lemma_binom_step_exact(n: nat, i: nat)
    requires
        i < n,
    ensures
        binom(n, i) * (n - i) == binom(n, i + 1) * (i + 1),
        (binom(n, i) * (n - i)) / ((i + 1) as int) == binom(n, i + 1),
{
    lemma_binom_step(n, i);
    lemma_div_multiples_vanish(binom(n, i + 1) as int, (i + 1) as int);
    assert(binom(n, i + 1) * (i + 1) == (i + 1) * binom(n, i + 1)) by (nonlinear_arith);
}

/// The factorial n! = 1 · 2 · ... · n.
pub open spec fn factorial(n: nat) -> nat
    decreases n,
{
    if n == 0 {
        1
    } else {
        n * factorial((n - 1) as nat)
    }
}

/// n! is positive.
pub proof fn lemma_factorial_positive(n: nat)
    ensures
        factorial(n) > 0,
    decreases n,
{
    if n > 0 {
        lemma_factorial_positive((n - 1) as nat);
        assert(n * factorial((n - 1) as nat) > 0) by (nonlinear_arith)
            requires
                n > 0,
                factorial((n - 1) as nat) > 0,
        ;
    }
}

/// The closed form of the binomial coefficient: C(n, k) · k! · (n − k)! = n!.
pub proof fn law_binom_factorial_form(n: nat, k: nat)
    requires
        k <= n,
    ensures
        binom(n, k) * factorial(k) * factorial((n - k) as nat) == factorial(n),
    decreases k,
{
    if k == 0 {
        assert(factorial(0) == 1);
        assert(binom(n, 0) == 1);
        assert(binom(n, 0) * factorial(0) * factorial(n) == factorial(n)) by (nonlinear_arith)
            requires
                binom(n, 0) == 1,
                factorial(0) == 1,
        ;
    } else {
        let j = (k - 1) as nat;
        law_binom_factorial_form(n, j);
        lemma_binom_step(n, j);
        let a = binom(n, j);
        let b = binom(n, k);
        let fj = factorial(j);
        let r = factorial((n - k) as nat);
        assert(factorial(k) == k * fj);
        assert(factorial((n - j) as nat) == (n - j) * r);
        assert(b * factorial(k) * r == factorial(n)) by (nonlinear_arith)
            requires
                b * k == a * (n - j),
                factorial(k) == k * fj,
                factorial((n - j) as nat) == (n - j) * r,
                a * fj * factorial((n - j) as nat) == factorial(n),
                k == j + 1,
        ;
    }
}

/// The closed form as a quotient: C(n, k) = n! / (k! · (n − k)!) for k ≤ n.
pub proof fn law_binom_factorial_quotient(n: nat, k: nat)
    requires
        k <= n,
    ensures
        binom(n, k) == factorial(n) / (factorial(k) * factorial((n - k) as nat)),
{
    law_binom_factorial_form(n, k);
    lemma_factorial_positive(k);
    lemma_factorial_positive((n - k) as nat);
    let d = factorial(k) * factorial((n - k) as nat);
    assert(d > 0) by (nonlinear_arith)
        requires
            factorial(k) > 0,
            factorial((n - k) as nat) > 0,
            d == factorial(k) * factorial((n - k) as nat),
    ;
    assert(d * binom(n, k) == factorial(n)) by (nonlinear_arith)
        requires
            binom(n, k) * factorial(k) * factorial((n - k) as nat) == factorial(n),
            d == factorial(k) * factorial((n - k) as nat),
    ;
    lemma_div_multiples_vanish(binom(n, k) as int, d as int);
}

/// C(n, k) grows with n: C(n, k) ≤ C(m, k) for n ≤ m.
pub proof fn lemma_binom_monotone(n: nat, m: nat, k: nat)
    requires
        n <= m,
    ensures
        binom(n, k) <= binom(m, k),
    decreases m,
{
    if n < m {
        lemma_binom_monotone(n, (m - 1) as nat, k);
    }
}

/// Below the middle, C(n, j) · j grows with j: C(n, j) · j ≤ C(n, h) · h for j ≤ h, 2h ≤ n.
pub proof fn lemma_binom_times_index_grows(n: nat, j: nat, h: nat)
    requires
        j <= h,
        2 * h <= n,
    ensures
        binom(n, j) * j <= binom(n, h) * h,
    decreases h - j,
{
    if j < h {
        lemma_binom_times_index_grows(n, j + 1, h);
        lemma_binom_step(n, j);
        assert(binom(n, j) * j <= binom(n, j + 1) * (j + 1)) by (nonlinear_arith)
            requires
                binom(n, j + 1) * (j + 1) == binom(n, j) * (n - j),
                j <= n - j,
        ;
    }
}

/// The largest step product C(n, i) · (n − i), over the steps i < min(k, n − k)
/// of the multiplicative formula, is at most C(big, big/2) · big/2 for n ≤ big
/// and big even.
pub proof fn lemma_binom_steps_bounded(n: nat, k: nat, i: nat, big: nat)
    requires
        k <= n,
        n <= big,
        big % 2 == 0,
        i < min_nat(k, (n - k) as nat),
    ensures
        binom(n, i) * (n - i) <= binom(big, big / 2) * (big / 2),
{
    let m = n / 2;
    let h = big / 2;
    lemma_binom_step(n, i);
    lemma_binom_times_index_grows(n, i + 1, m);
    lemma_binom_monotone(n, big, m);
    lemma_binom_times_index_grows(big, m, h);
    assert(binom(n, m) * m <= binom(big, m) * m) by (nonlinear_arith)
        requires
            binom(n, m) <= binom(big, m),
    ;
}

/// C(62, 31) = 465428353255261088.
pub proof fn lemma_binom_62_31()
    ensures
        binom(62, 31) == 465428353255261088,
{
    assert(binom(62, 0) == 1);
    lemma_binom_step_exact(62, 0);
    assert(binom(62, 0) * 62 == binom(62, 1) * 1);
    assert(binom(62, 1) == 62);
    lemma_binom_step_exact(62, 1);
    assert(binom(62, 1) * 61 == binom(62, 2) * 2);
    assert(binom(62, 2) == 1891);
    lemma_binom_step_exact(62, 2);
    assert(binom(62, 2) * 60 == binom(62, 3) * 3);
    assert(binom(62, 3) == 37820);
    lemma_binom_step_exact(62, 3);
    assert(binom(62, 3) * 59 == binom(62, 4) * 4);
    assert(binom(62, 4) == 557845);
    lemma_binom_step_exact(62, 4);
    assert(binom(62, 4) * 58 == binom(62, 5) * 5);
    assert(binom(62, 5) == 6471002);
    lemma_binom_step_exact(62, 5);
    assert(binom(62, 5) * 57 == binom(62, 6) * 6);
    assert(binom(62, 6) == 61474519);
    lemma_binom_step_exact(62, 6);
    assert(binom(62, 6) * 56 == binom(62, 7) * 7);
    assert(binom(62, 7) == 491796152);
    lemma_binom_step_exact(62, 7);
    assert(binom(62, 7) * 55 == binom(62, 8) * 8);
    assert(binom(62, 8) == 3381098545);
    lemma_binom_step_exact(62, 8);
    assert(binom(62, 8) * 54 == binom(62, 9) * 9);
    assert(binom(62, 9) == 20286591270);
    lemma_binom_step_exact(62, 9);
    assert(binom(62, 9) * 53 == binom(62, 10) * 10);
    assert(binom(62, 10) == 107518933731);
    lemma_binom_step_exact(62, 10);
    assert(binom(62, 10) * 52 == binom(62, 11) * 11);
    assert(binom(62, 11) == 508271323092);
    lemma_binom_step_exact(62, 11);
    assert(binom(62, 11) * 51 == binom(62, 12) * 12);
    assert(binom(62, 12) == 2160153123141);
    lemma_binom_step_exact(62, 12);
    assert(binom(62, 12) * 50 == binom(62, 13) * 13);
    assert(binom(62, 13) == 8308281242850);
    lemma_binom_step_exact(62, 13);
    assert(binom(62, 13) * 49 == binom(62, 14) * 14);
    assert(binom(62, 14) == 29078984349975);
    lemma_binom_step_exact(62, 14);
    assert(binom(62, 14) * 48 == binom(62, 15) * 15);
    assert(binom(62, 15) == 93052749919920);
    lemma_binom_step_exact(62, 15);
    assert(binom(62, 15) * 47 == binom(62, 16) * 16);
    assert(binom(62, 16) == 273342452889765);
    lemma_binom_step_exact(62, 16);
    assert(binom(62, 16) * 46 == binom(62, 17) * 17);
    assert(binom(62, 17) == 739632519584070);
    lemma_binom_step_exact(62, 17);
    assert(binom(62, 17) * 45 == binom(62, 18) * 18);
    assert(binom(62, 18) == 1849081298960175);
    lemma_binom_step_exact(62, 18);
    assert(binom(62, 18) * 44 == binom(62, 19) * 19);
    assert(binom(62, 19) == 4282083008118300);
    lemma_binom_step_exact(62, 19);
    assert(binom(62, 19) * 43 == binom(62, 20) * 20);
    assert(binom(62, 20) == 9206478467454345);
    lemma_binom_step_exact(62, 20);
    assert(binom(62, 20) * 42 == binom(62, 21) * 21);
    assert(binom(62, 21) == 18412956934908690);
    lemma_binom_step_exact(62, 21);
    assert(binom(62, 21) * 41 == binom(62, 22) * 22);
    assert(binom(62, 22) == 34315056105966195);
    lemma_binom_step_exact(62, 22);
    assert(binom(62, 22) * 40 == binom(62, 23) * 23);
    assert(binom(62, 23) == 59678358445158600);
    lemma_binom_step_exact(62, 23);
    assert(binom(62, 23) * 39 == binom(62, 24) * 24);
    assert(binom(62, 24) == 96977332473382725);
    lemma_binom_step_exact(62, 24);
    assert(binom(62, 24) * 38 == binom(62, 25) * 25);
    assert(binom(62, 25) == 147405545359541742);
    lemma_binom_step_exact(62, 25);
    assert(binom(62, 25) * 37 == binom(62, 26) * 26);
    assert(binom(62, 26) == 209769429934732479);
    lemma_binom_step_exact(62, 26);
    assert(binom(62, 26) * 36 == binom(62, 27) * 27);
    assert(binom(62, 27) == 279692573246309972);
    lemma_binom_step_exact(62, 27);
    assert(binom(62, 27) * 35 == binom(62, 28) * 28);
    assert(binom(62, 28) == 349615716557887465);
    lemma_binom_step_exact(62, 28);
    assert(binom(62, 28) * 34 == binom(62, 29) * 29);
    assert(binom(62, 29) == 409894288378212890);
    lemma_binom_step_exact(62, 29);
    assert(binom(62, 29) * 33 == binom(62, 30) * 30);
    assert(binom(62, 30) == 450883717216034179);
    lemma_binom_step_exact(62, 30);
    assert(binom(62, 30) * 32 == binom(62, 31) * 31);
    assert(binom(62, 31) == 465428353255261088);
}

/// C(30, 15) = 155117520.
pub proof fn lemma_binom_30_15()
    ensures
        binom(30, 15) == 155117520,
{
    assert(binom(30, 0) == 1);
    lemma_binom_step_exact(30, 0);
    assert(binom(30, 0) * 30 == binom(30, 1) * 1);
    assert(binom(30, 1) == 30);
    lemma_binom_step_exact(30, 1);
    assert(binom(30, 1) * 29 == binom(30, 2) * 2);
    assert(binom(30, 2) == 435);
    lemma_binom_step_exact(30, 2);
    assert(binom(30, 2) * 28 == binom(30, 3) * 3);
    assert(binom(30, 3) == 4060);
    lemma_binom_step_exact(30, 3);
    assert(binom(30, 3) * 27 == binom(30, 4) * 4);
    assert(binom(30, 4) == 27405);
    lemma_binom_step_exact(30, 4);
    assert(binom(30, 4) * 26 == binom(30, 5) * 5);
    assert(binom(30, 5) == 142506);
    lemma_binom_step_exact(30, 5);
    assert(binom(30, 5) * 25 == binom(30, 6) * 6);
    assert(binom(30, 6) == 593775);
    lemma_binom_step_exact(30, 6);
    assert(binom(30, 6) * 24 == binom(30, 7) * 7);
    assert(binom(30, 7) == 2035800);
    lemma_binom_step_exact(30, 7);
    assert(binom(30, 7) * 23 == binom(30, 8) * 8);
    assert(binom(30, 8) == 5852925);
    lemma_binom_step_exact(30, 8);
    assert(binom(30, 8) * 22 == binom(30, 9) * 9);
    assert(binom(30, 9) == 14307150);
    lemma_binom_step_exact(30, 9);
    assert(binom(30, 9) * 21 == binom(30, 10) * 10);
    assert(binom(30, 10) == 30045015);
    lemma_binom_step_exact(30, 10);
    assert(binom(30, 10) * 20 == binom(30, 11) * 11);
    assert(binom(30, 11) == 54627300);
    lemma_binom_step_exact(30, 11);
    assert(binom(30, 11) * 19 == binom(30, 12) * 12);
    assert(binom(30, 12) == 86493225);
    lemma_binom_step_exact(30, 12);
    assert(binom(30, 12) * 18 == binom(30, 13) * 13);
    assert(binom(30, 13) == 119759850);
    lemma_binom_step_exact(30, 13);
    assert(binom(30, 13) * 17 == binom(30, 14) * 14);
    assert(binom(30, 14) == 145422675);
    lemma_binom_step_exact(30, 14);
    assert(binom(30, 14) * 16 == binom(30, 15) * 15);
    assert(binom(30, 15) == 155117520);
}

/// On every target, each C(n, k) with n ≤ 30 is computed by the
/// multiplicative formula without overflow.
pub proof fn law_binomial_fits_up_to_30(n: nat, k: nat)
    requires
        n <= 30,
    ensures
        binomial_steps_fit(n, k),
{
    if k <= n {
        assert forall|i: nat| i < min_nat(k, (n - k) as nat) implies #[trigger] binom(n, i) * (n
            - i) <= usize::MAX by {
            lemma_binom_steps_bounded(n, k, i, 30);
            lemma_binom_30_15();
        }
    }
}

/// On a 64-bit target, each C(n, k) with n ≤ 62 is computed by the
/// multiplicative formula without overflow.
pub proof fn law_binomial_fits_up_to_62_on_64_bit(n: nat, k: nat)
    requires
        usize::MAX == u64::MAX,
        n <= 62,
    ensures
        binomial_steps_fit(n, k),
{
    if k <= n {
        assert forall|i: nat| i < min_nat(k, (n - k) as nat) implies #[trigger] binom(n, i) * (n
            - i) <= usize::MAX by {
            lemma_binom_steps_bounded(n, k, i, 62);
            lemma_binom_62_31();
        }
    }
}

} // verus!
