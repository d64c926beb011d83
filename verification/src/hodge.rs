//! Hodge theory on Kähler manifolds: Hodge and Betti numbers of CP^n,
//! the hard Lefschetz theorem and the sizes of the Lefschetz operators.

use vstd::prelude::*;
use crate::binom::{
    binom, binomial_steps_fit, factorial, law_binom_factorial_quotient,
    law_binomial_fits_up_to_30, law_binomial_fits_up_to_62_on_64_bit, lemma_binom_step_exact,
    lemma_binom_positive, lemma_binom_symmetric, min_nat,
};

verus! {

/// The Hodge number h^{p,q} of CP^n: one on the diagonal p = q ≤ n, zero elsewhere.
pub open spec fn hodge_cp(n: nat, p: nat, q: nat) -> nat {
    if p == q && p <= n {
        1
    } else {
        0
    }
}

/// The Betti number b_k of CP^n: one in every even degree up to 2n, zero elsewhere.
pub open spec fn betti_cp(n: nat, k: nat) -> nat {
    if k <= 2 * n && k % 2 == 0 {
        1
    } else {
        0
    }
}

/// Σ_{p < upto} h^{p, k-p} of CP^n: the first `upto` terms of the Hodge
/// decomposition of the degree-k cohomology.
pub open spec fn hodge_sum(n: nat, k: nat, upto: nat) -> nat
    decreases upto,
{
    if upto == 0 {
        0
    } else {
        let p = (upto - 1) as nat;
        hodge_sum(n, k, p) + hodge_cp(n, p, (k - p) as nat)
    }
}

/// The side of the matrix of L: ∧^k → ∧^{k+2} on a manifold of complex
/// dimension n: min(C(2n, k), C(2n, k + 2)), or zero past the top degree 2n.
pub open spec fn lefschetz_size(n: nat, k: nat) -> nat {
    if k + 2 > 2 * n {
        0
    } else {
        min_nat(binom(2 * n, k), binom(2 * n, k + 2))
    }
}

/// The side of the matrix of Λ: ∧^k → ∧^{k-2}: min(C(2n, k), C(2n, k − 2)),
/// or zero for k < 2.
pub open spec fn dual_lefschetz_size(n: nat, k: nat) -> nat {
    if k < 2 {
        0
    } else {
        min_nat(binom(2 * n, k), binom(2 * n, (k - 2) as nat))
    }
}

/// Hodge-theoretic computations on a Kähler manifold of given complex dimension.
pub struct HodgeTheory {
    complex_dim: usize,
}

impl View for HodgeTheory {
    type V = nat;

    /// The complex dimension n of the manifold.
    closed spec fn view(&self) -> nat {
        self.complex_dim as nat
    }
}

impl HodgeTheory {
    /// Create a Hodge theory context for a manifold of given complex dimension.
    pub fn new(complex_dim: usize) -> (r: Self)
        ensures
            r@ == complex_dim,
    {
        Self { complex_dim }
    }

    /// The Hodge numbers h^{p,q} = dim H^{p,q}(M).
    /// For CP^n: h^{p,p} = 1 for 0 ≤ p ≤ n, all others zero.
    pub fn hodge_number_cp_n(&self, p: usize, q: usize) -> (r: usize)
        ensures
            r == hodge_cp(self@, p as nat, q as nat),
    {
        if p == q && p <= self.complex_dim {
            1
        } else {
            0
        }
    }

    /// The binomial coefficient C(n, k), by the multiplicative formula over
    /// min(k, n − k) steps. Each step divides exactly. The result is
    /// n! / (k! (n − k)!), and zero for k > n.
    pub fn binomial(&self, n: usize, k: usize) -> (r: usize)
        requires
            binomial_steps_fit(n as nat, k as nat),
        ensures
            r == binom(n as nat, k as nat),
            r == (if k > n {
                0
            } else {
                factorial(n as nat) / (factorial(k as nat) * factorial((n - k) as nat))
            }),
    {
        if k <= n {
            proof {
                law_binom_factorial_quotient(n as nat, k as nat);
            }
        }
        if k > n {
            proof {
                crate::binom::lemma_binom_above(n as nat, k as nat);
            }
            return 0;
        }
        let m: usize = if k < n - k {
            k
        } else {
            n - k
        };
        let mut result: usize = 1;
        for i in 0..m
            invariant
                m == min_nat(k as nat, (n - k) as nat),
                k <= n,
                binomial_steps_fit(n as nat, k as nat),
                result == binom(n as nat, i as nat),
        {
            proof {
                lemma_binom_step_exact(n as nat, i as nat);
                assert(binom(n as nat, i as nat) * (n - i) <= usize::MAX);
            }
            let prod: usize = result * (n - i);
            result = prod / (i + 1);
        }
        proof {
            lemma_binom_symmetric(n as nat, k as nat);
        }
        result
    }

    /// Whether `binomial(n, k)` runs without overflow: every step of its
    /// multiplicative computation fits in a `usize`.
    pub fn binomial_fits(&self, n: usize, k: usize) -> (r: bool)
        ensures
            r == binomial_steps_fit(n as nat, k as nat),
    {
        if k > n {
            return true;
        }
        let m: usize = if k < n - k {
            k
        } else {
            n - k
        };
        let mut result: usize = 1;
        for i in 0..m
            invariant
                m == min_nat(k as nat, (n - k) as nat),
                k <= n,
                result == binom(n as nat, i as nat),
                forall|i2: nat| i2 < i ==> #[trigger] binom(n as nat, i2) * (n - i2) <= usize::MAX,
        {
            proof {
                lemma_binom_step_exact(n as nat, i as nat);
            }
            match result.checked_mul(n - i) {
                Some(prod) => {
                    result = prod / (i + 1);
                },
                None => {
                    proof {
                        assert(binom(n as nat, i as nat) * (n - i) > usize::MAX);
                    }
                    return false;
                },
            }
        }
        true
    }

    /// Verify the hard Lefschetz theorem:
    /// L^{n-k}: H^k → H^{2n-k} is an isomorphism for k ≤ n.
    /// The dimensions C(2n, k) and C(2n, 2n − k) of the two sides always agree.
    pub fn hard_lefschetz_is_isomorphism(&self, k: usize) -> (r: bool)
        requires
            k <= self@ ==> 2 * self@ <= usize::MAX && binomial_steps_fit(2 * self@, k as nat),
        ensures
            r,
    {
        let n = self.complex_dim;
        if k > n {
            return true;
        }
        proof {
            let t = 2 * self@;
            assert((t - (t - k)) as nat == k);
            assert(min_nat(k as nat, (t - k) as nat) == min_nat((t - k) as nat, (t - (t - k)) as nat));
            assert(binomial_steps_fit(t, (t - k) as nat));
            lemma_binom_symmetric(t, k as nat);
        }
        let dim_source = self.binomial(2 * n, k);
        let dim_target = self.binomial(2 * n, 2 * n - k);
        dim_source == dim_target
    }

    /// Betti numbers from Hodge decomposition: b_k = Σ_{p+q=k} h^{p,q}.
    /// For CP^n: b_0 = b_2 = b_4 = ... = 1 (even), b_odd = 0.
    pub fn betti_number_cp_n(&self, k: usize) -> (r: usize)
        requires
            2 * self@ <= usize::MAX,
        ensures
            r == betti_cp(self@, k as nat),
    {
        if k > 2 * self.complex_dim {
            return 0;
        }
        if k % 2 == 0 && k <= 2 * self.complex_dim {
            1
        } else {
            0
        }
    }

    /// The size of the Lefschetz operator L: ∧^k → ∧^{k+2} (wedge with ω) in
    /// the basis of forms: the identity block of side min(C(2n, k), C(2n, k + 2)),
    /// or zero when k + 2 exceeds the top degree 2n.
    pub fn lefschetz_matrix_size(&self, k: usize) -> (r: usize)
        requires
            2 * self@ <= usize::MAX,
            k + 2 <= usize::MAX,
            k + 2 <= 2 * self@ ==> binomial_steps_fit(2 * self@, k as nat)
                && binomial_steps_fit(2 * self@, (k + 2) as nat),
        ensures
            r == lefschetz_size(self@, k as nat),
    {
        let n = self.complex_dim;
        let max_deg = 2 * n;
        if k + 2 > max_deg {
            return 0;
        }
        let dim_source = self.binomial(2 * n, k);
        let dim_target = self.binomial(2 * n, k + 2);
        if dim_target < dim_source {
            dim_target
        } else {
            dim_source
        }
    }

    /// The size of the dual Lefschetz operator Λ = L*: ∧^k → ∧^{k-2}: the
    /// identity block of side min(C(2n, k), C(2n, k − 2)), or zero for k < 2.
    pub fn dual_lefschetz_matrix_size(&self, k: usize) -> (r: usize)
        requires
            2 * self@ <= usize::MAX,
            k >= 2 ==> binomial_steps_fit(2 * self@, k as nat)
                && binomial_steps_fit(2 * self@, (k - 2) as nat),
        ensures
            r == dual_lefschetz_size(self@, k as nat),
    {
        let n = self.complex_dim;
        let _max_deg = 2 * n;
        if k < 2 {
            return 0;
        }
        let dim_source = self.binomial(2 * n, k);
        let dim_target = self.binomial(2 * n, k - 2);
        if dim_target < dim_source {
            dim_target
        } else {
            dim_source
        }
    }

    /// The number of primitive components in the Lefschetz decomposition of
    /// a k-form: one for each r = 0, 1, ..., min(k, n) / 2.
    pub fn num_primitive_components(&self, k: usize) -> (r: usize)
        ensures
            r == min_nat(k as nat, self@) / 2 + 1,
            r == (if k < self@ {
                k as nat
            } else {
                self@
            }) / 2 + 1,
    {
        let n = self.complex_dim;
        let bound: usize = if k < n {
            k
        } else {
            n
        };
        bound / 2 + 1
    }

    /// Complex dimension.
    pub fn complex_dim(&self) -> (r: usize)
        ensures
            r == self@,
    {
        self.complex_dim
    }
}

/// The first `upto` terms of the Hodge decomposition of H^k(CP^n) add up to
/// one exactly when the middle term h^{k/2, k/2} (k even, k/2 ≤ n) is among them.
proof fn lemma_hodge_sum_partial(n: nat, k: nat, upto: nat)
    requires
        upto <= k + 1,
    ensures
        hodge_sum(n, k, upto) == (if k % 2 == 0 && k / 2 < upto && k / 2 <= n {
            1nat
        } else {
            0nat
        }),
    decreases upto,
{
    if upto > 0 {
        lemma_hodge_sum_partial(n, k, (upto - 1) as nat);
    }
}

/// Hodge decomposition of CP^n: every Betti number is the sum of the Hodge
/// numbers of its degree, b_k = Σ_{p+q=k} h^{p,q}.
pub proof fn law_betti_is_sum_of_hodge_numbers(n: nat, k: nat)
    ensures
        betti_cp(n, k) == hodge_sum(n, k, k + 1),
{
    lemma_hodge_sum_partial(n, k, k + 1);
}

/// The Hodge numbers of CP^n, written out: h^{p,p} = 1 for p ≤ n, and every
/// other Hodge number vanishes.
pub proof fn law_hodge_numbers_of_cp_n(n: nat, p: nat, q: nat)
    ensures
        p == q && p <= n ==> hodge_cp(n, p, q) == 1,
        p != q || p > n ==> hodge_cp(n, p, q) == 0,
{
}

/// The Betti numbers of CP^n, written out: b_k = 1 for even k ≤ 2n, and
/// b_k = 0 for odd k and for k > 2n.
pub proof fn law_betti_numbers_of_cp_n(n: nat, k: nat)
    ensures
        k % 2 == 0 && k <= 2 * n ==> betti_cp(n, k) == 1,
        k % 2 == 1 || k > 2 * n ==> betti_cp(n, k) == 0,
{
}

/// Complex conjugation symmetry of the Hodge numbers of CP^n: h^{p,q} = h^{q,p}.
pub proof fn law_hodge_symmetry(n: nat, p: nat, q: nat)
    ensures
        hodge_cp(n, p, q) == hodge_cp(n, q, p),
{
}

/// Poincaré duality of CP^n, the consequence of hard Lefschetz on Betti
/// numbers: b_k = b_{2n-k} for 0 ≤ k ≤ 2n.
pub proof fn law_poincare_duality(n: nat, k: nat)
    requires
        k <= 2 * n,
    ensures
        betti_cp(n, k) == betti_cp(n, (2 * n - k) as nat),
{
}

/// Λ is the adjoint of L: the matrix of Λ on (k + 2)-forms has the size of
/// the matrix of L on k-forms, for every k with k + 2 ≤ 2n.
pub proof fn law_dual_lefschetz_is_adjoint(n: nat, k: nat)
    requires
        k + 2 <= 2 * n,
    ensures
        dual_lefschetz_size(n, k + 2) == lefschetz_size(n, k),
{
}

/// Hard Lefschetz runs on every degree k without overflow for CP^n with
/// n ≤ 15 on every target, and with n ≤ 31 on a 64-bit target: the
/// precondition of `hard_lefschetz_is_isomorphism` holds, so it returns true.
pub proof fn law_hard_lefschetz_admitted(n: nat, k: nat)
    requires
        n <= 15 || (usize::MAX == u64::MAX && n <= 31),
    ensures
        k <= n ==> 2 * n <= usize::MAX && binomial_steps_fit(2 * n, k),
{
    if n <= 15 {
        law_binomial_fits_up_to_30(2 * n, k);
    } else {
        law_binomial_fits_up_to_62_on_64_bit(2 * n, k);
    }
}

/// The sizes of L and Λ on k-forms are computed without overflow for n ≤ 15
/// on every target, and n ≤ 31 on a 64-bit target: the binomial
/// preconditions of `lefschetz_matrix_size` and `dual_lefschetz_matrix_size` hold.
pub proof fn law_lefschetz_sizes_admitted(n: nat, k: nat)
    requires
        n <= 15 || (usize::MAX == u64::MAX && n <= 31),
    ensures
        2 * n <= usize::MAX,
        binomial_steps_fit(2 * n, k),
        binomial_steps_fit(2 * n, k + 2),
        k >= 2 ==> binomial_steps_fit(2 * n, (k - 2) as nat),
{
    if n <= 15 {
        law_binomial_fits_up_to_30(2 * n, k);
        law_binomial_fits_up_to_30(2 * n, k + 2);
        law_binomial_fits_up_to_30(2 * n, (k - 2) as nat);
    } else {
        law_binomial_fits_up_to_62_on_64_bit(2 * n, k);
        law_binomial_fits_up_to_62_on_64_bit(2 * n, k + 2);
        law_binomial_fits_up_to_62_on_64_bit(2 * n, (k - 2) as nat);
    }
}

/// The size of L on k-forms, written out: for k + 2 ≤ 2n it is the smaller
/// of C(2n, k) and C(2n, k + 2), which is at least one; past the top degree
/// it is zero.
pub proof fn law_lefschetz_size_values(n: nat, k: nat)
    ensures
        k + 2 <= 2 * n ==> lefschetz_size(n, k) == (if binom(2 * n, k) < binom(2 * n, k + 2) {
            binom(2 * n, k)
        } else {
            binom(2 * n, k + 2)
        }),
        k + 2 <= 2 * n ==> lefschetz_size(n, k) >= 1,
        k + 2 > 2 * n ==> lefschetz_size(n, k) == 0,
{
    if k + 2 <= 2 * n {
        lemma_binom_positive(2 * n, k);
        lemma_binom_positive(2 * n, k + 2);
    }
}

/// The size of Λ on k-forms, written out: for k ≥ 2 it is the smaller of
/// C(2n, k) and C(2n, k − 2), which is at least one for 2 ≤ k ≤ 2n; for
/// k < 2 it is zero.
pub proof fn law_dual_lefschetz_size_values(n: nat, k: nat)
    ensures
        k >= 2 ==> dual_lefschetz_size(n, k) == (if binom(2 * n, k) < binom(
            2 * n,
            (k - 2) as nat,
        ) {
            binom(2 * n, k)
        } else {
            binom(2 * n, (k - 2) as nat)
        }),
        2 <= k <= 2 * n ==> dual_lefschetz_size(n, k) >= 1,
        k < 2 ==> dual_lefschetz_size(n, k) == 0,
{
    if 2 <= k <= 2 * n {
        lemma_binom_positive(2 * n, k);
        lemma_binom_positive(2 * n, (k - 2) as nat);
    }
}

/// Hard Lefschetz on dimensions: for k ≤ n the forms of degree k and of
/// degree 2n − k span spaces of the same dimension, C(2n, k) = C(2n, 2n − k).
pub proof fn law_hard_lefschetz_dimensions(n: nat, k: nat)
    requires
        k <= n,
    ensures
        binom(2 * n, k) == binom(2 * n, (2 * n - k) as nat),
{
    lemma_binom_symmetric(2 * n, k);
}

} // verus!
