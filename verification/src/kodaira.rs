//! Kodaira vanishing theorem and related results.
//!
//! Kodaira vanishing: for an ample line bundle L on a compact Kähler manifold X,
//! H^q(X, L ⊗ K_X) = 0 for q > 0.
//!
//! Akizuki–Nakano: for a positive line bundle L, H^{p,q}(X, L) = 0 for p + q > n.

use vstd::prelude::*;

verus! {

/// The sign of the Einstein constant λ in Ric = λg: Fano (λ > 0),
/// Calabi–Yau (λ = 0) or general type (λ < 0). This is all of λ that the
/// vanishing theorems read.
#[derive(Clone, Copy, Debug, PartialEq, Eq, Structural)]
pub enum EinsteinSign {
    /// λ > 0: Fano manifold (positive first Chern class)
    Positive,
    /// λ = 0: Calabi–Yau manifold (trivial first Chern class)
    Zero,
    /// λ < 0: manifold of general type (negative first Chern class)
    Negative,
}

/// Result of the Kodaira vanishing theorem for a given line bundle.
#[derive(Clone, Debug)]
pub struct VanishingResult {
    /// The cohomology groups H^q that vanish.
    pub vanishing_degrees: Vec<usize>,
    /// The cohomology groups that may be non-zero.
    pub possibly_nonzero: Vec<usize>,
    /// Whether the line bundle is ample.
    pub is_ample: bool,
}

/// The degrees 1, 2, ..., n: those in which Kodaira vanishing kills H^q(X, L ⊗ K_X).
pub open spec fn ample_vanishing_degrees(n: nat) -> Seq<usize> {
    Seq::new(n, |i: int| (i + 1) as usize)
}

/// The degrees 0, 1, ..., n − 1: those in which H^q(X, L) vanishes for negative L.
pub open spec fn negative_vanishing_degrees(n: nat) -> Seq<usize> {
    Seq::new(n, |i: int| i as usize)
}

/// All the degrees 0, 1, ..., n of the cohomology of an n-dimensional manifold.
pub open spec fn all_degrees(n: nat) -> Seq<usize> {
    Seq::new(n + 1, |i: int| i as usize)
}

/// The lexicographic order on bidegrees (p, q).
pub open spec fn bidegree_lt(a: (usize, usize), b: (usize, usize)) -> bool {
    a.0 < b.0 || (a.0 == b.0 && a.1 < b.1)
}

/// A bidegree of an n-dimensional manifold in the Akizuki–Nakano range p + q > n.
pub open spec fn nakano_vanishes(n: nat, pq: (usize, usize)) -> bool {
    pq.0 <= n && pq.1 <= n && pq.0 + pq.1 > n
}

/// `s` lists, in increasing lexicographic order and each once, exactly the
/// bidegrees (p, q) with p, q ≤ n and p + q > n.
pub open spec fn is_nakano_list(n: nat, s: Seq<(usize, usize)>) -> bool {
    &&& forall|i: int| 0 <= i < s.len() ==> #[trigger] nakano_vanishes(n, s[i])
    &&& forall|p: usize, q: usize| #[trigger] nakano_vanishes(n, (p, q)) ==> s.contains((p, q))
    &&& forall|i: int, j: int| 0 <= i < j < s.len() ==> bidegree_lt(s[i], s[j])
}

/// The degrees 0..=n split into those listed as vanishing and those listed as
/// possibly non-zero: each degree is in exactly one of the two lists, and
/// both lists hold degrees only.
pub open spec fn splits_degrees(n: nat, vanishing: Seq<usize>, nonzero: Seq<usize>) -> bool {
    &&& forall|q: usize| q <= n ==> (vanishing.contains(q) <==> !nonzero.contains(q))
    &&& forall|i: int| 0 <= i < vanishing.len() ==> vanishing[i] <= n
    &&& forall|i: int| 0 <= i < nonzero.len() ==> nonzero[i] <= n
}

/// Kodaira vanishing theorem computations.
pub struct KodairaVanishing {
    complex_dim: usize,
}

impl View for KodairaVanishing {
    type V = nat;

    /// The complex dimension n of the manifold.
    closed spec fn view(&self) -> nat {
        self.complex_dim as nat
    }
}

/// The degrees 0, 1, ..., count − 1, each shifted by `offset`.
fn degrees_from(offset: usize, count: usize) -> (r: Vec<usize>)
    requires
        offset + count <= usize::MAX + 1,
    ensures
        r@ == Seq::new(count as nat, |i: int| (i + offset) as usize),
{
    let mut r: Vec<usize> = Vec::new();
    for i in 0..count
        invariant
            offset + count <= usize::MAX + 1,
            r@ == Seq::new(i as nat, |j: int| (j + offset) as usize),
    {
        r.push(i + offset);
    }
    r
}

impl KodairaVanishing {
    /// Create for a Kähler manifold of given dimension.
    pub fn new(complex_dim: usize) -> (r: Self)
        ensures
            r@ == complex_dim,
    {
        Self { complex_dim }
    }

    /// Apply Kodaira vanishing for an ample line bundle L.
    /// Returns which cohomology groups H^q(X, L ⊗ K_X) vanish.
    ///
    /// Kodaira vanishing: H^q(X, L ⊗ K_X) = 0 for q > 0.
    pub fn vanishing_ample(&self) -> (r: VanishingResult)
        ensures
            r.vanishing_degrees@ == ample_vanishing_degrees(self@),
            r.possibly_nonzero@ == seq![0usize],
            r.is_ample,
    {
        let n = self.complex_dim;
        let vanishing_degrees = degrees_from(1, n);
        let mut possibly_nonzero: Vec<usize> = Vec::new();
        possibly_nonzero.push(0);
        proof {
            assert(vanishing_degrees@ =~= ample_vanishing_degrees(self@));
            assert(possibly_nonzero@ =~= seq![0usize]);
        }
        VanishingResult { vanishing_degrees, possibly_nonzero, is_ample: true }
    }

    /// Apply Akizuki-Nakano vanishing for a positive line bundle L.
    /// H^{p,q}(X, L) = 0 for p + q > n. The bidegrees come in increasing
    /// lexicographic order.
    pub fn vanishing_an(&self) -> (r: Vec<(usize, usize)>)
        requires
            2 * self@ <= usize::MAX,
        ensures
            is_nakano_list(self@, r@),
            r@.len() == self@ * (self@ + 1) / 2,
    {
        let n = self.complex_dim;
        let mut vanishing: Vec<(usize, usize)> = Vec::new();
        let mut p: usize = 0;
        while p <= n
            invariant
                n == self@,
                2 * n <= usize::MAX,
                p <= n + 1,
                vanishing@.len() * 2 == p * (p - 1),
                forall|i: int|
                    #![trigger vanishing@[i]]
                    0 <= i < vanishing@.len() ==> nakano_vanishes(n as nat, vanishing@[i])
                        && vanishing@[i].0 < p,
                forall|a: usize, b: usize|
                    #[trigger] nakano_vanishes(n as nat, (a, b)) && a < p ==> vanishing@.contains(
                        (a, b),
                    ),
                forall|i: int, j: int|
                    0 <= i < j < vanishing@.len() ==> bidegree_lt(vanishing@[i], vanishing@[j]),
            decreases n + 1 - p,
        {
            let mut q: usize = 0;
            while q <= n
                invariant
                    n == self@,
                    2 * n <= usize::MAX,
                    p <= n,
                    q <= n + 1,
                    vanishing@.len() * 2 == p * (p - 1) + 2 * (if q + p > n + 1 {
                        q + p - (n + 1)
                    } else {
                        0
                    }),
                    forall|i: int|
                        #![trigger vanishing@[i]]
                        0 <= i < vanishing@.len() ==> nakano_vanishes(n as nat, vanishing@[i])
                            && bidegree_lt(vanishing@[i], (p, q)),
                    forall|a: usize, b: usize|
                        #[trigger] nakano_vanishes(n as nat, (a, b)) && (a < p || (a == p && b < q))
                            ==> vanishing@.contains((a, b)),
                    forall|i: int, j: int|
                        0 <= i < j < vanishing@.len() ==> bidegree_lt(vanishing@[i], vanishing@[j]),
                decreases n + 1 - q,
            {
                if p + q > n {
                    let ghost old_v = vanishing@;
                    vanishing.push((p, q));
                    proof {
                        assert forall|i: int, j: int|
                            0 <= i < j < vanishing@.len() implies bidegree_lt(
                            vanishing@[i],
                            vanishing@[j],
                        ) by {
                            assert(vanishing@[i] == old_v[i]);
                            if j < old_v.len() {
                                assert(vanishing@[j] == old_v[j]);
                            }
                        }
                        assert forall|i: int|
                            #![trigger vanishing@[i]]
                            0 <= i < vanishing@.len() implies nakano_vanishes(
                            n as nat,
                            vanishing@[i],
                        ) && bidegree_lt(vanishing@[i], (p, (q + 1) as usize)) by {
                            if i < old_v.len() {
                                assert(vanishing@[i] == old_v[i]);
                            }
                        }
                        assert forall|a: usize, b: usize|
                            #[trigger] nakano_vanishes(n as nat, (a, b)) && (a < p || (a == p && b
                                < q + 1)) implies vanishing@.contains((a, b)) by {
                            if a == p && b == q {
                                assert(vanishing@[old_v.len() as int] == (a, b));
                            } else {
                                assert(old_v.contains((a, b)));
                                let k = choose|k: int| 0 <= k < old_v.len() && old_v[k] == (a, b);
                                assert(vanishing@[k] == (a, b));
                            }
                        }
                    }
                }
                q += 1;
            }
            proof {
                assert(p * (p - 1) + 2 * p == (p + 1) * p) by (nonlinear_arith);
            }
            p += 1;
        }
        proof {
            let len = vanishing@.len() as int;
            assert(len * 2 == (n + 1) * n);
            assert(len == n * (n + 1) / 2) by (nonlinear_arith)
                requires
                    len * 2 == (n + 1) * n,
            ;
        }
        vanishing
    }

    /// Apply Kodaira vanishing for a negative line bundle.
    /// H^q(X, L) = 0 for q < n (dual version).
    pub fn vanishing_negative(&self) -> (r: VanishingResult)
        ensures
            r.vanishing_degrees@ == negative_vanishing_degrees(self@),
            r.possibly_nonzero@ == seq![self@ as usize],
            !r.is_ample,
    {
        let n = self.complex_dim;
        let vanishing_degrees = degrees_from(0, n);
        let mut possibly_nonzero: Vec<usize> = Vec::new();
        possibly_nonzero.push(n);
        proof {
            assert(vanishing_degrees@ =~= negative_vanishing_degrees(self@));
            assert(possibly_nonzero@ =~= seq![self@ as usize]);
        }
        VanishingResult { vanishing_degrees, possibly_nonzero, is_ample: false }
    }

    /// Check which vanishing theorem applies to a Kähler–Einstein metric with
    /// an Einstein constant of the given sign: Kodaira vanishing for Fano,
    /// its dual for general type, and none for Calabi–Yau, where every
    /// degree 0..=n may be non-zero.
    pub fn check_vanishing_conditions(&self, einstein: EinsteinSign) -> (r: VanishingResult)
        ensures
            einstein == EinsteinSign::Positive ==> r.vanishing_degrees@ == ample_vanishing_degrees(
                self@,
            ) && r.possibly_nonzero@ == seq![0usize] && r.is_ample,
            einstein == EinsteinSign::Zero ==> r.vanishing_degrees@ == Seq::<usize>::empty()
                && r.possibly_nonzero@ == all_degrees(self@) && !r.is_ample,
            einstein == EinsteinSign::Negative ==> r.vanishing_degrees@
                == negative_vanishing_degrees(self@) && r.possibly_nonzero@ == seq![
                self@ as usize,
            ] && !r.is_ample,
    {
        match einstein {
            EinsteinSign::Positive => self.vanishing_ample(),
            EinsteinSign::Zero => {
                let mut possibly_nonzero = degrees_from(0, self.complex_dim);
                possibly_nonzero.push(self.complex_dim);
                proof {
                    assert(possibly_nonzero@ =~= all_degrees(self@));
                }
                VanishingResult {
                    vanishing_degrees: Vec::new(),
                    possibly_nonzero,
                    is_ample: false,
                }
            },
            EinsteinSign::Negative => self.vanishing_negative(),
        }
    }

    /// Complex dimension.
    pub fn complex_dim(&self) -> (r: usize)
        ensures
            r == self@,
    {
        self.complex_dim
    }
}

/// The degree lists, written out: the ample list is 1, 2, ..., n, the
/// negative list is 0, 1, ..., n − 1, and the full list is 0, 1, ..., n, each
/// in increasing order.
pub proof fn law_degree_lists_values(n: nat)
    requires
        n <= usize::MAX,
    ensures
        ample_vanishing_degrees(n).len() == n,
        forall|i: int| 0 <= i < n ==> #[trigger] ample_vanishing_degrees(n)[i] == i + 1,
        negative_vanishing_degrees(n).len() == n,
        forall|i: int| 0 <= i < n ==> #[trigger] negative_vanishing_degrees(n)[i] == i,
        all_degrees(n).len() == n + 1,
        forall|i: int| 0 <= i <= n ==> #[trigger] all_degrees(n)[i] == i,
{
}

/// Which degrees the degree lists contain: the ample list holds exactly
/// 1..=n, the negative list exactly 0..n, the full list exactly 0..=n.
pub proof fn law_degree_lists_contain(n: nat, q: usize)
    requires
        n <= usize::MAX,
    ensures
        ample_vanishing_degrees(n).contains(q) <==> 1 <= q <= n,
        negative_vanishing_degrees(n).contains(q) <==> q < n,
        all_degrees(n).contains(q) <==> q <= n,
        !Seq::<usize>::empty().contains(q),
        seq![0usize].contains(q) <==> q == 0,
        seq![n as usize].contains(q) <==> q == n,
{
    if 1 <= q <= n {
        assert(ample_vanishing_degrees(n)[q - 1] == q);
    }
    if q < n {
        assert(negative_vanishing_degrees(n)[q as int] == q);
    }
    if q <= n {
        assert(all_degrees(n)[q as int] == q);
    }
    if q == 0 {
        assert(seq![0usize][0] == q);
    }
    if q == n {
        assert(seq![n as usize][0] == q);
    }
}

/// What an Akizuki–Nakano list holds, written out: every listed bidegree
/// (p, q) has p ≤ n, q ≤ n and p + q > n; every such bidegree is listed; and
/// the list increases strictly, by p and then by q.
pub proof fn law_nakano_list_contents(n: nat, s: Seq<(usize, usize)>)
    requires
        is_nakano_list(n, s),
    ensures
        forall|i: int|
            #![trigger s[i]]
            0 <= i < s.len() ==> s[i].0 <= n && s[i].1 <= n && s[i].0 + s[i].1 > n,
        forall|p: usize, q: usize|
            p <= n && q <= n && p + q > n ==> #[trigger] s.contains((p, q)),
        forall|i: int, j: int|
            #![trigger s[i], s[j]]
            0 <= i < j < s.len() ==> s[i].0 < s[j].0 || (s[i].0 == s[j].0 && s[i].1 < s[j].1),
{
    assert forall|i: int|
        #![trigger s[i]]
        0 <= i < s.len() implies s[i].0 <= n && s[i].1 <= n && s[i].0 + s[i].1 > n by {
        assert(nakano_vanishes(n, s[i]));
    }
    assert forall|p: usize, q: usize| p <= n && q <= n && p + q > n implies #[trigger] s.contains(
        (p, q),
    ) by {
        assert(nakano_vanishes(n, (p, q)));
    }
    assert forall|i: int, j: int|
        #![trigger s[i], s[j]]
        0 <= i < j < s.len() implies s[i].0 < s[j].0 || (s[i].0 == s[j].0 && s[i].1 < s[j].1) by {
        assert(bidegree_lt(s[i], s[j]));
    }
}

/// A bidegree with p + q ≤ n, or with p or q above n, is never listed by
/// Akizuki–Nakano.
pub proof fn law_nakano_list_excludes(n: nat, s: Seq<(usize, usize)>, p: usize, q: usize)
    requires
        is_nakano_list(n, s),
        p > n || q > n || p + q <= n,
    ensures
        !s.contains((p, q)),
{
    if s.contains((p, q)) {
        let i = choose|i: int| 0 <= i < s.len() && s[i] == (p, q);
        assert(nakano_vanishes(n, s[i]));
    }
}

/// Kodaira vanishing is the top-degree case p = n of Akizuki–Nakano:
/// H^{n,q}(X, L) = H^q(X, K_X ⊗ L) vanishes by one exactly when it does by
/// the other, for every degree q ≤ n.
pub proof fn law_kodaira_is_top_degree_nakano(n: nat, an: Seq<(usize, usize)>, q: usize)
    requires
        n <= usize::MAX,
        q <= n,
        is_nakano_list(n, an),
    ensures
        an.contains((n as usize, q)) <==> ample_vanishing_degrees(n).contains(q),
{
    law_degree_lists_contain(n, q);
    if an.contains((n as usize, q)) {
        let i = choose|i: int| 0 <= i < an.len() && an[i] == (n as usize, q);
        assert(nakano_vanishes(n, an[i]));
    }
    if q >= 1 {
        assert(nakano_vanishes(n, (n as usize, q)));
    }
}

/// Serre duality between the two Kodaira theorems: for q ≤ n, H^q vanishes
/// for an ample bundle exactly when H^{n-q} vanishes for a negative one.
pub proof fn law_serre_duality_of_vanishing(n: nat, q: usize)
    requires
        n <= usize::MAX,
        q <= n,
    ensures
        ample_vanishing_degrees(n).contains(q) <==> negative_vanishing_degrees(n).contains(
            (n - q) as usize,
        ),
{
    law_degree_lists_contain(n, q);
    law_degree_lists_contain(n, (n - q) as usize);
}

/// Every vanishing result splits the degrees 0..=n: each degree is listed
/// either as vanishing or as possibly non-zero, never both.
pub proof fn law_vanishing_results_split_degrees(n: nat)
    requires
        n <= usize::MAX,
    ensures
        splits_degrees(n, ample_vanishing_degrees(n), seq![0usize]),
        splits_degrees(n, negative_vanishing_degrees(n), seq![n as usize]),
        splits_degrees(n, Seq::<usize>::empty(), all_degrees(n)),
{
    assert forall|q: usize| q <= n implies (ample_vanishing_degrees(n).contains(q)
        <==> !seq![0usize].contains(q)) by {
        law_degree_lists_contain(n, q);
    }
    assert forall|q: usize| q <= n implies (negative_vanishing_degrees(n).contains(q)
        <==> !seq![n as usize].contains(q)) by {
        law_degree_lists_contain(n, q);
    }
    assert forall|q: usize| q <= n implies (Seq::<usize>::empty().contains(q)
        <==> !all_degrees(n).contains(q)) by {
        law_degree_lists_contain(n, q);
    }
    assert forall|i: int| 0 <= i < ample_vanishing_degrees(n).len() implies #[trigger]
        ample_vanishing_degrees(n)[i] <= n by {}
    assert forall|i: int| 0 <= i < negative_vanishing_degrees(n).len() implies #[trigger]
        negative_vanishing_degrees(n)[i] <= n by {}
    assert forall|i: int| 0 <= i < seq![0usize].len() implies #[trigger] seq![0usize][i] <= n by {
        assert(seq![0usize][0] == 0);
    }
    assert forall|i: int| 0 <= i < seq![n as usize].len() implies #[trigger] seq![n as usize][i]
        <= n by {
        assert(seq![n as usize][0] == n);
    }
}

} // verus!
