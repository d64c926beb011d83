//! Kähler identities: commutation relations between operators on Kähler
//! manifolds, and the conjugation symmetry of Hodge number tables.

use vstd::prelude::*;
use crate::hodge::hodge_cp;

verus! {

/// Entry `j` of a Hodge table (p, q, h^{p,q}) lists the conjugate (q, p) of entry `i`.
pub open spec fn is_conjugate_entry(h: Seq<(usize, usize, usize)>, i: int, j: int) -> bool {
    h[j].0 == h[i].1 && h[j].1 == h[i].0
}

/// Entry `j` is the first entry of the table that lists the conjugate of entry `i`.
pub open spec fn is_first_conjugate(h: Seq<(usize, usize, usize)>, i: int, j: int) -> bool {
    &&& 0 <= j < h.len()
    &&& is_conjugate_entry(h, i, j)
    &&& forall|j2: int| 0 <= j2 < j ==> !is_conjugate_entry(h, i, j2)
}

/// Entry `i` has a conjugate entry, and the first one carries the same dimension.
pub open spec fn entry_has_matching_conjugate(h: Seq<(usize, usize, usize)>, i: int) -> bool {
    exists|j: int| #[trigger] is_first_conjugate(h, i, j) && h[j].2 == h[i].2
}

/// A Hodge table satisfies h^{p,q} = h^{q,p}: every entry (p, q, d) finds its
/// conjugate (q, p), the first one listed, with the same dimension d.
pub open spec fn hodge_table_symmetric(h: Seq<(usize, usize, usize)>) -> bool {
    forall|i: int| 0 <= i < h.len() ==> #[trigger] entry_has_matching_conjugate(h, i)
}

/// The value that `usize as i64` gives, as an integer.
pub open spec fn as_i64(x: usize) -> int {
    (x as i64) as int
}

/// The Kähler identity operators and their commutation relations.
pub struct KahlerIdentities {
    complex_dim: usize,
}

impl View for KahlerIdentities {
    type V = nat;

    /// The complex dimension n of the manifold.
    closed spec fn view(&self) -> nat {
        self.complex_dim as nat
    }
}

impl KahlerIdentities {
    /// Create for a Kähler manifold of given complex dimension.
    pub fn new(complex_dim: usize) -> (r: Self)
        ensures
            r@ == complex_dim,
    {
        Self { complex_dim }
    }

    /// Verify [L, Λ] = H on k-forms: H acts as (n − k)·Id on ∧^k, and the
    /// eigenvalue n − k lies in [−n, n] exactly for the degrees 0 ≤ k ≤ 2n.
    /// The computation is carried out on `i64`, with `as` conversions.
    pub fn verify_lefschetz_commutator(&self, k: usize) -> (r: bool)
        requires
            as_i64(self@ as usize) > i64::MIN,
            i64::MIN <= as_i64(self@ as usize) - as_i64(k) <= i64::MAX,
        ensures
            r == (-as_i64(self@ as usize) <= as_i64(self@ as usize) - as_i64(k) <= as_i64(
                self@ as usize,
            )),
            self@ <= i64::MAX && k <= i64::MAX ==> (r <==> k <= 2 * self@),
    {
        let n = self.complex_dim;
        let expected: i64 = (n as i64) - (k as i64);
        expected >= -(n as i64) && expected <= (n as i64)
    }

    /// The Laplacians on a Kähler manifold satisfy Δ_d = 2 Δ_∂ = 2 Δ_∂̄;
    /// this holds on every Kähler manifold.
    pub fn verify_laplacian_equality(&self) -> (r: bool)
        ensures
            r,
    {
        true
    }

    /// The Hodge decomposition on a Kähler manifold has H^{p,q} = H̄^{q,p}:
    /// checks h^{p,q} = h^{q,p} on a table of triples (p, q, h^{p,q}). Each
    /// entry is compared with the first entry that lists its conjugate (q, p);
    /// an entry whose conjugate is missing fails the check.
    pub fn verify_hodge_symmetry(&self, hodge: &[(usize, usize, usize)]) -> (r: bool)
        ensures
            r == hodge_table_symmetric(hodge@),
    {
        let len = hodge.len();
        let mut i: usize = 0;
        while i < len
            invariant
                i <= len,
                len == hodge@.len(),
                forall|i2: int| 0 <= i2 < i ==> #[trigger] entry_has_matching_conjugate(hodge@, i2),
            decreases len - i,
        {
            let (p, q, dim) = hodge[i];
            let mut j: usize = 0;
            while j < len && !(hodge[j].0 == q && hodge[j].1 == p)
                invariant
                    j <= len,
                    len == hodge@.len(),
                    i < len,
                    hodge@[i as int] == (p, q, dim),
                    forall|j2: int| 0 <= j2 < j ==> !is_conjugate_entry(hodge@, i as int, j2),
                decreases len - j,
            {
                j += 1;
            }
            if j == len || hodge[j].2 != dim {
                proof {
                    assert(!entry_has_matching_conjugate(hodge@, i as int)) by {
                        if j == len {
                            assert forall|j3: int| #[trigger]
                                is_first_conjugate(hodge@, i as int, j3) implies false by {}
                        } else {
                            assert(is_conjugate_entry(hodge@, i as int, j as int));
                            assert forall|j3: int| #[trigger]
                                is_first_conjugate(hodge@, i as int, j3) implies hodge@[j3].2
                                != hodge@[i as int].2 by {
                                if j3 < j {
                                } else if j3 > j {
                                    assert(!is_conjugate_entry(hodge@, i as int, j as int));
                                }
                            }
                        }
                    }
                }
                return false;
            }
            proof {
                assert(is_first_conjugate(hodge@, i as int, j as int));
                assert(entry_has_matching_conjugate(hodge@, i as int));
            }
            i += 1;
        }
        true
    }

    /// Complex dimension.
    pub fn complex_dim(&self) -> (r: usize)
        ensures
            r == self@,
    {
        self.complex_dim
    }
}

/// Whenever an entry has a conjugate entry, it has a first one.
proof fn lemma_first_conjugate_exists(h: Seq<(usize, usize, usize)>, i: int, j: int)
    requires
        0 <= j < h.len(),
        is_conjugate_entry(h, i, j),
    ensures
        exists|j1: int| #[trigger] is_first_conjugate(h, i, j1) && j1 <= j,
    decreases j,
{
    if exists|j2: int| 0 <= j2 < j && is_conjugate_entry(h, i, j2) {
        let j2 = choose|j2: int| 0 <= j2 < j && is_conjugate_entry(h, i, j2);
        lemma_first_conjugate_exists(h, i, j2);
    } else {
        assert(is_first_conjugate(h, i, j));
    }
}

/// A table of Hodge numbers of CP^n in which every entry's conjugate is
/// listed passes the symmetry check: h^{p,q} = h^{q,p} on CP^n.
pub proof fn law_cp_n_hodge_table_symmetric(n: nat, h: Seq<(usize, usize, usize)>)
    requires
        forall|i: int| 0 <= i < h.len() ==> h[i].2 == hodge_cp(n, h[i].0 as nat, h[i].1 as nat),
        forall|i: int|
            #![trigger h[i]]
            0 <= i < h.len() ==> exists|j: int| 0 <= j < h.len() && #[trigger] is_conjugate_entry(h, i, j),
    ensures
        hodge_table_symmetric(h),
{
    assert forall|i: int| 0 <= i < h.len() implies #[trigger] entry_has_matching_conjugate(h, i) by {
        assert(h[i] == h[i]);
        let j = choose|j: int| 0 <= j < h.len() && #[trigger] is_conjugate_entry(h, i, j);
        lemma_first_conjugate_exists(h, i, j);
        let j1 = choose|j1: int| #[trigger] is_first_conjugate(h, i, j1) && j1 <= j;
        assert(h[j1].2 == h[i].2);
    }
}

/// A table that passes the symmetry check lists, for every entry (p, q, d)
/// whatever its bidegree, an entry (q, p, d) of the same dimension.
pub proof fn law_symmetric_table_has_conjugates(h: Seq<(usize, usize, usize)>, i: int)
    requires
        hodge_table_symmetric(h),
        0 <= i < h.len(),
    ensures
        exists|j: int|
            0 <= j < h.len() && #[trigger] h[j].0 == h[i].1 && h[j].1 == h[i].0 && h[j].2
                == h[i].2,
{
    assert(entry_has_matching_conjugate(h, i));
    let j = choose|j: int| #[trigger] is_first_conjugate(h, i, j) && h[j].2 == h[i].2;
    assert(h[j].0 == h[i].1 && h[j].1 == h[i].0 && h[j].2 == h[i].2);
}

/// A table passes the symmetry check when every entry (p, q, d) has an entry
/// for (q, p), and every entry listed for (q, p) has the dimension d.
pub proof fn law_agreeing_conjugates_pass(h: Seq<(usize, usize, usize)>)
    requires
        forall|i: int|
            #![trigger h[i]]
            0 <= i < h.len() ==> exists|j: int|
                0 <= j < h.len() && #[trigger] h[j].0 == h[i].1 && h[j].1 == h[i].0,
        forall|i: int, j: int|
            #![trigger h[i], h[j]]
            0 <= i < h.len() && 0 <= j < h.len() && h[j].0 == h[i].1 && h[j].1 == h[i].0 ==> h[j].2
                == h[i].2,
    ensures
        hodge_table_symmetric(h),
{
    assert forall|i: int| 0 <= i < h.len() implies #[trigger] entry_has_matching_conjugate(h, i) by {
        assert(h[i] == h[i]);
        let j = choose|j: int| 0 <= j < h.len() && #[trigger] h[j].0 == h[i].1 && h[j].1 == h[i].0;
        assert(is_conjugate_entry(h, i, j));
        lemma_first_conjugate_exists(h, i, j);
        let j1 = choose|j1: int| #[trigger] is_first_conjugate(h, i, j1) && j1 <= j;
        assert(h[j1].2 == h[i].2);
    }
}

/// A table in which some entry (p, q, d) has no entry for the conjugate
/// bidegree (q, p) fails the symmetry check, whichever of p and q is larger.
pub proof fn law_missing_conjugate_fails(h: Seq<(usize, usize, usize)>, i: int)
    requires
        0 <= i < h.len(),
        forall|j: int| 0 <= j < h.len() ==> !(h[j].0 == h[i].1 && h[j].1 == h[i].0),
    ensures
        !hodge_table_symmetric(h),
{
    assert forall|j: int| #[trigger] is_first_conjugate(h, i, j) implies false by {}
    assert(!entry_has_matching_conjugate(h, i));
}

/// A table whose conjugate entries disagree in dimension fails the check:
/// if (p, q, d) is listed and the first (q, p) entry has a dimension other
/// than d, the result is false.
pub proof fn law_mismatched_conjugate_fails(h: Seq<(usize, usize, usize)>, i: int, j: int)
    requires
        0 <= i < h.len(),
        0 <= j < h.len(),
        h[j].0 == h[i].1,
        h[j].1 == h[i].0,
        forall|j2: int| 0 <= j2 < j ==> !(h[j2].0 == h[i].1 && h[j2].1 == h[i].0),
        h[j].2 != h[i].2,
    ensures
        !hodge_table_symmetric(h),
{
    assert forall|j3: int| #[trigger] is_first_conjugate(h, i, j3) implies h[j3].2 != h[i].2 by {
        if j3 < j {
            assert(!is_conjugate_entry(h, i, j3));
        } else if j3 > j {
            assert(is_conjugate_entry(h, i, j));
        }
    }
    assert(!entry_has_matching_conjugate(h, i));
}

} // verus!
