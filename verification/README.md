# lau-kahler-geometry

Kähler geometry, split in two.

`src/` is the verified library (Verus): the combinatorial and cohomological
side of the theory.

- `binom` — binomial coefficients C(n, k) by Pascal's rule, with symmetry,
  the step identity of the multiplicative formula, the closed form
  C(n, k)·k!·(n−k)! = n!, and the sizes for which the multiplicative
  formula cannot overflow (n ≤ 30 on every target, n ≤ 62 on 64 bits).
- `hodge` — `HodgeTheory`: Hodge and Betti numbers of CP^n, the binomial
  coefficient, the hard Lefschetz check and the sizes of the Lefschetz
  operators L and Λ, the number of primitive components of a form; laws: b_k = Σ_{p+q=k} h^{p,q}, h^{p,q} = h^{q,p},
  Poincaré duality, Λ adjoint to L.
- `kahler_identities` — `KahlerIdentities`: [L, Λ] = H on k-forms, the
  Laplacian identity and the conjugation symmetry check of Hodge tables.
- `kodaira` — `KodairaVanishing`: Kodaira, dual Kodaira and Akizuki–Nakano
  vanishing, and the choice among them by the sign of the Einstein constant;
  laws: Kodaira is the top row of Akizuki–Nakano, Serre duality between the
  ample and negative cases, every result splits the degrees 0..=n.

`app/` is ordinary Rust over floating point (nalgebra, num-complex):
Hermitian metrics, Kähler forms and potentials, the Chern connection,
curvature, the Ricci form, Kähler–Einstein metrics, Lefschetz matrices and
decompositions, and agent state spaces. It reads its integer dimensions from
the verified library.

`tests/` exercises the library.
