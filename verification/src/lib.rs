//! Kähler geometry: the combinatorial side of the theory — binomial
//! coefficients, Hodge and Betti numbers of CP^n, hard Lefschetz, the Kähler
//! identities and the Kodaira and Akizuki–Nakano vanishing theorems.

pub mod binom;
pub mod hodge;
pub mod kahler_identities;
pub mod kodaira;

pub use hodge::HodgeTheory;
pub use kahler_identities::KahlerIdentities;
pub use kodaira::{EinsteinSign, KodairaVanishing, VanishingResult};
