//! Greatest common divisors by the Euclidean algorithm, together with the
//! extended Euclidean algorithm, which also produces Bezout coefficients
//! `x` and `y` satisfying `a * x + b * y == gcd(a, b)`.

pub mod number_theory;
pub mod remainder;
pub mod euclidean;
pub mod bezout;

pub use number_theory::divides;
pub use number_theory::gcd_nat;
pub use euclidean::euclid_gcd;
pub use euclidean::gcd;
pub use bezout::eea_spec;
pub use bezout::extended_euclidean_algorithm;
