//! The engine's items under one path.

pub use crate::algo::dlog::{PollardsLog, PollardsLogItem};
pub use crate::algo::factor::{PollardsRSAFact, PollardsRSAFactItem};
pub use crate::algo::primality::probably_prime;
pub use crate::algo::utils::{
    fast_power, gcd, gcd_mul_inverse, gcd_weights, miller_rabin, mul_mod,
};
