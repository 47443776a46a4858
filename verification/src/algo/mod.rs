//! The number-theoretic engine.

pub mod cycle;
pub mod dlog;
pub mod factor;
pub mod modular;
pub mod prelude;
pub mod prime;
pub mod primality;
pub mod utils;

pub use dlog::{PollardsLog, PollardsLogItem};
pub use factor::{PollardsRSAFact, PollardsRSAFactItem};
pub use primality::probably_prime;
pub use utils::{fast_power, gcd, gcd_mul_inverse, gcd_weights, miller_rabin, mul_mod};
