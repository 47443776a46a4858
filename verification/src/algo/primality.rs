//! The probabilistic primality test: a number is taken for prime when none of
//! twenty bases drawn at random proves it composite.

use crate::algo::prime::{is_prime, lemma_prime_above, lemma_witness_proves_composite};
use crate::algo::utils::{is_witness, miller_rabin};
use rand::Rng;
use vstd::prelude::*;

verus! {

/// The number of bases that a number is tested against.
pub const WITNESS_ROUNDS: u64 = 20;

/// A number drawn from the range `low..high` by `rand::Rng::gen_range` on
/// the generator of the current thread. The range must not be empty, or
/// `gen_range` panics. Of the number nothing is claimed but that it lies in
/// the range.
#[verifier::external_body]
fn draw_between(low: u64, high: u64) -> (a: u64)
    requires
        low < high,
    ensures
        low <= a < high,
{
    rand::thread_rng().gen_range(low..high)
}

/// Tests `p` against up to twenty bases drawn at random from `[2, p)` and
/// stops at the first that proves `p` composite. The answer `false` is
/// certain: a witness was found, and `p` is no prime. The answer `true` says
/// that twenty bases drawn failed to be witnesses, as every base fails for a
/// prime.
pub fn probably_prime(p: u64) -> (prime: bool)
    requires
        p >= 3,
    ensures
        !prime ==> exists|a: int| 2 <= a < p && #[trigger] is_witness(p as int, a),
        !prime ==> !is_prime(p as int),
        prime ==> exists|a: int| 2 <= a < p && !#[trigger] is_witness(p as int, a),
        is_prime(p as int) ==> prime,
{
    let mut round: u64 = 0;
    while round < WITNESS_ROUNDS
        invariant
            p >= 3,
            round <= WITNESS_ROUNDS,
            round > 0 ==> exists|a: int| 2 <= a < p && !#[trigger] is_witness(p as int, a),
        decreases WITNESS_ROUNDS - round,
    {
        let a = draw_between(2, p);
        match miller_rabin(p, a) {
            Ok(true) => {
                proof {
                    assert(is_witness(p as int, a as int));
                    lemma_prime_above(p as int, a as int);
                    lemma_witness_proves_composite(p as int, a as int);
                }
                return false;
            },
            _ => {
                assert(!is_witness(p as int, a as int));
            },
        }
        round = round + 1;
    }
    true
}

} // verus!
