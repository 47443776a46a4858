//! Pollard's rho for factoring: the walk of `f(v) = v^2 + 1` on the residues
//! modulo `n`, with a tortoise and a hare whose difference is tested for a
//! common divisor with `n`.

use crate::algo::cycle::{iterate, lemma_tortoise_meets_hare, maps_into};
use crate::algo::utils::{gcd, is_gcd, spec_gcd};
use crate::error::DomainError;
use vstd::prelude::*;

verus! {

/// The step map `f(v) = (v v + 1) mod n`.
pub open spec fn rho_map(n: int) -> spec_fn(int) -> int {
    |v: int| (v * v + 1) % n
}

/// `f` applied `k` times to 1.
pub open spec fn rho_walk(n: int, k: nat) -> int {
    iterate(rho_map(n), k, 1)
}

/// The divisor that step `j` reports: the greatest common divisor of `n` and
/// the distance between tortoise and hare, or `n` itself where the two stand
/// on the same residue.
pub open spec fn rho_divisor(n: int, j: nat) -> int {
    let x = rho_walk(n, j);
    let y = rho_walk(n, 2 * j);
    if x == y {
        n
    } else if x > y {
        spec_gcd((x - y) as nat, n as nat) as int
    } else {
        spec_gcd((y - x) as nat, n as nat) as int
    }
}

/// Step `j` exposes a divisor of `n` other than 1 and `n`.
pub open spec fn rho_splits(n: int, j: nat) -> bool {
    rho_walk(n, j) != rho_walk(n, 2 * j) && rho_divisor(n, j) > 1
}

/// The walk ends with step `j`: it exposes a divisor, or tortoise and hare
/// have met and the cycle is closed without one.
pub open spec fn rho_stops(n: int, j: nat) -> bool {
    rho_walk(n, j) == rho_walk(n, 2 * j) || rho_divisor(n, j) > 1
}

/// What a factoring walk is, mathematically: the modulus, the number of steps
/// taken, and the divisor that it holds for collection.
pub struct FactorView {
    pub n: int,
    pub i: nat,
    pub factor: Option<u64>,
}

impl FactorView {
    /// The tortoise: `f` applied once for each step.
    pub open spec fn x(self) -> int {
        rho_walk(self.n, self.i)
    }

    /// The hare: `f` applied twice for each step.
    pub open spec fn y(self) -> int {
        rho_walk(self.n, 2 * self.i)
    }

    /// The divisor reported by the last step.
    pub open spec fn g(self) -> int {
        rho_divisor(self.n, self.i)
    }

    /// The walk has ended.
    pub open spec fn finished(self) -> bool {
        self.i >= 1 && rho_stops(self.n, self.i)
    }

    /// The record of the walk as it stands.
    pub open spec fn item(self) -> PollardsRSAFactItem {
        PollardsRSAFactItem {
            i: self.i as u64,
            xi: self.x() as u64,
            yi: self.y() as u64,
            g: self.g() as u64,
            n: self.n as u64,
        }
    }

    /// The walk one step further; a divisor that the step exposes is held for
    /// collection.
    pub open spec fn advance(self) -> FactorView {
        FactorView {
            n: self.n,
            i: self.i + 1,
            factor: if rho_splits(self.n, self.i + 1) {
                Some(rho_divisor(self.n, self.i + 1) as u64)
            } else {
                None
            },
        }
    }

    /// The modulus is positive and small enough for its residues to be
    /// squared in 64 bits, the walk did not run past its end, and a divisor
    /// held for collection is the one that the last step exposed.
    pub open spec fn valid(self) -> bool {
        &&& 1 <= self.n <= u64::MAX
        &&& (self.n - 1) * (self.n - 1) <= u64::MAX
        &&& forall|j: nat| 1 <= j < self.i ==> !#[trigger] rho_stops(self.n, j)
        &&& self.factor matches Some(f) ==> self.i >= 1 && rho_splits(self.n, self.i) && f
            == self.g()
    }
}

/// The record of one step: the step's number, tortoise, hare, the divisor
/// reported and the modulus.
#[derive(Debug, Clone, Copy, PartialEq, Eq, Structural)]
pub struct PollardsRSAFactItem {
    pub i: u64,
    pub xi: u64,
    pub yi: u64,
    pub g: u64,
    pub n: u64,
}

impl PollardsRSAFactItem {
    /// The record shows the walk `v` as it stands.
    pub open spec fn shows(self, v: FactorView) -> bool {
        &&& self.i == v.i
        &&& self.xi == v.x()
        &&& self.yi == v.y()
        &&& self.g == v.g()
        &&& self.n == v.n
    }

    /// A record that shows a walk is the record of that walk.
    pub proof fn lemma_shows_item(self, v: FactorView)
        requires
            self.shows(v),
        ensures
            self == v.item(),
    {
    }
}

/// The walk of Pollard's rho for a divisor of `n`, advanced one step at a
/// time.
#[derive(Debug, PartialEq)]
pub struct PollardsRSAFact {
    n: u64,
    i: u64,
    xi: u64,
    yi: u64,
    factor: Option<u64>,
    finished: bool,
}

impl View for PollardsRSAFact {
    type V = FactorView;

    closed spec fn view(&self) -> FactorView {
        FactorView { n: self.n as int, i: self.i as nat, factor: self.factor }
    }
}

/// From the first step on, every value of the walk is a residue modulo `n`.
pub proof fn lemma_rho_bounded(n: int, k: nat)
    requires
        n >= 1,
        k >= 1,
    ensures
        0 <= rho_walk(n, k) < n,
{
}

/// The divisor that a step reports divides `n` and is at most `n`; where
/// tortoise and hare differ it is the greatest common divisor of their
/// distance and `n`, and smaller than `n`.
pub proof fn lemma_rho_divisor(n: int, j: nat)
    requires
        n >= 1,
        j >= 1,
    ensures
        1 <= rho_divisor(n, j) <= n,
        n % rho_divisor(n, j) == 0,
        rho_walk(n, j) != rho_walk(n, 2 * j) ==> rho_divisor(n, j) < n,
{
    let x = rho_walk(n, j);
    let y = rho_walk(n, 2 * j);
    lemma_rho_bounded(n, j);
    lemma_rho_bounded(n, 2 * j);
    if x == y {
        vstd::arithmetic::div_mod::lemma_mod_self_0(n);
    } else {
        let dist: nat = if x > y {
            (x - y) as nat
        } else {
            (y - x) as nat
        };
        crate::algo::utils::lemma_gcd_is_greatest(dist, n as nat);
        let d = spec_gcd(dist, n as nat) as int;
        assert(is_gcd(d, dist as int, n));
        if d > dist {
            vstd::arithmetic::div_mod::lemma_small_mod(dist, d as nat);
        }
    }
}

/// The walk ends within `n` steps.
pub proof fn lemma_rho_stops(n: int) -> (j: nat)
    requires
        n >= 1,
    ensures
        1 <= j <= n,
        rho_stops(n, j),
{
    if n == 1 {
        lemma_rho_bounded(n, 1);
        lemma_rho_bounded(n, 2);
        1
    } else {
        let f = rho_map(n);
        assert(maps_into(f, n));
        lemma_tortoise_meets_hare(f, n, 1)
    }
}

/// A valid walk that has not ended has taken fewer than `n` steps.
pub proof fn lemma_rho_steps_bounded(v: FactorView)
    requires
        v.valid(),
    ensures
        v.i <= v.n,
        !v.finished() ==> v.i < v.n,
{
    let j = lemma_rho_stops(v.n);
    if v.i > j {
        assert(rho_stops(v.n, j));
    }
}

impl PollardsRSAFact {
    #[verifier::type_invariant]
    closed spec fn inv(self) -> bool {
        &&& self@.valid()
        &&& self.xi == self@.x()
        &&& self.yi == self@.y()
        &&& self.finished == self@.finished()
    }

    /// A walk at its start: no step taken, tortoise and hare on 1. A modulus
    /// whose largest residue cannot be squared in 64 bits is refused.
    pub fn new(n: u64) -> (r: Result<PollardsRSAFact, DomainError>)
        requires
            n >= 1,
        ensures
            (n - 1) * (n - 1) > u64::MAX <==> r == Err::<PollardsRSAFact, DomainError>(
                DomainError::ModulusTooLarge,
            ),
            (n - 1) * (n - 1) <= u64::MAX ==> (r matches Ok(walk) && walk@ == (FactorView {
                n: n as int,
                i: 0,
                factor: None,
            }) && walk@.valid()),
    {
        match (n - 1).checked_mul(n - 1) {
            Some(_) => Ok(
                PollardsRSAFact { n, i: 0, xi: 1, yi: 1, factor: None, finished: false },
            ),
            None => Err(DomainError::ModulusTooLarge),
        }
    }

    /// The modulus.
    pub fn n(&self) -> (r: u64)
        ensures
            r == self@.n,
    {
        self.n
    }

    /// The number of steps taken.
    pub fn steps(&self) -> (r: u64)
        ensures
            r == self@.i,
            self@.valid(),
    {
        proof {
            use_type_invariant(self);
        }
        self.i
    }

    /// Whether the walk has ended.
    pub fn is_terminated(&self) -> (r: bool)
        ensures
            r == self@.finished(),
            self@.valid(),
    {
        proof {
            use_type_invariant(self);
        }
        self.finished
    }

    /// The step map on one value.
    fn mix(&self, x: u64) -> (r: u64)
        requires
            x < self@.n || x == 1,
        ensures
            r == rho_map(self@.n)(x as int),
            r < self@.n,
    {
        proof {
            use_type_invariant(self);
            assert(x * x <= (self.n - 1) * (self.n - 1) || x * x == 1) by (nonlinear_arith)
                requires
                    0 <= x < self.n || x == 1,
            ;
            vstd::arithmetic::div_mod::lemma_add_mod_noop(x * x, 1, self.n as int);
            if self.n > 1 {
                vstd::arithmetic::div_mod::lemma_small_mod(1, self.n as nat);
            }
        }
        ((x * x) % self.n + 1) % self.n
    }

    /// Hands out the divisor that the walk holds, once: after the call the
    /// walk holds none. The divisor is a proper one: greater than 1, smaller
    /// than `n`, and `n` is a multiple of it.
    pub fn factor(&mut self) -> (r: Option<u64>)
        ensures
            old(self)@.valid(),
            r == old(self)@.factor,
            final(self)@ == (FactorView { factor: None, ..old(self)@ }),
            r matches Some(g) ==> 1 < g < old(self)@.n && old(self)@.n % (g as int) == 0,
    {
        proof {
            use_type_invariant(&*self);
            if self@.i >= 1 {
                lemma_rho_divisor(self@.n, self@.i);
            }
        }
        let r = self.factor;
        *self = PollardsRSAFact {
            n: self.n,
            i: self.i,
            xi: self.xi,
            yi: self.yi,
            factor: None,
            finished: self.finished,
        };
        r
    }

    /// Advances the walk by one step and reports it, unless the walk has
    /// ended. The walk ends with the step that exposes a proper divisor of
    /// `n`, which it then holds for collection, or with the step on which
    /// tortoise and hare meet, which closes the cycle without a divisor.
    pub fn next(&mut self) -> (r: Option<PollardsRSAFactItem>)
        ensures
            old(self)@.valid(),
            final(self)@.valid(),
            old(self)@.finished() ==> r is None && final(self)@ == old(self)@,
            !old(self)@.finished() ==> final(self)@ == old(self)@.advance() && final(self)@.i
                <= final(self)@.n,
            !old(self)@.finished() ==> (r matches Some(item) && item.shows(final(self)@)),
    {
        proof {
            use_type_invariant(&*self);
            lemma_rho_steps_bounded(self@);
        }
        if self.finished {
            return None;
        }
        let ghost before = self@;
        let n: u64 = self.n;
        let i: u64 = self.i + 1;
        proof {
            if before.i >= 1 {
                lemma_rho_bounded(before.n, before.i);
                lemma_rho_bounded(before.n, 2 * before.i);
            }
        }
        let xi: u64 = self.mix(self.xi);
        let ym: u64 = self.mix(self.yi);
        let yi: u64 = self.mix(ym);
        proof {
            assert(rho_walk(before.n, (2 * before.i + 2) as nat) == rho_map(before.n)(
                rho_walk(before.n, (2 * before.i + 1) as nat),
            ));
            lemma_rho_divisor(before.n, i as nat);
        }
        let (g, factor): (u64, Option<u64>) = if xi == yi {
            (n, None)
        } else {
            let dist: u64 = if xi > yi {
                xi - yi
            } else {
                yi - xi
            };
            match gcd(dist, n) {
                Ok(g) => if g != 1 && n % g == 0 {
                    (g, Some(g))
                } else {
                    (g, None)
                },
                Err(_) => (n, None),
            }
        };
        *self = PollardsRSAFact { n, i, xi, yi, factor, finished: xi == yi || factor.is_some() };
        Some(PollardsRSAFactItem { i, xi, yi, g, n })
    }
}

} // verus!
