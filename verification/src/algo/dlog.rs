//! Pollard's rho for the discrete logarithm: the walk on the residues modulo
//! `p` that carries, for each residue, exponents of `g` and `h` explaining it,
//! with a tortoise and a hare that are advanced until they meet.

use crate::algo::cycle::{iterate, lemma_tortoise_meets_hare, maps_into};
use crate::algo::modular::{
    lemma_mul_congruent, lemma_pow_double, lemma_pow_reduce, lemma_pow_succ,
};
use crate::algo::utils::{
    fast_power, gcd, gcd_mul_inverse, gcd_weights, mul_mod, spec_gcd, spec_mul_inverse,
    spec_weights,
};
use crate::error::DomainError;
use vstd::arithmetic::div_mod::lemma_fundamental_div_mod;
use vstd::arithmetic::power::pow;
use vstd::prelude::*;

verus! {

/// A residue `x` with the exponents `a` and `b` that the walk carries for it.
pub struct LogPoint {
    pub x: int,
    pub a: int,
    pub b: int,
}

/// One hop of the walk. The residues are split in three parts by the thirds
/// of `p`: the lowest multiplies by `g`, the middle squares, the highest
/// multiplies by `h`; the exponents follow modulo `p - 1`.
pub open spec fn dlog_mix(p: int, g: int, h: int, t: LogPoint) -> LogPoint {
    if t.x < p / 3 {
        LogPoint { x: (g * t.x) % p, a: (t.a + 1) % (p - 1), b: t.b }
    } else if t.x < (2 * p) / 3 {
        LogPoint { x: (t.x * t.x) % p, a: (2 * t.a) % (p - 1), b: (2 * t.b) % (p - 1) }
    } else {
        LogPoint { x: (h * t.x) % p, a: t.a, b: (t.b + 1) % (p - 1) }
    }
}

/// The point reached after `n` hops from the residue 1 with both exponents 0.
pub open spec fn dlog_walk(p: int, g: int, h: int, n: nat) -> LogPoint
    decreases n,
{
    if n == 0 {
        LogPoint { x: 1, a: 0, b: 0 }
    } else {
        dlog_mix(p, g, h, dlog_walk(p, g, h, (n - 1) as nat))
    }
}

/// After `j` steps the tortoise (`j` hops) and the hare (`2 j` hops) stand on
/// the same residue.
pub open spec fn dlog_meeting(p: int, g: int, h: int, j: nat) -> bool {
    dlog_walk(p, g, h, j).x == dlog_walk(p, g, h, 2 * j).x
}

/// What a walk is, mathematically: its parameters and the number of steps
/// taken. Tortoise, hare and the end of the walk follow from these.
pub struct DLogView {
    pub p: int,
    pub g: int,
    pub h: int,
    pub i: nat,
}

impl DLogView {
    /// The tortoise: one hop for each step.
    pub open spec fn tortoise(self) -> LogPoint {
        dlog_walk(self.p, self.g, self.h, self.i)
    }

    /// The hare: two hops for each step.
    pub open spec fn hare(self) -> LogPoint {
        dlog_walk(self.p, self.g, self.h, 2 * self.i)
    }

    /// The walk has ended: at least one step was taken and the two met.
    pub open spec fn finished(self) -> bool {
        self.i >= 1 && dlog_meeting(self.p, self.g, self.h, self.i)
    }

    /// The walk one step further.
    pub open spec fn advance(self) -> DLogView {
        DLogView { i: self.i + 1, ..self }
    }

    /// The difference of the exponents of `g`, tortoise less hare, modulo
    /// `p - 1`.
    pub open spec fn u(self) -> int {
        (self.tortoise().a - self.hare().a) % (self.p - 1)
    }

    /// The difference of the exponents of `h`, hare less tortoise, modulo
    /// `p - 1`.
    pub open spec fn v(self) -> int {
        (self.hare().b - self.tortoise().b) % (self.p - 1)
    }

    /// The greatest common divisor of `v` and `p - 1`: the number of
    /// candidates for the logarithm.
    pub open spec fn d(self) -> int {
        spec_gcd(self.v() as nat, (self.p - 1) as nat) as int
    }

    /// The inverse of `v` modulo `p - 1`, scaled by `d`, that the weights of
    /// `v / (p - 1)` select.
    pub open spec fn v_inv(self) -> int {
        let w = spec_weights(self.v() as nat, (self.p - 1) as nat);
        spec_mul_inverse(self.p - 1, self.v(), self.d(), w.0 as int, w.1 as int)
    }

    /// The `k`-th candidate for the logarithm: `((p - 1) / d) k + r`, where
    /// `r` is `(u v_inv mod (p - 1)) / d`.
    pub open spec fn candidate(self, k: int) -> int {
        ((self.p - 1) / self.d()) * k + ((self.u() * self.v_inv()) % (self.p - 1)) / self.d()
    }

    /// The `k`-th candidate is a logarithm of `h` to the base `g`.
    pub open spec fn hits(self, k: int) -> bool {
        pow(self.g, self.candidate(k) as nat) % self.p == self.h
    }

    /// The walk has ended, `v` does not vanish, and one of the candidates is a
    /// logarithm.
    pub open spec fn solvable(self) -> bool {
        self.finished() && self.v() != 0 && exists|k: int|
            0 <= k < self.d() && #[trigger] self.hits(k)
    }

    /// The `k`-th candidate is the first that is a logarithm.
    pub open spec fn first_hit(self, k: int) -> bool {
        &&& 0 <= k < self.d()
        &&& self.hits(k)
        &&& forall|j: int| 0 <= j < k ==> !#[trigger] self.hits(j)
    }

    /// The logarithm that the walk yields: the first candidate that is one,
    /// if the walk is solvable.
    pub open spec fn solution(self) -> Option<u64> {
        if self.solvable() {
            Some(self.candidate(choose|k: int| self.first_hit(k)) as u64)
        } else {
            None
        }
    }

    /// `g` and `h` to the power `p - 1` are congruent to 1 modulo `p`.
    pub open spec fn unit_orders(self) -> bool {
        unit_order(self.p, self.g) && unit_order(self.p, self.h)
    }

    /// The exponents of the point `t` explain its residue.
    pub open spec fn explains(self, t: LogPoint) -> bool {
        explained(self.p, self.g, self.h, t)
    }

    /// The record of the walk as it stands.
    pub open spec fn item(self) -> PollardsLogItem {
        PollardsLogItem {
            i: self.i as u64,
            xi: self.tortoise().x as u64,
            ai: self.tortoise().a as u64,
            bi: self.tortoise().b as u64,
            yi: self.hare().x as u64,
            gi: self.hare().a as u64,
            di: self.hare().b as u64,
        }
    }

    /// The parameters are 64-bit numbers with a modulus that admits a walk,
    /// and the walk did not run past a meeting.
    pub open spec fn valid(self) -> bool {
        &&& 2 <= self.p <= u64::MAX
        &&& 0 <= self.g <= u64::MAX
        &&& 0 <= self.h <= u64::MAX
        &&& forall|j: nat| 1 <= j < self.i ==> !#[trigger] dlog_meeting(self.p, self.g, self.h, j)
    }
}

/// The record of one step: the step's number, the tortoise `(xi, ai, bi)` and
/// the hare `(yi, gi, di)`.
#[derive(Debug, Clone, Copy, PartialEq, Eq, Structural)]
pub struct PollardsLogItem {
    pub i: u64,
    pub xi: u64,
    pub ai: u64,
    pub bi: u64,
    pub yi: u64,
    pub gi: u64,
    pub di: u64,
}

impl PollardsLogItem {
    /// The record shows the walk `v` as it stands.
    pub open spec fn shows(self, v: DLogView) -> bool {
        &&& self.i == v.i
        &&& self.xi == v.tortoise().x
        &&& self.ai == v.tortoise().a
        &&& self.bi == v.tortoise().b
        &&& self.yi == v.hare().x
        &&& self.gi == v.hare().a
        &&& self.di == v.hare().b
    }

    /// A record that shows a walk is the record of that walk.
    pub proof fn lemma_shows_item(self, v: DLogView)
        requires
            self.shows(v),
        ensures
            self == v.item(),
    {
    }
}

/// The walk of Pollard's rho for the logarithm of `h` to the base `g` modulo
/// `p`, advanced one step at a time.
#[derive(Debug, PartialEq)]
pub struct PollardsLog {
    p: u64,
    g: u64,
    h: u64,
    i: u64,
    xi: u64,
    yi: u64,
    ai: u64,
    bi: u64,
    gi: u64,
    di: u64,
    finished: bool,
}

impl View for PollardsLog {
    type V = DLogView;

    closed spec fn view(&self) -> DLogView {
        DLogView { p: self.p as int, g: self.g as int, h: self.h as int, i: self.i as nat }
    }
}

/// The exponents of a point explain its residue: `x` is congruent to
/// `g^a h^b` modulo `p`.
pub open spec fn explained(p: int, g: int, h: int, t: LogPoint) -> bool {
    t.x == (pow(g, t.a as nat) * pow(h, t.b as nat)) % p
}

/// `b` to the power `p - 1` is congruent to 1 modulo `p`, as it is for every
/// `b` that a prime `p` does not divide.
pub open spec fn unit_order(p: int, b: int) -> bool {
    pow(b, (p - 1) as nat) % p == 1
}

/// One hop keeps a point explained.
pub proof fn lemma_mix_explained(p: int, g: int, h: int, t: LogPoint)
    requires
        p >= 2,
        0 <= t.x < p,
        0 <= t.a < p - 1,
        0 <= t.b < p - 1,
        unit_order(p, g),
        unit_order(p, h),
        explained(p, g, h, t),
    ensures
        explained(p, g, h, dlog_mix(p, g, h, t)),
{
    let m = (p - 1) as nat;
    let a = t.a as nat;
    let b = t.b as nat;
    let ga = pow(g, a);
    let hb = pow(h, b);
    let next = dlog_mix(p, g, h, t);
    vstd::arithmetic::div_mod::lemma_mod_twice(ga * hb, p);
    vstd::arithmetic::div_mod::lemma_small_mod(t.x as nat, p as nat);
    if t.x < p / 3 {
        // g x = g^(a + 1) h^b, and a + 1 may be reduced
        lemma_pow_succ(g, a);
        lemma_pow_reduce(g, a + 1, m, p);
        lemma_mul_congruent(g, g, t.x, ga * hb, p);
        assert(g * (ga * hb) == pow(g, a + 1) * hb) by (nonlinear_arith)
            requires
                pow(g, a + 1) == g * ga,
        ;
        lemma_mul_congruent(pow(g, a + 1), pow(g, (a + 1) % m), hb, hb, p);
    } else if t.x < (2 * p) / 3 {
        // x x = g^(2 a) h^(2 b), and both exponents may be reduced
        lemma_pow_double(g, a);
        lemma_pow_double(h, b);
        lemma_pow_reduce(g, 2 * a, m, p);
        lemma_pow_reduce(h, 2 * b, m, p);
        lemma_mul_congruent(t.x, ga * hb, t.x, ga * hb, p);
        assert((ga * hb) * (ga * hb) == pow(g, 2 * a) * pow(h, 2 * b)) by (nonlinear_arith)
            requires
                pow(g, 2 * a) == ga * ga,
                pow(h, 2 * b) == hb * hb,
        ;
        lemma_mul_congruent(
            pow(g, 2 * a),
            pow(g, (2 * a) % m),
            pow(h, 2 * b),
            pow(h, (2 * b) % m),
            p,
        );
    } else {
        // h x = g^a h^(b + 1), and b + 1 may be reduced
        lemma_pow_succ(h, b);
        lemma_pow_reduce(h, b + 1, m, p);
        lemma_mul_congruent(h, h, t.x, ga * hb, p);
        assert(h * (ga * hb) == ga * pow(h, b + 1)) by (nonlinear_arith)
            requires
                pow(h, b + 1) == h * hb,
        ;
        lemma_mul_congruent(ga, ga, pow(h, b + 1), pow(h, (b + 1) % m), p);
    }
}

/// Every point of the walk is explained by its exponents: at every step the
/// residue is congruent to `g^a h^b` modulo `p`, for the tortoise and for the
/// hare. This is so where `g` and `h` to the power `p - 1` are congruent to
/// 1, which is what lets exponents be kept modulo `p - 1`.
pub proof fn lemma_walk_explained(p: int, g: int, h: int, n: nat)
    requires
        p >= 2,
        unit_order(p, g),
        unit_order(p, h),
    ensures
        explained(p, g, h, dlog_walk(p, g, h, n)),
    decreases n,
{
    if n == 0 {
        vstd::arithmetic::power::lemma_pow0(g);
        vstd::arithmetic::power::lemma_pow0(h);
        vstd::arithmetic::div_mod::lemma_small_mod(1, p as nat);
    } else {
        lemma_walk_explained(p, g, h, (n - 1) as nat);
        lemma_walk_bounded(p, g, h, (n - 1) as nat);
        lemma_mix_explained(p, g, h, dlog_walk(p, g, h, (n - 1) as nat));
    }
}

/// Modulo a prime that divides neither `g` nor `h`, every point of the walk
/// is explained by its exponents.
pub proof fn lemma_walk_explained_prime(p: int, g: int, h: int, n: nat)
    requires
        crate::algo::prime::is_prime(p),
        g >= 0,
        h >= 0,
        g % p != 0,
        h % p != 0,
    ensures
        explained(p, g, h, dlog_walk(p, g, h, n)),
{
    crate::algo::prime::lemma_fermat(p, g);
    crate::algo::prime::lemma_fermat(p, h);
    lemma_walk_explained(p, g, h, n);
}

/// The residue part of one hop, as a map on residues.
pub open spec fn dlog_residue_map(p: int, g: int, h: int) -> spec_fn(int) -> int {
    |x: int| dlog_mix(p, g, h, LogPoint { x, a: 0, b: 0 }).x
}

/// Every point of the walk has its residue below `p` and its exponents below
/// `p - 1`.
pub proof fn lemma_walk_bounded(p: int, g: int, h: int, n: nat)
    requires
        p >= 2,
    ensures
        0 <= dlog_walk(p, g, h, n).x < p,
        0 <= dlog_walk(p, g, h, n).a < p - 1,
        0 <= dlog_walk(p, g, h, n).b < p - 1,
    decreases n,
{
    if n > 0 {
        lemma_walk_bounded(p, g, h, (n - 1) as nat);
    }
}

/// The residues of the walk are the iterates of the residue map.
pub proof fn lemma_walk_residues(p: int, g: int, h: int, n: nat)
    ensures
        dlog_walk(p, g, h, n).x == iterate(dlog_residue_map(p, g, h), n, 1),
    decreases n,
{
    if n > 0 {
        lemma_walk_residues(p, g, h, (n - 1) as nat);
    }
}

/// The walk ends: tortoise and hare meet after at most `p` steps.
pub proof fn lemma_walk_meets(p: int, g: int, h: int) -> (j: nat)
    requires
        p >= 2,
    ensures
        1 <= j <= p,
        dlog_meeting(p, g, h, j),
{
    let f = dlog_residue_map(p, g, h);
    assert(maps_into(f, p));
    let j = lemma_tortoise_meets_hare(f, p, 1);
    lemma_walk_residues(p, g, h, j);
    lemma_walk_residues(p, g, h, 2 * j);
    j
}

/// A valid walk that has not ended has taken fewer than `p` steps.
pub proof fn lemma_steps_bounded(v: DLogView)
    requires
        v.valid(),
    ensures
        v.i <= v.p,
        !v.finished() ==> v.i < v.p,
{
    let j = lemma_walk_meets(v.p, v.g, v.h);
    if v.i > j {
        assert(dlog_meeting(v.p, v.g, v.h, j));
    }
}

/// `(a - c) mod m` for two residues, with a borrow of `m` where `c` is the
/// larger.
fn sub_mod(a: u64, c: u64, m: u64) -> (r: u64)
    requires
        a < m,
        c < m,
    ensures
        r == (a - c) % (m as int),
        r < m,
{
    proof {
        if a >= c {
            vstd::arithmetic::div_mod::lemma_small_mod((a - c) as nat, m as nat);
        } else {
            vstd::arithmetic::div_mod::lemma_small_mod((a + m - c) as nat, m as nat);
            vstd::arithmetic::div_mod::lemma_mod_multiples_vanish(1, a - c, m as int);
        }
    }
    if a >= c {
        a - c
    } else {
        m - (c - a)
    }
}

impl PollardsLog {
    #[verifier::type_invariant]
    closed spec fn inv(self) -> bool {
        &&& self@.valid()
        &&& self.xi == self@.tortoise().x
        &&& self.ai == self@.tortoise().a
        &&& self.bi == self@.tortoise().b
        &&& self.yi == self@.hare().x
        &&& self.gi == self@.hare().a
        &&& self.di == self@.hare().b
        &&& self.finished == self@.finished()
    }

    /// A walk at its start: no step taken, tortoise and hare on the residue 1.
    pub fn new(p: u64, g: u64, h: u64) -> (walk: PollardsLog)
        requires
            p >= 2,
        ensures
            walk@ == (DLogView { p: p as int, g: g as int, h: h as int, i: 0 }),
            walk@.valid(),
    {
        PollardsLog { p, g, h, i: 0, xi: 1, yi: 1, ai: 0, bi: 0, gi: 0, di: 0, finished: false }
    }

    /// The modulus.
    pub fn p(&self) -> (r: u64)
        ensures
            r == self@.p,
    {
        self.p
    }

    /// The base of the logarithm.
    pub fn g(&self) -> (r: u64)
        ensures
            r == self@.g,
    {
        self.g
    }

    /// The value whose logarithm is sought.
    pub fn h(&self) -> (r: u64)
        ensures
            r == self@.h,
    {
        self.h
    }

    /// The number of steps taken.
    pub fn steps(&self) -> (r: u64)
        ensures
            r == self@.i,
            self@.valid(),
    {
        proof {
            use_type_invariant(self);
        }
        self.i
    }

    /// Whether the walk has ended, that is, whether tortoise and hare have met.
    pub fn is_terminated(&self) -> (r: bool)
        ensures
            r == self@.finished(),
            self@.valid(),
    {
        proof {
            use_type_invariant(self);
        }
        self.finished
    }

    /// The logarithm of `h` to the base `g`, recovered from the meeting of
    /// tortoise and hare. The exponents at the meeting name `d` candidates;
    /// each is tried in turn, and the first that `g` raises to `h` is
    /// returned, so that what is returned is a logarithm. None is returned
    /// where no candidate is one. A walk that has not ended cannot be solved,
    /// and neither can a meeting at which `v` vanishes, for then `d` would be
    /// a common divisor with zero.
    pub fn solve(&self) -> (r: Result<Option<u64>, DomainError>)
        ensures
            self@.valid(),
            !self@.finished() ==> r == Err::<Option<u64>, DomainError>(DomainError::NotConverged),
            (self@.finished() && self@.v() == 0) ==> r == Err::<Option<u64>, DomainError>(
                DomainError::ZeroOperand,
            ),
            (self@.finished() && self@.v() != 0) ==> r == Ok::<Option<u64>, DomainError>(
                self@.solution(),
            ),
            r matches Ok(Some(e)) ==> pow(self@.g, e as nat) % self@.p == self@.h,
            r matches Ok(Some(e)) ==> exists|k: int|
                e == self@.candidate(k) && #[trigger] self@.first_hit(k),
            r matches Ok(None) ==> forall|k: int| 0 <= k < self@.d() ==> !#[trigger] self@.hits(k),
    {
        proof {
            use_type_invariant(self);
            lemma_walk_bounded(self@.p, self@.g, self@.h, self@.i);
            lemma_walk_bounded(self@.p, self@.g, self@.h, 2 * self@.i);
        }
        if !self.finished {
            return Err(DomainError::NotConverged);
        }
        let m: u64 = self.p - 1;
        let u: u64 = sub_mod(self.ai, self.gi, m);
        let v: u64 = sub_mod(self.di, self.bi, m);
        let d: u64 = match gcd(v, m) {
            Ok(d) => d,
            Err(e) => {
                return Err(e);
            },
        };
        let (s, t) = gcd_weights(v, m);
        let v_inv: u64 = gcd_mul_inverse(m, v, d, s, t);
        let stride: u64 = m / d;
        let r: u64 = mul_mod(u, v_inv, m) / d;
        proof {
            lemma_fundamental_div_mod(m as int, d as int);
            let x = (u * v_inv) % (m as int);
            lemma_fundamental_div_mod(x, d as int);
            assert(r < stride && stride * d == m) by (nonlinear_arith)
                requires
                    m == d * stride,
                    x == d * r + x % (d as int),
                    0 <= x % (d as int),
                    x < m,
                    d > 0,
            ;
        }
        let mut k: u64 = 0;
        while k < d
            invariant
                k <= d,
                d == self@.d(),
                stride == (self@.p - 1) / self@.d(),
                r == ((self@.u() * self@.v_inv()) % (self@.p - 1)) / self@.d(),
                r < stride,
                stride * d == self@.p - 1,
                self@.p >= 2,
                self.p == self@.p,
                self.g == self@.g,
                self.h == self@.h,
                self@.valid(),
                self@.finished(),
                self@.v() != 0,
                forall|j: int| 0 <= j < k ==> !#[trigger] self@.hits(j),
            decreases d - k,
        {
            proof {
                assert(0 <= stride * k && stride * k + r < stride * d) by (nonlinear_arith)
                    requires
                        0 <= k < d,
                        0 <= r < stride,
                ;
            }
            let e: u64 = stride * k + r;
            if fast_power(self.g, e, self.p) == self.h {
                proof {
                    assert(e == self@.candidate(k as int));
                    assert(self@.hits(k as int));
                    assert(self@.first_hit(k as int));
                    let chosen = choose|c: int| self@.first_hit(c);
                    assert(chosen == k) by {
                        if chosen < k {
                            assert(!self@.hits(chosen));
                        }
                        if k < chosen {
                            assert(self@.hits(k as int));
                        }
                    }
                }
                return Ok(Some(e));
            }
            proof {
                assert(!self@.hits(k as int));
            }
            k = k + 1;
        }
        Ok(None)
    }

    /// One hop from the point `(x, a, b)`.
    fn mix(&self, x: u64, a: u64, b: u64) -> (r: (u64, u64, u64))
        requires
            x < self@.p,
            a < self@.p - 1,
            b < self@.p - 1,
        ensures
            (LogPoint { x: r.0 as int, a: r.1 as int, b: r.2 as int }) == dlog_mix(
                self@.p,
                self@.g,
                self@.h,
                LogPoint { x: x as int, a: a as int, b: b as int },
            ),
    {
        proof {
            use_type_invariant(self);
        }
        let m: u64 = self.p - 1;
        let low: u64 = self.p / 3;
        let high: u64 = ((2 * (self.p as u128)) / 3) as u64;
        if x < low {
            (mul_mod(self.g, x, self.p), ((a as u128 + 1) % (m as u128)) as u64, b)
        } else if x < high {
            (
                mul_mod(x, x, self.p),
                ((2 * (a as u128)) % (m as u128)) as u64,
                ((2 * (b as u128)) % (m as u128)) as u64,
            )
        } else {
            (mul_mod(self.h, x, self.p), a, ((b as u128 + 1) % (m as u128)) as u64)
        }
    }

    /// Advances the walk by one step and reports it, unless the walk has
    /// ended. The step on which tortoise and hare meet is the last. Where `g`
    /// and `h` to the power `p - 1` are congruent to 1, tortoise and hare are
    /// explained by their exponents before and after.
    pub fn next(&mut self) -> (r: Option<PollardsLogItem>)
        ensures
            old(self)@.valid(),
            final(self)@.valid(),
            old(self)@.finished() ==> r is None && final(self)@ == old(self)@,
            !old(self)@.finished() ==> final(self)@ == old(self)@.advance() && final(self)@.i
                <= final(self)@.p,
            !old(self)@.finished() ==> (r matches Some(item) && item.shows(final(self)@)),
            final(self)@.unit_orders() ==> final(self)@.explains(final(self)@.tortoise())
                && final(self)@.explains(final(self)@.hare()),
    {
        proof {
            use_type_invariant(&*self);
            lemma_steps_bounded(self@);
            let v = self@;
            if unit_order(v.p, v.g) && unit_order(v.p, v.h) {
                lemma_walk_explained(v.p, v.g, v.h, v.i);
                lemma_walk_explained(v.p, v.g, v.h, 2 * v.i);
                lemma_walk_explained(v.p, v.g, v.h, v.i + 1);
                lemma_walk_explained(v.p, v.g, v.h, 2 * (v.i + 1));
            }
        }
        if self.finished {
            return None;
        }
        let ghost before = self@;
        proof {
            lemma_walk_bounded(before.p, before.g, before.h, before.i);
            lemma_walk_bounded(before.p, before.g, before.h, 2 * before.i);
        }
        let (xi, ai, bi) = self.mix(self.xi, self.ai, self.bi);
        let (ym, gm, dm) = self.mix(self.yi, self.gi, self.di);
        proof {
            lemma_walk_bounded(before.p, before.g, before.h, 2 * before.i + 1);
        }
        let (yi, gi, di) = self.mix(ym, gm, dm);
        let i: u64 = self.i + 1;
        proof {
            assert(dlog_walk(before.p, before.g, before.h, (2 * before.i + 2) as nat) == dlog_mix(
                before.p,
                before.g,
                before.h,
                dlog_walk(before.p, before.g, before.h, (2 * before.i + 1) as nat),
            ));
        }
        *self = PollardsLog {
            p: self.p,
            g: self.g,
            h: self.h,
            i,
            xi,
            yi,
            ai,
            bi,
            gi,
            di,
            finished: xi == yi,
        };
        Some(PollardsLogItem { i, xi, ai, bi, yi, gi, di })
    }
}

} // verus!
