//! Integer utilities: greatest common divisor, modular exponentiation,
//! continued-fraction weights, scaled modular inverse and the Miller-Rabin
//! witness test.

use crate::algo::modular::{
    lemma_mul_congruent, lemma_pow_congruent, lemma_pow_double, lemma_pow_halve,
    lemma_pow_succ, lemma_product_fits,
};
use crate::error::DomainError;
use vstd::arithmetic::power::{lemma_pow0, pow};
use vstd::arithmetic::div_mod::{lemma_fundamental_div_mod, lemma_mod_self_0, lemma_small_mod};
use vstd::prelude::*;

verus! {

/// `d` divides `n`.
pub open spec fn divides(d: int, n: int) -> bool {
    d != 0 && n % d == 0
}

/// `d` is the greatest among the positive common divisors of `a` and `b`.
pub open spec fn is_gcd(d: int, a: int, b: int) -> bool {
    &&& d > 0
    &&& divides(d, a)
    &&& divides(d, b)
    &&& forall|c: int| c > 0 && #[trigger] divides(c, a) && divides(c, b) ==> c <= d
}

/// The greatest common divisor, by Euclid's recursion.
pub open spec fn spec_gcd(a: nat, b: nat) -> nat
    decreases b,
{
    if b == 0 {
        a
    } else {
        spec_gcd(b, a % b)
    }
}

/// A common divisor of `b` and `a % b` divides `a`, and the other way round.
pub proof fn lemma_divides_step(c: int, a: int, b: int)
    requires
        c > 0,
        b > 0,
        a >= 0,
    ensures
        (divides(c, a) && divides(c, b)) <==> (divides(c, b) && divides(c, a % b)),
{
    lemma_fundamental_div_mod(a, b);
    let q = a / b;
    let r = a % b;
    if divides(c, b) {
        lemma_fundamental_div_mod(b, c);
        let k = b / c;
        assert(b == c * k);
        assert(b * q == c * (k * q)) by (nonlinear_arith)
            requires
                b == c * k,
        ;
        if divides(c, a) {
            lemma_fundamental_div_mod(a, c);
            let j = a / c;
            assert(r == c * (j - k * q)) by (nonlinear_arith)
                requires
                    a == c * j,
                    b * q == c * (k * q),
                    a == b * q + r,
            ;
            lemma_multiple_divides(c, j - k * q);
        }
        if divides(c, r) {
            lemma_fundamental_div_mod(r, c);
            let j = r / c;
            assert(a == c * (k * q + j)) by (nonlinear_arith)
                requires
                    r == c * j,
                    b * q == c * (k * q),
                    a == b * q + r,
            ;
            lemma_multiple_divides(c, k * q + j);
        }
    }
}

/// Every multiple of a positive `c` is divisible by `c`.
pub proof fn lemma_multiple_divides(c: int, k: int)
    requires
        c > 0,
    ensures
        divides(c, c * k),
{
    vstd::arithmetic::div_mod::lemma_mod_multiples_basic(k, c);
    assert(k * c == c * k) by (nonlinear_arith);
}

/// Euclid's recursion yields the greatest common divisor.
pub proof fn lemma_gcd_is_greatest(a: nat, b: nat)
    requires
        a > 0 || b > 0,
    ensures
        is_gcd(spec_gcd(a, b) as int, a as int, b as int),
    decreases b,
{
    let d = spec_gcd(a, b) as int;
    if b == 0 {
        lemma_mod_self_0(a as int);
        assert(divides(d, 0));
        assert forall|c: int| c > 0 && #[trigger] divides(c, a as int) && divides(c, 0) implies c
            <= d by {
            if c > a {
                lemma_small_mod(a, c as nat);
            }
        }
    } else {
        lemma_gcd_is_greatest(b, a % b);
        lemma_divides_step(d, a as int, b as int);
        assert forall|c: int|
            c > 0 && #[trigger] divides(c, a as int) && divides(c, b as int) implies c <= d by {
            lemma_divides_step(c, a as int, b as int);
        }
    }
}

/// Greatest common divisor of two positive integers, by Euclid's algorithm.
///
/// Zero has every integer as a divisor, so an operand of zero is refused.
pub fn gcd(a: u64, b: u64) -> (r: Result<u64, DomainError>)
    ensures
        (a == 0 || b == 0) ==> r == Err::<u64, DomainError>(DomainError::ZeroOperand),
        (a != 0 && b != 0) ==> (r matches Ok(d) && d == spec_gcd(a as nat, b as nat) && is_gcd(
            d as int,
            a as int,
            b as int,
        )),
{
    if a == 0 || b == 0 {
        return Err(DomainError::ZeroOperand);
    }
    let mut x: u64 = a;
    let mut y: u64 = b;
    let mut r: u64 = x % y;
    while r > 0
        invariant
            y > 0,
            r == x % y,
            spec_gcd(x as nat, y as nat) == spec_gcd(a as nat, b as nat),
        decreases y,
    {
        x = y;
        y = r;
        r = x % y;
    }
    proof {
        assert(spec_gcd(y as nat, 0) == y);
        lemma_gcd_is_greatest(a as nat, b as nat);
    }
    Ok(y)
}

/// `(a * b) mod n`, with the product taken in 128 bits so that it cannot
/// overflow.
pub fn mul_mod(a: u64, b: u64, n: u64) -> (r: u64)
    requires
        n > 0,
    ensures
        r == ((a as int) * (b as int)) % (n as int),
        r < n,
{
    proof {
        lemma_product_fits(a, b);
    }
    let wide: u128 = (a as u128) * (b as u128);
    let r: u128 = wide % (n as u128);
    r as u64
}

/// Modular exponentiation by repeated squaring: `g` to the power `e`, modulo
/// `n`.
pub fn fast_power(g: u64, e: u64, n: u64) -> (r: u64)
    requires
        n > 0,
    ensures
        r == pow(g as int, e as nat) % (n as int),
{
    let mut r: u64 = 1 % n;
    let mut b: u64 = g % n;
    let mut k: u64 = e;
    proof {
        vstd::arithmetic::div_mod::lemma_mod_twice(g as int, n as int);
        vstd::arithmetic::div_mod::lemma_mod_twice(1, n as int);
        lemma_pow_congruent(b as int, g as int, e as nat, n as int);
        lemma_mul_congruent(
            r as int,
            1,
            pow(b as int, k as nat),
            pow(g as int, e as nat),
            n as int,
        );
    }
    while k > 0
        invariant
            n > 0,
            r < n,
            b < n,
            (r * pow(b as int, k as nat)) % (n as int) == pow(g as int, e as nat) % (n as int),
        decreases k,
    {
        let ghost r0 = r as int;
        let ghost b0 = b as int;
        let ghost k0 = k as nat;
        if k % 2 == 1 {
            r = mul_mod(r, b, n);
        }
        b = mul_mod(b, b, n);
        k = k / 2;
        proof {
            let m = n as int;
            let tail = pow(b0 * b0, k as nat);
            lemma_pow_halve(b0, k0);
            vstd::arithmetic::div_mod::lemma_mod_twice(b0 * b0, m);
            lemma_pow_congruent(b as int, b0 * b0, k as nat, m);
            if k0 % 2 == 1 {
                vstd::arithmetic::div_mod::lemma_mod_twice(r0 * b0, m);
                lemma_mul_congruent(r as int, r0 * b0, pow(b as int, k as nat), tail, m);
                assert(r0 * pow(b0, k0) == (r0 * b0) * tail) by (nonlinear_arith)
                    requires
                        pow(b0, k0) == b0 * tail,
                ;
            } else {
                lemma_mul_congruent(r as int, r0, pow(b as int, k as nat), tail, m);
            }
        }
    }
    proof {
        lemma_pow0(b as int);
        vstd::arithmetic::div_mod::lemma_small_mod(r as nat, n as nat);
    }
    r
}

/// The weights of the continued fraction of `a / b`: numerator and
/// denominator of its last convergent but one. Euclid's step `a = q b + r`
/// sends the weights `(s, t)` of `b / r` to `(q s + t, s)`; where `b` divides
/// `a` the weights are `(1, 0)`.
pub open spec fn spec_weights(a: nat, b: nat) -> (nat, nat)
    decreases b,
{
    if b == 0 || a % b == 0 {
        (1, 0)
    } else {
        let w = spec_weights(b, a % b);
        ((a / b) * w.0 + w.1, w.0)
    }
}

/// Bezout's identity for the weights: `a t - b s` is the greatest common
/// divisor of `a` and `b`, up to its sign.
pub proof fn lemma_weights_bezout(a: nat, b: nat)
    requires
        b > 0,
    ensures
        ({
            let (s, t) = spec_weights(a, b);
            let g = spec_gcd(a, b);
            a * t - b * s == g || b * s - a * t == g
        }),
    decreases b,
{
    let q = a / b;
    let r = a % b;
    lemma_fundamental_div_mod(a as int, b as int);
    if r == 0 {
        assert(spec_gcd(b, 0) == b);
    } else {
        lemma_weights_bezout(b, r);
        let (s_tail, t_tail) = spec_weights(b, r);
        let g = spec_gcd(a, b);
        assert(a * s_tail - b * (q * s_tail + t_tail) == r * s_tail - b * t_tail)
            by (nonlinear_arith)
            requires
                a == b * q + r,
        ;
    }
}

/// The weights `(s, t)` of the continued fraction of `a / b`, for which
/// `a t - b s` is plus or minus the greatest common divisor.
pub fn gcd_weights(a: u64, b: u64) -> (w: (u64, u64))
    requires
        b > 0,
    ensures
        (w.0 as nat, w.1 as nat) == spec_weights(a as nat, b as nat),
        a * w.1 - b * w.0 == spec_gcd(a as nat, b as nat) || b * w.0 - a * w.1 == spec_gcd(
            a as nat,
            b as nat,
        ),
{
    let mut x: u64 = a;
    let mut y: u64 = b;
    let mut num: u64 = a / b;
    let mut num_before: u64 = 1;
    let mut den: u64 = 1;
    let mut den_before: u64 = 0;
    let mut r: u64 = a % b;
    proof {
        lemma_fundamental_div_mod(a as int, b as int);
        assert(num * b == b * num) by (nonlinear_arith);
        assert(num_before * r == r && den * b == b && den_before * r == 0) by (nonlinear_arith)
            requires
                num_before == 1,
                den == 1,
                den_before == 0,
        ;
    }
    while r > 0
        invariant
            y > 0,
            r == x % y,
            a == num * y + num_before * r,
            b == den * y + den_before * r,
            r != 0 ==> spec_weights(a as nat, b as nat) == ({
                let w = spec_weights(y as nat, r as nat);
                ((num * w.0 + num_before * w.1) as nat, (den * w.0 + den_before * w.1) as nat)
            }),
            r == 0 ==> spec_weights(a as nat, b as nat) == (num_before as nat, den_before as nat),
        decreases y,
    {
        let ghost w = spec_weights(y as nat, r as nat);
        let q: u64 = y / r;
        let rest: u64 = y % r;
        proof {
            lemma_fundamental_div_mod(y as int, r as int);
            assert(a == (num * q + num_before) * r + num * rest && num * q + num_before <= a && 0
                <= num * q <= a) by (nonlinear_arith)
                requires
                    a == num * y + num_before * r,
                    y == r * q + rest,
                    r >= 1,
                    rest >= 0,
            ;
            assert(b == (den * q + den_before) * r + den * rest && den * q + den_before <= b && 0
                <= den * q <= b) by (nonlinear_arith)
                requires
                    b == den * y + den_before * r,
                    y == r * q + rest,
                    r >= 1,
                    rest >= 0,
            ;
            if rest != 0 {
                let w_tail = spec_weights(r as nat, rest as nat);
                assert(w == ((q * w_tail.0 + w_tail.1) as nat, w_tail.0));
                assert(num * w.0 + num_before * w.1 == (num * q + num_before) * w_tail.0 + num
                    * w_tail.1) by (nonlinear_arith)
                    requires
                        w.0 == q * w_tail.0 + w_tail.1,
                        w.1 == w_tail.0,
                ;
                assert(den * w.0 + den_before * w.1 == (den * q + den_before) * w_tail.0 + den
                    * w_tail.1) by (nonlinear_arith)
                    requires
                        w.0 == q * w_tail.0 + w_tail.1,
                        w.1 == w_tail.0,
                ;
            } else {
                assert(w == (1nat, 0nat));
                assert(num * w.0 + num_before * w.1 == num) by (nonlinear_arith)
                    requires
                        w.0 == 1,
                        w.1 == 0,
                ;
                assert(den * w.0 + den_before * w.1 == den) by (nonlinear_arith)
                    requires
                        w.0 == 1,
                        w.1 == 0,
                ;
            }
        }
        let num_next: u64 = num * q + num_before;
        let den_next: u64 = den * q + den_before;
        num_before = num;
        den_before = den;
        num = num_next;
        den = den_next;
        x = y;
        y = r;
        r = rest;
    }
    proof {
        lemma_weights_bezout(a as nat, b as nat);
    }
    (num_before, den_before)
}

/// The scaled inverse that the weights `(s, t)` select: of the four ways in
/// which `m`, `v` and the weights can combine to `d`, the first that holds
/// names the weight that is, with its sign, an inverse of `v` scaled by `d`.
pub open spec fn spec_mul_inverse(m: int, v: int, d: int, s: int, t: int) -> int {
    if m * s - v * t == d {
        (-t) % m
    } else if m * t - v * s == d {
        (-s) % m
    } else if v * t - m * s == d {
        t % m
    } else {
        s % m
    }
}

/// One of the four combinations of `m`, `v` and the weights equals `d`.
pub open spec fn combines_to(m: int, v: int, d: int, s: int, t: int) -> bool {
    ||| m * s - v * t == d
    ||| m * t - v * s == d
    ||| v * t - m * s == d
    ||| v * s - m * t == d
}

/// The selected weight is an inverse of `v` modulo `m`, scaled by `d`.
pub proof fn lemma_mul_inverse_scaled(m: int, v: int, d: int, s: int, t: int)
    requires
        m > 0,
        combines_to(m, v, d, s, t),
    ensures
        0 <= spec_mul_inverse(m, v, d, s, t) < m,
        (v * spec_mul_inverse(m, v, d, s, t)) % m == d % m,
{
    let w = spec_mul_inverse(m, v, d, s, t);
    // w is congruent to a weight c, with sign, for which v c = d + m k
    let (c, k): (int, int) = if m * s - v * t == d {
        (-t, -s)
    } else if m * t - v * s == d {
        (-s, -t)
    } else if v * t - m * s == d {
        (t, s)
    } else {
        (s, t)
    };
    assert(w == c % m);
    assert(v * c == m * k + d) by (nonlinear_arith)
        requires
            (c == -t && k == -s && m * s - v * t == d) || (c == -s && k == -t && m * t - v * s
                == d) || (c == t && k == s && v * t - m * s == d) || (c == s && k == t && v * s - m
                * t == d),
    ;
    vstd::arithmetic::div_mod::lemma_mul_mod_noop_right(v, c, m);
    vstd::arithmetic::div_mod::lemma_mod_multiples_vanish(k, d, m);
}

/// `(-t) mod m`, found as `(k m - t) mod m` for a multiple `k m` of `m` that
/// is doubled until it reaches `t`.
fn neg_mod(t: u64, m: u64) -> (w: u64)
    requires
        m > 0,
    ensures
        w == (-(t as int)) % (m as int),
        w < m,
{
    let mut km: u128 = m as u128;
    let ghost mut k: int = 1;
    while km < t as u128
        invariant
            m > 0,
            km == k * m,
            k >= 1,
            m <= km < 0x2_0000_0000_0000_0000,
        decreases 0x2_0000_0000_0000_0000 - km,
    {
        proof {
            assert((2 * k) * m == 2 * (k * m)) by (nonlinear_arith);
            k = 2 * k;
        }
        km = km + km;
    }
    proof {
        vstd::arithmetic::div_mod::lemma_mod_multiples_vanish(k, -(t as int), m as int);
        assert(m * k + (-(t as int)) == km - t) by (nonlinear_arith)
            requires
                km == k * m,
        ;
    }
    ((km - t as u128) % (m as u128)) as u64
}

/// The inverse of `v` modulo `m`, scaled by `d`: a residue `w` with
/// `v w` congruent to `d`. The weights `(s, t)` must combine with `m` and `v`
/// to `d` in one of the four ways; which one holds decides the weight taken
/// and its sign.
pub fn gcd_mul_inverse(m: u64, v: u64, d: u64, s: u64, t: u64) -> (w: u64)
    requires
        m > 0,
        d > 0,
        combines_to(m as int, v as int, d as int, s as int, t as int),
    ensures
        w == spec_mul_inverse(m as int, v as int, d as int, s as int, t as int),
        w < m,
        (v * w) % (m as int) == (d as int) % (m as int),
{
    proof {
        lemma_product_fits(m, s);
        lemma_product_fits(v, t);
        lemma_product_fits(m, t);
        lemma_product_fits(v, s);
        lemma_mul_inverse_scaled(m as int, v as int, d as int, s as int, t as int);
    }
    let ms: u128 = (m as u128) * (s as u128);
    let vt: u128 = (v as u128) * (t as u128);
    let mt: u128 = (m as u128) * (t as u128);
    let vs: u128 = (v as u128) * (s as u128);
    if ms > vt && ms - vt == d as u128 {
        neg_mod(t, m)
    } else if mt > vs && mt - vs == d as u128 {
        neg_mod(s, m)
    } else if vt > ms && vt - ms == d as u128 {
        t % m
    } else {
        s % m
    }
}

/// What is left of `n` when every factor 2 is taken out; 0 for 0.
pub open spec fn odd_part(n: nat) -> nat
    decreases n,
{
    if n == 0 || n % 2 == 1 {
        n
    } else {
        odd_part(n / 2)
    }
}

/// How many factors 2 `n` has; 0 for 0.
pub open spec fn two_adicity(n: nat) -> nat
    decreases n,
{
    if n == 0 || n % 2 == 1 {
        0
    } else {
        1 + two_adicity(n / 2)
    }
}

/// `a` to the power `q 2^j`, modulo `n`: the `j`-th term of the squaring
/// sequence that starts at `a^q`.
pub open spec fn squaring_term(n: int, a: int, q: nat, j: nat) -> int {
    pow(a, q * (pow(2, j) as nat)) % n
}

/// `a` proves `n` composite in the sense of Miller and Rabin: `n` is even, or
/// shares a proper divisor with `a`, or, with `n - 1 = 2^k q` and `q` odd,
/// `a^q` is not 1 and none of `a^q, a^(2q), ..., a^(2^(k-1) q)` is `-1`
/// modulo `n`.
pub open spec fn is_witness(n: int, a: int) -> bool {
    ||| n % 2 == 0
    ||| 1 < spec_gcd(a as nat, n as nat) < n
    ||| ({
        let q = odd_part((n - 1) as nat);
        let k = two_adicity((n - 1) as nat);
        &&& pow(a, q) % n != 1
        &&& forall|j: nat| j < k ==> #[trigger] squaring_term(n, a, q, j) != n - 1
    })
}

/// The Miller-Rabin test of `n` to the base `a`: whether `a` proves `n`
/// composite. The test starts from the greatest common divisor of `a` and
/// `n`, so neither may be zero.
pub fn miller_rabin(n: u64, a: u64) -> (r: Result<bool, DomainError>)
    ensures
        (a == 0 || n == 0) ==> r == Err::<bool, DomainError>(DomainError::ZeroOperand),
        (a != 0 && n != 0) ==> r == Ok::<bool, DomainError>(is_witness(n as int, a as int)),
{
    let d: u64 = match gcd(a, n) {
        Ok(d) => d,
        Err(e) => {
            return Err(e);
        },
    };
    if n % 2 == 0 || (1 < d && d < n) {
        return Ok(true);
    }
    let mut q: u64 = n - 1;
    let mut k: u64 = 0;
    while q > 0 && q % 2 == 0
        invariant
            n >= 1,
            q + k <= n - 1,
            odd_part(q as nat) == odd_part((n - 1) as nat),
            two_adicity(q as nat) + k == two_adicity((n - 1) as nat),
        decreases q,
    {
        q = q / 2;
        k = k + 1;
    }
    let mut x: u64 = fast_power(a, q, n);
    if x == 1 {
        return Ok(false);
    }
    proof {
        lemma_pow0(2);
        assert((q as nat) * (pow(2, 0) as nat) == q) by (nonlinear_arith)
            requires
                pow(2, 0) == 1,
        ;
    }
    let mut i: u64 = 0;
    while i < k
        invariant
            i <= k,
            n >= 1,
            a != 0,
            n % 2 == 1,
            !(1 < spec_gcd(a as nat, n as nat) < n),
            pow(a as int, q as nat) % (n as int) != 1,
            x < n,
            q == odd_part((n - 1) as nat),
            k == two_adicity((n - 1) as nat),
            x == squaring_term(n as int, a as int, q as nat, i as nat),
            forall|j: nat|
                j < i ==> #[trigger] squaring_term(n as int, a as int, q as nat, j) != n - 1,
        decreases k - i,
    {
        if x == n - 1 {
            return Ok(false);
        }
        let ghost e: nat = (q as nat) * (pow(2, i as nat) as nat);
        proof {
            vstd::arithmetic::power::lemma_pow_positive(2, i as nat);
            lemma_pow_succ(2, i as nat);
            assert((q as nat) * (pow(2, (i + 1) as nat) as nat) == 2 * e) by (nonlinear_arith)
                requires
                    e == (q as nat) * (pow(2, i as nat) as nat),
                    pow(2, (i + 1) as nat) == 2 * pow(2, i as nat),
                    pow(2, i as nat) > 0,
            ;
            lemma_pow_double(a as int, e);
            lemma_small_mod(x as nat, n as nat);
            lemma_mul_congruent(
                x as int,
                pow(a as int, e),
                x as int,
                pow(a as int, e),
                n as int,
            );
        }
        x = mul_mod(x, x, n);
        i = i + 1;
    }
    Ok(true)
}

} // verus!
