//! Primes: Euclid's lemma, Fermat's little theorem, and what they mean for
//! the Miller-Rabin test and for the walk of the discrete logarithm.

use crate::algo::modular::{lemma_mul_congruent, lemma_pow_double, lemma_pow_succ};
use crate::algo::utils::{
    divides, is_gcd, is_witness, lemma_gcd_is_greatest, lemma_multiple_divides,
    lemma_weights_bezout, odd_part, spec_gcd, spec_weights, squaring_term, two_adicity,
};
use vstd::arithmetic::div_mod::{
    lemma_fundamental_div_mod, lemma_mod_equivalence, lemma_small_mod,
};
use vstd::arithmetic::power::{lemma_pow0, lemma_pow_positive, pow};
use vstd::prelude::*;

verus! {

/// `p` is a prime: at least 2, with no divisor strictly between 1 and itself.
pub open spec fn is_prime(p: int) -> bool {
    p >= 2 && forall|d: int| 1 < d < p ==> !#[trigger] divides(d, p)
}

/// A number that a prime does not divide has no divisor in common with it
/// but 1.
pub proof fn lemma_prime_coprime(p: int, x: int)
    requires
        is_prime(p),
        x >= 0,
        !divides(p, x),
    ensures
        spec_gcd(x as nat, p as nat) == 1,
{
    lemma_gcd_is_greatest(x as nat, p as nat);
    let d = spec_gcd(x as nat, p as nat) as int;
    assert(is_gcd(d, x, p));
    if d > p {
        lemma_small_mod(p as nat, d as nat);
    }
}

/// Euclid's lemma: a prime that divides a product divides a factor.
pub proof fn lemma_euclid(p: int, x: int, y: int)
    requires
        is_prime(p),
        x >= 0,
        y >= 0,
        divides(p, x * y),
    ensures
        divides(p, x) || divides(p, y),
{
    if !divides(p, x) {
        lemma_prime_coprime(p, x);
        lemma_weights_bezout(x as nat, p as nat);
        let (s, t) = spec_weights(x as nat, p as nat);
        lemma_fundamental_div_mod(x * y, p);
        let k = (x * y) / p;
        assert(x * y == p * k);
        if x * t - p * s == 1 {
            assert(y == p * (k * t - s * y)) by (nonlinear_arith)
                requires
                    x * t - p * s == 1,
                    x * y == p * k,
            ;
            lemma_multiple_divides(p, k * t - s * y);
        } else {
            assert(y == p * (s * y - k * t)) by (nonlinear_arith)
                requires
                    p * s - x * t == 1,
                    x * y == p * k,
            ;
            lemma_multiple_divides(p, s * y - k * t);
        }
    }
}

/// A prime divides no positive number below itself.
pub proof fn lemma_prime_above(p: int, x: int)
    requires
        p >= 2,
        0 < x < p,
    ensures
        !divides(p, x),
{
    lemma_small_mod(x as nat, p as nat);
}

/// Multiplication by a number that a prime `p` does not divide keeps the
/// residues below `p` apart.
pub proof fn lemma_scaling_injective(p: int, a: int, i: int, j: int)
    requires
        is_prime(p),
        a >= 0,
        !divides(p, a),
        0 <= i < j < p,
    ensures
        (a * i) % p != (a * j) % p,
{
    if (a * i) % p == (a * j) % p {
        lemma_mod_equivalence(a * j, a * i, p);
        assert(a * j - a * i == a * (j - i)) by (nonlinear_arith);
        assert(a * (j - i) >= 0) by (nonlinear_arith)
            requires
                a >= 0,
                j - i >= 0,
        ;
        lemma_euclid(p, a, j - i);
        lemma_prime_above(p, j - i);
    }
}

/// The multiplication that folds a sequence into its product.
pub open spec fn times() -> spec_fn(int, int) -> int {
    |x: int, acc: int| x * acc
}

/// The product of the numbers of a sequence.
pub open spec fn product(s: Seq<int>) -> int {
    s.fold_right(times(), 1)
}

/// Folding from `b` gives the product times `b`.
proof fn lemma_fold_from(s: Seq<int>, b: int)
    ensures
        s.fold_right(times(), b) == product(s) * b,
    decreases s.len(),
{
    if s.len() > 0 {
        let front = s.drop_last();
        let x = s.last();
        lemma_fold_from(front, x * b);
        lemma_fold_from(front, x * 1);
        assert(product(front) * (x * b) == (product(front) * (x * 1)) * b) by (nonlinear_arith);
    }
}

/// One more number at the end multiplies the product by it.
pub proof fn lemma_product_push(s: Seq<int>, x: int)
    ensures
        product(s.push(x)) == product(s) * x,
{
    let longer = s.push(x);
    assert(longer.drop_last() =~= s);
    lemma_fold_from(s, x * 1);
}

/// The numbers from 1 to `n`.
pub open spec fn counting(n: nat) -> Seq<int> {
    Seq::new(n, |k: int| k + 1)
}

/// The residues modulo `p` of the multiples of `a` from `a` to `n a`.
pub open spec fn multiples(a: int, p: int, n: nat) -> Seq<int> {
    Seq::new(n, |k: int| (a * (k + 1)) % p)
}

/// The product of the first `n` multiples of `a` is congruent to `a^n` times
/// the product of the first `n` numbers.
proof fn lemma_product_of_multiples(a: int, p: int, n: nat)
    requires
        p >= 2,
    ensures
        product(multiples(a, p, n)) % p == (pow(a, n) * product(counting(n))) % p,
    decreases n,
{
    if n == 0 {
        lemma_pow0(a);
    } else {
        let m = (n - 1) as nat;
        lemma_product_of_multiples(a, p, m);
        let last = (a * n) % p;
        assert(multiples(a, p, n) =~= multiples(a, p, m).push(last));
        assert(counting(n) =~= counting(m).push(n as int));
        lemma_product_push(multiples(a, p, m), last);
        lemma_product_push(counting(m), n as int);
        lemma_pow_succ(a, m);
        vstd::arithmetic::div_mod::lemma_mod_twice(a * n, p);
        lemma_mul_congruent(
            product(multiples(a, p, m)),
            pow(a, m) * product(counting(m)),
            last,
            a * n,
            p,
        );
        assert((pow(a, m) * product(counting(m))) * (a * n) == (a * pow(a, m)) * (product(
            counting(m),
        ) * n)) by (nonlinear_arith);
    }
}

/// The product of the numbers from 1 to `n` is positive, and a prime above
/// `n` does not divide it.
proof fn lemma_product_of_counting(p: int, n: nat)
    requires
        is_prime(p),
        n < p,
    ensures
        product(counting(n)) > 0,
        !divides(p, product(counting(n))),
    decreases n,
{
    if n == 0 {
        lemma_prime_above(p, 1);
    } else {
        let m = (n - 1) as nat;
        lemma_product_of_counting(p, m);
        assert(counting(n) =~= counting(m).push(n as int));
        lemma_product_push(counting(m), n as int);
        let before = product(counting(m));
        assert(before * n > 0) by (nonlinear_arith)
            requires
                before > 0,
                n > 0,
        ;
        if divides(p, before * n) {
            lemma_euclid(p, before, n as int);
            lemma_prime_above(p, n as int);
        }
    }
}

/// The multiples of `a` from `a` to `(p - 1) a` have, modulo a prime `p` that
/// does not divide `a`, the residues from 1 to `p - 1`, each once.
proof fn lemma_multiples_permute(p: int, a: int)
    requires
        is_prime(p),
        a >= 0,
        !divides(p, a),
    ensures
        multiples(a, p, (p - 1) as nat).to_multiset() == counting((p - 1) as nat).to_multiset(),
{
    let n = (p - 1) as nat;
    let scaled = multiples(a, p, n);
    let plain = counting(n);
    assert(scaled.no_duplicates()) by {
        assert forall|i: int, j: int|
            0 <= i < scaled.len() && 0 <= j < scaled.len() && i != j implies scaled[i]
            != scaled[j] by {
            if i < j {
                lemma_scaling_injective(p, a, i + 1, j + 1);
            } else {
                lemma_scaling_injective(p, a, j + 1, i + 1);
            }
        }
    }
    assert(plain.no_duplicates());
    scaled.unique_seq_to_set();
    plain.unique_seq_to_set();
    assert(scaled.to_set().subset_of(plain.to_set())) by {
        assert forall|v: int| scaled.to_set().contains(v) implies plain.to_set().contains(v) by {
            let k = choose|k: int| 0 <= k < scaled.len() && scaled[k] == v;
            assert(a * (k + 1) >= 0) by (nonlinear_arith)
                requires
                    a >= 0,
                    k >= 0,
            ;
            if v == 0 {
                lemma_euclid(p, a, k + 1);
                lemma_prime_above(p, k + 1);
            }
            assert(plain[v - 1] == v);
        }
    }
    vstd::seq_lib::seq_to_set_is_finite(scaled);
    vstd::seq_lib::seq_to_set_is_finite(plain);
    vstd::set_lib::lemma_subset_equality(scaled.to_set(), plain.to_set());
    scaled.lemma_multiset_has_no_duplicates();
    plain.lemma_multiset_has_no_duplicates();
    assert forall|v: int| scaled.to_multiset().count(v) == plain.to_multiset().count(v) by {
        vstd::seq_lib::to_multiset_contains(scaled, v);
        vstd::seq_lib::to_multiset_contains(plain, v);
        assert(scaled.contains(v) == scaled.to_set().contains(v));
        assert(plain.contains(v) == plain.to_set().contains(v));
    }
    assert(scaled.to_multiset() =~= plain.to_multiset());
}

/// Fermat's little theorem: a number that a prime `p` does not divide, raised
/// to the power `p - 1`, is congruent to 1 modulo `p`.
pub proof fn lemma_fermat(p: int, a: int)
    requires
        is_prime(p),
        a >= 0,
        !divides(p, a),
    ensures
        pow(a, (p - 1) as nat) % p == 1,
{
    let n = (p - 1) as nat;
    let all = product(counting(n));
    let power = pow(a, n);
    lemma_multiples_permute(p, a);
    assert(vstd::seq_lib::commutative_foldr(times())) by {
        assert forall|x: int, y: int, v: int| #[trigger]
            times()(x, times()(y, v)) == times()(y, times()(x, v)) by {
            assert(x * (y * v) == y * (x * v)) by (nonlinear_arith);
        }
    }
    vstd::seq_lib::lemma_fold_right_permutation(multiples(a, p, n), counting(n), times(), 1int);
    lemma_product_of_multiples(a, p, n);
    lemma_product_of_counting(p, n);
    // all is congruent to power * all, so p divides all * (power - 1)
    if a == 0 {
        vstd::arithmetic::div_mod::lemma_mod_self_0(p);
        assert(0int % p == 0) by {
            lemma_small_mod(0, p as nat);
        }
    }
    lemma_pow_positive(a, n);
    lemma_mod_equivalence(power * all, all, p);
    assert(power * all - all == all * (power - 1)) by (nonlinear_arith);
    assert(all * (power - 1) >= 0) by (nonlinear_arith)
        requires
            all > 0,
            power >= 1,
    ;
    lemma_euclid(p, all, power - 1);
    lemma_mod_equivalence(power, 1, p);
    lemma_small_mod(1, p as nat);
}

/// A positive number is its odd part times as many factors 2 as it has.
pub proof fn lemma_two_adic(m: nat)
    requires
        m > 0,
    ensures
        m == odd_part(m) * pow(2, two_adicity(m)),
        odd_part(m) % 2 == 1,
    decreases m,
{
    if m % 2 == 1 {
        lemma_pow0(2);
    } else {
        let half = m / 2;
        lemma_two_adic(half);
        lemma_pow_succ(2, two_adicity(half));
        assert(odd_part(half) * (2 * pow(2, two_adicity(half))) == 2 * (odd_part(half) * pow(
            2,
            two_adicity(half),
        ))) by (nonlinear_arith);
    }
}

/// Modulo a prime, 1 has no square roots but 1 and -1.
pub proof fn lemma_sqrt_of_one(p: int, s: int)
    requires
        is_prime(p),
        0 <= s < p,
        (s * s) % p == 1,
    ensures
        s == 1 || s == p - 1,
{
    if s == 0 {
        lemma_small_mod(0, p as nat);
    } else {
        lemma_small_mod(1, p as nat);
        lemma_mod_equivalence(s * s, 1, p);
        assert(s * s - 1 == (s - 1) * (s + 1)) by (nonlinear_arith);
        assert((s - 1) * (s + 1) >= 0) by (nonlinear_arith)
            requires
                s >= 1,
        ;
        lemma_euclid(p, s - 1, s + 1);
        if divides(p, s - 1) {
            if s - 1 > 0 {
                lemma_prime_above(p, s - 1);
            }
        } else {
            if s + 1 < p {
                lemma_prime_above(p, s + 1);
            }
        }
    }
}

/// Each term of the squaring sequence is the square of the term before it.
pub proof fn lemma_squaring_term_next(n: int, a: int, q: nat, j: nat)
    requires
        n >= 1,
    ensures
        squaring_term(n, a, q, j + 1) == (squaring_term(n, a, q, j) * squaring_term(n, a, q, j))
            % n,
{
    let e: nat = q * (pow(2, j) as nat);
    lemma_pow_positive(2, j);
    lemma_pow_succ(2, j);
    assert(q * (pow(2, j + 1) as nat) == 2 * e) by (nonlinear_arith)
        requires
            e == q * (pow(2, j) as nat),
            pow(2, j + 1) == 2 * pow(2, j),
            pow(2, j) > 0,
    ;
    lemma_pow_double(a, e);
    vstd::arithmetic::div_mod::lemma_mod_twice(pow(a, e), n);
    lemma_mul_congruent(pow(a, e) % n, pow(a, e), pow(a, e) % n, pow(a, e), n);
}

/// Where the squaring sequence reaches 1 at its term `k` without passing
/// through -1, it is 1 from the start.
proof fn lemma_squaring_terms_are_one(n: int, a: int, q: nat, k: nat, j: nat)
    requires
        is_prime(n),
        j <= k,
        squaring_term(n, a, q, k) == 1,
        forall|i: nat| i < k ==> #[trigger] squaring_term(n, a, q, i) != n - 1,
    ensures
        squaring_term(n, a, q, j) == 1,
    decreases k - j,
{
    if j < k {
        lemma_squaring_terms_are_one(n, a, q, k, j + 1);
        lemma_squaring_term_next(n, a, q, j);
        let s = squaring_term(n, a, q, j);
        lemma_sqrt_of_one(n, s);
    }
}

/// A witness is right: the number that it tests is composite. This holds of
/// every number above 2 and of every base that is no multiple of it.
pub proof fn lemma_witness_proves_composite(n: int, a: int)
    requires
        n > 2,
        a >= 0,
        !divides(n, a),
        is_witness(n, a),
    ensures
        !is_prime(n),
{
    if is_prime(n) {
        if n % 2 == 0 {
            assert(divides(2, n));
        }
        lemma_prime_coprime(n, a);
        let m = (n - 1) as nat;
        let q = odd_part(m);
        let k = two_adicity(m);
        lemma_two_adic(m);
        lemma_fermat(n, a);
        lemma_pow_positive(2, k);
        assert(q * (pow(2, k) as nat) == m);
        assert(squaring_term(n, a, q, k) == 1);
        lemma_squaring_terms_are_one(n, a, q, k, 0);
        lemma_pow0(2);
        assert(q * (pow(2, 0) as nat) == q) by (nonlinear_arith)
            requires
                pow(2, 0) == 1,
        ;
    }
}

} // verus!
