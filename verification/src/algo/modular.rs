//! Facts about congruences and powers that the engine's proofs share.

use vstd::arithmetic::div_mod::{lemma_mul_mod_noop_general, lemma_small_mod};
use vstd::arithmetic::power::{
    lemma_pow1, lemma_pow_adds, lemma_pow_mod_noop, lemma_pow_multiplies, lemma_square_is_pow2,
    pow,
};
use vstd::prelude::*;

verus! {

/// Congruent factors give congruent products.
pub proof fn lemma_mul_congruent(x: int, x2: int, y: int, y2: int, m: int)
    requires
        m > 0,
        x % m == x2 % m,
        y % m == y2 % m,
    ensures
        (x * y) % m == (x2 * y2) % m,
{
    lemma_mul_mod_noop_general(x, y, m);
    lemma_mul_mod_noop_general(x2, y2, m);
}

/// Congruent bases give congruent powers.
pub proof fn lemma_pow_congruent(b: int, b2: int, e: nat, m: int)
    requires
        m > 0,
        b % m == b2 % m,
    ensures
        pow(b, e) % m == pow(b2, e) % m,
{
    lemma_pow_mod_noop(b, e, m);
    lemma_pow_mod_noop(b2, e, m);
}

/// One more factor of the base raises the exponent by one.
pub proof fn lemma_pow_succ(b: int, e: nat)
    ensures
        pow(b, e + 1) == b * pow(b, e),
{
    lemma_pow_adds(b, 1, e);
    lemma_pow1(b);
}

/// Squaring the base halves the exponent; an odd exponent leaves one factor over.
pub proof fn lemma_pow_halve(b: int, k: nat)
    ensures
        k % 2 == 0 ==> pow(b, k) == pow(b * b, k / 2),
        k % 2 == 1 ==> pow(b, k) == b * pow(b * b, k / 2),
{
    let half = k / 2;
    lemma_square_is_pow2(b);
    lemma_pow_multiplies(b, 2, half);
    assert(pow(b * b, half) == pow(b, 2 * half));
    if k % 2 == 1 {
        assert(k == 2 * half + 1);
        lemma_pow_succ(b, 2 * half);
    } else {
        assert(k == 2 * half);
    }
}

/// The square of a power is the power with the doubled exponent.
pub proof fn lemma_pow_double(b: int, e: nat)
    ensures
        pow(b, 2 * e) == pow(b, e) * pow(b, e),
{
    lemma_pow_adds(b, e, e);
}

/// Where `b` to the power `m` is congruent to 1, an exponent below `2 m` may
/// be reduced modulo `m`.
pub proof fn lemma_pow_reduce(b: int, e: nat, m: nat, p: int)
    requires
        p >= 2,
        m >= 1,
        e < 2 * m,
        pow(b, m) % p == 1,
    ensures
        pow(b, e) % p == pow(b, e % m) % p,
{
    if e < m {
        lemma_small_mod(e, m);
    } else {
        let r = (e - m) as nat;
        lemma_small_mod(r, m);
        vstd::arithmetic::div_mod::lemma_mod_multiples_vanish(1, r as int, m as int);
        assert(e % m == r);
        lemma_pow_adds(b, m, r);
        lemma_small_mod(1, p as nat);
        lemma_mul_congruent(pow(b, m), 1, pow(b, r), pow(b, r), p);
        assert(1 * pow(b, r) == pow(b, r));
    }
}

/// The product of two 64-bit values fits in 128 bits.
pub proof fn lemma_product_fits(a: u64, b: u64)
    ensures
        (a as int) * (b as int) <= 0xffff_ffff_ffff_fffe_0000_0000_0000_0001,
        0 <= (a as int) * (b as int),
{
    assert((a as int) * (b as int) <= 0xffff_ffff_ffff_ffff * 0xffff_ffff_ffff_ffff)
        by (nonlinear_arith)
        requires
            0 <= a <= 0xffff_ffff_ffff_ffff,
            0 <= b <= 0xffff_ffff_ffff_ffff,
    ;
    assert(0 <= (a as int) * (b as int)) by (nonlinear_arith)
        requires
            0 <= a,
            0 <= b,
    ;
}

} // verus!
