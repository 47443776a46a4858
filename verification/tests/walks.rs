use discrete_log_server::algo::{
    fast_power, gcd, gcd_mul_inverse, gcd_weights, miller_rabin, mul_mod, probably_prime,
    PollardsLog, PollardsLogItem, PollardsRSAFact, PollardsRSAFactItem,
};
use discrete_log_server::DomainError;

#[test]
fn gcd_of_two_positive_numbers() {
    assert_eq!(gcd(100, 80), Ok(20));
    assert_eq!(gcd(80, 100), Ok(20));
    assert_eq!(gcd(17, 5), Ok(1));
    assert_eq!(gcd(7, 7), Ok(7));
    assert_eq!(gcd(1, u64::MAX), Ok(1));
    assert_eq!(gcd(u64::MAX, u64::MAX - 1), Ok(1));
}

#[test]
fn gcd_refuses_zero() {
    assert_eq!(gcd(0, 5), Err(DomainError::ZeroOperand));
    assert_eq!(gcd(5, 0), Err(DomainError::ZeroOperand));
    assert_eq!(gcd(0, 0), Err(DomainError::ZeroOperand));
}

#[test]
fn products_are_reduced_without_overflow() {
    assert_eq!(mul_mod(7, 8, 10), 6);
    assert_eq!(mul_mod(u64::MAX, u64::MAX, u64::MAX), 0);
    assert_eq!(mul_mod(u64::MAX, u64::MAX, u64::MAX - 1), 1);
    assert_eq!(mul_mod(0, 12, 5), 0);
}

#[test]
fn powers_modulo_a_number() {
    assert_eq!(fast_power(2, 10, 1000), 24);
    assert_eq!(fast_power(3, 2, 7), 2);
    assert_eq!(fast_power(5, 0, 7), 1);
    assert_eq!(fast_power(0, 0, 7), 1);
    assert_eq!(fast_power(0, 3, 7), 0);
    assert_eq!(fast_power(2, 35, 561), 263);
    // every power is 0 modulo 1, the empty product too
    assert_eq!(fast_power(9, 0, 1), 0);
    assert_eq!(fast_power(9, 4, 1), 0);
    // a base and a modulus near the top of the range
    assert_eq!(fast_power(u64::MAX, 2, u64::MAX - 1), 1);
    assert_eq!(fast_power(u64::MAX - 1, 3, u64::MAX), u64::MAX - 1);
}

#[test]
fn weights_of_continued_fractions() {
    assert_eq!(gcd_weights(100, 80), (1, 1));
    assert_eq!(gcd_weights(4, 6), (1, 1));
    // where the second divides the first, the expansion has one term
    assert_eq!(gcd_weights(12, 4), (1, 0));
    assert_eq!(gcd_weights(0, 9), (1, 0));
    // 17 / 5 = [3; 2, 2], with convergents 3/1, 7/2, 17/5
    assert_eq!(gcd_weights(17, 5), (7, 2));
    // 5 / 17 = [0; 3, 2, 2], with convergents 0/1, 1/3, 2/7, 5/17
    assert_eq!(gcd_weights(5, 17), (2, 7));
}

#[test]
fn weights_combine_to_the_gcd() {
    for (a, b) in [(17u64, 5u64), (5, 17), (4, 6), (1000003, 999983), (1 << 40, 6), (12, 4)] {
        let d = gcd(a, b).unwrap() as i128;
        let (s, t) = gcd_weights(a, b);
        let combined = (a as i128) * (t as i128) - (b as i128) * (s as i128);
        assert!(combined == d || combined == -d, "{} {}", a, b);
    }
}

#[test]
fn scaled_inverses() {
    assert_eq!(gcd_mul_inverse(100, 80, 20, 1, 1), 99);
    assert_eq!(gcd_mul_inverse(6, 4, 2, 1, 1), 5);
    // 17 * 2 - 5 * 7 = -1: the inverse of 5 modulo 17 is 7
    let (s, t) = gcd_weights(5, 17);
    assert_eq!((s, t), (2, 7));
    assert_eq!(gcd_mul_inverse(17, 5, 1, s, t), 7);
    // and the inverse of 17 modulo 5 is that of 2, which is 3
    let (s, t) = gcd_weights(17, 5);
    assert_eq!(gcd_mul_inverse(5, 17, 1, s, t), 3);
}

#[test]
fn scaled_inverse_with_a_weight_above_the_modulus() {
    // 3 * 7 - 4 * 5 = 1, so 4 * (-5) is congruent to 1 modulo 3: the
    // inverse is -5 mod 3, which is 1
    assert_eq!(gcd_mul_inverse(3, 4, 1, 7, 5), 1);
    // 4 * 4 - 3 * 5 = 1, so 4 * 4 is congruent to 1 modulo 3: the inverse
    // is 4 mod 3
    assert_eq!(gcd_mul_inverse(3, 4, 1, 5, 4), 1);
}

#[test]
fn witnesses_of_compositeness() {
    // 561 = 3 * 11 * 17 passes Fermat's test to the base 2, not this one
    assert_eq!(miller_rabin(561, 2), Ok(true));
    // an even number, and a base that shares a divisor
    assert_eq!(miller_rabin(10, 3), Ok(true));
    assert_eq!(miller_rabin(15, 5), Ok(true));
    assert_eq!(miller_rabin(9, 2), Ok(true));
    // 2047 = 23 * 89 is a strong pseudoprime to the base 2
    assert_eq!(miller_rabin(2047, 2), Ok(false));
    assert_eq!(miller_rabin(2047, 3), Ok(true));
    // 1 is odd and has no odd part to start from: every base proves that
    // it is no prime
    assert_eq!(miller_rabin(1, 1), Ok(true));
}

#[test]
fn primes_have_no_witness() {
    for n in [3u64, 5, 7, 13, 5011, 17959, 15239131, 18446744073709551557] {
        for a in [1u64, 2, n / 2, n - 1] {
            assert_eq!(miller_rabin(n, a), Ok(false), "{} {}", n, a);
        }
    }
}

#[test]
fn witness_test_refuses_zero() {
    assert_eq!(miller_rabin(0, 5), Err(DomainError::ZeroOperand));
    assert_eq!(miller_rabin(7, 0), Err(DomainError::ZeroOperand));
}

#[test]
fn twenty_rounds_on_primes_and_composites() {
    // a prime is never refuted, whatever is drawn
    assert!(probably_prime(15239131));
    assert!(probably_prime(3));
    assert!(probably_prime(5011));
    // an even number is refuted by every base
    assert!(!probably_prime(1 << 40));
    // three in four bases refute a composite: twenty fail with a chance
    // of one in 4^20
    assert!(!probably_prime(9409613));
    assert!(!probably_prime(561));
    // 2047 passes to the base 2, but three bases in four refute it
    assert!(!probably_prime(2047));
}

fn log_item(i: u64, t: (u64, u64, u64), h: (u64, u64, u64)) -> PollardsLogItem {
    PollardsLogItem { i, xi: t.0, ai: t.1, bi: t.2, yi: h.0, gi: h.1, di: h.2 }
}

#[test]
fn log_walk_step_by_step() {
    // modulo 7 the thirds are [0, 2), [2, 4) and [4, 7)
    let mut walk = PollardsLog::new(7, 3, 2);
    assert_eq!((walk.p(), walk.g(), walk.h(), walk.steps()), (7, 3, 2, 0));
    assert!(!walk.is_terminated());
    assert_eq!(walk.next(), Some(log_item(1, (3, 1, 0), (2, 2, 0))));
    assert_eq!(walk.next(), Some(log_item(2, (2, 2, 0), (1, 4, 1))));
    assert_eq!(walk.next(), Some(log_item(3, (4, 4, 0), (2, 4, 2))));
    assert!(!walk.is_terminated());
    assert_eq!(walk.next(), Some(log_item(4, (1, 4, 1), (1, 2, 5))));
    assert!(walk.is_terminated());
    assert_eq!(walk.steps(), 4);
    // the walk has ended and stays where it is
    assert_eq!(walk.next(), None);
    assert_eq!(walk.next(), None);
    assert_eq!(walk.steps(), 4);
    // u = 2, v = 4, d = 2, inverse 5, r = 2: the first candidate is 2
    assert_eq!(walk.solve(), Ok(Some(2)));
    assert_eq!(fast_power(3, 2, 7), 2);
}

#[test]
fn log_walk_is_not_solved_before_it_has_ended() {
    let mut walk = PollardsLog::new(5011, 2, 2495);
    assert_eq!(walk.solve(), Err(DomainError::NotConverged));
    walk.next();
    assert!(!walk.is_terminated());
    assert_eq!(walk.solve(), Err(DomainError::NotConverged));
}

#[test]
fn log_walk_that_meets_with_equal_exponents_of_h() {
    // modulo 2 every exponent is 0, so the difference v vanishes
    let mut walk = PollardsLog::new(2, 1, 1);
    assert_eq!(walk.next(), Some(log_item(1, (1, 0, 0), (1, 0, 0))));
    assert!(walk.is_terminated());
    assert_eq!(walk.solve(), Err(DomainError::ZeroOperand));
}

#[test]
fn log_walk_without_a_logarithm() {
    // 2 generates {1, 2, 4} modulo 7, and 3 is not among them
    let mut walk = PollardsLog::new(7, 2, 3);
    while walk.next().is_some() {}
    assert!(walk.is_terminated());
    match walk.solve() {
        Ok(found) => assert_eq!(found, None),
        Err(e) => assert_eq!(e, DomainError::ZeroOperand),
    }
}

#[test]
fn log_walk_points_are_explained_by_their_exponents() {
    let (p, g, h) = (5011u64, 2u64, 2495u64);
    let mut walk = PollardsLog::new(p, g, h);
    let mut seen = 0;
    while let Some(item) = walk.next() {
        seen += 1;
        assert_eq!(item.i, seen);
        assert_eq!(item.xi, mul_mod(fast_power(g, item.ai, p), fast_power(h, item.bi, p), p));
        assert_eq!(item.yi, mul_mod(fast_power(g, item.gi, p), fast_power(h, item.di, p), p));
        assert!(item.xi < p && item.ai < p - 1 && item.bi < p - 1);
        assert_eq!(item.xi == item.yi, walk.is_terminated());
    }
    assert!(seen >= 1 && seen <= p);
    assert_eq!(walk.steps(), seen);
}

#[test]
fn log_walk_near_the_top_of_the_range() {
    // the largest prime below 2^64; no product overflows on the way
    let p = 18446744073709551557u64;
    let mut walk = PollardsLog::new(p, 2, 3);
    for i in 1..=100u64 {
        let item = walk.next().unwrap();
        assert_eq!(item.i, i);
        assert_eq!(item.xi, mul_mod(fast_power(2, item.ai, p), fast_power(3, item.bi, p), p));
        assert_eq!(item.yi, mul_mod(fast_power(2, item.gi, p), fast_power(3, item.di, p), p));
    }
}

#[test]
fn solved_logarithms_are_logarithms() {
    for (p, g, h) in [(5011u64, 2u64, 2495u64), (17959, 17, 14226)] {
        let mut walk = PollardsLog::new(p, g, h);
        while walk.next().is_some() {}
        let e = walk.solve().unwrap().unwrap();
        assert_eq!(fast_power(g, e, p), h);
        assert!(e < p - 1);
    }
}

fn rho(n: u64, v: u64) -> u64 {
    ((v as u128 * v as u128 + 1) % n as u128) as u64
}

#[test]
fn factor_walk_step_by_step() {
    let mut walk = PollardsRSAFact::new(15).unwrap();
    assert_eq!((walk.n(), walk.steps()), (15, 0));
    assert!(!walk.is_terminated());
    assert_eq!(walk.next(), Some(PollardsRSAFactItem { i: 1, xi: 2, yi: 5, g: 3, n: 15 }));
    assert!(walk.is_terminated());
    assert_eq!(walk.next(), None);
    assert_eq!(walk.steps(), 1);
    // the divisor is handed out once
    assert_eq!(walk.factor(), Some(3));
    assert_eq!(walk.factor(), None);
    assert!(walk.is_terminated());
}

#[test]
fn factor_walk_on_a_prime_closes_its_cycle() {
    // modulo 7: 1, 2, 5, 5, ...; the hare is on 5 after one step and stays
    let mut walk = PollardsRSAFact::new(7).unwrap();
    assert_eq!(walk.next(), Some(PollardsRSAFactItem { i: 1, xi: 2, yi: 5, g: 1, n: 7 }));
    assert!(!walk.is_terminated());
    assert_eq!(walk.next(), Some(PollardsRSAFactItem { i: 2, xi: 5, yi: 5, g: 7, n: 7 }));
    assert!(walk.is_terminated());
    assert_eq!(walk.next(), None);
    assert_eq!(walk.factor(), None);
}

#[test]
fn factor_walk_on_one() {
    let mut walk = PollardsRSAFact::new(1).unwrap();
    assert_eq!(walk.next(), Some(PollardsRSAFactItem { i: 1, xi: 0, yi: 0, g: 1, n: 1 }));
    assert!(walk.is_terminated());
    assert_eq!(walk.factor(), None);
}

#[test]
fn factor_walk_follows_the_step_map() {
    let n = 9409613u64;
    let mut walk = PollardsRSAFact::new(n).unwrap();
    let (mut x, mut y) = (1u64, 1u64);
    let mut seen = 0;
    let mut last = None;
    while let Some(item) = walk.next() {
        seen += 1;
        x = rho(n, x);
        y = rho(n, rho(n, y));
        assert_eq!((item.i, item.xi, item.yi, item.n), (seen, x, y, n));
        assert_eq!(n % item.g, 0);
        last = Some(item);
    }
    let g = walk.factor().unwrap();
    assert_eq!(last.unwrap().g, g);
    assert!(1 < g && g < n);
    assert_eq!(n % g, 0);
    // 9409613 = 541 * 17393, and the walk exposes 541 on its step 34
    assert_eq!((g, seen), (541, 34));
}

#[test]
fn factor_walk_splits_a_larger_modulus() {
    let n = 1782886219u64;
    let mut walk = PollardsRSAFact::new(n).unwrap();
    while walk.next().is_some() {}
    let g = walk.factor().unwrap();
    assert!(1 < g && g < n);
    assert_eq!(g * (n / g), n);
    // 1782886219 = 7933 * 224743, exposed on step 126
    assert_eq!((g, walk.steps()), (7933, 126));
}

#[test]
fn factor_walk_refuses_a_modulus_too_large_to_square() {
    assert!(PollardsRSAFact::new(u64::MAX).is_err());
    assert_eq!(PollardsRSAFact::new(1 << 33).err(), Some(DomainError::ModulusTooLarge));
    // (2^32)^2 = 2^64 is one too many: the largest modulus is 2^32
    assert_eq!(PollardsRSAFact::new((1 << 32) + 1).err(), Some(DomainError::ModulusTooLarge));
    assert!(PollardsRSAFact::new(1 << 32).is_ok());
    assert!(PollardsRSAFact::new((1 << 32) - 1).is_ok());
}
