use discrete_log_server::algo::{
    fast_power, gcd, gcd_mul_inverse, gcd_weights, miller_rabin, PollardsLog, PollardsRSAFact,
};
use rand::Rng;

#[test]
fn pollards_log_iter_test() {
    let mut pollard = PollardsLog::new(48611, 19, 24717);
    while let Some(item) = pollard.next() {
        println!("{:?}", item);
    }
    println!("{:?}", pollard);
}

fn check_weights(a: u64, b: u64) {
    let d = gcd(a, b).unwrap();
    let (u, v) = gcd_weights(a, b);
    println!("a: {}, b: {}", a, b);
    println!("u: {}, v: {}", u, v);
    if a * u > b * v && a * u - b * v == d {
        println!("a * u - b * v = {}", d);
    } else if a * v > b * u && a * v - b * u == d {
        println!("a * v - b * u = {}", d);
    } else if b * v > a * u && b * v - a * u == d {
        println!("b * v - a * u = {}", d);
    } else {
        assert!(b * u > a * v);
        assert_eq!(b * u - a * v, d);
        println!("b * u - a * v = {}", d);
    }
    println!();
}

#[test]
fn gcd_weights_test() {
    check_weights(100, 80);
    check_weights(9409612, 666);
    check_weights(2200, 124);
    check_weights(1782886218, 34478);
}

#[test]
fn miller_rabin_test() {
    let n = 561;
    let a = 2;
    let res = miller_rabin(n, a).unwrap();
    println!("res: {}", res);

    let n = 172947529;

    let a = 17;
    let res = miller_rabin(n, a).unwrap();
    println!("res: {}", res);

    let a = 23;
    let res = miller_rabin(n, a).unwrap();
    println!("res: {}", res);

    let mut rng = rand::thread_rng();
    let mut k = 0;
    let n = 15239131;
    let mut prime_flag = true;
    while k < 20 {
        let a = rng.gen_range(2..n);
        if a == 1 {
            continue;
        }
        if miller_rabin(n, a).unwrap() {
            prime_flag = false;
            break;
        }
        k += 1;
    }

    assert!(prime_flag);
    println!("{} is prime with probability: {:2.20}", n, 1.0 - f64::powi(0.25, k));
}

fn check_inverse(a: u64, b: u64) {
    let d = gcd(a, b).unwrap();
    let (u, v) = gcd_weights(a, b);
    println!("a: {}, b: {}", a, b);
    println!("u: {}, v: {}", u, v);
    let b_inv = gcd_mul_inverse(a, b, d, u, v);
    println!("b_inv = {}", b_inv);
    println!("b * b_inv mod a = {}", (b * b_inv) % a);
    assert_eq!((b * b_inv) % a, d);
    println!();
}

#[test]
fn gcd_mul_inverse_test() {
    check_inverse(100, 80);
    check_inverse(9409612, 666);
    check_inverse(2200, 124);
    check_inverse(1782886218, 34478);
}

fn check_log(p: u64, g: u64, h: u64) {
    println!("p: {}, g: {}, h: {}", p, g, h);
    let mut pollards = PollardsLog::new(p, g, h);
    while let Some(item) = pollards.next() {
        println!("{:?}", item);
    }
    let log = pollards.solve().unwrap();
    println!("{:?}", log);
    assert!(log.is_some());
    let log = log.unwrap();
    let res = fast_power(g, log, p);
    println!("res: {}", res);
    let ratio = (pollards.steps() as f64) / f64::sqrt(pollards.p() as f64);
    println!("steps to sqrt mod ratio: {:10.10}", ratio);
    assert_eq!(res, h);
    println!();
}

#[test]
fn pollards_log_solve_test() {
    check_log(5011, 2, 2495);
    check_log(17959, 17, 14226);
    check_log(15239131, 29, 5953042);
}

fn check_factor(n: u64) {
    let mut pollards = PollardsRSAFact::new(n).unwrap();
    while let Some(item) = pollards.next() {
        println!("{:?}", item);
    }
    let factor1 = pollards.factor();
    println!("{:?}", factor1);
    assert!(factor1.is_some());

    let factor1 = factor1.unwrap();
    assert_ne!(factor1, 1);
    assert_eq!(pollards.n() % factor1, 0);

    let factor2 = pollards.n() / factor1;
    println!("factor1: {}, factor2: {}", factor1, factor2);
    println!("factor1 * factor2 = {}", factor1 * factor2);
    let ratio = (pollards.steps() as f64) / f64::sqrt(pollards.n() as f64);
    println!("Steps to modulus sqrt ratio: {:10.10}", ratio);
    assert_eq!(factor1 * factor2, pollards.n());
}

#[test]
fn test_pollards_rsa_factor() {
    check_factor(1782886219);
    check_factor(9409613);
    check_factor(2201);
}
