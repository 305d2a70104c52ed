use num_bigint::{BigInt, Sign};
use rblock::bigint::BigInteger;
use rblock::math::{modular_multiplicative_inverse, modulo, MathError};

fn num(v: i64) -> BigInteger {
    BigInteger::from_i64(v)
}

fn to_num(x: &BigInteger) -> BigInt {
    let sign = if x.negative { Sign::Minus } else { Sign::Plus };
    BigInt::from_slice(sign, &x.magnitude)
}

#[test]
fn modulo_of_negative_dividend_is_positive() {
    assert_eq!(modulo(&num(-21), &num(4)).to_i64(), Some(3));
}

#[test]
fn modulo_of_positive_dividend() {
    assert_eq!(modulo(&num(22), &num(4)).to_i64(), Some(2));
    assert_eq!(modulo(&num(0), &num(7)).to_i64(), Some(0));
    assert_eq!(modulo(&num(-28), &num(7)).to_i64(), Some(0));
}

#[test]
fn modulo_stays_in_range() {
    for x in -50i64..50 {
        for m in 1i64..12 {
            let r = modulo(&num(x), &num(m)).to_i64().unwrap();
            assert!(0 <= r && r < m);
            assert_eq!(r, x.rem_euclid(m));
        }
    }
}

#[test]
fn inverse_of_five_modulo_seven_is_three() {
    let t = modular_multiplicative_inverse(num(5), num(7)).unwrap();
    assert_eq!(t.to_i64(), Some(3));
}

#[test]
fn inverse_comes_from_the_side_that_did_not_reach_zero() {
    let t = modular_multiplicative_inverse(num(7), num(5)).unwrap();
    assert_eq!(t.to_i64(), Some(-2));
    assert_eq!(modulo(&num(7 * -2), &num(5)).to_i64(), Some(1));
}

#[test]
fn inverse_times_number_is_one_for_coprime_pairs() {
    for b in 2i64..40 {
        for n in -60i64..60 {
            let (mut x, mut y) = (n.abs(), b);
            while y != 0 {
                let r = x % y;
                x = y;
                y = r;
            }
            let r = modular_multiplicative_inverse(num(n), num(b));
            if x == 1 {
                let t = r.unwrap().to_i64().unwrap();
                assert_eq!((n * t).rem_euclid(b), 1);
            } else {
                assert_eq!(r.unwrap_err(), MathError::Domain);
            }
        }
    }
}

#[test]
fn inverse_of_non_coprime_pair_fails() {
    assert_eq!(modular_multiplicative_inverse(num(6), num(9)).unwrap_err(), MathError::Domain);
}

#[test]
fn inverse_of_non_positive_number_starts_from_its_residue() {
    let t = modular_multiplicative_inverse(num(-1), num(5)).unwrap();
    assert_eq!(t.to_i64(), Some(-1));
    assert_eq!(modulo(&num(-1 * -1), &num(5)).to_i64(), Some(1));
    let t = modular_multiplicative_inverse(num(-3), num(7)).unwrap().to_i64().unwrap();
    assert_eq!((-3 * t).rem_euclid(7), 1);
    assert_eq!(modular_multiplicative_inverse(num(0), num(5)).unwrap_err(), MathError::Domain);
    assert_eq!(modular_multiplicative_inverse(num(-10), num(5)).unwrap_err(), MathError::Domain);
    assert_eq!(modular_multiplicative_inverse(num(0), num(1)).unwrap().to_i64(), Some(0));
}

#[test]
fn inverse_modulo_non_positive_number_fails() {
    assert_eq!(modular_multiplicative_inverse(num(3), num(0)).unwrap_err(), MathError::Domain);
    assert_eq!(modular_multiplicative_inverse(num(3), num(-7)).unwrap_err(), MathError::Domain);
}

#[test]
fn inverse_modulo_the_secp256k1_prime() {
    let mut digits = vec![0xFFFF_FC2F, 0xFFFF_FFFE];
    digits.extend([0xFFFF_FFFFu32; 6]);
    let p = BigInteger::new(false, digits);
    let n = BigInteger::new(false, vec![0x1234_5678, 0x9abc_def0, 42]);
    let t = modular_multiplicative_inverse(n.clone(), p.clone()).unwrap();
    let product = to_num(&n) * to_num(&t);
    let pn = to_num(&p);
    let reduced = ((product % &pn) + &pn) % &pn;
    assert_eq!(reduced, BigInt::from(1));
    let r = modulo(&BigInteger::new(true, vec![5]), &p);
    assert_eq!(to_num(&r), to_num(&p) - 5);
}

#[test]
fn conversions_round_trip() {
    for v in [0i64, 1, -1, 4294967296, -4294967297, i64::MAX, i64::MIN] {
        assert_eq!(num(v).to_i64(), Some(v));
    }
    let big = BigInteger::new(false, vec![0, 0, 1]);
    assert_eq!(big.to_i64(), None);
    assert_eq!(BigInteger::new(false, vec![0, 0x8000_0000]).to_i64(), None);
    assert_eq!(BigInteger::new(true, vec![0, 0x8000_0000]).to_i64(), Some(i64::MIN));
    assert_eq!(BigInteger::new(true, vec![1, 0x8000_0000]).to_i64(), None);
    assert_eq!(BigInteger::new(false, vec![7, 0, 0, 0]).to_i64(), Some(7));
    assert_eq!(BigInteger::new(true, vec![]).to_i64(), Some(0));
}
