//! Sign-correct reduction and the modular multiplicative inverse, the
//! building blocks of elliptic-curve signature arithmetic.
use crate::bigint::{
    abs, big_add, big_div, big_is_zero, big_lt, big_mul, big_rem, big_sub, trunc_div, trunc_rem,
    BigInteger,
};
use vstd::arithmetic::div_mod::{
    lemma_fundamental_div_mod, lemma_fundamental_div_mod_converse, lemma_mod_multiples_vanish,
    lemma_mul_mod_noop_left,
};
use vstd::prelude::*;

verus! {

/// Why an arithmetic request has no answer.
#[derive(Debug, PartialEq, Eq, Structural)]
pub enum MathError {
    /// An inverse was asked for numbers that are not both positive and coprime.
    Domain,
}

/// `a` and `b` share no divisor greater than one.
pub open spec fn coprime(a: int, b: int) -> bool {
    forall|d: int| #![trigger a % d, b % d] d > 1 ==> !(a % d == 0 && b % d == 0)
}

/// The arguments on which a modular inverse exists and is computed.
pub open spec fn inverse_domain(n: int, b: int) -> bool {
    b > 0 && coprime(n, b)
}

/// The number the Euclidean steps start from: `n` itself when positive,
/// else `n mod b`.
pub open spec fn reduced(n: int, b: int) -> int {
    if n > 0 {
        n
    } else {
        n % b
    }
}

/// The coefficient the extended Euclidean algorithm returns, from remainders
/// `n` and `b` with first coefficients `t1` (of `n`) and `s1` (of `b`): the
/// larger remainder is replaced by its remainder modulo the smaller, its
/// coefficient losing the quotient times the other's, until one remainder
/// is zero; the coefficient of the other side is the result.
pub open spec fn euclid_coefficient(n: int, b: int, t1: int, s1: int) -> int
    decreases n + b,
{
    if n <= 0 || b <= 0 {
        if n == 0 {
            s1
        } else {
            t1
        }
    } else if n < b {
        euclid_coefficient(n, b % n, t1, s1 - t1 * (b / n))
    } else {
        euclid_coefficient(n % b, b, t1 - s1 * (n / b), s1)
    }
}

proof fn lemma_trunc_rem_congruent(x: int, m: int)
    requires
        m > 0,
    ensures
        -m < trunc_rem(x, m) < m,
        trunc_rem(x, m) == x + m * (-trunc_div(x, m)),
        x >= 0 ==> trunc_rem(x, m) == x % m,
        x >= 0 ==> trunc_div(x, m) == x / m,
{
    let y = abs(x);
    lemma_fundamental_div_mod(y, m);
    assert(0 <= y % m < m);
    assert(trunc_rem(x, m) == x + m * (-trunc_div(x, m))) by (nonlinear_arith);
    if x < 0 {
        assert(trunc_div(x, m) == -(y / m));
        assert(trunc_rem(x, m) == -(y % m)) by (nonlinear_arith)
            requires
                trunc_rem(x, m) == x - m * trunc_div(x, m),
                trunc_div(x, m) == -(y / m),
                y == m * (y / m) + y % m,
                x == -y,
        ;
    } else {
        assert(trunc_rem(x, m) == y % m) by (nonlinear_arith)
            requires
                trunc_rem(x, m) == x - m * trunc_div(x, m),
                trunc_div(x, m) == y / m,
                y == m * (y / m) + y % m,
                x == y,
        ;
    }
}

/// The remainder of `x` modulo a positive `m`, always in `0..m`, also for
/// negative `x`.
pub fn modulo(x: &BigInteger, m: &BigInteger) -> (r: BigInteger)
    requires
        m.value() > 0,
    ensures
        r.value() == x.value() % m.value(),
        0 <= r.value() < m.value(),
{
    let t = big_rem(x, m);
    let u = big_add(&t, m);
    let r = big_rem(&u, m);
    proof {
        let (xv, mv) = (x.value(), m.value());
        lemma_trunc_rem_congruent(xv, mv);
        lemma_trunc_rem_congruent(u.value(), mv);
        let k = 1 - trunc_div(xv, mv);
        assert(u.value() == mv * k + xv) by (nonlinear_arith)
            requires
                u.value() == t.value() + mv,
                t.value() == xv + mv * (-trunc_div(xv, mv)),
                k == 1 - trunc_div(xv, mv),
        ;
        lemma_mod_multiples_vanish(k, xv, mv);
    }
    r
}

proof fn lemma_divides_combination(d: int, x: int, q: int, y: int)
    requires
        d > 0,
        x % d == 0,
        y % d == 0,
    ensures
        (x * q + y) % d == 0,
{
    lemma_fundamental_div_mod(x, d);
    lemma_fundamental_div_mod(y, d);
    let k = (x / d) * q + y / d;
    assert(x * q + y == d * k + 0) by (nonlinear_arith)
        requires
            x == d * (x / d) + x % d,
            y == d * (y / d) + y % d,
            x % d == 0,
            y % d == 0,
            k == (x / d) * q + y / d,
    ;
    lemma_mod_multiples_vanish(k, 0, d);
}

/// One reduction step of the extended Euclidean algorithm: the larger
/// remainder `big` is replaced by `big mod small`, and its coefficients move
/// along with it.
proof fn lemma_step(n0: int, b0: int, big: int, small: int, q: int, c1: int, c2: int, e1: int, e2: int)
    requires
        big >= 0,
        small > 0,
        q == big / small,
        big == c1 * n0 + c2 * b0,
        small == e1 * n0 + e2 * b0,
        forall|d: int| #![trigger big % d, small % d] d > 1 && big % d == 0 && small % d == 0 ==> n0 % d == 0 && b0 % d == 0,
    ensures
        big % small == (c1 - e1 * q) * n0 + (c2 - e2 * q) * b0,
        forall|d: int| #![trigger (big % small) % d] d > 1 && small % d == 0 && (big % small) % d == 0 ==> n0 % d == 0 && b0 % d == 0,
{
    lemma_fundamental_div_mod(big, small);
    assert(big % small == (c1 - e1 * q) * n0 + (c2 - e2 * q) * b0) by (nonlinear_arith)
        requires
            big == small * q + big % small,
            big == c1 * n0 + c2 * b0,
            small == e1 * n0 + e2 * b0,
    ;
    assert forall|d: int| #![trigger (big % small) % d] d > 1 && small % d == 0 && (big % small) % d == 0 implies n0 % d == 0 && b0 % d == 0 by {
        lemma_divides_combination(d, small, q, big % small);
        assert(small * q + big % small == big);
    }
}

/// The extended Euclidean algorithm as a loop, from a non-negative `n` and
/// a positive `b`.
fn extended_euclid(n: BigInteger, b: BigInteger) -> (r: Result<BigInteger, MathError>)
    requires
        n.value() >= 0,
        b.value() > 0,
    ensures
        r is Ok <==> coprime(n.value(), b.value()),
        r matches Ok(t) ==> (n.value() * t.value()) % b.value() == 1int % b.value(),
        r matches Ok(t) ==> t.value() == euclid_coefficient(n.value(), b.value(), 1, 0),
{
    let ghost n0 = n.value();
    let ghost b0 = b.value();
    let mut n = n;
    let mut b = b;
    let mut t1 = BigInteger::from_i64(1);
    let mut t2 = BigInteger::from_i64(0);
    let mut s1 = BigInteger::from_i64(0);
    let mut s2 = BigInteger::from_i64(1);
    proof {
        assert(n.value() == t1.value() * n0 + t2.value() * b0) by (nonlinear_arith)
            requires n.value() == n0, t1.value() == 1, t2.value() == 0;
        assert(b.value() == s1.value() * n0 + s2.value() * b0) by (nonlinear_arith)
            requires b.value() == b0, s1.value() == 0, s2.value() == 1;
    }
    while !big_is_zero(&n) && !big_is_zero(&b)
        invariant
            n0 >= 0,
            b0 > 0,
            euclid_coefficient(n.value(), b.value(), t1.value(), s1.value())
                == euclid_coefficient(n0, b0, 1, 0),
            n.value() >= 0,
            b.value() >= 0,
            n.value() > 0 || b.value() > 0,
            n.value() == t1.value() * n0 + t2.value() * b0,
            b.value() == s1.value() * n0 + s2.value() * b0,
            forall|d: int| #![trigger n.value() % d, b.value() % d] d > 1 && n.value() % d == 0 && b.value() % d == 0 ==> n0 % d == 0 && b0 % d == 0,
        decreases n.value() + b.value(),
    {
        proof {
            lemma_trunc_rem_congruent(b.value(), n.value());
            lemma_trunc_rem_congruent(n.value(), b.value());
        }
        if big_lt(&n, &b) {
            let q = big_div(&b, &n);
            let r = modulo(&b, &n);
            proof {
                lemma_step(n0, b0, b.value(), n.value(), q.value(), s1.value(), s2.value(), t1.value(), t2.value());
            }
            b = r;
            s1 = big_sub(&s1, &big_mul(&t1, &q));
            s2 = big_sub(&s2, &big_mul(&t2, &q));
        } else {
            let q = big_div(&n, &b);
            let r = modulo(&n, &b);
            proof {
                lemma_step(n0, b0, n.value(), b.value(), q.value(), t1.value(), t2.value(), s1.value(), s2.value());
            }
            n = r;
            t1 = big_sub(&t1, &big_mul(&s1, &q));
            t2 = big_sub(&t2, &big_mul(&s2, &q));
        }
    }
    // the side that did not reach zero holds the gcd, and its coefficients
    let (g, c1, c2) = if big_is_zero(&n) { (b, s1, s2) } else { (n, t1, t2) };
    let one = BigInteger::from_i64(1);
    proof {
        assert(g.value() % g.value() == 0) by (nonlinear_arith) requires g.value() > 0;
        assert(0int % g.value() == 0) by (nonlinear_arith) requires g.value() > 0;
    }
    if big_lt(&one, &g) {
        proof {
            assert(!coprime(n0, b0)) by {
                let d = g.value();
                assert(n0 % d == 0 && b0 % d == 0);
            }
        }
        return Err(MathError::Domain);
    }
    proof {
        let (x, y) = (c1.value(), c2.value());
        assert(g.value() == 1);
        assert(n0 * x == b0 * (-y) + 1) by (nonlinear_arith)
            requires 1 == x * n0 + y * b0;
        lemma_mod_multiples_vanish(-y, 1, b0);
        assert forall|d: int| #![trigger n0 % d, b0 % d] d > 1 implies !(n0 % d == 0 && b0 % d == 0) by {
            if n0 % d == 0 && b0 % d == 0 {
                lemma_divides_combination(d, b0, y, 0);
                lemma_divides_combination(d, n0, x, b0 * y);
                assert(n0 * x + b0 * y == 1) by (nonlinear_arith)
                    requires 1 == x * n0 + y * b0;
                lemma_fundamental_div_mod_converse(1, d, 0, 1);
            }
        }
    }
    Ok(c1)
}

proof fn lemma_reduce(n: int, b: int, t: int)
    requires
        b > 0,
    ensures
        coprime(n, b) == coprime(n % b, b),
        (n * t) % b == ((n % b) * t) % b,
{
    lemma_mul_mod_noop_left(n, t, b);
    lemma_fundamental_div_mod(n, b);
    let q = n / b;
    assert forall|d: int| #![trigger n % d, b % d] d > 1 && b % d == 0 implies (n % d == 0 <==> (n % b) % d == 0) by {
        if (n % b) % d == 0 {
            lemma_divides_combination(d, b, q, n % b);
            assert(b * q + n % b == n);
        }
        if n % d == 0 {
            lemma_divides_combination(d, b, -q, n);
            assert(b * (-q) + n == n % b) by (nonlinear_arith)
                requires n == b * q + n % b;
        }
    }
    assert(coprime(n, b) == coprime(n % b, b)) by {
        if coprime(n, b) {
            assert forall|d: int| #![trigger (n % b) % d, b % d] d > 1 implies !((n % b) % d == 0 && b % d == 0) by {
                assert(!(n % d == 0 && b % d == 0));
            }
        }
        if coprime(n % b, b) {
            assert forall|d: int| #![trigger n % d, b % d] d > 1 implies !(n % d == 0 && b % d == 0) by {
                assert(!((n % b) % d == 0 && b % d == 0));
            }
        }
    }
}

/// The inverse `t` of `n` modulo `b`: `(n * t) mod b == 1`, found by the
/// extended Euclidean algorithm as a loop, starting from `n` when it is
/// positive and from `n mod b` otherwise. The result is the coefficient of
/// the side whose remainder did not reach zero. Fails with
/// `MathError::Domain` exactly when `b` is not positive or `n` and `b` are
/// not coprime.
pub fn modular_multiplicative_inverse(n: BigInteger, b: BigInteger) -> (r: Result<BigInteger, MathError>)
    ensures
        r is Ok <==> inverse_domain(n.value(), b.value()),
        r matches Ok(t) ==> (n.value() * t.value()) % b.value() == 1int % b.value(),
        r matches Ok(t) ==> t.value() == euclid_coefficient(reduced(n.value(), b.value()), b.value(), 1, 0),
{
    let ghost n0 = n.value();
    let zero = BigInteger::from_i64(0);
    if !big_lt(&zero, &b) {
        return Err(MathError::Domain);
    }
    let m = if big_lt(&zero, &n) {
        n
    } else {
        modulo(&n, &b)
    };
    let r = extended_euclid(m, b);
    proof {
        if n0 <= 0 {
            if r is Ok {
                lemma_reduce(n0, b.value(), r->Ok_0.value());
            } else {
                lemma_reduce(n0, b.value(), 0);
            }
        }
    }
    r
}

} // verus!
