use vstd::prelude::*;

verus! {

use vstd::arithmetic::div_mod::lemma_fundamental_div_mod;
use vstd::arithmetic::div_mod::lemma_mod_multiples_basic;
use vstd::arithmetic::div_mod::lemma_mod_multiples_vanish;

/// A number is prime when it is at least 2 and no integer strictly between
/// 1 and the number divides it.
pub open spec fn is_prime(n: nat) -> bool {
    n >= 2 && forall|d: int| 2 <= d < n ==> #[trigger] ((n as int) % d) != 0
}

/// A witness divisor refutes primality.
pub proof fn lemma_divisor_not_prime(n: nat, d: int)
    requires
        2 <= d < n,
        (n as int) % d == 0,
    ensures
        !is_prime(n),
{
}

/// Any multiple of 6 shifted by 0, 2 or 4 is even.
pub proof fn lemma_mod6_even(q: nat)
    requires
        q % 6 == 0 || q % 6 == 2 || q % 6 == 4,
    ensures
        q % 2 == 0,
{
    let qi = q as int;
    lemma_fundamental_div_mod(qi, 6);
    lemma_mod_multiples_vanish(3 * (qi / 6), qi % 6, 2);
}

/// Any multiple of 6 shifted by 0 or 3 is a multiple of 3.
pub proof fn lemma_mod6_div3(q: nat)
    requires
        q % 6 == 0 || q % 6 == 3,
    ensures
        q % 3 == 0,
{
    let qi = q as int;
    lemma_fundamental_div_mod(qi, 6);
    lemma_mod_multiples_vanish(2 * (qi / 6), qi % 6, 3);
}

/// A value whose residue mod 6 is not 1 or 5 is composite once it is past 3.
pub proof fn lemma_off_wheel_not_prime(q: nat)
    requires
        q >= 4,
        q % 6 != 1,
        q % 6 != 5,
    ensures
        !is_prime(q),
{
    if q % 6 == 0 || q % 6 == 2 || q % 6 == 4 {
        lemma_mod6_even(q);
        lemma_divisor_not_prime(q, 2);
    } else {
        lemma_mod6_div3(q);
        lemma_divisor_not_prime(q, 3);
    }
}

/// If no divisor lies below a bound whose square exceeds the number, none
/// lies anywhere: a proper factorisation has a factor below the square root.
pub proof fn lemma_prime_from_bounded_trial(n: int, d: int)
    requires
        2 <= n,
        2 <= d,
        d * d > n,
        forall|e: int| 2 <= e < d ==> #[trigger] (n % e) != 0,
    ensures
        is_prime(n as nat),
{
    assert forall|e: int| 2 <= e < n implies #[trigger] (n % e) != 0 by {
        if n % e == 0 {
            lemma_fundamental_div_mod(n, e);
            let f = n / e;
            assert(n == e * f);
            assert(f >= 2) by (nonlinear_arith)
                requires
                    n == e * f,
                    2 <= e < n,
            ;
            assert(n % f == 0) by {
                lemma_mod_multiples_basic(e, f);
            }
            if e >= d {
                assert(f < d) by (nonlinear_arith)
                    requires
                        n == e * f,
                        e >= d,
                        f >= 2,
                        d * d > n,
                        d >= 2,
                ;
                assert(f < n) by (nonlinear_arith)
                    requires
                        n == e * f,
                        e >= 2,
                        f >= 2,
                ;
                assert(n % f != 0);
            }
        }
    }
}

/// Exact primality test by trial division, proved against `is_prime`.
pub fn check_prime_u32(n: u32) -> (b: bool)
    ensures
        b == is_prime(n as nat),
{
    if n < 2 {
        return false;
    }
    if n < 4 {
        proof {
            assert forall|d: int| 2 <= d < n implies #[trigger] ((n as int) % d) != 0 by {
                assert(d == 2 && n == 3);
            }
        }
        return true;
    }
    let mut d: u32 = 2;
    while d <= n / d
        invariant
            2 <= d,
            n >= 4,
            forall|e: int| 2 <= e < d ==> #[trigger] ((n as int) % e) != 0,
        decreases n - d,
    {
        proof {
            lemma_fundamental_div_mod(n as int, d as int);
            assert(d < n) by (nonlinear_arith)
                requires
                    d <= (n as int) / (d as int),
                    n as int == (d as int) * ((n as int) / (d as int)) + (n as int) % (d as int),
                    d >= 2,
                    n >= 4,
                    0 <= (n as int) % (d as int),
            ;
        }
        if n % d == 0 {
            proof {
                lemma_divisor_not_prime(n as nat, d as int);
            }
            return false;
        }
        d = d + 1;
    }
    proof {
        lemma_fundamental_div_mod(n as int, d as int);
        assert((d as int) * (d as int) > n as int) by (nonlinear_arith)
            requires
                d > (n as int) / (d as int),
                n as int == (d as int) * ((n as int) / (d as int)) + (n as int) % (d as int),
                d >= 2,
                (n as int) % (d as int) < d,
        ;
        lemma_prime_from_bounded_trial(n as int, d as int);
    }
    true
}

} // verus!
