use vstd::prelude::*;

verus! {

use crate::FindPrimeFrom;
use crate::GenPrime;
use crate::PrimeRepr;
use crate::primality::is_prime;
use crate::rng::RandomSource;
use crate::values::digits32_val;
use crate::values::lemma_digits32_bound_top;
use crate::values::lemma_digits32_push;
use crate::wheel::aligned_start;
use crate::wheel::lemma_alignment;
use crate::wheel::lemma_wheel_gap;
use crate::wheel::on_wheel;
use crate::wheel::wheel_step;
use vstd::arithmetic::div_mod::lemma_fundamental_div_mod;
use vstd::arithmetic::power2::lemma2_to64;
use vstd::arithmetic::power2::lemma2_to64_rest;
use vstd::arithmetic::power2::lemma_pow2_adds;
use vstd::arithmetic::power2::lemma_pow2_strictly_increases;
use vstd::arithmetic::power2::pow2;

#[verifier::external_type_specification]
#[verifier::external_body]
pub struct ExBigUint(num_bigint::BigUint);

/// The little-endian 32-bit digits that an arbitrary-precision value holds.
pub uninterp spec fn big_digits(b: num_bigint::BigUint) -> Seq<u32>;

/// The number an arbitrary-precision value denotes.
pub open spec fn big_val(b: &num_bigint::BigUint) -> nat {
    digits32_val(big_digits(*b))
}

/// What a passing probabilistic primality verdict tells about the value:
/// it is 2, 3, or divisible by neither 2 nor 3.
pub open spec fn wheel_coprime(n: nat) -> bool {
    n == 2 || n == 3 || (n >= 5 && n % 2 != 0 && n % 3 != 0)
}

/// Relies on num_bigint's `From<u64>` for `BigUint`: the value converts
/// without loss.
#[verifier::external_body]
pub fn biguint_from_u64(v: u64) -> (b: num_bigint::BigUint)
    ensures
        big_val(&b) == v as nat,
{
    num_bigint::BigUint::from(v)
}

/// Relies on num_bigint's `BigUint::from_slice`: the value is assembled
/// from little-endian 32-bit digits.
#[verifier::external_body]
pub(crate) fn biguint_from_digits(digits: &Vec<u32>) -> (b: num_bigint::BigUint)
    ensures
        big_val(&b) == digits32_val(digits@),
{
    num_bigint::BigUint::from_slice(digits.as_slice())
}

/// Relies on num_bigint's `BigUint::to_u32_digits`: the little-endian
/// 32-bit digits of the value, which are what `big_digits` names.
#[verifier::external_body]
pub(crate) fn biguint_to_digits(b: &num_bigint::BigUint) -> (digits: Vec<u32>)
    ensures
        digits@ == big_digits(*b),
{
    b.to_u32_digits()
}

/// Relies on num_bigint's `PartialOrd` for `BigUint` and `From<u64>`:
/// comparison agrees with the values compared.
#[verifier::external_body]
pub(crate) fn biguint_le_u64(b: &num_bigint::BigUint, v: u64) -> (r: bool)
    ensures
        r == (big_val(b) <= v as nat),
{
    *b <= num_bigint::BigUint::from(v)
}

/// Relies on num_bigint's `PartialEq` for `BigUint` and `From<u64>`:
/// equality agrees with the values compared.
#[verifier::external_body]
pub(crate) fn biguint_eq_u64(b: &num_bigint::BigUint, v: u64) -> (r: bool)
    ensures
        r == (big_val(b) == v as nat),
{
    *b == num_bigint::BigUint::from(v)
}

/// Relies on num_bigint's `Rem<u32>` for `&BigUint` and `TryFrom<&BigUint>`
/// for `u32`: the remainder of the value by a small nonzero modulus.
#[verifier::external_body]
pub(crate) fn biguint_rem_u32(b: &num_bigint::BigUint, m: u32) -> (r: u32)
    requires
        m >= 1,
    ensures
        r as nat == big_val(b) % m as nat,
{
    let rem = b % m;
    u32::try_from(&rem).unwrap()
}

/// Relies on num_bigint's `AddAssign<u32>` for `BigUint`: the value grows
/// by exactly the addend.
#[verifier::external_body]
pub(crate) fn biguint_add_u32(b: &mut num_bigint::BigUint, d: u32)
    ensures
        big_val(&*final(b)) == big_val(&*old(b)) + d as nat,
{
    *b += d;
}

/// Relies on num_bigint's `BigUint::set_bit`: setting a bit above the value
/// adds exactly that power of two.
#[verifier::external_body]
pub(crate) fn biguint_set_bit(b: &mut num_bigint::BigUint, bit: u64)
    requires
        big_val(&*old(b)) < pow2(bit as nat),
    ensures
        big_val(&*final(b)) == big_val(&*old(b)) + pow2(bit as nat),
{
    b.set_bit(bit, true);
}

/// Relies on num_bigint's `BigUint::bits`: the minimal number of bits of
/// the value, 0 for the value 0.
#[verifier::external_body]
pub(crate) fn biguint_bit_len(b: &num_bigint::BigUint) -> (r: u64)
    ensures
        big_val(b) == 0 ==> r == 0,
        big_val(b) > 0 ==> r >= 1 && pow2((r - 1) as nat) <= big_val(b) < pow2(r as nat),
{
    b.bits()
}

/// Relies on glass_pumpkin's `prime::check`: trial division by the first
/// 2048 primes (returning equality when the candidate is one of them), a
/// Fermat test, and randomized Miller-Rabin rounds. A prime input passes
/// every stage, whatever bases are drawn; a passing input is 2, 3, or
/// divisible by neither 2 nor 3.
#[verifier::external_body]
pub(crate) fn probable_prime_check(b: &num_bigint::BigUint) -> (r: bool)
    ensures
        is_prime(big_val(b)) ==> r,
        r ==> wheel_coprime(big_val(b)),
{
    glass_pumpkin::prime::check(b)
}

/// Draw an arbitrary-precision value with exactly `bits` significant bits:
/// the top bit is forced and the `bits - 1` bits below it are random.
pub fn sample_bits_big<R: RandomSource>(rng: &mut R, bits: u32) -> (b: num_bigint::BigUint)
    requires
        bits >= 2,
    ensures
        pow2((bits - 1) as nat) <= big_val(&b) < pow2(bits as nat),
{
    let m: u32 = bits - 1;
    let q: u32 = m / 32;
    let rem: u32 = m % 32;
    let nd: u32 = if rem > 0 {
        q + 1
    } else {
        q
    };
    proof {
        lemma_fundamental_div_mod(m as int, 32);
    }
    let mut digits: Vec<u32> = Vec::new();
    let mut i: u32 = 0;
    proof {
        lemma2_to64();
        vstd::arithmetic::power2::lemma_pow2_pos(m as nat);
    }
    while i < nd
        invariant
            i <= nd,
            digits@.len() == i,
            rem > 0 ==> nd == q + 1,
            rem == 0 ==> nd == q,
            m == 32 * q + rem,
            rem < 32,
            m >= 1,
            digits32_val(digits@) < pow2(32 * i as nat),
            i == nd ==> digits32_val(digits@) < pow2(m as nat),
        decreases nd - i,
    {
        let d64 = rng.next_u64();
        let d: u32 = #[verifier::truncate] ((d64 >> 32) as u32);
        let masked: u32 = if i == nd - 1 && rem > 0 {
            d >> (32 - rem)
        } else {
            d
        };
        proof {
            lemma_digits32_push(digits@, masked);
            lemma2_to64();
            if i == nd - 1 && rem > 0 {
                let dd = d;
                let rr = rem;
                assert((dd >> ((32 - rr) as u32)) < (1u32 << rr)) by (bit_vector)
                    requires
                        1 <= rr < 32,
                ;
                vstd::bits::lemma_u32_shl_is_mul(1u32, rem);
                if (rem as nat) < 32 {
                    lemma_pow2_strictly_increases(rem as nat, 32);
                }
                assert(masked < pow2(rem as nat));
            } else {
                assert(masked < pow2(32));
            }
        }
        digits.push(masked);
        proof {
            let s = digits@;
            if i == nd - 1 && rem > 0 {
                lemma_digits32_bound_top(s, rem as nat);
                assert(32 * (s.len() - 1) as nat + rem as nat == 32 * q + rem);
                assert(digits32_val(s) < pow2(m as nat));
                assert(32 * i as nat + 32 == 32 * ((i + 1) as nat));
                if (m as nat) < 32 * ((i + 1) as nat) {
                    lemma_pow2_strictly_increases(m as nat, 32 * ((i + 1) as nat));
                }
            } else {
                lemma_digits32_bound_top(s, 32);
                assert(32 * (s.len() - 1) as nat + 32 == 32 * ((i + 1) as nat));
                if i + 1 == nd {
                    assert(rem == 0);
                    assert(32 * ((i + 1) as nat) == m as nat);
                }
            }
        }
        i = i + 1;
    }
    proof {
        assert(digits32_val(digits@) < pow2(m as nat));
    }
    let mut b = biguint_from_digits(&digits);
    proof {
        lemma_pow2_adds((bits - 1) as nat, 1);
        lemma2_to64();
    }
    biguint_set_bit(&mut b, (bits - 1) as u64);
    b
}

impl PrimeRepr for num_bigint::BigUint {
    open spec fn as_nat(&self) -> nat {
        big_val(self)
    }
}

impl FindPrimeFrom for num_bigint::BigUint {
    open spec fn accepted(n: nat) -> bool {
        wheel_coprime(n)
    }

    open spec fn horizon(v: nat) -> nat {
        v + pow2(64)
    }

    fn find_prime_from(self) -> (r: num_bigint::BigUint) {
        let ghost v0 = big_val(&self);
        if biguint_le_u64(&self, 2) {
            return biguint_from_u64(2);
        }
        if biguint_eq_u64(&self, 3) {
            return biguint_from_u64(3);
        }
        let r6: u32 = biguint_rem_u32(&self, 6);
        let delta: u32 = if r6 <= 1 {
            1 - r6
        } else {
            5 - r6
        };
        proof {
            lemma_alignment(v0);
            assert(aligned_start(v0) == v0 + delta);
        }
        let mut c = self;
        biguint_add_u32(&mut c, delta);
        let mut step: u32 = if r6 <= 1 {
            4
        } else {
            2
        };
        let mut fuel: u64 = 0xffff_ffff_ffff_ffff;
        while fuel > 0
            invariant
                v0 == self.as_nat(),
                5 <= big_val(&c),
                v0 <= big_val(&c),
                on_wheel(big_val(&c)),
                step == wheel_step(big_val(&c)),
                forall|q: int| v0 <= q < big_val(&c) ==> !#[trigger] is_prime(q as nat),
                big_val(&c) + 2 * fuel >= v0 + 0x1_ffff_ffff_ffff_fffe,
            decreases fuel,
        {
            if probable_prime_check(&c) {
                return c;
            }
            proof {
                lemma_wheel_gap(big_val(&c));
            }
            biguint_add_u32(&mut c, step);
            step = 6 - step;
            fuel = fuel - 1;
        }
        proof {
            lemma2_to64_rest();
            assert forall|p: int| v0 <= p < v0 + pow2(64) implies !#[trigger] is_prime(
                p as nat,
            ) by {
                assert(p < big_val(&c));
            }
        }
        biguint_from_u64(0)
    }
}

impl GenPrime for num_bigint::BigUint {
    open spec fn bits_ok(bits: u32) -> bool {
        bits >= 2
    }

    open spec fn accepted(n: nat) -> bool {
        wheel_coprime(n)
    }

    fn gen_prime<R: RandomSource>(rng: &mut R, bits: u32) -> (r: num_bigint::BigUint) {
        let mut fuel: u64 = 0xffff_ffff_ffff_ffff;
        while fuel > 0
            invariant
                bits >= 2,
            decreases fuel,
        {
            let c = sample_bits_big(rng, bits);
            let p = c.find_prime_from();
            if biguint_bit_len(&p) == bits as u64 {
                return p;
            }
            fuel = fuel - 1;
        }
        let mut base = biguint_from_u64(0);
        proof {
            vstd::arithmetic::power2::lemma_pow2_pos((bits - 1) as nat);
        }
        biguint_set_bit(&mut base, (bits - 1) as u64);
        let ghost b0 = big_val(&base);
        let p = base.find_prime_from();
        let blen = biguint_bit_len(&p);
        if blen == bits as u64 {
            p
        } else {
            proof {
                lemma2_to64();
                lemma2_to64_rest();
                lemma_pow2_adds((bits - 1) as nat, 1);
                if bits > 65 {
                    lemma_pow2_strictly_increases(64, (bits - 1) as nat);
                } else {
                    if (bits as nat) < 65 {
                        lemma_pow2_strictly_increases((bits - 1) as nat, 64);
                    }
                }
                if big_val(&p) != 0 {
                    assert(big_val(&p) >= pow2(bits as nat)) by {
                        assert(big_val(&p) >= b0);
                        assert(blen != bits);
                        if blen < bits {
                            if (blen as nat) < (bits - 1) as nat {
                                lemma_pow2_strictly_increases(blen as nat, (bits - 1) as nat);
                            }
                            assert(false);
                        } else {
                            if (bits as nat) < (blen - 1) as nat {
                                lemma_pow2_strictly_increases(bits as nat, (blen - 1) as nat);
                            }
                        }
                    }
                }
                assert forall|q: int|
                    pow2((bits - 1) as nat) <= q < crate::gen_window(bits) implies !#[trigger] is_prime(
                    q as nat,
                ) by {
                    if big_val(&p) != 0 {
                        assert(q < big_val(&p));
                    } else {
                        assert(q < b0 + pow2(64));
                    }
                }
            }
            biguint_from_u64(0)
        }
    }
}

} // verus!
