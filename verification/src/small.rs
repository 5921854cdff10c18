use vstd::prelude::*;

verus! {

use crate::FindPrimeFrom;
use crate::PrimeRepr;
use crate::primality::is_prime;
use crate::rng::RandomSource;
use crate::wheel::aligned_start;
use crate::wheel::lemma_alignment;
use crate::wheel::lemma_wheel_gap;
use crate::wheel::on_wheel;
use crate::wheel::wheel_step;
use vstd::arithmetic::power2::pow2;

/// Relies on num_prime's `is_prime64`, a deterministic and exact primality
/// test for 64-bit integers.
#[verifier::external_body]
fn is_prime64_exact(n: u64) -> (b: bool)
    ensures
        b == is_prime(n as nat),
{
    num_prime::nt_funcs::is_prime64(n)
}

/// The wheel search over the full 64-bit range. A zero result means the
/// walk ran past the top of the range without meeting a prime, which
/// entails that no prime at or above the start fits in 64 bits.
pub fn next_prime_u64(v: u64) -> (r: u64)
    ensures
        r == 0 || (is_prime(r as nat) && r >= v && forall|q: int|
            v <= q < r ==> !#[trigger] is_prime(q as nat)),
        (exists|p: int| v <= p < 0x1_0000_0000_0000_0000 && #[trigger] is_prime(p as nat)) ==> r
            != 0,
{
    if v <= 2 {
        return 2;
    }
    if v == 3 {
        proof {
            assert forall|d: int| 2 <= d < 3 implies #[trigger] (3int % d) != 0 by {
                assert(d == 2);
            }
            assert(is_prime(3nat));
        }
        return 3;
    }
    let r6: u64 = v % 6;
    let delta: u64 = if r6 <= 1 {
        1 - r6
    } else {
        5 - r6
    };
    proof {
        lemma_alignment(v as nat);
        assert(aligned_start(v as nat) == v + delta);
    }
    if v > u64::MAX - delta {
        proof {
            assert forall|p: int| v <= p < 0x1_0000_0000_0000_0000 implies !#[trigger] is_prime(
                p as nat,
            ) by {
                assert(p < aligned_start(v as nat));
            }
        }
        return 0;
    }
    let mut c: u64 = v + delta;
    let mut step: u64 = if r6 <= 1 {
        4
    } else {
        2
    };
    loop
        invariant
            5 <= c,
            v <= c,
            on_wheel(c as nat),
            step == wheel_step(c as nat),
            forall|q: int| v <= q < c ==> !#[trigger] is_prime(q as nat),
        decreases u64::MAX - c,
    {
        if is_prime64_exact(c) {
            return c;
        }
        proof {
            lemma_wheel_gap(c as nat);
        }
        if c > u64::MAX - step {
            proof {
                assert forall|p: int|
                    v <= p < 0x1_0000_0000_0000_0000 implies !#[trigger] is_prime(p as nat) by {
                    if p > c {
                        assert(p < c + wheel_step(c as nat));
                    }
                }
            }
            return 0;
        }
        c = c + step;
        step = 6 - step;
    }
}

impl PrimeRepr for u64 {
    open spec fn as_nat(&self) -> nat {
        *self as nat
    }
}

impl FindPrimeFrom for u64 {
    open spec fn accepted(n: nat) -> bool {
        is_prime(n)
    }

    open spec fn horizon(v: nat) -> nat {
        pow2(64)
    }

    fn find_prime_from(self) -> (r: u64) {
        proof {
            vstd::arithmetic::power2::lemma2_to64();
        vstd::arithmetic::power2::lemma2_to64_rest();
        }
        next_prime_u64(self)
    }
}

impl PrimeRepr for u32 {
    open spec fn as_nat(&self) -> nat {
        *self as nat
    }
}

impl FindPrimeFrom for u32 {
    open spec fn accepted(n: nat) -> bool {
        is_prime(n)
    }

    open spec fn horizon(v: nat) -> nat {
        pow2(32)
    }

    fn find_prime_from(self) -> (r: u32) {
        proof {
            vstd::arithmetic::power2::lemma2_to64();
        vstd::arithmetic::power2::lemma2_to64_rest();
        }
        let r64 = next_prime_u64(self as u64);
        if r64 != 0 && r64 <= 0xffff_ffff {
            r64 as u32
        } else {
            proof {
                if r64 != 0 {
                    assert forall|p: int| self as nat <= p < pow2(32) implies !#[trigger] is_prime(
                        p as nat,
                    ) by {
                        assert(p < r64 as int);
                    }
                }
            }
            0
        }
    }
}

/// `pow2` as an executable 64-bit value.
pub fn pow2_u64(k: u32) -> (r: u64)
    requires
        k <= 63,
    ensures
        r as nat == pow2(k as nat),
        r >= 1,
{
    proof {
        vstd::arithmetic::power2::lemma2_to64();
        vstd::arithmetic::power2::lemma2_to64_rest();
        if (k as nat) < 63 {
            vstd::arithmetic::power2::lemma_pow2_strictly_increases(k as nat, 63);
        }
        vstd::bits::lemma_u64_shl_is_mul(1u64, k as u64);
    }
    1u64 << (k as u64)
}

/// Draw a value with exactly `bits` significant bits: the high bits above
/// the requested width are discarded and the top remaining bit is forced.
pub fn sample_bits_u64<R: RandomSource>(rng: &mut R, bits: u32) -> (r: u64)
    requires
        2 <= bits <= 64,
    ensures
        pow2((bits - 1) as nat) <= r < pow2(bits as nat),
{
    let d = rng.next_u64();
    let bb: u64 = bits as u64;
    let x = d >> ((64 - bits) as u64);
    let top = 1u64 << ((bits - 1) as u64);
    let r = x | top;
    proof {
        vstd::arithmetic::power2::lemma2_to64();
        vstd::arithmetic::power2::lemma2_to64_rest();
        vstd::bits::lemma_u64_shl_is_mul(1u64, (bits - 1) as u64);
        if (bits as nat) - 1 < 63 {
            vstd::arithmetic::power2::lemma_pow2_strictly_increases((bits - 1) as nat, 63);
        }
        assert(top == pow2((bits - 1) as nat));
        assert((x | top) >= top) by (bit_vector);
        if bits < 64 {
            vstd::bits::lemma_u64_shl_is_mul(1u64, bb);
            assert(pow2(bits as nat) > pow2((bits - 1) as nat)) by {
                vstd::arithmetic::power2::lemma_pow2_strictly_increases(
                    (bits - 1) as nat,
                    bits as nat,
                );
            }
            assert((d >> ((64 - bb) as u64)) < (1u64 << bb)) by (bit_vector)
                requires
                    2 <= bb < 64,
            ;
            assert(((d >> ((64 - bb) as u64)) | (1u64 << ((bb - 1) as u64))) < (1u64 << bb))
                by (bit_vector)
                requires
                    2 <= bb < 64,
            ;
        } else {
            assert(r <= u64::MAX);
        }
    }
    r
}

impl crate::GenPrime for u64 {
    open spec fn bits_ok(bits: u32) -> bool {
        2 <= bits <= 64
    }

    open spec fn accepted(n: nat) -> bool {
        is_prime(n)
    }

    fn gen_prime<R: RandomSource>(rng: &mut R, bits: u32) -> (r: u64) {
        proof {
            vstd::arithmetic::power2::lemma2_to64();
        vstd::arithmetic::power2::lemma2_to64_rest();
            if bits < 64 {
                vstd::arithmetic::power2::lemma_pow2_strictly_increases(bits as nat, 64);
            }
        }
        let mut fuel: u64 = 0xffff_ffff_ffff_ffff;
        while fuel > 0
            invariant
                2 <= bits <= 64,
            decreases fuel,
        {
            let c = sample_bits_u64(rng, bits);
            let p = next_prime_u64(c);
            let lo = pow2_u64(bits - 1);
            if p >= lo && (bits == 64 || p < pow2_u64(bits)) {
                proof {
                    vstd::arithmetic::power2::lemma2_to64();
        vstd::arithmetic::power2::lemma2_to64_rest();
                    if bits < 64 {
                        vstd::arithmetic::power2::lemma_pow2_strictly_increases(bits as nat, 64);
                    }
                }
                return p;
            }
            fuel = fuel - 1;
        }
        let base = pow2_u64(bits - 1);
        let p = next_prime_u64(base);
        proof {
            vstd::arithmetic::power2::lemma2_to64();
        vstd::arithmetic::power2::lemma2_to64_rest();
            if bits < 64 {
                vstd::arithmetic::power2::lemma_pow2_strictly_increases(bits as nat, 64);
            }
        }
        if p != 0 && (bits == 64 || p < pow2_u64(bits)) {
            p
        } else {
            proof {
                assert forall|q: int|
                    pow2((bits - 1) as nat) <= q < crate::gen_window(bits) implies !#[trigger] is_prime(
                    q as nat,
                ) by {
                    if p != 0 {
                        assert(q < p as int);
                    }
                }
            }
            0
        }
    }
}

impl crate::GenPrime for u32 {
    open spec fn bits_ok(bits: u32) -> bool {
        2 <= bits <= 32
    }

    open spec fn accepted(n: nat) -> bool {
        is_prime(n)
    }

    fn gen_prime<R: RandomSource>(rng: &mut R, bits: u32) -> (r: u32) {
        proof {
            vstd::arithmetic::power2::lemma2_to64();
        vstd::arithmetic::power2::lemma2_to64_rest();
            vstd::arithmetic::power2::lemma_pow2_strictly_increases(bits as nat, 64);
        }
        let mut fuel: u64 = 0xffff_ffff_ffff_ffff;
        while fuel > 0
            invariant
                2 <= bits <= 32,
            decreases fuel,
        {
            let c = sample_bits_u64(rng, bits);
            let p = next_prime_u64(c);
            let lo = pow2_u64(bits - 1);
            if p >= lo && p < pow2_u64(bits) {
                proof {
                    vstd::arithmetic::power2::lemma2_to64();
        vstd::arithmetic::power2::lemma2_to64_rest();
                    vstd::arithmetic::power2::lemma_pow2_strictly_increases(bits as nat, 64);
                    if bits < 32 {
                        vstd::arithmetic::power2::lemma_pow2_strictly_increases(bits as nat, 32);
                    }
                }
                return p as u32;
            }
            fuel = fuel - 1;
        }
        let base = pow2_u64(bits - 1);
        let p = next_prime_u64(base);
        proof {
            vstd::arithmetic::power2::lemma2_to64();
        vstd::arithmetic::power2::lemma2_to64_rest();
            if bits < 32 {
                vstd::arithmetic::power2::lemma_pow2_strictly_increases(bits as nat, 32);
            }
        }
        if p != 0 && p < pow2_u64(bits) {
            p as u32
        } else {
            proof {
                assert forall|q: int|
                    pow2((bits - 1) as nat) <= q < crate::gen_window(bits) implies !#[trigger] is_prime(
                    q as nat,
                ) by {
                    if p != 0 {
                        assert(q < p as int);
                    }
                }
            }
            0
        }
    }
}

impl PrimeRepr for u8 {
    open spec fn as_nat(&self) -> nat {
        *self as nat
    }
}

impl crate::GenPrime for u8 {
    open spec fn bits_ok(bits: u32) -> bool {
        2 <= bits <= 8
    }

    open spec fn accepted(n: nat) -> bool {
        is_prime(n)
    }

    fn gen_prime<R: RandomSource>(rng: &mut R, bits: u32) -> (r: u8) {
        proof {
            vstd::arithmetic::power2::lemma2_to64();
            if bits < 8 {
                vstd::arithmetic::power2::lemma_pow2_strictly_increases(bits as nat, 8);
            }
        }
        let t = crate::tables::primes_with_bits(bits);
        if t.len() == 0 {
            proof {
                assert forall|q: int|
                    pow2((bits - 1) as nat) <= q < crate::gen_window(bits) implies !#[trigger] is_prime(
                    q as nat,
                ) by {
                    if is_prime(q as nat) {
                        assert(t@.contains(q as u16));
                    }
                }
            }
            return 0;
        }
        let len64: u64 = t.len() as u64;
        let idx64: u64 = rng.next_u64() % len64;
        let idx: usize = idx64 as usize;
        let p = t[idx];
        p as u8
    }
}

impl PrimeRepr for u16 {
    open spec fn as_nat(&self) -> nat {
        *self as nat
    }
}

impl crate::GenPrime for u16 {
    open spec fn bits_ok(bits: u32) -> bool {
        2 <= bits <= 16
    }

    open spec fn accepted(n: nat) -> bool {
        is_prime(n)
    }

    fn gen_prime<R: RandomSource>(rng: &mut R, bits: u32) -> (r: u16) {
        if bits <= 8 {
            let p = <u8 as crate::GenPrime>::gen_prime(rng, bits);
            return p as u16;
        }
        proof {
            vstd::arithmetic::power2::lemma2_to64();
            if bits < 16 {
                vstd::arithmetic::power2::lemma_pow2_strictly_increases(bits as nat, 16);
            }
        }
        let t = crate::tables::primes_with_bits(bits);
        if t.len() == 0 {
            proof {
                assert forall|q: int|
                    pow2((bits - 1) as nat) <= q < crate::gen_window(bits) implies !#[trigger] is_prime(
                    q as nat,
                ) by {
                    if is_prime(q as nat) {
                        assert(t@.contains(q as u16));
                    }
                }
            }
            return 0;
        }
        let len64: u64 = t.len() as u64;
        let idx64: u64 = rng.next_u64() % len64;
        let idx: usize = idx64 as usize;
        t[idx]
    }
}

} // verus!
