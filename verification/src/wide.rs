use vstd::prelude::*;

verus! {

use crate::FindPrimeFrom;
use crate::GenPrime;
use crate::PrimeRepr;
use crate::big::big_val;
use crate::big::biguint_from_u64;
use crate::big::sample_bits_big;
use crate::big::wheel_coprime;
use crate::primality::is_prime;
use crate::rng::RandomSource;
use crate::values::digits32_val;
use crate::values::lemma_digits32_bound;
use crate::values::lemma_digits32_lower;
use crate::values::lemma_digits32_trailing_zeros;
use vstd::arithmetic::power2::lemma2_to64;
use vstd::arithmetic::power2::lemma2_to64_rest;
use vstd::arithmetic::power2::lemma_pow2_adds;
use vstd::arithmetic::power2::lemma_pow2_pos;
use vstd::arithmetic::power2::lemma_pow2_strictly_increases;
use vstd::arithmetic::power2::pow2;

/// A 256-bit unsigned integer held as eight little-endian 32-bit words.
#[derive(Clone, Copy, PartialEq, Eq, Debug)]
pub struct U256 {
    pub digits: [u32; 8],
}

impl U256 {
    /// The 64-bit value widened into the 256-bit representation.
    pub fn from_u64(v: u64) -> (r: U256)
        ensures
            r.as_nat() == v as nat,
    {
        proof {
            assert((v & 0xffff_ffff) < 0x1_0000_0000 && (v >> 32) < 0x1_0000_0000 && v == (v
                & 0xffff_ffff) + 0x1_0000_0000 * (v >> 32)) by (bit_vector);
        }
        let lo: u32 = (v & 0xffff_ffff) as u32;
        let hi: u32 = (v >> 32) as u32;
        let r = U256 { digits: [lo, hi, 0, 0, 0, 0, 0, 0] };
        proof {
            reveal_with_fuel(digits32_val, 4);
            lemma2_to64();
            lemma2_to64_rest();
            let s = r.digits@;
            assert(s.len() == 8);
            assert(s[0] == lo);
            assert(s[1] == hi);
            lemma_digits32_trailing_zeros(s, 2);
            assert(s.take(2).drop_last() =~= s.take(1));
            assert(s.take(1).drop_last() =~= s.take(0));
            assert(digits32_val(s.take(0)) == 0);
            assert(s.take(1).len() == 1);
            assert(s.take(1).last() == lo);
            assert(pow2(0) == 1);
            assert(digits32_val(s.take(1)) == digits32_val(s.take(1).drop_last()) + s.take(
                1,
            ).last() as nat * pow2(32 * (s.take(1).len() - 1) as nat));
            assert(lo as nat * pow2(0) == lo as nat) by (nonlinear_arith)
                requires
                    pow2(0) == 1,
            ;
            assert(hi as nat * pow2(32 * (s.take(2).len() - 1) as nat) == hi as nat * pow2(32))
                by (nonlinear_arith)
                requires
                    s.take(2).len() == 2,
            ;
            assert(digits32_val(s.take(1)) == lo as nat);
            assert(s.take(2).len() == 2);
            assert(s.take(2).last() == hi);
            assert(digits32_val(s.take(2)) == lo as nat + hi as nat * pow2(32));
        }
        r
    }
}

/// The fixed-width value reinterpreted as an arbitrary-precision value:
/// a pure, lossless conversion.
pub fn u256_to_biguint(n: U256) -> (b: num_bigint::BigUint)
    ensures
        big_val(&b) == n.as_nat(),
{
    let mut v: Vec<u32> = Vec::new();
    let mut i: usize = 0;
    while i < 8
        invariant
            i <= 8,
            v@.len() == i,
            forall|j: int| 0 <= j < i ==> v@[j] == n.digits@[j],
        decreases 8 - i,
    {
        v.push(n.digits[i]);
        i = i + 1;
    }
    proof {
        assert(v@ =~= n.digits@);
    }
    crate::big::biguint_from_digits(&v)
}

/// The arbitrary-precision value narrowed into the 256-bit representation;
/// it must fit.
fn u256_from_biguint(b: &num_bigint::BigUint) -> (r: U256)
    requires
        big_val(b) < pow2(256),
    ensures
        r.as_nat() == big_val(b),
{
    let d = crate::big::biguint_to_digits(b);
    proof {
        assert forall|i: int| 8 <= i < d@.len() implies d@[i] == 0 by {
            lemma_digits32_lower(d@, i);
            lemma2_to64_rest();
            if 256 < 32 * i as nat {
                lemma_pow2_strictly_increases(256, 32 * i as nat);
            }
            if d@[i] >= 1 {
                assert(d@[i] as nat * pow2(32 * i as nat) >= pow2(32 * i as nat))
                    by (nonlinear_arith)
                    requires
                        d@[i] as nat >= 1,
                        pow2(32 * i as nat) > 0,
                ;
                lemma_pow2_pos(32 * i as nat);
                assert(big_val(b) >= pow2(256));
            }
        }
    }
    let e0: u32 = if d.len() > 0 {
        d[0]
    } else {
        0
    };
    let e1: u32 = if d.len() > 1 {
        d[1]
    } else {
        0
    };
    let e2: u32 = if d.len() > 2 {
        d[2]
    } else {
        0
    };
    let e3: u32 = if d.len() > 3 {
        d[3]
    } else {
        0
    };
    let e4: u32 = if d.len() > 4 {
        d[4]
    } else {
        0
    };
    let e5: u32 = if d.len() > 5 {
        d[5]
    } else {
        0
    };
    let e6: u32 = if d.len() > 6 {
        d[6]
    } else {
        0
    };
    let e7: u32 = if d.len() > 7 {
        d[7]
    } else {
        0
    };
    let r = U256 { digits: [e0, e1, e2, e3, e4, e5, e6, e7] };
    proof {
        let s = r.digits@;
        if d@.len() <= 8 {
            let k = d@.len() as int;
            lemma_digits32_trailing_zeros(s, k);
            assert(s.take(k) =~= d@);
        } else {
            lemma_digits32_trailing_zeros(d@, 8);
            assert(d@.take(8) =~= s);
        }
    }
    r
}

impl PrimeRepr for U256 {
    open spec fn as_nat(&self) -> nat {
        digits32_val(self.digits@)
    }
}

impl FindPrimeFrom for U256 {
    open spec fn accepted(n: nat) -> bool {
        wheel_coprime(n)
    }

    open spec fn horizon(v: nat) -> nat {
        if v + pow2(64) <= pow2(256) {
            v + pow2(64)
        } else {
            pow2(256)
        }
    }

    fn find_prime_from(self) -> (r: U256) {
        proof {
            lemma_digits32_bound(self.digits@);
        }
        let b = u256_to_biguint(self);
        let p = b.find_prime_from();
        let blen = crate::big::biguint_bit_len(&p);
        let zero = crate::big::biguint_eq_u64(&p, 0);
        if !zero && blen <= 256 {
            proof {
                if (blen as nat) < 256 {
                    lemma_pow2_strictly_increases(blen as nat, 256);
                }
            }
            u256_from_biguint(&p)
        } else {
            proof {
                lemma2_to64_rest();
                if !zero {
                    assert(big_val(&p) >= pow2(256)) by {
                        if (256 as nat) < (blen - 1) as nat {
                            lemma_pow2_strictly_increases(256, (blen - 1) as nat);
                        }
                    }
                }
                assert forall|q: int|
                    self.as_nat() <= q < <U256 as FindPrimeFrom>::horizon(self.as_nat())
                    implies !#[trigger] is_prime(q as nat) by {
                    if zero {
                        assert(q < self.as_nat() + pow2(64));
                    } else {
                        assert(q < big_val(&p));
                    }
                }
            }
            U256::from_u64(0)
        }
    }
}

impl GenPrime for U256 {
    open spec fn bits_ok(bits: u32) -> bool {
        2 <= bits <= 256
    }

    open spec fn accepted(n: nat) -> bool {
        wheel_coprime(n)
    }

    fn gen_prime<R: RandomSource>(rng: &mut R, bits: u32) -> (r: U256) {
        let mut fuel: u64 = 0xffff_ffff_ffff_ffff;
        while fuel > 0
            invariant
                2 <= bits <= 256,
            decreases fuel,
        {
            let c = sample_bits_big(rng, bits);
            let p = c.find_prime_from();
            let blen = crate::big::biguint_bit_len(&p);
            if blen == bits as u64 {
                proof {
                    if (bits as nat) < 256 {
                        lemma_pow2_strictly_increases(bits as nat, 256);
                    }
                }
                return u256_from_biguint(&p);
            }
            fuel = fuel - 1;
        }
        let mut base = biguint_from_u64(0);
        proof {
            lemma_pow2_pos((bits - 1) as nat);
        }
        crate::big::biguint_set_bit(&mut base, (bits - 1) as u64);
        let ghost b0 = big_val(&base);
        let p = base.find_prime_from();
        let blen = crate::big::biguint_bit_len(&p);
        if blen == bits as u64 {
            proof {
                if (bits as nat) < 256 {
                    lemma_pow2_strictly_increases(bits as nat, 256);
                }
            }
            u256_from_biguint(&p)
        } else {
            proof {
                lemma2_to64();
                lemma2_to64_rest();
                lemma_pow2_adds((bits - 1) as nat, 1);
                if bits > 65 {
                    lemma_pow2_strictly_increases(64, (bits - 1) as nat);
                } else {
                    if (bits as nat) < 65 {
                        lemma_pow2_strictly_increases((bits - 1) as nat, 64);
                    }
                }
                if big_val(&p) != 0 {
                    assert(big_val(&p) >= pow2(bits as nat)) by {
                        assert(big_val(&p) >= b0);
                        if blen < bits {
                            if (blen as nat) < (bits - 1) as nat {
                                lemma_pow2_strictly_increases(blen as nat, (bits - 1) as nat);
                            }
                            assert(false);
                        } else {
                            if (bits as nat) < (blen - 1) as nat {
                                lemma_pow2_strictly_increases(bits as nat, (blen - 1) as nat);
                            }
                        }
                    }
                }
                assert forall|q: int|
                    pow2((bits - 1) as nat) <= q < crate::gen_window(bits) implies !#[trigger] is_prime(
                    q as nat,
                ) by {
                    if big_val(&p) != 0 {
                        assert(q < big_val(&p));
                    } else {
                        assert(q < b0 + pow2(64));
                    }
                }
            }
            U256::from_u64(0)
        }
    }
}

} // verus!
