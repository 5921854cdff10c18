use vstd::prelude::*;

verus! {

use crate::primality::check_prime_u32;
use crate::primality::is_prime;
use vstd::arithmetic::power2::pow2;

/// The complete table of primes with exactly `w` significant bits, in
/// increasing order: every entry is such a prime, and every such prime is
/// an entry.
pub fn primes_with_bits(w: u32) -> (v: Vec<u16>)
    requires
        2 <= w <= 16,
    ensures
        forall|i: int|
            0 <= i < v@.len() ==> (is_prime(#[trigger] v@[i] as nat) && pow2((w - 1) as nat)
                <= (v@[i] as nat) < pow2(w as nat)),
        forall|p: int|
            pow2((w - 1) as nat) <= p < pow2(w as nat) && #[trigger] is_prime(p as nat)
                ==> v@.contains(p as u16),
{
    proof {
        vstd::arithmetic::power2::lemma2_to64();
        vstd::bits::lemma_u32_shl_is_mul(1u32, (w - 1) as u32);
        vstd::bits::lemma_u32_shl_is_mul(1u32, w);
        if (w as nat) < 16 {
            vstd::arithmetic::power2::lemma_pow2_strictly_increases(w as nat, 16);
        }
        vstd::arithmetic::power2::lemma_pow2_strictly_increases((w - 1) as nat, w as nat);
    }
    let lo: u32 = 1u32 << (w - 1);
    let hi: u32 = 1u32 << w;
    let mut v: Vec<u16> = Vec::new();
    let mut c: u32 = lo;
    while c < hi
        invariant
            lo == pow2((w - 1) as nat),
            hi == pow2(w as nat),
            hi <= 0x10000,
            lo <= c <= hi,
            forall|i: int|
                0 <= i < v@.len() ==> (is_prime(#[trigger] v@[i] as nat) && lo <= (v@[i] as nat)
                    < c),
            forall|p: int| lo <= p < c && #[trigger] is_prime(p as nat) ==> v@.contains(p as u16),
        decreases hi - c,
    {
        let ghost old_v = v@;
        if check_prime_u32(c) {
            v.push(c as u16);
            proof {
                assert(v@ == old_v.push(c as u16));
                assert(v@[v@.len() - 1] == c as u16);
                assert forall|p: int|
                    lo <= p < c + 1 && #[trigger] is_prime(p as nat) implies v@.contains(
                    p as u16,
                ) by {
                    if p < c {
                        assert(old_v.contains(p as u16));
                        let j = choose|j: int| 0 <= j < old_v.len() && old_v[j] == p as u16;
                        assert(v@[j] == p as u16);
                    } else {
                        assert(v@[v@.len() - 1] == p as u16);
                    }
                }
            }
        }
        c = c + 1;
    }
    v
}

} // verus!
