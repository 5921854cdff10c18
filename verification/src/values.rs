use vstd::prelude::*;

verus! {

use vstd::arithmetic::power2::pow2;
use vstd::arithmetic::power2::lemma_pow2_adds;
use vstd::arithmetic::power2::lemma_pow2_pos;

/// The number that a little-endian sequence of 32-bit digits denotes.
pub open spec fn digits32_val(s: Seq<u32>) -> nat
    decreases s.len(),
{
    if s.len() == 0 {
        0
    } else {
        digits32_val(s.drop_last()) + s.last() as nat * pow2(32 * (s.len() - 1) as nat)
    }
}

pub proof fn lemma_digits32_push(s: Seq<u32>, d: u32)
    ensures
        digits32_val(s.push(d)) == digits32_val(s) + d as nat * pow2(32 * s.len()),
{
    assert(s.push(d).drop_last() =~= s);
}

/// A sequence of digits denotes a value below `pow2` of its total width.
pub proof fn lemma_digits32_bound(s: Seq<u32>)
    ensures
        digits32_val(s) < pow2(32 * s.len()),
    decreases s.len(),
{
    lemma_pow2_pos(32 * s.len());
    if s.len() == 0 {
    } else {
        let l = (s.len() - 1) as nat;
        lemma_digits32_bound(s.drop_last());
        lemma_pow2_adds(32 * l, 32);
        lemma_pow2_pos(32 * l);
        vstd::arithmetic::power2::lemma2_to64();
        let p = pow2(32 * l);
        assert(digits32_val(s) < p + s.last() as nat * p);
        assert(p + s.last() as nat * p == (1 + s.last() as nat) * p) by (nonlinear_arith);
        assert((1 + s.last() as nat) * p <= 0x1_0000_0000 * p) by (nonlinear_arith)
            requires
                1 + s.last() as nat <= 0x1_0000_0000,
                p > 0,
        ;
    }
}

/// The same bound tightened when the last digit is below `pow2(k)`.
pub proof fn lemma_digits32_bound_top(s: Seq<u32>, k: nat)
    requires
        s.len() >= 1,
        s.last() < pow2(k),
    ensures
        digits32_val(s) < pow2(32 * (s.len() - 1) as nat + k),
{
    let l = (s.len() - 1) as nat;
    lemma_digits32_bound(s.drop_last());
    lemma_pow2_adds(32 * l, k);
    lemma_pow2_pos(32 * l);
    lemma_pow2_pos(k);
    let p = pow2(32 * l);
    assert(32 * (s.len() - 1) as nat + k == 32 * l + k);
    assert(pow2(32 * l + k) == p * pow2(k));
    assert(s.drop_last().len() == l);
    assert(digits32_val(s) == digits32_val(s.drop_last()) + s.last() as nat * p);
    assert(digits32_val(s) < p + s.last() as nat * p);
    assert(digits32_val(s) < pow2(32 * l + k)) by (nonlinear_arith)
        requires
            digits32_val(s) < p + s.last() as nat * p,
            1 + s.last() as nat <= pow2(k),
            p > 0,
            pow2(32 * l + k) == p * pow2(k),
    ;
}

/// Every digit weighs in from below: the value dominates any single digit
/// times its place value.
pub proof fn lemma_digits32_lower(s: Seq<u32>, i: int)
    requires
        0 <= i < s.len(),
    ensures
        digits32_val(s) >= s[i] as nat * pow2(32 * i as nat),
    decreases s.len(),
{
    if i == s.len() - 1 {
    } else {
        lemma_digits32_lower(s.drop_last(), i);
    }
}

/// Zero digits above an index do not change the denoted value.
pub proof fn lemma_digits32_trailing_zeros(s: Seq<u32>, k: int)
    requires
        0 <= k <= s.len(),
        forall|i: int| k <= i < s.len() ==> s[i] == 0,
    ensures
        digits32_val(s) == digits32_val(s.take(k)),
    decreases s.len(),
{
    if s.len() == k {
        assert(s.take(k) =~= s);
    } else {
        assert(s.last() == 0);
        assert(s.drop_last() =~= s.take(s.len() - 1));
        lemma_digits32_trailing_zeros(s.take(s.len() - 1), k);
        assert(s.take(s.len() - 1).take(k) =~= s.take(k));
    }
}

} // verus!
