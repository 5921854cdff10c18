use vstd::prelude::*;

verus! {

use crate::primality::is_prime;
use crate::primality::lemma_off_wheel_not_prime;
use vstd::arithmetic::div_mod::lemma_add_mod_noop;

/// The positions the mod-6 wheel visits: residues coprime to 6.
pub open spec fn on_wheel(c: nat) -> bool {
    c % 6 == 1 || c % 6 == 5
}

/// The stride the wheel takes from a position: 4 after residue 1, 2 after
/// residue 5, so that only residues 1 and 5 are ever visited.
pub open spec fn wheel_step(c: nat) -> nat {
    if c % 6 == 1 {
        4
    } else {
        2
    }
}

/// Where the search first lands when it aligns an arbitrary start onto the
/// wheel: the next value with residue 1 (from residues 0 and 1) or 5
/// (from residues 2 through 5).
pub open spec fn aligned_start(v: nat) -> nat {
    if v % 6 <= 1 {
        (v + 1 - v % 6) as nat
    } else {
        (v + 5 - v % 6) as nat
    }
}

/// Stepping the wheel skips only composites, and lands back on the wheel
/// with the residue flipped.
pub proof fn lemma_wheel_gap(c: nat)
    requires
        c >= 5,
        on_wheel(c),
    ensures
        forall|q: int| c < q < c + wheel_step(c) ==> !#[trigger] is_prime(q as nat),
        on_wheel((c + wheel_step(c)) as nat),
        (c + wheel_step(c)) % 6 == if c % 6 == 1 {
            5nat
        } else {
            1nat
        },
        wheel_step((c + wheel_step(c)) as nat) != wheel_step(c),
{
    let s = wheel_step(c);
    assert forall|q: int| c < q < c + s implies !#[trigger] is_prime(q as nat) by {
        let d = (q - c) as nat;
        lemma_add_mod_noop(c as int, d as int, 6);
        assert((q as nat) % 6 == (c % 6 + d) % 6);
        lemma_off_wheel_not_prime(q as nat);
    }
    lemma_add_mod_noop(c as int, s as int, 6);
}

/// Aligning onto the wheel skips only composites.
pub proof fn lemma_alignment(v: nat)
    requires
        v >= 4,
    ensures
        v <= aligned_start(v) <= v + 3,
        on_wheel(aligned_start(v)),
        aligned_start(v) % 6 == if v % 6 <= 1 {
            1nat
        } else {
            5nat
        },
        aligned_start(v) >= 5,
        forall|q: int| v <= q < aligned_start(v) ==> !#[trigger] is_prime(q as nat),
{
    let a = aligned_start(v);
    let r = v % 6;
    let t: nat = if r <= 1 { (1 - r) as nat } else { (5 - r) as nat };
    assert(a == v + t);
    lemma_add_mod_noop(v as int, t as int, 6);
    assert(a % 6 == (r + t) % 6);
    assert forall|q: int| v <= q < a implies !#[trigger] is_prime(q as nat) by {
        let d = (q - v) as nat;
        lemma_add_mod_noop(v as int, d as int, 6);
        assert((q as nat) % 6 == (r + d) % 6);
        lemma_off_wheel_not_prime(q as nat);
    }
}

} // verus!
