use vstd::prelude::*;

verus! {

use crate::primality::is_prime;

/// A prime start is a fixed point of the search: any result that meets the
/// search's contract — zero only when the searched window holds no prime,
/// otherwise at least the start with nothing prime below it — equals the
/// start whenever the start itself is prime and lies inside the window.
pub proof fn lemma_prime_start_is_fixed_point(v: nat, r: nat, h: nat)
    requires
        is_prime(v),
        v < h,
        r == 0 || (r >= v && forall|q: int| v <= q < r ==> !#[trigger] is_prime(q as nat)),
        (exists|p: int| v <= p < h && #[trigger] is_prime(p as nat)) ==> r != 0,
    ensures
        r == v,
{
    let w: int = v as int;
    assert(v <= w < h);
    assert(is_prime(w as nat));
    assert(r != 0);
    if r > v {
        assert(v <= w < r);
        assert(!is_prime(w as nat));
        assert(false);
    }
}

} // verus!
