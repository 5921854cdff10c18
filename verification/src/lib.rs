use vstd::prelude::*;

pub mod big;
pub mod laws;
pub mod primality;
pub mod small;
pub mod tables;
pub mod rng;
pub mod values;
pub mod wheel;
pub mod wide;

pub use rng::RandomSource;
pub use rng::StdSource;
pub use wide::u256_to_biguint;
pub use wide::U256;

verus! {

use crate::primality::is_prime;
use vstd::arithmetic::power2::pow2;

/// An integer representation that the prime search runs over.
pub trait PrimeRepr: Sized {
    /// The number the representation holds.
    spec fn as_nat(&self) -> nat;
}

/// The window in which the generator is obliged to find a prime of the
/// requested length: the whole bit range, but never more than the fixed
/// search span above its lower end.
pub open spec fn gen_window(bits: u32) -> nat {
    if bits <= 65 {
        pow2(bits as nat)
    } else {
        pow2((bits - 1) as nat) + pow2(64)
    }
}

pub trait FindPrimeFrom: PrimeRepr {
    /// What every value the search hands back is known to satisfy. Exact
    /// oracles certify primality itself; probabilistic oracles certify
    /// membership in the residues they never reject a prime from.
    spec fn accepted(n: nat) -> bool;

    /// How far above the start the search is obliged to look before it may
    /// give up and return the zero value.
    spec fn horizon(v: nat) -> nat;

    /// Find the lowest prime number, starting from `self`.
    ///
    /// A zero result means the search ran off its horizon without meeting a
    /// prime; otherwise the result is the least acceptable value at or above
    /// the start, and nothing below it is prime.
    fn find_prime_from(self) -> (r: Self)
        ensures
            r.as_nat() == 0 || (Self::accepted(r.as_nat()) && r.as_nat() >= self.as_nat()
                && forall|q: int|
                self.as_nat() <= q < r.as_nat() ==> !#[trigger] is_prime(q as nat)),
            (exists|p: int|
                self.as_nat() <= p < Self::horizon(self.as_nat()) && #[trigger] is_prime(
                    p as nat,
                )) ==> r.as_nat() != 0,
    ;
}

pub trait GenPrime: PrimeRepr {
    /// The bit counts the representation can honour.
    spec fn bits_ok(bits: u32) -> bool;

    /// What every generated value is known to satisfy, as in
    /// `FindPrimeFrom::accepted`.
    spec fn accepted(n: nat) -> bool;

    /// Generate a prime number with `bits` significant bits.
    ///
    /// A zero result can arise only when the window holds no prime at all;
    /// otherwise the result is acceptable and has exactly `bits` significant
    /// bits.
    fn gen_prime<R: RandomSource>(rng: &mut R, bits: u32) -> (r: Self)
        requires
            Self::bits_ok(bits),
        ensures
            r.as_nat() == 0 || (Self::accepted(r.as_nat()) && pow2((bits - 1) as nat)
                <= r.as_nat() < pow2(bits as nat)),
            (exists|p: int|
                pow2((bits - 1) as nat) <= p < gen_window(bits) && #[trigger] is_prime(p as nat))
                ==> r.as_nat() != 0,
    ;
}

} // verus!
