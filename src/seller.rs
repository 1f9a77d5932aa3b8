//! Sellers that carry their channel's fee.

use vstd::prelude::*;

verus! {

/// A seller: online, with an integer fraction `(numerator, denominator)` as
/// the fee, or a named physical point of sale.
#[derive(Debug)]
pub enum Seller {
    /// Online sale, with the fee fraction.
    Online((usize, usize)),
    /// Face-to-face sale, by someone.
    Offline(String),
}

impl Seller {
    /// The fee can be applied to `price` without overflow or division by zero.
    pub open spec fn can_apply(&self, price: usize) -> bool {
        match self {
            Seller::Online((k, d)) => *d > 0 && price as int * *k as int <= usize::MAX,
            Seller::Offline(_) => true,
        }
    }

    /// Apply the online fee if online: `price * numerator / denominator`.
    pub fn apply_fee(&self, price: usize) -> (r: usize)
        requires
            self.can_apply(price),
        ensures
            r == (match self {
                Seller::Online((k, d)) => (price as int * *k as int) / (*d as int),
                Seller::Offline(_) => price as int,
            }),
    {
        match self {
            Seller::Online((k, d)) => price * *k / *d,
            Seller::Offline(_) => price,
        }
    }
}

} // verus!
