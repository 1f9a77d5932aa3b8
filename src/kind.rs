//! Sale channels and selling-point identities.

use vstd::prelude::*;

verus! {

/// How a sale was paid.
#[derive(Copy, Clone, Debug)]
pub enum SaleKind {
    /// Online sale, with an integer fraction `(numerator, denominator)` as the fee.
    Online((usize, usize)),
    /// Face-to-face sale.
    Offline,
}

impl SaleKind {
    /// The fee can be applied to `price` without overflow or division by zero.
    pub open spec fn can_apply(self, price: usize) -> bool {
        match self {
            SaleKind::Online((k, d)) => d > 0 && price as int * k as int <= usize::MAX,
            SaleKind::Offline => true,
        }
    }

    /// The fee can be undone on `price` without overflow or division by zero.
    pub open spec fn can_undo(self, price: usize) -> bool {
        match self {
            SaleKind::Online((k, d)) => k > 0 && price as int * d as int <= usize::MAX,
            SaleKind::Offline => true,
        }
    }

    /// The price paid for an original price.
    pub open spec fn applied(self, price: usize) -> int {
        match self {
            SaleKind::Online((k, d)) => (price as int * k as int) / (d as int),
            SaleKind::Offline => price as int,
        }
    }

    /// The original price for a price paid.
    pub open spec fn undone(self, price: usize) -> int {
        match self {
            SaleKind::Online((k, d)) => (price as int * d as int) / (k as int),
            SaleKind::Offline => price as int,
        }
    }

    /// Apply the online fee if online.
    pub fn apply_fee(&self, price: usize) -> (r: usize)
        requires
            self.can_apply(price),
        ensures
            r == self.applied(price),
    {
        match self {
            SaleKind::Online((k, d)) => price * *k / *d,
            SaleKind::Offline => price,
        }
    }

    /// Undo the online fee if online.
    pub fn undo_fee(&self, price: usize) -> (r: usize)
        requires
            self.can_undo(price),
        ensures
            r == self.undone(price),
    {
        match self {
            SaleKind::Online((k, d)) => price * *d / *k,
            SaleKind::Offline => price,
        }
    }

    /// Label of the channel, as shown in exports.
    pub fn label(&self) -> (r: &'static str)
        ensures
            r@ == (if *self is Online { "Paga Online"@ } else { "Paga Físico"@ }),
    {
        match self {
            SaleKind::Online(_) => "Paga Online",
            SaleKind::Offline => "Paga Físico",
        }
    }
}

/// Who sold a ticket, as far as sales can be told apart.
#[derive(Clone, Debug)]
pub enum Seller {
    /// The online channel.
    Online,
    /// A named physical point of sale.
    Offline(String),
}

/// The identity of a seller.
pub enum SellerId {
    /// The online channel.
    Online,
    /// The point of sale of this name.
    Offline(Seq<char>),
}

impl View for Seller {
    type V = SellerId;

    open spec fn view(&self) -> SellerId {
        match self {
            Seller::Online => SellerId::Online,
            Seller::Offline(s) => SellerId::Offline(s@),
        }
    }
}

impl Seller {
    /// Whether two sellers are the same selling point.
    pub fn same_as(&self, other: &Seller) -> (r: bool)
        ensures
            r == (self@ == other@),
    {
        match (self, other) {
            (Seller::Online, Seller::Online) => true,
            (Seller::Offline(a), Seller::Offline(b)) => a.eq(b),
            _ => false,
        }
    }

    /// A copy of the seller.
    pub fn duplicate(&self) -> (r: Seller)
        ensures
            r@ == self@,
    {
        match self {
            Seller::Online => Seller::Online,
            Seller::Offline(s) => Seller::Offline(s.clone()),
        }
    }
}

} // verus!
