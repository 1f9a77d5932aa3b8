//! Ticket batches and the catalog of their prices.

use vstd::prelude::*;
use crate::batchnum::BatchNum;

verus! {

/// A single ticket batch.
#[derive(Copy, Clone, Debug, PartialEq, Eq, Hash, Structural)]
pub struct Batch {
    /// Batch number.
    pub num: BatchNum,
    /// Price in cents.
    pub price: usize,
}

/// The catalog of batch prices: position 0 is the promotional batch, position
/// `i > 0` is batch number `i`.
#[derive(Clone, Debug)]
pub struct BatchPrices {
    pub prices: Vec<usize>,
}

impl View for BatchPrices {
    type V = Seq<usize>;

    open spec fn view(&self) -> Seq<usize> {
        self.prices@
    }
}

/// The batch at position `i` of a price list.
pub open spec fn batch_at(prices: Seq<usize>, i: int) -> Batch {
    Batch { num: BatchNum::of_index(i), price: prices[i] }
}

/// Whether `b` is one of the batches of a price list.
pub open spec fn in_catalog(prices: Seq<usize>, b: Batch) -> bool {
    b.num.rank() < prices.len() && b == batch_at(prices, b.num.rank() as int)
}

/// `m` is the least price of a non-empty price list.
pub open spec fn is_min_price(prices: Seq<usize>, m: usize) -> bool {
    prices.contains(m) && forall|j: int| 0 <= j < prices.len() ==> m <= #[trigger] prices[j]
}

/// Builds a catalog from a list of prices in cents, the first one being the
/// promotional batch's.
pub fn iter2bp(prices: Vec<usize>) -> (r: BatchPrices)
    ensures
        r@ == prices@,
{
    BatchPrices { prices }
}

impl BatchPrices {
    /// A copy of the catalog.
    pub fn duplicate(&self) -> (r: BatchPrices)
        ensures
            r@ == self@,
    {
        let mut v: Vec<usize> = Vec::new();
        let mut i: usize = 0;
        while i < self.prices.len()
            invariant
                i <= self@.len(),
                v@ == self@.subrange(0, i as int),
            decreases self@.len() - i,
        {
            v.push(self.prices[i]);
            i = i + 1;
        }
        assert(v@ =~= self@);
        BatchPrices { prices: v }
    }

    /// Number of batches in the catalog.
    pub fn len(&self) -> (r: usize)
        ensures
            r == self@.len(),
    {
        self.prices.len()
    }

    /// The batch at position `i`.
    pub fn batch(&self, i: usize) -> (r: Batch)
        requires
            i < self@.len(),
        ensures
            r == batch_at(self@, i as int),
    {
        Batch { num: BatchNum::from_index(i), price: self.prices[i] }
    }

    /// The price of a batch, if the catalog has it.
    pub fn get(&self, num: BatchNum) -> (r: Option<usize>)
        ensures
            r == (if num.wf() && num.rank() < self@.len() {
                Some(self@[num.rank() as int])
            } else {
                None::<usize>
            }),
    {
        let i = num.inum();
        if i < self.prices.len() && (i > 0 || num == BatchNum::Promo) {
            Some(self.prices[i])
        } else {
            None
        }
    }

    /// Every batch of the catalog, in sale order.
    pub fn bp2iter(&self) -> (r: Vec<Batch>)
        ensures
            r@.len() == self@.len(),
            forall|i: int| 0 <= i < r@.len() ==> r@[i] == batch_at(self@, i),
    {
        let mut v: Vec<Batch> = Vec::new();
        let mut i: usize = 0;
        while i < self.prices.len()
            invariant
                i <= self@.len(),
                v@.len() == i,
                forall|j: int| 0 <= j < i ==> v@[j] == batch_at(self@, j),
            decreases self@.len() - i,
        {
            v.push(self.batch(i));
            i = i + 1;
        }
        v
    }

    /// The least price of the catalog; `None` when it is empty.
    pub fn min_price(&self) -> (r: Option<usize>)
        ensures
            r is None <==> self@.len() == 0,
            r matches Some(m) ==> is_min_price(self@, m),
    {
        if self.prices.len() == 0 {
            return None;
        }
        let mut m: usize = self.prices[0];
        let mut k: usize = 0;
        let mut i: usize = 1;
        while i < self.prices.len()
            invariant
                1 <= i <= self@.len(),
                k < i,
                self@[k as int] == m,
                forall|j: int| 0 <= j < i ==> m <= #[trigger] self@[j],
            decreases self@.len() - i,
        {
            if self.prices[i] < m {
                m = self.prices[i];
                k = i;
            }
            i = i + 1;
        }
        assert(self@[k as int] == m);
        Some(m)
    }
}

} // verus!
