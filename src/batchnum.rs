//! Ticket batch numbering: the promotional batch, then batches 1, 2, ...

use vstd::prelude::*;

verus! {

/// The number of a single ticket batch.
#[derive(Copy, Clone, Debug, PartialEq, Eq, Ord, Hash, Structural)]
pub enum BatchNum {
    /// The promotional batch, sold before every numbered one.
    Promo,
    /// A numbered batch (numbering starts at one).
    Numbered(usize),
}

impl BatchNum {
    /// Position on the sale-progression axis: the promotional batch is zero.
    pub open spec fn rank(self) -> nat {
        match self {
            BatchNum::Promo => 0,
            BatchNum::Numbered(n) => n as nat,
        }
    }

    /// A numbered batch counts from one.
    pub open spec fn wf(self) -> bool {
        match self {
            BatchNum::Promo => true,
            BatchNum::Numbered(n) => n >= 1,
        }
    }

    /// The batch number that stands at position `i` of a price list.
    pub open spec fn of_index(i: int) -> BatchNum {
        if i <= 0 {
            BatchNum::Promo
        } else {
            BatchNum::Numbered(i as usize)
        }
    }

    /// Sale order: promotional first, then numbered batches by number.
    pub open spec fn sale_le(self, other: BatchNum) -> bool {
        match (self, other) {
            (BatchNum::Promo, _) => true,
            (BatchNum::Numbered(_), BatchNum::Promo) => false,
            (BatchNum::Numbered(a), BatchNum::Numbered(b)) => a <= b,
        }
    }

    /// Implicit batch number: the promotional batch is zero.
    pub fn inum(&self) -> (r: usize)
        ensures
            r == self.rank(),
    {
        match self {
            BatchNum::Promo => 0,
            BatchNum::Numbered(n) => *n,
        }
    }

    /// The batch number of position `i` of a price list.
    pub fn from_index(i: usize) -> (r: BatchNum)
        ensures
            r == BatchNum::of_index(i as int),
            r.wf(),
            r.rank() == i,
    {
        if i == 0 {
            BatchNum::Promo
        } else {
            BatchNum::Numbered(i)
        }
    }

    /// Whether `self` comes no later than `other` in the sale order.
    pub fn le_exec(&self, other: &BatchNum) -> (r: bool)
        ensures
            r == self.sale_le(*other),
    {
        match (self, other) {
            (BatchNum::Promo, _) => true,
            (BatchNum::Numbered(_), BatchNum::Promo) => false,
            (BatchNum::Numbered(a), BatchNum::Numbered(b)) => *a <= *b,
        }
    }

    /// Human-readable name of the batch.
    pub fn name(&self) -> (r: String)
        ensures
            r@ == self.name_spec(),
    {
        match self {
            BatchNum::Promo => String::from_str("lote promocional"),
            BatchNum::Numbered(n) => {
                let mut s = crate::text::decimal(*n);
                s.append("º lote");
                s
            },
        }
    }

    pub open spec fn name_spec(self) -> Seq<char> {
        match self {
            BatchNum::Promo => "lote promocional"@,
            BatchNum::Numbered(n) => crate::text::decimal_spec(n as nat) + "º lote"@,
        }
    }
}

/// On well-formed batch numbers the sale order is the order of ranks.
pub proof fn lemma_le_is_rank_order(a: BatchNum, b: BatchNum)
    requires
        a.wf(),
        b.wf(),
    ensures
        a.sale_le(b) <==> a.rank() <= b.rank(),
{
}

impl PartialOrd for BatchNum {
    fn partial_cmp(&self, other: &BatchNum) -> (r: Option<core::cmp::Ordering>) {
        match (self, other) {
            (BatchNum::Promo, BatchNum::Promo) => Some(core::cmp::Ordering::Equal),
            (BatchNum::Promo, BatchNum::Numbered(_)) => Some(core::cmp::Ordering::Less),
            (BatchNum::Numbered(_), BatchNum::Promo) => Some(core::cmp::Ordering::Greater),
            (BatchNum::Numbered(a), BatchNum::Numbered(b)) => {
                if *a < *b {
                    Some(core::cmp::Ordering::Less)
                } else if *a == *b {
                    Some(core::cmp::Ordering::Equal)
                } else {
                    Some(core::cmp::Ordering::Greater)
                }
            },
        }
    }
}

impl vstd::std_specs::cmp::PartialOrdSpecImpl for BatchNum {
    open spec fn obeys_partial_cmp_spec() -> bool {
        true
    }

    open spec fn partial_cmp_spec(&self, other: &BatchNum) -> Option<core::cmp::Ordering> {
        if self.sale_le(*other) && other.sale_le(*self) {
            Some(core::cmp::Ordering::Equal)
        } else if self.sale_le(*other) {
            Some(core::cmp::Ordering::Less)
        } else {
            Some(core::cmp::Ordering::Greater)
        }
    }
}

impl From<usize> for BatchNum {
    fn from(n: usize) -> (r: BatchNum) {
        BatchNum::from_index(n)
    }
}

impl vstd::std_specs::convert::FromSpecImpl<usize> for BatchNum {
    open spec fn obeys_from_spec() -> bool {
        true
    }

    open spec fn from_spec(n: usize) -> BatchNum {
        BatchNum::of_index(n as int)
    }
}

} // verus!
