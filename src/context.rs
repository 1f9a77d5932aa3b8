//! The pricing context of a run: fee, catalog, promo limit and solver.

use vstd::prelude::*;
use crate::ambiguity::AmbiguitySolver;
use crate::batch::{BatchPrices, iter2bp};
use crate::fields::{amount_cents, chars_of, cents_of_chars};

verus! {

/// The context needed to derive ticket information from sales.
pub struct SalesContext {
    /// Online fee as a fraction: paid = original * numerator / denominator.
    pub online_fee: (usize, usize),
    /// Batch prices.
    pub batches: BatchPrices,
    /// Promotional tickets allowed per buyer; `None` means no limit.
    pub promo_limit: Option<usize>,
    /// The strategy used to resolve ambiguities.
    pub solver: AmbiguitySolver,
}

impl SalesContext {
    /// A copy of the context.
    pub fn duplicate(&self) -> (r: SalesContext)
        ensures
            r.online_fee == self.online_fee,
            r.batches@ == self.batches@,
            r.promo_limit == self.promo_limit,
            r.solver == self.solver,
    {
        SalesContext {
            online_fee: self.online_fee,
            batches: self.batches.duplicate(),
            promo_limit: self.promo_limit,
            solver: self.solver,
        }
    }
}

/// Separator of the prices in a price list.
pub const PRICES_SEPARATOR: char = ';';

/// Why a configuration was refused.
#[derive(Copy, Clone, Debug, PartialEq, Eq, Structural)]
pub enum ContextError {
    /// The fee fraction has a zero numerator or denominator.
    ZeroFee,
    /// A price of the list is not an amount of money.
    BadPrice,
}

/// The pieces of a text between separators (one piece for a text without any).
pub open spec fn pieces(s: Seq<char>) -> Seq<Seq<char>>
    decreases s.len(),
{
    if s.len() == 0 {
        seq![Seq::empty()]
    } else {
        let p = pieces(s.drop_last());
        if s.last() == PRICES_SEPARATOR {
            p.push(Seq::empty())
        } else {
            p.update(p.len() - 1, p.last().push(s.last()))
        }
    }
}

proof fn lemma_pieces_nonempty(s: Seq<char>)
    ensures
        pieces(s).len() >= 1,
    decreases s.len(),
{
    if s.len() > 0 {
        lemma_pieces_nonempty(s.drop_last());
    }
}

/// The cents of a piece of a price list, when it is an amount that fits.
pub open spec fn piece_cents(f: Seq<char>) -> Option<usize> {
    match amount_cents(f) {
        Some(c) => if c <= usize::MAX { Some(c as usize) } else { None },
        None => None,
    }
}

/// Reads a price list: amounts in currency units separated by `;`, each
/// rounded to the nearest cent. `None` when a piece is not an amount.
pub fn parse_prices(text: &str) -> (r: Option<Vec<usize>>)
    ensures
        match r {
            Some(v) => v@.len() == pieces(text@).len() && forall|i: int| 0 <= i < v@.len() ==> piece_cents(
                #[trigger] pieces(text@)[i],
            ) == Some(v@[i]),
            None => exists|i: int| 0 <= i < pieces(text@).len() && #[trigger] piece_cents(pieces(text@)[i]) is None,
        },
{
    let cs = chars_of(text);
    let mut parts: Vec<Vec<char>> = Vec::new();
    let mut cur: Vec<char> = Vec::new();
    let mut i: usize = 0;
    while i < cs.len()
        invariant
            cs@ == text@,
            i <= cs@.len(),
            parts@.len() + 1 == pieces(cs@.subrange(0, i as int)).len(),
            forall|k: int| 0 <= k < parts@.len() ==> (#[trigger] parts@[k])@ == pieces(cs@.subrange(0, i as int))[k],
            cur@ == pieces(cs@.subrange(0, i as int)).last(),
        decreases cs@.len() - i,
    {
        let c = cs[i];
        proof {
            assert(cs@.subrange(0, i + 1).drop_last() =~= cs@.subrange(0, i as int));
            lemma_pieces_nonempty(cs@.subrange(0, i as int));
        }
        if c == PRICES_SEPARATOR {
            let done = cur;
            parts.push(done);
            cur = Vec::new();
        } else {
            cur.push(c);
        }
        i = i + 1;
    }
    parts.push(cur);
    assert(cs@.subrange(0, cs@.len() as int) =~= cs@);
    proof {
        lemma_pieces_nonempty(cs@);
        assert forall|k: int| 0 <= k < parts@.len() implies (#[trigger] parts@[k])@ == pieces(text@)[k] by {}
    }
    let mut v: Vec<usize> = Vec::new();
    let mut k: usize = 0;
    while k < parts.len()
        invariant
            k <= parts@.len(),
            parts@.len() == pieces(text@).len(),
            forall|j: int| 0 <= j < parts@.len() ==> (#[trigger] parts@[j])@ == pieces(text@)[j],
            v@.len() == k,
            forall|j: int| 0 <= j < k ==> piece_cents(#[trigger] pieces(text@)[j]) == Some(v@[j]),
        decreases parts@.len() - k,
    {
        match cents_of_chars(&parts[k]) {
            Some(c) => v.push(c),
            None => {
                assert(piece_cents(pieces(text@)[k as int]) is None);
                return None;
            },
        }
        k = k + 1;
    }
    Some(v)
}

impl SalesContext {
    /// The fee can be undone (neither part of the fraction is zero).
    pub open spec fn wf(&self) -> bool {
        self.online_fee.0 > 0 && self.online_fee.1 > 0
    }

    /// A context from its configuration: the fee as a fraction, the prices in
    /// cents (the first one the promotional batch's), the promo limit (zero
    /// meaning none) and the solver. Refused when the fee has a zero part.
    pub fn try_new(online_fee: (usize, usize), prices: Vec<usize>, promo_limit: Option<usize>, solver: AmbiguitySolver) -> (r: Result<SalesContext, ContextError>)
        ensures
            match r {
                Ok(c) => online_fee.0 > 0 && online_fee.1 > 0 && c.wf() && c.online_fee == online_fee && c.batches@ == prices@
                    && c.promo_limit == (if promo_limit == Some(0usize) { None } else { promo_limit }) && c.solver == solver,
                Err(e) => e == ContextError::ZeroFee && (online_fee.0 == 0 || online_fee.1 == 0),
            },
    {
        if online_fee.0 == 0 || online_fee.1 == 0 {
            return Err(ContextError::ZeroFee);
        }
        let limit = match promo_limit {
            Some(0) => None,
            other => other,
        };
        Ok(SalesContext { online_fee, batches: iter2bp(prices), promo_limit: limit, solver })
    }

    /// A context from a price list text (see `parse_prices`): refused with
    /// `ZeroFee` when the fee has a zero part, else with `BadPrice` when a
    /// piece of the list is not an amount, else built as `try_new` builds it.
    pub fn from_config(online_fee: (usize, usize), prices: &str, promo_limit: Option<usize>, solver: AmbiguitySolver) -> (r: Result<SalesContext, ContextError>)
        ensures
            (online_fee.0 == 0 || online_fee.1 == 0) <==> r == Err::<SalesContext, ContextError>(ContextError::ZeroFee),
            r == Err::<SalesContext, ContextError>(ContextError::BadPrice) <==> (online_fee.0 > 0 && online_fee.1 > 0 && exists|i: int|
                0 <= i < pieces(prices@).len() && #[trigger] piece_cents(pieces(prices@)[i]) is None),
            r is Ok <==> (online_fee.0 > 0 && online_fee.1 > 0 && forall|i: int|
                0 <= i < pieces(prices@).len() ==> #[trigger] piece_cents(pieces(prices@)[i]) is Some),
            r matches Ok(c) ==> c.wf() && c.online_fee == online_fee && c.batches@.len() == pieces(prices@).len()
                && (forall|i: int| 0 <= i < c.batches@.len() ==> piece_cents(#[trigger] pieces(prices@)[i]) == Some(c.batches@[i]))
                && c.promo_limit == (if promo_limit == Some(0usize) { None } else { promo_limit }) && c.solver == solver,
    {
        if online_fee.0 == 0 || online_fee.1 == 0 {
            return Err(ContextError::ZeroFee);
        }
        match parse_prices(prices) {
            Some(v) => SalesContext::try_new(online_fee, v, promo_limit, solver),
            None => Err(ContextError::BadPrice),
        }
    }
}

impl Default for SalesContext {
    /// An online fee of 10%, four batches from 55.00 to 85.00, one promotional
    /// ticket per buyer, and the seller solver.
    fn default() -> (r: SalesContext)
        ensures
            r.online_fee == (11usize, 10usize),
            r.batches@ == seq![5500usize, 6500, 7500, 8500],
            r.promo_limit == Some(1usize),
            r.solver == AmbiguitySolver::SellerLookBehind,
    {
        let mut v: Vec<usize> = Vec::new();
        v.push(5500);
        v.push(6500);
        v.push(7500);
        v.push(8500);
        assert(v@ =~= seq![5500usize, 6500, 7500, 8500]);
        SalesContext { online_fee: (11, 10), batches: iter2bp(v), promo_limit: Some(1), solver: AmbiguitySolver::SellerLookBehind }
    }
}

} // verus!
