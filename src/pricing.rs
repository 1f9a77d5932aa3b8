//! Enumeration of every way a paid amount can be made of batch purchases.

use vstd::prelude::*;
use crate::batch::{Batch, batch_at, in_catalog, is_min_price};
use crate::batchnum::BatchNum;
use crate::context::SalesContext;
use crate::text::{decimal, decimal_spec, lemma_decimal_digits, lemma_decimal_split};

verus! {

/// A quantity of tickets of one batch.
#[derive(Copy, Clone, Debug, PartialEq, Eq, Hash, Structural)]
pub struct BatchAmount(pub Batch, pub usize);

/// Price of `q` tickets at `unit` cents each.
pub open spec fn cost(unit: usize, q: usize) -> int {
    unit as int * q as int
}

/// Price of a batch amount, in cents.
pub open spec fn amount_price(a: BatchAmount) -> int {
    cost(a.0.price, a.1)
}

impl From<(Batch, usize)> for BatchAmount {
    fn from(p: (Batch, usize)) -> (r: BatchAmount) {
        BatchAmount(p.0, p.1)
    }
}

impl vstd::std_specs::convert::FromSpecImpl<(Batch, usize)> for BatchAmount {
    open spec fn obeys_from_spec() -> bool {
        true
    }

    open spec fn from_spec(p: (Batch, usize)) -> BatchAmount {
        BatchAmount(p.0, p.1)
    }
}

/// Total price of a batch amount.
pub fn ba_price(ba: &BatchAmount) -> (r: usize)
    requires
        amount_price(*ba) <= usize::MAX,
    ensures
        r == amount_price(*ba),
{
    ba.0.price * ba.1
}

/// The amounts of one batch whose quantities run over `start..end`.
pub fn ba_iter(batch: Batch, range: std::ops::Range<usize>) -> (r: Vec<BatchAmount>)
    ensures
        r@.len() == (if range.start < range.end { range.end - range.start } else { 0 }),
        forall|i: int| 0 <= i < r@.len() ==> r@[i] == BatchAmount(batch, (range.start + i) as usize),
{
    let mut v: Vec<BatchAmount> = Vec::new();
    let mut n: usize = range.start;
    while n < range.end
        invariant
            range.start <= n || range.end <= range.start,
            n <= range.end || range.end <= range.start,
            range.start < range.end ==> v@.len() == n - range.start,
            range.start >= range.end ==> v@.len() == 0 && n == range.start,
            forall|i: int| 0 <= i < v@.len() ==> v@[i] == BatchAmount(batch, (range.start + i) as usize),
        decreases range.end - n,
    {
        v.push(BatchAmount(batch, n));
        n = n + 1;
    }
    v
}

/// One concrete way to reach a paid amount.
#[derive(Copy, Clone, Debug, PartialEq, Eq, Hash, Structural)]
pub enum PricingMatch {
    /// A number of tickets of a single batch.
    Multiple(BatchAmount),
    /// Promotional tickets together with tickets of batch 1.
    PromoCombo(BatchAmount, BatchAmount),
    /// A purchase across the turn from one batch to the next.
    TurnOfBatch(BatchAmount, BatchAmount),
}

impl PricingMatch {
    /// Sum of the prices of the constituent amounts.
    pub open spec fn price_spec(self) -> int {
        match self {
            PricingMatch::Multiple(a) => amount_price(a),
            PricingMatch::PromoCombo(a, b) => amount_price(a) + amount_price(b),
            PricingMatch::TurnOfBatch(a, b) => amount_price(a) + amount_price(b),
        }
    }

    /// Sum of the constituent quantities.
    pub open spec fn tickets_spec(self) -> int {
        match self {
            PricingMatch::Multiple(a) => a.1 as int,
            PricingMatch::PromoCombo(a, b) => a.1 + b.1,
            PricingMatch::TurnOfBatch(a, b) => a.1 + b.1,
        }
    }

    /// The batches that the match refers to.
    pub open spec fn batch_set(self) -> Set<Batch> {
        match self {
            PricingMatch::Multiple(a) => set![a.0],
            PricingMatch::PromoCombo(a, b) => set![a.0, b.0],
            PricingMatch::TurnOfBatch(a, b) => set![a.0, b.0],
        }
    }

    /// The batch that sales have reached right after this match.
    pub open spec fn after(self) -> Batch {
        match self {
            PricingMatch::Multiple(a) => a.0,
            PricingMatch::PromoCombo(_, b) => b.0,
            PricingMatch::TurnOfBatch(_, b) => b.0,
        }
    }

    /// Shape of a match: quantities of at least one, valid batch numbers,
    /// promotional tickets only with batch 1, and a turn between neighbours.
    pub open spec fn wf(self) -> bool {
        match self {
            PricingMatch::Multiple(a) => a.1 >= 1 && a.0.num.wf(),
            PricingMatch::PromoCombo(a, b) => a.1 >= 1 && b.1 >= 1 && a.0.num == BatchNum::Promo
                && b.0.num == BatchNum::Numbered(1),
            PricingMatch::TurnOfBatch(a, b) => a.1 >= 1 && b.1 >= 1 && a.0.num.wf() && b.0.num.wf()
                && b.0.num.rank() == a.0.num.rank() + 1,
        }
    }

    /// Returns the sum price of this match.
    pub fn price(&self) -> (r: usize)
        requires
            self.price_spec() <= usize::MAX,
        ensures
            r == self.price_spec(),
    {
        match self {
            PricingMatch::Multiple(ba) => ba_price(ba),
            PricingMatch::PromoCombo(pba, ba) => ba_price(pba) + ba_price(ba),
            PricingMatch::TurnOfBatch(ba1, ba2) => ba_price(ba1) + ba_price(ba2),
        }
    }

    /// Returns the number of tickets in this match.
    pub fn tickets(&self) -> (r: usize)
        requires
            self.tickets_spec() <= usize::MAX,
        ensures
            r == self.tickets_spec(),
    {
        match self {
            PricingMatch::Multiple(ba) => ba.1,
            PricingMatch::PromoCombo(pba, ba) => pba.1 + ba.1,
            PricingMatch::TurnOfBatch(ba1, ba2) => ba1.1 + ba2.1,
        }
    }

    /// The distinct batches this match refers to.
    pub fn batches(&self) -> (r: Vec<Batch>)
        ensures
            r@.no_duplicates(),
            forall|b: Batch| r@.contains(b) <==> self.batch_set().contains(b),
    {
        let mut v: Vec<Batch> = Vec::new();
        match self {
            PricingMatch::Multiple(a) => {
                v.push(a.0);
                assert(v@ =~= seq![a.0]);
            },
            PricingMatch::PromoCombo(a, b) | PricingMatch::TurnOfBatch(a, b) => {
                v.push(a.0);
                if a.0 != b.0 {
                    v.push(b.0);
                    assert(v@ =~= seq![a.0, b.0]);
                } else {
                    assert(v@ =~= seq![a.0]);
                }
            },
        }
        proof {
            assert forall|b: Batch| v@.contains(b) <==> self.batch_set().contains(b) by {
                if self.batch_set().contains(b) {
                    assert(v@.contains(b) || v@[0] == b || v@[v@.len() - 1] == b);
                }
            }
        }
        v
    }

    /// The batch that sales have reached right after this match.
    pub fn batch_after(&self) -> (r: Batch)
        ensures
            r == self.after(),
    {
        match self {
            PricingMatch::Multiple(a) => a.0,
            PricingMatch::PromoCombo(_, b) => b.0,
            PricingMatch::TurnOfBatch(_, b) => b.0,
        }
    }
}

/// The largest of the constituent batches is the one reached after a match.
pub proof fn lemma_after_is_max(m: PricingMatch)
    requires
        m.wf(),
    ensures
        m.batch_set().contains(m.after()),
        forall|b: Batch| #[trigger] m.batch_set().contains(b) ==> b.num.sale_le(m.after().num),
{
}

/// The least price of a price list (zero for an empty one).
pub open spec fn min_price_of(prices: Seq<usize>) -> usize {
    if prices.len() == 0 {
        0
    } else {
        choose|m: usize| is_min_price(prices, m)
    }
}

/// Worst-case quantity for a price: `price / min + 1`, a zero minimum counting as one.
pub open spec fn search_bound(price: usize, prices: Seq<usize>) -> int {
    let mp = min_price_of(prices);
    price as int / (if mp == 0 { 1 } else { mp as int }) + 1
}

/// Upper bound of promotional tickets: the per-buyer limit, or the search bound.
pub open spec fn promo_bound(price: usize, prices: Seq<usize>, limit: Option<usize>) -> int {
    match limit {
        Some(l) => l as int,
        None => search_bound(price, prices),
    }
}

/// The two amounts of a two-batch match reach `price` within the bounds.
pub open spec fn pair_fits(a: BatchAmount, b: BatchAmount, price: usize, w1: int, w2: int) -> bool {
    1 <= a.1 <= w1 && 1 <= b.1 <= w2 && amount_price(a) + amount_price(b) == price
}

/// `m` is one of the matches that enumeration yields for `price`.
pub open spec fn is_candidate(m: PricingMatch, price: usize, prices: Seq<usize>, limit: Option<usize>) -> bool {
    let w = search_bound(price, prices);
    match m {
        PricingMatch::Multiple(a) => in_catalog(prices, a.0) && 1 <= a.1 <= w && amount_price(a)
            == price,
        PricingMatch::PromoCombo(a, b) => prices.len() >= 2 && a.0 == batch_at(prices, 0) && b.0
            == batch_at(prices, 1) && pair_fits(a, b, price, promo_bound(price, prices, limit), w),
        PricingMatch::TurnOfBatch(a, b) => in_catalog(prices, a.0) && in_catalog(prices, b.0)
            && b.0.num.rank() == a.0.num.rank() + 1 && pair_fits(a, b, price, w, w),
    }
}

/// The two-batch match of the given kind.
pub open spec fn pair_of(turn: bool, a: BatchAmount, b: BatchAmount) -> PricingMatch {
    if turn {
        PricingMatch::TurnOfBatch(a, b)
    } else {
        PricingMatch::PromoCombo(a, b)
    }
}

/// `m` is a two-batch match of the given kind over `b1` and `b2` that reaches `price`.
pub open spec fn pair_ok(m: PricingMatch, turn: bool, b1: Batch, b2: Batch, price: usize, w1: int, w2: int) -> bool {
    match m {
        PricingMatch::Multiple(_) => false,
        PricingMatch::PromoCombo(a, b) => !turn && a.0 == b1 && b.0 == b2 && pair_fits(a, b, price, w1, w2),
        PricingMatch::TurnOfBatch(a, b) => turn && a.0 == b1 && b.0 == b2 && pair_fits(a, b, price, w1, w2),
    }
}

/// Quantity of the first amount of a two-batch match.
pub open spec fn first_qty(m: PricingMatch) -> int {
    match m {
        PricingMatch::Multiple(a) => a.1 as int,
        PricingMatch::PromoCombo(a, _) => a.1 as int,
        PricingMatch::TurnOfBatch(a, _) => a.1 as int,
    }
}

/// Every quantity in `1..=w` whose price at `unit` cents each is `target`.
fn amounts_for(unit: usize, target: usize, w: usize) -> (r: Vec<usize>)
    ensures
        r@.no_duplicates(),
        forall|q: usize| #![trigger r@.contains(q)] #![trigger cost(unit, q)] r@.contains(q) <==> 1 <= q <= w && cost(unit, q) == target,
{
    let mut v: Vec<usize> = Vec::new();
    if unit == 0 {
        if target == 0 {
            let mut q: usize = 0;
            while q < w
                invariant
                    q <= w,
                    target == 0,
                    unit == 0,
                    v@.len() == q,
                    forall|i: int| 0 <= i < q ==> v@[i] == i + 1,
                decreases w - q,
            {
                v.push(q + 1);
                q = q + 1;
            }
            assert forall|x: usize| v@.contains(x) <==> 1 <= x <= w && #[trigger] cost(unit, x) == target by {
                if 1 <= x <= w {
                    assert(v@[x - 1] == x);
                }
            }
        } else {
            assert forall|x: usize| !(#[trigger] cost(unit, x) == target) by {
                assert(cost(unit, x) == 0) by (nonlinear_arith)
                    requires unit == 0;
            }
        }
    } else {
        if target % unit == 0 {
            let q = target / unit;
            proof {
                assert(q as int * unit as int == target) by (nonlinear_arith)
                    requires q == target / unit, target % unit == 0, unit > 0;
            }
            if 1 <= q && q <= w {
                v.push(q);
                assert(v@[0] == q);
            }
            assert(cost(unit, q) == target);
            assert forall|x: usize| v@.contains(x) <==> 1 <= x <= w && #[trigger] cost(unit, x) == target by {
                if cost(unit, x) == target {
                    assert(x == q) by (nonlinear_arith)
                        requires unit as int * x as int == target, q as int * unit as int == target, unit > 0;
                    if 1 <= x <= w {
                        assert(v@[0] == q);
                    }
                }
                if v@.contains(x) {
                    assert(v@[0] == x);
                }
            }
        } else {
            assert forall|x: usize| !(#[trigger] cost(unit, x) == target) by {
                if cost(unit, x) == target {
                    assert(target % unit == 0) by (nonlinear_arith)
                        requires unit as int * x as int == target, unit > 0;
                }
            }
        }
    }
    v
}

/// Quantity of the second amount of a two-batch match.
pub open spec fn second_qty(m: PricingMatch) -> usize {
    match m {
        PricingMatch::Multiple(a) => a.1,
        PricingMatch::PromoCombo(_, b) => b.1,
        PricingMatch::TurnOfBatch(_, b) => b.1,
    }
}

/// The amount that a two-batch match of the given kind takes of `b1` and `b2`,
/// with `q1` tickets of `b1`.
pub open spec fn pair_form(m: PricingMatch, turn: bool, b1: Batch, b2: Batch, q1: usize) -> bool {
    m == pair_of(turn, BatchAmount(b1, q1), BatchAmount(b2, second_qty(m)))
}

/// Every two-batch match of one kind, `b1` then `b2`, that reaches `price`
/// with at most `w1` tickets of `b1` and `w2` of `b2`.
fn pair_matches(turn: bool, b1: Batch, b2: Batch, price: usize, w1: usize, w2: usize) -> (r: Vec<PricingMatch>)
    ensures
        r@.no_duplicates(),
        forall|m: PricingMatch| r@.contains(m) <==> pair_ok(m, turn, b1, b2, price, w1 as int, w2 as int),
{
    let mut v: Vec<PricingMatch> = Vec::new();
    let mut i: usize = 0;
    while i < w1
        invariant
            i <= w1,
            v@.no_duplicates(),
            forall|m: PricingMatch| v@.contains(m) <==> pair_ok(m, turn, b1, b2, price, w1 as int, w2 as int)
                && first_qty(m) <= i,
        decreases w1 - i,
    {
        let q1 = i + 1;
        if b1.price == 0 || q1 <= price / b1.price {
            proof {
                if b1.price > 0 {
                    assert(cost(b1.price, q1) <= price) by (nonlinear_arith)
                        requires b1.price > 0, q1 <= price / b1.price;
                } else {
                    assert(cost(b1.price, q1) == 0) by (nonlinear_arith)
                        requires b1.price == 0;
                }
            }
            let c = b1.price * q1;
            let rest = price - c;
            let qs = amounts_for(b2.price, rest, w2);
            let a = BatchAmount(b1, q1);
            let mut j: usize = 0;
            while j < qs.len()
                invariant
                    i < w1,
                    q1 == i + 1,
                    a == BatchAmount(b1, q1),
                    c == cost(b1.price, q1),
                    rest == price - c,
                    j <= qs@.len(),
                    qs@.no_duplicates(),
                    forall|q: usize| #![trigger qs@.contains(q)] #![trigger cost(b2.price, q)] qs@.contains(q) <==> 1 <= q <= w2 && cost(b2.price, q) == rest,
                    v@.no_duplicates(),
                    forall|m: PricingMatch| v@.contains(m) <==> (pair_ok(m, turn, b1, b2, price, w1 as int, w2 as int)
                        && first_qty(m) <= i) || (pair_form(m, turn, b1, b2, q1) && qs@.subrange(0, j as int).contains(second_qty(m))),
                decreases qs@.len() - j,
            {
                let q2 = qs[j];
                let m = if turn {
                    PricingMatch::TurnOfBatch(a, BatchAmount(b2, q2))
                } else {
                    PricingMatch::PromoCombo(a, BatchAmount(b2, q2))
                };
                proof {
                    assert(second_qty(m) == q2);
                    assert(qs@.subrange(0, j + 1) =~= qs@.subrange(0, j as int).push(q2));
                    if v@.contains(m) {
                        if !(first_qty(m) <= i) {
                            let k = choose|k: int| 0 <= k < j && #[trigger] qs@.subrange(0, j as int)[k] == q2;
                            assert(qs@[k] == qs@[j as int]);
                        }
                    }
                }
                let ghost pre = v@;
                v.push(m);
                proof {
                    assert(v@ == pre.push(m));
                    assert forall|x: PricingMatch| v@.contains(x) <==> (pair_ok(x, turn, b1, b2, price, w1 as int, w2 as int)
                        && first_qty(x) <= i) || (pair_form(x, turn, b1, b2, q1) && qs@.subrange(0, j + 1).contains(second_qty(x))) by {
                        if x == m {
                            assert(v@[v@.len() - 1] == m);
                            assert(qs@.subrange(0, j + 1)[j as int] == q2);
                        } else {
                            if v@.contains(x) {
                                let k = choose|k: int| 0 <= k < v@.len() && v@[k] == x;
                                assert(k < v@.len() - 1);
                                assert(pre[k] == x);
                            }
                            if pre.contains(x) {
                                let k = choose|k: int| 0 <= k < pre.len() && pre[k] == x;
                                assert(v@[k] == x);
                            }
                            if qs@.subrange(0, j + 1).contains(second_qty(x)) && pair_form(x, turn, b1, b2, q1) {
                                let k = choose|k: int| 0 <= k < j + 1 && #[trigger] qs@.subrange(0, j + 1)[k] == second_qty(x);
                                if k == j {
                                    assert(x == m);
                                }
                                assert(qs@.subrange(0, j as int)[k] == second_qty(x));
                            }
                        }
                    }
                }
                j = j + 1;
            }
            proof {
                assert(qs@.subrange(0, qs@.len() as int) =~= qs@);
                assert forall|x: PricingMatch| v@.contains(x) <==> pair_ok(x, turn, b1, b2, price, w1 as int, w2 as int)
                    && first_qty(x) <= q1 by {
                    if pair_ok(x, turn, b1, b2, price, w1 as int, w2 as int) && first_qty(x) == q1 {
                        assert(pair_form(x, turn, b1, b2, q1));
                        assert(qs@.contains(second_qty(x)));
                    }
                }
            }
        } else {
            proof {
                assert(cost(b1.price, q1) > price) by (nonlinear_arith)
                    requires b1.price > 0, q1 > price / b1.price;
                assert forall|x: PricingMatch| v@.contains(x) <==> pair_ok(x, turn, b1, b2, price, w1 as int, w2 as int)
                    && first_qty(x) <= q1 by {
                    if pair_ok(x, turn, b1, b2, price, w1 as int, w2 as int) && first_qty(x) == q1 {
                        assert(amount_price(BatchAmount(b1, q1)) > price);
                    }
                }
            }
        }
        i = i + 1;
    }
    v
}

/// Concatenating two duplicate-free sequences with no common element.
proof fn lemma_concat_distinct<A>(a: Seq<A>, b: Seq<A>)
    requires
        a.no_duplicates(),
        b.no_duplicates(),
        forall|x: A| a.contains(x) ==> !b.contains(x),
    ensures
        (a + b).no_duplicates(),
        forall|x: A| #[trigger] (a + b).contains(x) <==> a.contains(x) || b.contains(x),
{
    let c = a + b;
    assert forall|x: A| #[trigger] c.contains(x) <==> a.contains(x) || b.contains(x) by {
        if c.contains(x) {
            let k = choose|k: int| 0 <= k < c.len() && c[k] == x;
            if k < a.len() {
                assert(a[k] == x);
            } else {
                assert(b[k - a.len()] == x);
            }
        }
        if a.contains(x) {
            let k = choose|k: int| 0 <= k < a.len() && a[k] == x;
            assert(c[k] == x);
        }
        if b.contains(x) {
            let k = choose|k: int| 0 <= k < b.len() && b[k] == x;
            assert(c[k + a.len()] == x);
        }
    }
    assert forall|i: int, j: int| 0 <= i < c.len() && 0 <= j < c.len() && i != j implies c[i] != c[j] by {
        if i < a.len() && j < a.len() {
        } else if i >= a.len() && j >= a.len() {
            assert(c[i] == b[i - a.len()] && c[j] == b[j - a.len()]);
        } else if i < a.len() {
            assert(a.contains(c[i]));
            assert(b[j - a.len()] == c[j]);
        } else {
            assert(a.contains(c[j]));
            assert(b[i - a.len()] == c[i]);
        }
    }
}

/// Two least prices of a price list are the same.
proof fn lemma_min_price_of(prices: Seq<usize>, m: usize)
    requires
        is_min_price(prices, m),
    ensures
        min_price_of(prices) == m,
{
    let k = choose|k: int| 0 <= k < prices.len() && prices[k] == m;
    let m2 = min_price_of(prices);
    assert(is_min_price(prices, m2));
    let k2 = choose|k2: int| 0 <= k2 < prices.len() && prices[k2] == m2;
    assert(m <= prices[k2] && m2 <= prices[k]);
}

/// The matches of a single batch `b` that reach `price` with at most `w` tickets.
fn multiples_of(b: Batch, price: usize, w: usize) -> (r: Vec<PricingMatch>)
    ensures
        r@.no_duplicates(),
        forall|m: PricingMatch| #[trigger] r@.contains(m) <==> (match m {
            PricingMatch::Multiple(a) => a.0 == b && 1 <= a.1 <= w && amount_price(a) == price,
            _ => false,
        }),
{
    let qs = amounts_for(b.price, price, w);
    let mut v: Vec<PricingMatch> = Vec::new();
    let mut j: usize = 0;
    while j < qs.len()
        invariant
            j <= qs@.len(),
            qs@.no_duplicates(),
            v@.no_duplicates(),
            forall|m: PricingMatch| #[trigger] v@.contains(m) <==> (match m {
                PricingMatch::Multiple(a) => a.0 == b && qs@.subrange(0, j as int).contains(a.1),
                _ => false,
            }),
        decreases qs@.len() - j,
    {
        let q = qs[j];
        let m = PricingMatch::Multiple(BatchAmount(b, q));
        let ghost pre = v@;
        proof {
            assert(qs@.subrange(0, j + 1) =~= qs@.subrange(0, j as int).push(q));
            if pre.contains(m) {
                let k = choose|k: int| 0 <= k < j && #[trigger] qs@.subrange(0, j as int)[k] == q;
                assert(qs@[k] == qs@[j as int]);
            }
        }
        v.push(m);
        proof {
            assert(v@ == pre.push(m));
            assert forall|x: PricingMatch| #[trigger] v@.contains(x) <==> (match x {
                PricingMatch::Multiple(a) => a.0 == b && qs@.subrange(0, j + 1).contains(a.1),
                _ => false,
            }) by {
                if x == m {
                    assert(v@[v@.len() - 1] == m);
                    assert(qs@.subrange(0, j + 1)[j as int] == q);
                } else {
                    if v@.contains(x) {
                        let k = choose|k: int| 0 <= k < v@.len() && v@[k] == x;
                        assert(pre[k] == x);
                    }
                    if pre.contains(x) {
                        let k = choose|k: int| 0 <= k < pre.len() && pre[k] == x;
                        assert(v@[k] == x);
                    }
                    if let PricingMatch::Multiple(a) = x {
                        if a.0 == b && qs@.subrange(0, j + 1).contains(a.1) {
                            let k = choose|k: int| 0 <= k < j + 1 && #[trigger] qs@.subrange(0, j + 1)[k] == a.1;
                            if k == j {
                                assert(x == m);
                            }
                            assert(qs@.subrange(0, j as int)[k] == a.1);
                        }
                    }
                }
            }
        }
        j = j + 1;
    }
    assert(qs@.subrange(0, qs@.len() as int) =~= qs@);
    v
}

/// Whether `m` is one of the matches already collected once the single-batch
/// ones and the turns of the first `i` batches are in.
pub open spec fn collected(m: PricingMatch, i: int) -> bool {
    match m {
        PricingMatch::TurnOfBatch(a, _) => a.0.num.rank() < i,
        _ => true,
    }
}

impl PricingMatch {
    /// Returns all pricing matches for a price in cents, without repetition.
    pub fn all_priced(price: usize, ctx: &SalesContext) -> (r: Vec<PricingMatch>)
        ensures
            r@.no_duplicates(),
            forall|m: PricingMatch| #[trigger] r@.contains(m) <==> is_candidate(m, price, ctx.batches@, ctx.promo_limit),
    {
        let ghost prices = ctx.batches@;
        let mut v: Vec<PricingMatch> = Vec::new();
        let mp = match ctx.batches.min_price() {
            Some(k) => k,
            None => {
                assert forall|m: PricingMatch| #[trigger] v@.contains(m) <==> is_candidate(m, price, prices, ctx.promo_limit) by {
                }
                return v;
            },
        };
        proof {
            lemma_min_price_of(prices, mp);
        }
        let d: usize = if mp == 0 { 1 } else { mp };
        let qd = price / d;
        let w: usize = if qd < usize::MAX { qd + 1 } else { qd };
        assert(w as int == if search_bound(price, prices) <= usize::MAX { search_bound(price, prices) } else { usize::MAX as int });
        let n = ctx.batches.len();
        // every multiple of a single batch
        let mut i: usize = 0;
        while i < n
            invariant
                n == prices.len(),
                prices == ctx.batches@,
                i <= n,
                w as int == if search_bound(price, prices) <= usize::MAX { search_bound(price, prices) } else { usize::MAX as int },
                v@.no_duplicates(),
                forall|m: PricingMatch| #[trigger] v@.contains(m) <==> is_candidate(m, price, prices, ctx.promo_limit)
                    && (m matches PricingMatch::Multiple(a) && a.0.num.rank() < i),
            decreases n - i,
        {
            let b = ctx.batches.batch(i);
            let mut ms = multiples_of(b, price, w);
            proof {
                lemma_concat_distinct(v@, ms@);
            }
            v.append(&mut ms);
            i = i + 1;
        }
        // promotional tickets together with batch 1
        if n >= 2 {
            let pw: usize = match ctx.promo_limit {
                Some(l) => l,
                None => w,
            };
            let mut pc = pair_matches(false, ctx.batches.batch(0), ctx.batches.batch(1), price, pw, w);
            proof {
                lemma_concat_distinct(v@, pc@);
            }
            v.append(&mut pc);
        }
        // turns from each batch to the next
        let last: usize = if n > 0 { n - 1 } else { 0 };
        let mut i: usize = 0;
        while i < last
            invariant
                last as int == if n > 0 { n - 1 } else { 0 },
                n == prices.len(),
                prices == ctx.batches@,
                i <= n,
                w as int == if search_bound(price, prices) <= usize::MAX { search_bound(price, prices) } else { usize::MAX as int },
                v@.no_duplicates(),
                forall|m: PricingMatch| #[trigger] v@.contains(m) <==> is_candidate(m, price, prices, ctx.promo_limit)
                    && collected(m, i as int),
            decreases n - i,
        {
            let mut tb = pair_matches(true, ctx.batches.batch(i), ctx.batches.batch(i + 1), price, w, w);
            proof {
                lemma_concat_distinct(v@, tb@);
            }
            v.append(&mut tb);
            i = i + 1;
        }
        v
    }
}

/// Every enumerated match is well formed and costs exactly the price it was
/// enumerated for.
pub proof fn lemma_candidate_price(m: PricingMatch, price: usize, prices: Seq<usize>, limit: Option<usize>)
    requires
        is_candidate(m, price, prices, limit),
    ensures
        m.price_spec() == price,
        m.wf(),
{
}

/// Enumeration is a function of its inputs: any two lists that meet the
/// contract of `all_priced` for the same price, catalog and limit hold the same
/// matches.
pub proof fn lemma_enumeration_deterministic(
    r1: Seq<PricingMatch>,
    r2: Seq<PricingMatch>,
    price: usize,
    prices: Seq<usize>,
    limit: Option<usize>,
)
    requires
        forall|m: PricingMatch| #[trigger] r1.contains(m) <==> is_candidate(m, price, prices, limit),
        forall|m: PricingMatch| #[trigger] r2.contains(m) <==> is_candidate(m, price, prices, limit),
    ensures
        forall|m: PricingMatch| r1.contains(m) <==> r2.contains(m),
{
}

/// Description of a batch amount: quantity, batch and unit price in cents,
/// as in `2x 1º lote (6000)`.
pub open spec fn amount_desc(a: BatchAmount) -> Seq<char> {
    decimal_spec(a.1 as nat) + "x "@ + a.0.num.name_spec() + " ("@ + decimal_spec(a.0.price as nat) + ")"@
}

impl BatchAmount {
    /// Description of the amount.
    pub fn describe(&self) -> (r: String)
        ensures
            r@ == amount_desc(*self),
    {
        let mut s = decimal(self.1);
        s.append("x ");
        let name = self.0.num.name();
        s.append(name.as_str());
        s.append(" (");
        let p = decimal(self.0.price);
        s.append(p.as_str());
        s.append(")");
        s
    }
}

impl PricingMatch {
    /// Description of a match.
    pub open spec fn desc(self) -> Seq<char> {
        match self {
            PricingMatch::Multiple(a) => amount_desc(a),
            PricingMatch::PromoCombo(a, b) => pair_desc(a, b, false),
            PricingMatch::TurnOfBatch(a, b) => pair_desc(a, b, true),
        }
    }

    /// Description of the match.
    pub fn describe(&self) -> (r: String)
        ensures
            r@ == self.desc(),
    {
        match self {
            PricingMatch::Multiple(a) => a.describe(),
            PricingMatch::PromoCombo(a, b) => {
                let mut s = a.describe();
                s.append(" + ");
                let t = b.describe();
                s.append(t.as_str());
                s.append(" (combo promocional)");
                assert(s@ =~= pair_desc(*a, *b, false));
                s
            },
            PricingMatch::TurnOfBatch(a, b) => {
                let mut s = a.describe();
                s.append(" + ");
                let t = b.describe();
                s.append(t.as_str());
                s.append(" (virada de lote)");
                assert(s@ =~= pair_desc(*a, *b, true));
                s
            },
        }
    }
}

/// Dropping a common prefix.
proof fn lemma_drop_prefix(p: Seq<char>, x: Seq<char>, y: Seq<char>)
    requires
        p + x == p + y,
    ensures
        x == y,
{
    assert(x =~= (p + x).subrange(p.len() as int, (p + x).len() as int));
    assert(y =~= (p + y).subrange(p.len() as int, (p + y).len() as int));
}

/// The description of an amount, followed by anything, splits in one way only.
#[verifier::rlimit(60)]
proof fn lemma_amount_desc_split(a1: BatchAmount, r1: Seq<char>, a2: BatchAmount, r2: Seq<char>)
    requires
        amount_desc(a1) + r1 == amount_desc(a2) + r2,
    ensures
        a1 == a2,
        r1 == r2,
{
    reveal_strlit("x ");
    reveal_strlit(" (");
    reveal_strlit(")");
    reveal_strlit("lote promocional");
    reveal_strlit("º lote");
    let n1 = a1.0.num.name_spec();
    let n2 = a2.0.num.name_spec();
    let d1 = decimal_spec(a1.0.price as nat);
    let d2 = decimal_spec(a2.0.price as nat);
    // after the quantity
    let t1 = "x "@ + (n1 + (" ("@ + (d1 + (")"@ + r1))));
    let t2 = "x "@ + (n2 + (" ("@ + (d2 + (")"@ + r2))));
    assert(amount_desc(a1) + r1 =~= decimal_spec(a1.1 as nat) + t1);
    assert(amount_desc(a2) + r2 =~= decimal_spec(a2.1 as nat) + t2);
    assert(t1[0] == 'x');
    assert(t2[0] == 'x');
    lemma_decimal_split(a1.1 as nat, t1, a2.1 as nat, t2);
    // after "x "
    let u1 = n1 + (" ("@ + (d1 + (")"@ + r1)));
    let u2 = n2 + (" ("@ + (d2 + (")"@ + r2)));
    lemma_drop_prefix("x "@, u1, u2);
    let w1 = " ("@ + (d1 + (")"@ + r1));
    let w2 = " ("@ + (d2 + (")"@ + r2));
    match (a1.0.num, a2.0.num) {
        (BatchNum::Promo, BatchNum::Promo) => {
            lemma_drop_prefix("lote promocional"@, w1, w2);
        },
        (BatchNum::Numbered(k1), BatchNum::Numbered(k2)) => {
            let v1 = "º lote"@ + w1;
            let v2 = "º lote"@ + w2;
            assert(u1 =~= decimal_spec(k1 as nat) + v1);
            assert(u2 =~= decimal_spec(k2 as nat) + v2);
            assert(v1[0] == 'º');
            assert(v2[0] == 'º');
            lemma_decimal_split(k1 as nat, v1, k2 as nat, v2);
            lemma_drop_prefix("º lote"@, w1, w2);
        },
        (BatchNum::Promo, BatchNum::Numbered(k2)) => {
            lemma_decimal_digits(k2 as nat);
            assert(u1[0] == 'l');
            assert(u2[0] == decimal_spec(k2 as nat)[0]);
        },
        (BatchNum::Numbered(k1), BatchNum::Promo) => {
            lemma_decimal_digits(k1 as nat);
            assert(u2[0] == 'l');
            assert(u1[0] == decimal_spec(k1 as nat)[0]);
        },
    }
    // after the batch name
    lemma_drop_prefix(" ("@, d1 + (")"@ + r1), d2 + (")"@ + r2));
    assert((")"@ + r1)[0] == ')');
    assert((")"@ + r2)[0] == ')');
    lemma_decimal_split(a1.0.price as nat, ")"@ + r1, a2.0.price as nat, ")"@ + r2);
    lemma_drop_prefix(")"@, r1, r2);
}

/// The suffix that tells a two-batch match's kind.
pub open spec fn pair_suffix(turn: bool) -> Seq<char> {
    if turn {
        " (virada de lote)"@
    } else {
        " (combo promocional)"@
    }
}

/// Description of a two-batch match, by parts.
pub open spec fn pair_desc(a: BatchAmount, b: BatchAmount, turn: bool) -> Seq<char> {
    amount_desc(a) + (" + "@ + (amount_desc(b) + pair_suffix(turn)))
}

proof fn lemma_pair_desc_split(a1: BatchAmount, b1: BatchAmount, t1: bool, a2: BatchAmount, b2: BatchAmount, t2: bool)
    requires
        pair_desc(a1, b1, t1) == pair_desc(a2, b2, t2),
    ensures
        a1 == a2,
        b1 == b2,
        t1 == t2,
{
    reveal_strlit(" (combo promocional)");
    reveal_strlit(" (virada de lote)");
    let s1 = pair_suffix(t1);
    let s2 = pair_suffix(t2);
    lemma_amount_desc_split(a1, " + "@ + (amount_desc(b1) + s1), a2, " + "@ + (amount_desc(b2) + s2));
    lemma_drop_prefix(" + "@, amount_desc(b1) + s1, amount_desc(b2) + s2);
    lemma_amount_desc_split(b1, s1, b2, s2);
    if t1 != t2 {
        assert(s1.len() != s2.len());
    }
}

proof fn lemma_single_not_pair(a1: BatchAmount, a2: BatchAmount, b2: BatchAmount, t2: bool)
    ensures
        amount_desc(a1) != pair_desc(a2, b2, t2),
{
    reveal_strlit(" + ");
    let e = Seq::<char>::empty();
    let r2 = " + "@ + (amount_desc(b2) + pair_suffix(t2));
    if amount_desc(a1) == pair_desc(a2, b2, t2) {
        assert(amount_desc(a1) + e =~= amount_desc(a1));
        lemma_amount_desc_split(a1, e, a2, r2);
        assert(r2.len() > 0);
    }
}

/// The description of a match determines it: reading back the decoding of a
/// settled sale gives the very match it was written from, hence the same
/// description.
pub proof fn lemma_desc_injective(m1: PricingMatch, m2: PricingMatch)
    requires
        m1.desc() == m2.desc(),
    ensures
        m1 == m2,
{
    let e = Seq::<char>::empty();
    match m1 {
        PricingMatch::Multiple(a1) => match m2 {
            PricingMatch::Multiple(a2) => {
                assert(amount_desc(a1) + e =~= amount_desc(a1));
                assert(amount_desc(a2) + e =~= amount_desc(a2));
                lemma_amount_desc_split(a1, e, a2, e);
            },
            PricingMatch::PromoCombo(a2, b2) => {
                lemma_single_not_pair(a1, a2, b2, false);
            },
            PricingMatch::TurnOfBatch(a2, b2) => {
                lemma_single_not_pair(a1, a2, b2, true);
            },
        },
        PricingMatch::PromoCombo(a1, b1) => {
            match m2 {
                PricingMatch::Multiple(a2) => lemma_single_not_pair(a2, a1, b1, false),
                PricingMatch::PromoCombo(a2, b2) => {
                    lemma_pair_desc_split(a1, b1, false, a2, b2, false);
                },
                PricingMatch::TurnOfBatch(a2, b2) => {
                    lemma_pair_desc_split(a1, b1, false, a2, b2, true);
                },
            }
        },
        PricingMatch::TurnOfBatch(a1, b1) => {
            match m2 {
                PricingMatch::Multiple(a2) => lemma_single_not_pair(a2, a1, b1, true),
                PricingMatch::PromoCombo(a2, b2) => {
                    lemma_pair_desc_split(a1, b1, true, a2, b2, false);
                },
                PricingMatch::TurnOfBatch(a2, b2) => {
                    lemma_pair_desc_split(a1, b1, true, a2, b2, true);
                },
            }
        },
    }
}

} // verus!
