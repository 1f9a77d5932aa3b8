//! Strategies that narrow ambiguous pricing candidates.

use vstd::prelude::*;
use crate::fields::chars_of;
use crate::batch::Batch;
use crate::candidate::PricingCandidate;
use crate::plus::{SalePlus, SalesPlus, sales_of};
use crate::pricing::PricingMatch;
use crate::kind::{SaleKind, Seller, SellerId};
use crate::sale::Sale;

verus! {

/// Defines a way to resolve ambiguities.
#[derive(Copy, Clone, Debug, PartialEq, Eq, Hash, Structural)]
pub enum AmbiguitySolver {
    /// Does nothing.
    DoNothing,
    /// Looks back in time for the batch sales had reached.
    TemporalLookbehind,
    /// Looks back in time, separately for each selling point.
    SellerLookBehind,
}

impl Default for AmbiguitySolver {
    /// The best solver available.
    fn default() -> (r: AmbiguitySolver)
        ensures
            r == AmbiguitySolver::SellerLookBehind,
    {
        AmbiguitySolver::SellerLookBehind
    }
}

impl AmbiguitySolver {
    /// The configuration word of each solver.
    pub open spec fn name_spec(self) -> Seq<char> {
        match self {
            AmbiguitySolver::DoNothing => "none"@,
            AmbiguitySolver::TemporalLookbehind => "temporal"@,
            AmbiguitySolver::SellerLookBehind => "seller"@,
        }
    }

    /// The configuration word of this solver.
    pub fn name(&self) -> (r: &'static str)
        ensures
            r@ == self.name_spec(),
    {
        match self {
            AmbiguitySolver::DoNothing => "none",
            AmbiguitySolver::TemporalLookbehind => "temporal",
            AmbiguitySolver::SellerLookBehind => "seller",
        }
    }

    /// Human-readable description of the solver.
    pub fn label(&self) -> (r: &'static str)
        ensures
            r@ == (match self {
                AmbiguitySolver::DoNothing => "nenhum"@,
                AmbiguitySolver::TemporalLookbehind => "olhar anteriores"@,
                AmbiguitySolver::SellerLookBehind => "olhar anteriores do mesmo ponto"@,
            }),
    {
        match self {
            AmbiguitySolver::DoNothing => "nenhum",
            AmbiguitySolver::TemporalLookbehind => "olhar anteriores",
            AmbiguitySolver::SellerLookBehind => "olhar anteriores do mesmo ponto",
        }
    }

    /// The solver whose configuration word is `s`, already in lower case.
    pub open spec fn from_word(s: Seq<char>) -> Option<AmbiguitySolver> {
        if s == "none"@ {
            Some(AmbiguitySolver::DoNothing)
        } else if s == "temporal"@ {
            Some(AmbiguitySolver::TemporalLookbehind)
        } else if s == "seller"@ {
            Some(AmbiguitySolver::SellerLookBehind)
        } else {
            None
        }
    }

    /// The solver named by a lower-case configuration word.
    pub fn from_lower(s: &str) -> (r: Option<AmbiguitySolver>)
        ensures
            r == AmbiguitySolver::from_word(s@),
    {
        let cs = chars_of(s);
        if same_text(&cs, "none") {
            Some(AmbiguitySolver::DoNothing)
        } else if same_text(&cs, "temporal") {
            Some(AmbiguitySolver::TemporalLookbehind)
        } else if same_text(&cs, "seller") {
            Some(AmbiguitySolver::SellerLookBehind)
        } else {
            None
        }
    }

    /// The solver named by a configuration word, in any case.
    pub fn try_from(s: &str) -> (r: Result<AmbiguitySolver, ()>)
        ensures
            match AmbiguitySolver::from_word(lower_of(s@)) {
                Some(v) => r == Ok::<AmbiguitySolver, ()>(v),
                None => r == Err::<AmbiguitySolver, ()>(()),
            },
    {
        let low = lowercase(s);
        match AmbiguitySolver::from_lower(low.as_str()) {
            Some(v) => Ok(v),
            None => Err(()),
        }
    }

    /// Every solver, in order of sophistication.
    pub fn available() -> (r: Vec<AmbiguitySolver>)
        ensures
            r@ == seq![
                AmbiguitySolver::DoNothing,
                AmbiguitySolver::TemporalLookbehind,
                AmbiguitySolver::SellerLookBehind,
            ],
    {
        let mut v: Vec<AmbiguitySolver> = Vec::new();
        v.push(AmbiguitySolver::DoNothing);
        v.push(AmbiguitySolver::TemporalLookbehind);
        v.push(AmbiguitySolver::SellerLookBehind);
        v
    }
}

/// The lower-case form of a text, as the standard library gives it.
pub uninterp spec fn lower_of(s: Seq<char>) -> Seq<char>;

/// Relies on `str::to_lowercase`: the result depends on the characters alone.
#[verifier::external_body]
fn lowercase(s: &str) -> (r: String)
    ensures
        r@ == lower_of(s@),
{
    s.to_lowercase()
}

/// Whether the characters spell `t`.
fn same_text(cs: &Vec<char>, t: &str) -> (r: bool)
    ensures
        r == (cs@ == t@),
{
    let ts = chars_of(t);
    if cs.len() != ts.len() {
        return false;
    }
    let mut i: usize = 0;
    while i < cs.len()
        invariant
            cs@.len() == ts@.len(),
            ts@ == t@,
            i <= cs@.len(),
            forall|k: int| 0 <= k < i ==> cs@[k] == ts@[k],
        decreases cs@.len() - i,
    {
        if cs[i] != ts[i] {
            return false;
        }
        i = i + 1;
    }
    assert(cs@ =~= ts@);
    true
}

/// Two candidates list the same matches under the same variant.
pub open spec fn same_cand(a: PricingCandidate, b: PricingCandidate) -> bool {
    &&& a@ == b@
    &&& (a is Precise <==> b is Precise)
    &&& (a is Ambiguous <==> b is Ambiguous)
    &&& (a is NoMatch <==> b is NoMatch)
}

/// A sale is not settled and its candidate is ambiguous.
pub open spec fn open_ambiguity(p: SalePlus) -> bool {
    p.pricematch is None && p.pricecand is Ambiguous
}

/// The batch that sales had reached before position `i`: the one after the
/// latest sale before `i` that is settled.
pub open spec fn watermark(items: Seq<SalePlus>, i: int) -> Option<Batch>
    decreases i,
{
    if i <= 0 {
        None
    } else {
        match items[i - 1].pricematch {
            Some(m) => Some(m.after()),
            None => watermark(items, i - 1),
        }
    }
}

/// Matches that leave sales at batch `b`.
pub open spec fn leaves_at(b: Batch) -> spec_fn(PricingMatch) -> bool {
    |m: PricingMatch| m.after() == b
}

/// The ambiguous matches of a sale that agree with the watermark.
pub open spec fn temporal_compat(p: SalePlus, b: Batch) -> Seq<PricingMatch> {
    p.pricecand@.filter(leaves_at(b))
}

/// The temporal step settles this sale.
pub open spec fn temporal_resolves(p: SalePlus, wm: Option<Batch>) -> bool {
    open_ambiguity(p) && wm is Some && temporal_compat(p, wm.unwrap()).len() == 1
}

/// `new` is what the temporal step makes of `old` under watermark `wm`: an
/// open ambiguity keeps the matches that leave sales at the watermark; one
/// left settles it, several replace the candidate, none leave it as it was.
pub open spec fn temporal_step(old: SalePlus, new: SalePlus, wm: Option<Batch>) -> bool {
    if open_ambiguity(old) && wm is Some && temporal_compat(old, wm.unwrap()).len() > 0 {
        let f = temporal_compat(old, wm.unwrap());
        &&& new.sale == old.sale
        &&& if f.len() == 1 {
            new.pricematch == Some(f[0]) && same_cand(new.pricecand, old.pricecand)
        } else {
            new.pricematch is None && new.pricecand is Ambiguous && new.pricecand@ == f
        }
    } else {
        new == old
    }
}

/// Number of sales among the first `n` that the temporal pass settles.
pub open spec fn temporal_count(items: Seq<SalePlus>, n: int) -> nat
    decreases n,
{
    if n <= 0 {
        0
    } else {
        temporal_count(items, n - 1) + if temporal_resolves(items[n - 1], watermark(items, n - 1)) {
            1nat
        } else {
            0nat
        }
    }
}

/// `new` is the outcome of one temporal pass over `old`.
pub open spec fn temporal_pass(old: Seq<SalePlus>, new: Seq<SalePlus>) -> bool {
    new.len() == old.len() && forall|i: int| 0 <= i < old.len() ==> temporal_step(
        #[trigger] old[i],
        new[i],
        watermark(old, i),
    )
}

/// What a filter keeps comes from the sequence and meets the predicate.
pub proof fn lemma_filter_from<A>(s: Seq<A>, pred: spec_fn(A) -> bool)
    ensures
        forall|x: A| #[trigger] s.filter(pred).contains(x) ==> s.contains(x) && pred(x),
    decreases s.len(),
{
    reveal(Seq::filter);
    if s.len() > 0 {
        lemma_filter_from(s.drop_last(), pred);
        assert forall|x: A| #[trigger] s.filter(pred).contains(x) implies s.contains(x) && pred(x) by {
            let f = s.filter(pred);
            let sub = s.drop_last().filter(pred);
            let k = choose|k: int| 0 <= k < f.len() && f[k] == x;
            if pred(s.last()) && k == f.len() - 1 {
                assert(s[s.len() - 1] == x);
            } else {
                assert(sub[k] == x);
                assert(sub.contains(x));
                let j = choose|j: int| 0 <= j < s.drop_last().len() && s.drop_last()[j] == x;
                assert(s[j] == x);
            }
        }
    }
}

/// The batches listed in `v`, as a set.
pub open spec fn batch_set_of(v: Seq<Batch>) -> Set<Batch> {
    Set::new(|b: Batch| v.contains(b))
}

/// Matches that refer to at least one batch of `s`.
pub open spec fn touches(s: Set<Batch>) -> spec_fn(PricingMatch) -> bool {
    |m: PricingMatch| exists|b: Batch| #[trigger] m.batch_set().contains(b) && s.contains(b)
}

/// Matches that refer to no batch outside `s`.
pub open spec fn within(s: Set<Batch>) -> spec_fn(PricingMatch) -> bool {
    |m: PricingMatch| m.batch_set().subset_of(s)
}

/// A filter over matches.
pub enum Keep {
    /// Matches that leave sales at this batch.
    LeavesAt(Batch),
    /// Matches that refer to one of these batches.
    Touching(Vec<Batch>),
    /// Matches that refer only to these batches.
    Within(Vec<Batch>),
}

impl Keep {
    /// The predicate of the filter.
    pub open spec fn pred(&self) -> spec_fn(PricingMatch) -> bool {
        match self {
            Keep::LeavesAt(b) => leaves_at(*b),
            Keep::Touching(v) => touches(batch_set_of(v@)),
            Keep::Within(v) => within(batch_set_of(v@)),
        }
    }

    /// Whether the filter keeps `m`.
    pub fn keeps(&self, m: &PricingMatch) -> (r: bool)
        ensures
            r == (self.pred())(*m),
    {
        match self {
            Keep::LeavesAt(b) => m.batch_after() == *b,
            Keep::Touching(v) => {
                let r = match m {
                    PricingMatch::Multiple(a) => contains_batch(v, &a.0),
                    PricingMatch::PromoCombo(a, c) | PricingMatch::TurnOfBatch(a, c) => contains_batch(v, &a.0)
                        || contains_batch(v, &c.0),
                };
                proof {
                    let s = batch_set_of(v@);
                    if r {
                        match *m {
                            PricingMatch::Multiple(a) => {
                                assert(m.batch_set().contains(a.0) && s.contains(a.0));
                            },
                            PricingMatch::PromoCombo(a, c) | PricingMatch::TurnOfBatch(a, c) => {
                                if s.contains(a.0) {
                                    assert(m.batch_set().contains(a.0));
                                } else {
                                    assert(m.batch_set().contains(c.0));
                                }
                            },
                        }
                    }
                }
                r
            },
            Keep::Within(v) => {
                let r = match m {
                    PricingMatch::Multiple(a) => contains_batch(v, &a.0),
                    PricingMatch::PromoCombo(a, c) | PricingMatch::TurnOfBatch(a, c) => contains_batch(v, &a.0)
                        && contains_batch(v, &c.0),
                };
                proof {
                    match *m {
                        PricingMatch::Multiple(a) => {
                            assert(m.batch_set().contains(a.0));
                        },
                        PricingMatch::PromoCombo(a, c) | PricingMatch::TurnOfBatch(a, c) => {
                            assert(m.batch_set().contains(a.0));
                            assert(m.batch_set().contains(c.0));
                        },
                    }
                }
                r
            },
        }
    }
}

/// Whether `b` is in `v`.
fn contains_batch(v: &Vec<Batch>, b: &Batch) -> (r: bool)
    ensures
        r == v@.contains(*b),
{
    let mut i: usize = 0;
    while i < v.len()
        invariant
            i <= v@.len(),
            forall|k: int| 0 <= k < i ==> v@[k] != *b,
        decreases v@.len() - i,
    {
        if v[i] == *b {
            return true;
        }
        i = i + 1;
    }
    false
}

/// The matches of `v` that the filter keeps, in order.
fn filter_matches(v: &Vec<PricingMatch>, keep: &Keep) -> (r: Vec<PricingMatch>)
    ensures
        r@ == v@.filter(keep.pred()),
        v@.no_duplicates() ==> r@.no_duplicates(),
{
    let ghost pred = keep.pred();
    let mut u: Vec<PricingMatch> = Vec::new();
    let mut i: usize = 0;
    while i < v.len()
        invariant
            i <= v@.len(),
            pred == keep.pred(),
            u@ == v@.subrange(0, i as int).filter(pred),
            v@.no_duplicates() ==> u@.no_duplicates(),
        decreases v@.len() - i,
    {
        let m = v[i];
        proof {
            assert(v@.subrange(0, i + 1).drop_last() =~= v@.subrange(0, i as int));
            reveal(Seq::filter);
        }
        if keep.keeps(&m) {
            proof {
                if v@.no_duplicates() && u@.contains(m) {
                    lemma_filter_from(v@.subrange(0, i as int), pred);
                    assert(v@.subrange(0, i as int).contains(m));
                    let k2 = choose|k2: int| 0 <= k2 < i && #[trigger] v@.subrange(0, i as int)[k2] == m;
                    assert(v@[k2] == v@[i as int]);
                }
            }
            u.push(m);
        }
        i = i + 1;
    }
    assert(v@.subrange(0, v@.len() as int) =~= v@);
    u
}

/// Implementation of the TemporalLookbehind solver.
pub fn temporal_lookbehind(sp: &mut SalesPlus) -> (r: usize)
    requires
        old(sp).wf(),
    ensures
        final(sp).wf(),
        final(sp).context == old(sp).context,
        temporal_pass(old(sp).sales@, final(sp).sales@),
        r == temporal_count(old(sp).sales@, old(sp).sales@.len() as int),
{
    let ghost items = sp.sales@;
    let mut batch: Option<Batch> = None;
    let mut res: usize = 0;
    let mut i: usize = 0;
    while i < sp.sales.len()
        invariant
            i <= sp.sales@.len(),
            sp.sales@.len() == items.len(),
            sp.context == old(sp).context,
            items == old(sp).sales@,
            batch == watermark(items, i as int),
            res == temporal_count(items, i as int),
            res <= i,
            forall|j: int| i <= j < items.len() ==> sp.sales@[j] == items[j],
            forall|j: int| 0 <= j < i ==> temporal_step(#[trigger] items[j], sp.sales@[j], watermark(items, j)),
            forall|j: int| 0 <= j < items.len() ==> (#[trigger] items[j]).wf(),
            forall|j: int| 0 <= j < items.len() ==> (#[trigger] sp.sales@[j]).wf(),
            forall|j: int| 0 <= j < items.len() ==> (#[trigger] sp.sales@[j]).sale == items[j].sale,
        decreases items.len() - i,
    {
        proof {
            reveal_with_fuel(watermark, 1);
        }
        if let Some(pm) = sp.sales[i].pricematch {
            batch = Some(pm.batch_after());
        } else if let Some(b) = batch {
            let compat_opt = match &sp.sales[i].pricecand {
                PricingCandidate::Ambiguous(hs) => Some(filter_matches(hs, &Keep::LeavesAt(b))),
                _ => None,
            };
            if let Some(compat) = compat_opt {
                proof {
                    lemma_filter_from(items[i as int].pricecand@, leaves_at(b));
                }
                if compat.len() == 1 {
                    let m = compat[0];
                    assert(compat@.contains(m));
                    sp.sales[i].pricematch = Some(m);
                    res = res + 1;
                } else if compat.len() > 1 {
                    sp.sales[i].pricecand = PricingCandidate::Ambiguous(compat);
                }
            }
        }
        i = i + 1;
    }
    proof {
        assert(sales_of(sp.sales@) =~= sales_of(items));
    }
    res
}

/// The batches of every sale of seller `sid` settled before position `i`.
pub open spec fn seller_acc(items: Seq<SalePlus>, i: int, sid: SellerId) -> Set<Batch>
    decreases i,
{
    if i <= 0 {
        Set::empty()
    } else {
        let prev = seller_acc(items, i - 1, sid);
        match items[i - 1].pricematch {
            Some(m) => if items[i - 1].sale.seller_spec() == Some(sid) {
                prev.union(m.batch_set())
            } else {
                prev
            },
            None => prev,
        }
    }
}

/// The batches of the latest sale of seller `sid` settled before position `i`
/// (none if there is no such sale).
pub open spec fn seller_last(items: Seq<SalePlus>, i: int, sid: SellerId) -> Set<Batch>
    decreases i,
{
    if i <= 0 {
        Set::empty()
    } else {
        match items[i - 1].pricematch {
            Some(m) => if items[i - 1].sale.seller_spec() == Some(sid) {
                m.batch_set()
            } else {
                seller_last(items, i - 1, sid)
            },
            None => seller_last(items, i - 1, sid),
        }
    }
}

/// The ambiguous matches of the sale at `i` that share a batch with its seller's history.
pub open spec fn seller_compat(items: Seq<SalePlus>, i: int, sid: SellerId) -> Seq<PricingMatch> {
    items[i].pricecand@.filter(touches(seller_acc(items, i, sid)))
}

/// Among those, the ones that bring in no batch beyond the seller's latest settled sale.
pub open spec fn seller_pick(items: Seq<SalePlus>, i: int, sid: SellerId) -> Seq<PricingMatch> {
    seller_compat(items, i, sid).filter(within(seller_last(items, i, sid)))
}

/// The seller step settles the sale at `i`.
pub open spec fn seller_resolves(items: Seq<SalePlus>, i: int) -> bool {
    match items[i].sale.seller_spec() {
        Some(sid) => open_ambiguity(items[i]) && (seller_compat(items, i, sid).len() == 1 || (seller_compat(
            items,
            i,
            sid,
        ).len() >= 2 && seller_pick(items, i, sid).len() == 1)),
        None => false,
    }
}

/// `new` is what the seller step makes of the sale at `i`: an open ambiguity
/// of an identified seller keeps the matches that share a batch with the
/// seller's history; one left settles it; of several, the only one that brings
/// in no new batch, if there is exactly one, settles it; none left leave the
/// sale as it was.
pub open spec fn seller_step(items: Seq<SalePlus>, i: int, new: SalePlus) -> bool {
    let old = items[i];
    match old.sale.seller_spec() {
        Some(sid) => if open_ambiguity(old) && seller_compat(items, i, sid).len() > 0 {
            let nc = seller_compat(items, i, sid);
            let pick = seller_pick(items, i, sid);
            &&& new.sale == old.sale
            &&& new.pricecand@ == nc
            &&& if nc.len() == 1 {
                new.pricecand is Precise && new.pricematch == Some(nc[0])
            } else {
                new.pricecand is Ambiguous && new.pricematch == (if pick.len() == 1 {
                    Some(pick[0])
                } else {
                    None::<PricingMatch>
                })
            }
        } else {
            new == old
        },
        None => new == old,
    }
}

/// Number of sales among the first `n` that the seller pass settles.
pub open spec fn seller_count(items: Seq<SalePlus>, n: int) -> nat
    decreases n,
{
    if n <= 0 {
        0
    } else {
        seller_count(items, n - 1) + if seller_resolves(items, n - 1) {
            1nat
        } else {
            0nat
        }
    }
}

/// `new` is the outcome of one seller pass over `old`.
pub open spec fn seller_pass(old: Seq<SalePlus>, new: Seq<SalePlus>) -> bool {
    new.len() == old.len() && forall|i: int| 0 <= i < old.len() ==> seller_step(old, i, #[trigger] new[i])
}

/// Whether a sale is attributed to `seller`.
fn sale_has_seller(sale: &Sale, seller: &Seller) -> (r: bool)
    ensures
        r == (sale.seller_spec() == Some(seller@)),
{
    match (&sale.sale_kind, &sale.seller_name, seller) {
        (SaleKind::Online(_), _, Seller::Online) => true,
        (SaleKind::Offline, Some(n), Seller::Offline(s)) => n.eq(s),
        _ => false,
    }
}

/// Which sales are settled.
fn settled_flags(sales: &Vec<SalePlus>) -> (r: Vec<bool>)
    ensures
        r@.len() == sales@.len(),
        forall|j: int| 0 <= j < r@.len() ==> r@[j] == (#[trigger] sales@[j]).pricematch is Some,
{
    let mut v: Vec<bool> = Vec::new();
    let mut j: usize = 0;
    while j < sales.len()
        invariant
            j <= sales@.len(),
            v@.len() == j,
            forall|k: int| 0 <= k < j ==> v@[k] == (#[trigger] sales@[k]).pricematch is Some,
        decreases sales@.len() - j,
    {
        v.push(sales[j].pricematch.is_some());
        j = j + 1;
    }
    v
}

/// The history of `seller` before position `i`: every batch of its settled
/// sales, and the batches of its latest settled sale.
fn seller_history(sales: &Vec<SalePlus>, i: usize, seller: &Seller, was: &Vec<bool>, Ghost(items): Ghost<Seq<SalePlus>>) -> (r: (
    Vec<Batch>,
    Vec<Batch>,
))
    requires
        i <= sales@.len(),
        sales@.len() == items.len(),
        was@.len() == items.len(),
        forall|j: int| 0 <= j < i ==> was@[j] == (#[trigger] items[j]).pricematch is Some,
        forall|j: int| 0 <= j < i && was@[j] ==> (#[trigger] sales@[j]).pricematch == items[j].pricematch,
        forall|j: int| 0 <= j < i ==> (#[trigger] sales@[j]).sale == items[j].sale,
    ensures
        batch_set_of(r.0@) == seller_acc(items, i as int, seller@),
        batch_set_of(r.1@) == seller_last(items, i as int, seller@),
{
    let mut acc: Vec<Batch> = Vec::new();
    let mut last: Vec<Batch> = Vec::new();
    let mut j: usize = 0;
    assert(batch_set_of(acc@) =~= Set::empty());
    while j < i
        invariant
            j <= i,
            i <= sales@.len(),
            sales@.len() == items.len(),
            was@.len() == items.len(),
            forall|k: int| 0 <= k < i ==> was@[k] == (#[trigger] items[k]).pricematch is Some,
            forall|k: int| 0 <= k < i && was@[k] ==> (#[trigger] sales@[k]).pricematch == items[k].pricematch,
            forall|k: int| 0 <= k < i ==> (#[trigger] sales@[k]).sale == items[k].sale,
            batch_set_of(acc@) == seller_acc(items, j as int, seller@),
            batch_set_of(last@) == seller_last(items, j as int, seller@),
        decreases i - j,
    {
        proof {
            reveal_with_fuel(seller_acc, 1);
            reveal_with_fuel(seller_last, 1);
        }
        if was[j] && sale_has_seller(&sales[j].sale, seller) {
            assert(sales@[j as int].pricematch == items[j as int].pricematch);
            let m = sales[j].pricematch.unwrap();
            let mut bs = m.batches();
            let ghost pre = acc@;
            let bs2 = copy_batches(&bs);
            acc.append(&mut bs);
            last = bs2;
            proof {
                assert(batch_set_of(acc@) =~= batch_set_of(pre).union(m.batch_set())) by {
                    assert forall|b: Batch| acc@.contains(b) <==> pre.contains(b) || m.batch_set().contains(b) by {
                        if acc@.contains(b) {
                            let k = choose|k: int| 0 <= k < acc@.len() && acc@[k] == b;
                            if k < pre.len() {
                                assert(pre[k] == b);
                            } else {
                                assert(bs2@[k - pre.len()] == b);
                            }
                        }
                        if pre.contains(b) {
                            let k = choose|k: int| 0 <= k < pre.len() && pre[k] == b;
                            assert(acc@[k] == b);
                        }
                        if m.batch_set().contains(b) {
                            assert(bs2@.contains(b));
                            let k = choose|k: int| 0 <= k < bs2@.len() && bs2@[k] == b;
                            assert(acc@[pre.len() + k] == b);
                        }
                    }
                }
                assert(batch_set_of(last@) =~= m.batch_set());
            }
        }
        j = j + 1;
    }
    (acc, last)
}

/// A copy of a list of batches.
fn copy_batches(v: &Vec<Batch>) -> (r: Vec<Batch>)
    ensures
        r@ == v@,
{
    let mut u: Vec<Batch> = Vec::new();
    let mut i: usize = 0;
    while i < v.len()
        invariant
            i <= v@.len(),
            u@ == v@.subrange(0, i as int),
        decreases v@.len() - i,
    {
        u.push(v[i]);
        i = i + 1;
    }
    assert(u@ =~= v@);
    u
}

/// Implementation of the SellerLookBehind solver.
pub fn seller_lookbehind(sp: &mut SalesPlus) -> (r: usize)
    requires
        old(sp).wf(),
    ensures
        final(sp).wf(),
        final(sp).context == old(sp).context,
        seller_pass(old(sp).sales@, final(sp).sales@),
        r == seller_count(old(sp).sales@, old(sp).sales@.len() as int),
{
    let ghost items = sp.sales@;
    let was = settled_flags(&sp.sales);
    let mut total: usize = 0;
    let mut i: usize = 0;
    while i < sp.sales.len()
        invariant
            i <= sp.sales@.len(),
            sp.sales@.len() == items.len(),
            was@.len() == items.len(),
            sp.context == old(sp).context,
            items == old(sp).sales@,
            forall|j: int| 0 <= j < items.len() ==> was@[j] == (#[trigger] items[j]).pricematch is Some,
            total == seller_count(items, i as int),
            total <= i,
            forall|j: int| i <= j < items.len() ==> sp.sales@[j] == items[j],
            forall|j: int| 0 <= j < i ==> seller_step(items, j, #[trigger] sp.sales@[j]),
            forall|j: int| 0 <= j < items.len() ==> (#[trigger] items[j]).wf(),
            forall|j: int| 0 <= j < items.len() ==> (#[trigger] sp.sales@[j]).wf(),
            forall|j: int| 0 <= j < items.len() ==> (#[trigger] sp.sales@[j]).sale == items[j].sale,
            forall|j: int| 0 <= j < items.len() && was@[j] ==> (#[trigger] sp.sales@[j]).pricematch == items[j].pricematch,
        decreases items.len() - i,
    {
        if sp.sales[i].pricematch.is_none() {
            if let Some(seller) = sp.sales[i].sale.seller() {
                let (acc, last) = seller_history(&sp.sales, i, &seller, &was, Ghost(items));
                let nc_opt = match &sp.sales[i].pricecand {
                    PricingCandidate::Ambiguous(cands) => Some(filter_matches(cands, &Keep::Touching(acc))),
                    _ => None,
                };
                if let Some(nc) = nc_opt {
                    proof {
                        lemma_filter_from(items[i as int].pricecand@, touches(seller_acc(items, i as int, seller@)));
                    }
                    if nc.len() == 1 {
                        let m = nc[0];
                        sp.sales[i].pricematch = Some(m);
                        sp.sales[i].pricecand = PricingCandidate::Precise(m);
                        assert(sp.sales@[i as int].pricecand@ =~= nc@);
                        total = total + 1;
                    } else if nc.len() > 1 {
                        let pick = filter_matches(&nc, &Keep::Within(last));
                        proof {
                            lemma_filter_from(nc@, within(seller_last(items, i as int, seller@)));
                        }
                        if pick.len() == 1 {
                            let m = pick[0];
                            assert(pick@.contains(m));
                            sp.sales[i].pricematch = Some(m);
                            total = total + 1;
                        }
                        sp.sales[i].pricecand = PricingCandidate::Ambiguous(nc);
                    }
                }
            }
        }
        i = i + 1;
    }
    proof {
        assert(sales_of(sp.sales@) =~= sales_of(items));
    }
    total
}

/// Implementation of the DoNothing solver.
pub fn do_nothing(sp: &mut SalesPlus) -> (r: usize)
    ensures
        r == 0,
        *final(sp) == *old(sp),
{
    0
}

/// `new` is the outcome of one pass of `solver` over `old`.
pub open spec fn pass_ok(solver: AmbiguitySolver, old: Seq<SalePlus>, new: Seq<SalePlus>) -> bool {
    match solver {
        AmbiguitySolver::DoNothing => new == old,
        AmbiguitySolver::TemporalLookbehind => temporal_pass(old, new),
        AmbiguitySolver::SellerLookBehind => seller_pass(old, new),
    }
}

/// `states` runs from `a` to `b` by passes of `solver`: every pass but the
/// last settles something, and the last settles nothing.
pub open spec fn pass_chain(solver: AmbiguitySolver, states: Seq<Seq<SalePlus>>, a: Seq<SalePlus>, b: Seq<SalePlus>) -> bool {
    &&& states.len() >= 2
    &&& states[0] == a
    &&& states.last() == b
    &&& forall|j: int| 0 <= j < states.len() - 1 ==> pass_ok(solver, #[trigger] states[j], states[j + 1])
    &&& forall|j: int| 0 <= j < states.len() - 2 ==> pass_count(solver, #[trigger] states[j]) > 0
    &&& pass_count(solver, states[states.len() - 2]) == 0
}

/// Number of sales that one pass of `solver` settles.
pub open spec fn pass_count(solver: AmbiguitySolver, old: Seq<SalePlus>) -> nat {
    match solver {
        AmbiguitySolver::DoNothing => 0,
        AmbiguitySolver::TemporalLookbehind => temporal_count(old, old.len() as int),
        AmbiguitySolver::SellerLookBehind => seller_count(old, old.len() as int),
    }
}

/// Number of sales among the first `n` that are not settled.
pub open spec fn unsettled(items: Seq<SalePlus>, n: int) -> nat
    decreases n,
{
    if n <= 0 {
        0
    } else {
        unsettled(items, n - 1) + if items[n - 1].pricematch is None {
            1nat
        } else {
            0nat
        }
    }
}

/// `new` is `old` narrowed: same sale, a candidate list no longer and with no
/// new match, and a settled match kept.
pub open spec fn narrows(old: SalePlus, new: SalePlus) -> bool {
    &&& new.sale == old.sale
    &&& new.pricecand@.len() <= old.pricecand@.len()
    &&& new.pricecand.set().subset_of(old.pricecand.set())
    &&& (old.pricematch is Some ==> new.pricematch == old.pricematch)
}

/// Sequence-wide narrowing.
pub open spec fn narrows_all(old: Seq<SalePlus>, new: Seq<SalePlus>) -> bool {
    new.len() == old.len() && forall|i: int| 0 <= i < old.len() ==> narrows(#[trigger] old[i], new[i])
}

impl AmbiguitySolver {
    /// Runs one pass of this solver; returns the number of sales it settled.
    pub fn apply(&self, sp: &mut SalesPlus) -> (r: usize)
        requires
            old(sp).wf(),
        ensures
            final(sp).wf(),
            final(sp).context == old(sp).context,
            pass_ok(*self, old(sp).sales@, final(sp).sales@),
            r == pass_count(*self, old(sp).sales@),
    {
        match self {
            AmbiguitySolver::DoNothing => do_nothing(sp),
            AmbiguitySolver::TemporalLookbehind => temporal_lookbehind(sp),
            AmbiguitySolver::SellerLookBehind => seller_lookbehind(sp),
        }
    }
}

/// One pass of any solver only narrows each sale: no candidate list grows,
/// no match appears that was not a candidate, and no settled sale is unsettled.
pub proof fn lemma_pass_narrows(solver: AmbiguitySolver, old: Seq<SalePlus>, new: Seq<SalePlus>)
    requires
        pass_ok(solver, old, new),
    ensures
        narrows_all(old, new),
{
    assert forall|i: int| 0 <= i < old.len() implies narrows(#[trigger] old[i], new[i]) by {
        match solver {
            AmbiguitySolver::DoNothing => {},
            AmbiguitySolver::TemporalLookbehind => {
                assert(temporal_step(old[i], new[i], watermark(old, i)));
                if let Some(b) = watermark(old, i) {
                    old[i].pricecand@.lemma_filter_len(leaves_at(b));
                    lemma_filter_from(old[i].pricecand@, leaves_at(b));
                }
            },
            AmbiguitySolver::SellerLookBehind => {
                assert(seller_step(old, i, new[i]));
                if let Some(sid) = old[i].sale.seller_spec() {
                    let acc = seller_acc(old, i, sid);
                    old[i].pricecand@.lemma_filter_len(touches(acc));
                    lemma_filter_from(old[i].pricecand@, touches(acc));
                }
            },
        }
    }
}

/// A pass settles exactly as many sales as it reports.
pub proof fn lemma_pass_settles_count(solver: AmbiguitySolver, old: Seq<SalePlus>, new: Seq<SalePlus>, n: int)
    requires
        pass_ok(solver, old, new),
        0 <= n <= old.len(),
    ensures
        unsettled(new, n) + (match solver {
            AmbiguitySolver::DoNothing => 0,
            AmbiguitySolver::TemporalLookbehind => temporal_count(old, n),
            AmbiguitySolver::SellerLookBehind => seller_count(old, n),
        }) == unsettled(old, n),
    decreases n,
{
    if n > 0 {
        lemma_pass_settles_count(solver, old, new, n - 1);
        let i = n - 1;
        match solver {
            AmbiguitySolver::DoNothing => {},
            AmbiguitySolver::TemporalLookbehind => {
                assert(temporal_step(old[i], new[i], watermark(old, i)));
            },
            AmbiguitySolver::SellerLookBehind => {
                assert(seller_step(old, i, new[i]));
            },
        }
    }
}

/// On sales with no ambiguous candidate, a pass of any solver settles nothing
/// and changes nothing.
pub proof fn lemma_no_ambiguity_no_change(solver: AmbiguitySolver, old: Seq<SalePlus>, new: Seq<SalePlus>)
    requires
        forall|i: int| 0 <= i < old.len() ==> !((#[trigger] old[i]).pricecand is Ambiguous),
        pass_ok(solver, old, new),
    ensures
        pass_count(solver, old) == 0,
        new == old,
{
    lemma_no_ambiguity_counts(solver, old, old.len() as int);
    match solver {
        AmbiguitySolver::DoNothing => {},
        AmbiguitySolver::TemporalLookbehind => {
            assert forall|i: int| 0 <= i < old.len() implies new[i] == old[i] by {
                assert(temporal_step(old[i], new[i], watermark(old, i)));
            }
            assert(new =~= old);
        },
        AmbiguitySolver::SellerLookBehind => {
            assert forall|i: int| 0 <= i < old.len() implies new[i] == old[i] by {
                assert(seller_step(old, i, new[i]));
            }
            assert(new =~= old);
        },
    }
}

/// With no ambiguous candidate, no step settles a sale.
proof fn lemma_no_ambiguity_counts(solver: AmbiguitySolver, old: Seq<SalePlus>, n: int)
    requires
        forall|i: int| 0 <= i < old.len() ==> !((#[trigger] old[i]).pricecand is Ambiguous),
        0 <= n <= old.len(),
    ensures
        temporal_count(old, n) == 0,
        seller_count(old, n) == 0,
    decreases n,
{
    if n > 0 {
        lemma_no_ambiguity_counts(solver, old, n - 1);
        assert(!(old[n - 1].pricecand is Ambiguous));
    }
}

/// There are no more unsettled sales than sales.
pub proof fn lemma_unsettled_bound(items: Seq<SalePlus>, n: int)
    requires
        0 <= n,
    ensures
        unsettled(items, n) <= n,
    decreases n,
{
    if n > 0 {
        lemma_unsettled_bound(items, n - 1);
    }
}

/// Narrowing twice is narrowing.
pub proof fn lemma_narrows_trans(a: Seq<SalePlus>, b: Seq<SalePlus>, c: Seq<SalePlus>)
    requires
        narrows_all(a, b),
        narrows_all(b, c),
    ensures
        narrows_all(a, c),
{
    assert forall|i: int| 0 <= i < a.len() implies narrows(#[trigger] a[i], c[i]) by {
        assert(narrows(a[i], b[i]));
        assert(narrows(b[i], c[i]));
    }
}

/// Filtering twice by one predicate keeps what filtering once kept.
proof fn lemma_filter_idempotent<A>(s: Seq<A>, p: spec_fn(A) -> bool)
    ensures
        s.filter(p).filter(p) == s.filter(p),
    decreases s.len(),
{
    reveal(Seq::filter);
    if s.len() > 0 {
        lemma_filter_idempotent(s.drop_last(), p);
        let f = s.drop_last().filter(p);
        if p(s.last()) {
            assert(f.push(s.last()).drop_last() =~= f);
            assert(f.push(s.last()).last() == s.last());
        }
    }
}

/// A temporal count of zero means no sale is settled.
proof fn lemma_temporal_none(items: Seq<SalePlus>, n: int, i: int)
    requires
        temporal_count(items, n) == 0,
        0 <= i < n,
    ensures
        !temporal_resolves(items[i], watermark(items, i)),
    decreases n,
{
    if i < n - 1 {
        lemma_temporal_none(items, n - 1, i);
    }
}

/// No sale settled means a temporal count of zero.
proof fn lemma_temporal_zero(items: Seq<SalePlus>, n: int)
    requires
        forall|i: int| 0 <= i < n ==> !temporal_resolves(#[trigger] items[i], watermark(items, i)),
    ensures
        temporal_count(items, n) == 0,
    decreases n,
{
    if n > 0 {
        lemma_temporal_zero(items, n - 1);
    }
}

/// A seller count of zero means no sale is settled.
proof fn lemma_seller_none(items: Seq<SalePlus>, n: int, i: int)
    requires
        seller_count(items, n) == 0,
        0 <= i < n,
    ensures
        !seller_resolves(items, i),
    decreases n,
{
    if i < n - 1 {
        lemma_seller_none(items, n - 1, i);
    }
}

/// No sale settled means a seller count of zero.
proof fn lemma_seller_zero(items: Seq<SalePlus>, n: int)
    requires
        forall|i: int| 0 <= i < n ==> !#[trigger] seller_resolves(items, i),
    ensures
        seller_count(items, n) == 0,
    decreases n,
{
    if n > 0 {
        lemma_seller_zero(items, n - 1);
    }
}

/// Sales with the same matches and records have the same histories.
proof fn lemma_same_history(a: Seq<SalePlus>, b: Seq<SalePlus>, n: int, sid: SellerId)
    requires
        a.len() == b.len(),
        0 <= n <= a.len(),
        forall|i: int| 0 <= i < a.len() ==> (#[trigger] a[i]).pricematch == b[i].pricematch && a[i].sale == b[i].sale,
    ensures
        watermark(a, n) == watermark(b, n),
        seller_acc(a, n, sid) == seller_acc(b, n, sid),
        seller_last(a, n, sid) == seller_last(b, n, sid),
    decreases n,
{
    if n > 0 {
        lemma_same_history(a, b, n - 1, sid);
        assert(a[n - 1].pricematch == b[n - 1].pricematch);
    }
}

/// After a pass that settles nothing, a further pass of the same solver
/// settles nothing either: the solver has reached its fixpoint.
pub proof fn lemma_zero_pass_is_fixpoint(solver: AmbiguitySolver, prev: Seq<SalePlus>, fin: Seq<SalePlus>)
    requires
        pass_ok(solver, prev, fin),
        pass_count(solver, prev) == 0,
    ensures
        pass_count(solver, fin) == 0,
{
    let n = prev.len() as int;
    match solver {
        AmbiguitySolver::DoNothing => {},
        AmbiguitySolver::TemporalLookbehind => {
            assert forall|i: int| 0 <= i < n implies (#[trigger] prev[i]).pricematch == fin[i].pricematch && prev[i].sale
                == fin[i].sale by {
                assert(temporal_step(prev[i], fin[i], watermark(prev, i)));
                lemma_temporal_none(prev, n, i);
            }
            assert forall|i: int| 0 <= i < n implies !temporal_resolves(#[trigger] fin[i], watermark(fin, i)) by {
                assert(temporal_step(prev[i], fin[i], watermark(prev, i)));
                lemma_temporal_none(prev, n, i);
                lemma_same_history(prev, fin, i, SellerId::Online);
                if let Some(b) = watermark(prev, i) {
                    lemma_filter_idempotent(prev[i].pricecand@, leaves_at(b));
                }
            }
            lemma_temporal_zero(fin, n);
        },
        AmbiguitySolver::SellerLookBehind => {
            assert forall|i: int| 0 <= i < n implies (#[trigger] prev[i]).pricematch == fin[i].pricematch && prev[i].sale
                == fin[i].sale by {
                assert(seller_step(prev, i, fin[i]));
                lemma_seller_none(prev, n, i);
            }
            assert forall|i: int| 0 <= i < n implies !#[trigger] seller_resolves(fin, i) by {
                assert(seller_step(prev, i, fin[i]));
                lemma_seller_none(prev, n, i);
                if let Some(sid) = prev[i].sale.seller_spec() {
                    lemma_same_history(prev, fin, i, sid);
                    lemma_filter_idempotent(prev[i].pricecand@, touches(seller_acc(prev, i, sid)));
                }
            }
            lemma_seller_zero(fin, n);
        },
    }
}

/// The sales of seller `sid` among the first `i`, in order.
pub open spec fn own_sales(items: Seq<SalePlus>, i: int, sid: SellerId) -> Seq<SalePlus>
    decreases i,
{
    if i <= 0 {
        Seq::empty()
    } else {
        let p = own_sales(items, i - 1, sid);
        if items[i - 1].sale.seller_spec() == Some(sid) {
            p.push(items[i - 1])
        } else {
            p
        }
    }
}

/// A history over a prefix does not look past it.
proof fn lemma_history_prefix(s: Seq<SalePlus>, x: SalePlus, n: int, sid: SellerId)
    requires
        0 <= n <= s.len(),
    ensures
        seller_acc(s.push(x), n, sid) == seller_acc(s, n, sid),
        seller_last(s.push(x), n, sid) == seller_last(s, n, sid),
    decreases n,
{
    if n > 0 {
        lemma_history_prefix(s, x, n - 1, sid);
        assert(s.push(x)[n - 1] == s[n - 1]);
    }
}

/// A seller's history is that of its own sales.
proof fn lemma_history_is_own(items: Seq<SalePlus>, i: int, sid: SellerId)
    requires
        0 <= i <= items.len(),
    ensures
        seller_acc(items, i, sid) == seller_acc(own_sales(items, i, sid), own_sales(items, i, sid).len() as int, sid),
        seller_last(items, i, sid) == seller_last(own_sales(items, i, sid), own_sales(items, i, sid).len() as int, sid),
    decreases i,
{
    if i > 0 {
        lemma_history_is_own(items, i - 1, sid);
        let p = own_sales(items, i - 1, sid);
        if items[i - 1].sale.seller_spec() == Some(sid) {
            lemma_history_prefix(p, items[i - 1], p.len() as int, sid);
            assert(p.push(items[i - 1])[p.len() as int] == items[i - 1]);
        }
    }
}

/// What the seller pass does to a sale depends only on that sale and on the
/// earlier sales of the same seller: sales of other sellers, wherever they
/// stand, do not interfere.
pub proof fn lemma_seller_step_own_history(a: Seq<SalePlus>, i: int, b: Seq<SalePlus>, j: int, sid: SellerId, x: SalePlus)
    requires
        0 <= i < a.len(),
        0 <= j < b.len(),
        a[i] == b[j],
        a[i].sale.seller_spec() == Some(sid),
        own_sales(a, i, sid) == own_sales(b, j, sid),
    ensures
        seller_step(a, i, x) <==> seller_step(b, j, x),
        seller_resolves(a, i) <==> seller_resolves(b, j),
{
    lemma_history_is_own(a, i, sid);
    lemma_history_is_own(b, j, sid);
}

} // verus!
