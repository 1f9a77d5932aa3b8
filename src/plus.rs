//! Sales together with what was inferred about them, and the ledger of a run.

use vstd::prelude::*;
use crate::candidate::{PricingCandidate, PricingCandidateCache, candidate_set};
use crate::context::SalesContext;
use crate::pricing::PricingMatch;
use crate::ambiguity::{
    narrows, narrows_all, unsettled, temporal_lookbehind, temporal_pass, temporal_count, lemma_pass_narrows,
    lemma_pass_settles_count, lemma_unsettled_bound, lemma_narrows_trans, pass_ok, pass_count, pass_chain, lemma_zero_pass_is_fixpoint,
};
use crate::sale::{Sale, SaleError, sort_by_date, sorted_by_date, read_sales, reads_all, errors_of, kept, dropped, lemma_filter_split};
use crate::csvread::{csv_records_of, read_records};
use crate::text::{cents_text, cents_text_spec, join_with, joined, texts};
use crate::timefmt::utc_text_of;

verus! {

broadcast use vstd::seq_lib::group_to_multiset_ensures;

/// A sale plus inferred data.
#[derive(Debug)]
pub struct SalePlus {
    /// The sale itself.
    pub sale: Sale,
    /// The pricing candidate inferred from the price alone.
    pub pricecand: PricingCandidate,
    /// The pricing match, once settled.
    pub pricematch: Option<PricingMatch>,
}

impl SalePlus {
    /// The candidate is well formed; a precise candidate is settled on its match,
    /// and a settled match is one of the candidates.
    pub open spec fn wf(&self) -> bool {
        &&& self.pricecand.collapses(self.pricecand@)
        &&& (self.pricecand matches PricingCandidate::Precise(m) ==> self.pricematch == Some(m))
        &&& (self.pricematch matches Some(m) ==> self.pricecand@.contains(m))
    }

    /// Resolve this sale's pricing inference.
    pub fn resolve(&mut self, pm: PricingMatch)
        ensures
            final(self).pricematch == Some(pm),
            final(self).sale == old(self).sale,
            final(self).pricecand == old(self).pricecand,
    {
        self.pricematch = Some(pm);
    }

    /// A sale with its candidate; a precise candidate settles it at once.
    pub fn from_parts(s: Sale, cnd: PricingCandidate) -> (r: SalePlus)
        ensures
            r.sale == s,
            r.pricecand == cnd,
            r.pricematch == (match cnd {
                PricingCandidate::Precise(m) => Some(m),
                _ => None::<PricingMatch>,
            }),
    {
        let pm = match &cnd {
            PricingCandidate::Precise(m) => Some(*m),
            _ => None,
        };
        SalePlus { sale: s, pricecand: cnd, pricematch: pm }
    }
}

/// The text of an optional field: empty when absent.
pub open spec fn opt_text(o: Option<String>) -> Seq<char> {
    match o {
        Some(s) => s@,
        None => Seq::empty(),
    }
}

fn opt_string(o: &Option<String>) -> (r: String)
    ensures
        r@ == opt_text(*o),
{
    match o {
        Some(s) => s.clone(),
        None => String::new(),
    }
}

/// Separator between the descriptions of ambiguous matches.
pub open spec fn or_sep() -> Seq<char> {
    "  ou  "@
}

/// Marker of a sale that no match explains.
pub open spec fn no_solution() -> Seq<char> {
    "TRAGÉDIA"@
}

/// The descriptions of a list of matches.
pub open spec fn descs(v: Seq<PricingMatch>) -> Seq<Seq<char>> {
    v.map_values(|m: PricingMatch| m.desc())
}

/// How the price of a sale decodes: the settled match, else every candidate
/// joined by the "or" separator, else the no-solution marker.
pub open spec fn decoding(p: SalePlus) -> Seq<char> {
    match p.pricematch {
        Some(m) => m.desc(),
        None => match p.pricecand {
            PricingCandidate::Precise(m) => m.desc(),
            PricingCandidate::Ambiguous(v) => joined(descs(v@), or_sep()),
            PricingCandidate::NoMatch => no_solution(),
        },
    }
}

/// The row of the enriched export for a sale: its thirteen fields, whether it
/// is settled, and how its price decodes.
pub open spec fn export_row(p: SalePlus) -> Seq<Seq<char>> {
    let s = p.sale;
    seq![
        utc_text_of(s.when.secs, s.when.nanos),
        opt_text(s.buyer_email),
        opt_text(s.buyer_username),
        cents_text_spec(s.value as nat),
        if s.sale_kind is Online { "Paga Online"@ } else { "Paga Físico"@ },
        opt_text(s.seller_name),
        opt_text(s.seller_id),
        opt_text(s.seller_email),
        s.token@,
        s.sale_id@,
        opt_text(s.card_name),
        opt_text(s.card_pfx),
        opt_text(s.card_sfx),
        if p.pricematch is Some { "sim"@ } else { "não"@ },
        decoding(p),
    ]
}

/// The header of the enriched export.
pub open spec fn export_header() -> Seq<Seq<char>> {
    seq![
        "DataCompra"@,
        "EmailUsuarioAssociado"@,
        "NomeUsuarioAssociado"@,
        "ValorDaCompra"@,
        "Status"@,
        "NomeVendedor"@,
        "IDVendedor"@,
        "EmailVendedor"@,
        "Token"@,
        "ID"@,
        "NomeCartao"@,
        "PrimDigitosCartao"@,
        "UltDigitosCartao"@,
        "Resolvido?"@,
        "Decodificação de preço"@,
    ]
}

/// The descriptions of a list of matches, joined by the "or" separator.
fn describe_all(v: &Vec<PricingMatch>) -> (r: String)
    ensures
        r@ == joined(descs(v@), or_sep()),
{
    let mut ds: Vec<String> = Vec::new();
    let mut i: usize = 0;
    while i < v.len()
        invariant
            i <= v@.len(),
            ds@.len() == i,
            forall|k: int| 0 <= k < i ==> (#[trigger] ds@[k])@ == v@[k].desc(),
        decreases v@.len() - i,
    {
        let d = v[i].describe();
        ds.push(d);
        i = i + 1;
    }
    assert(texts(ds@) =~= descs(v@));
    join_with(&ds, "  ou  ")
}

impl SalePlus {
    /// The row of the enriched export for this sale.
    pub fn gen_better_csv_line(&self) -> (r: Vec<String>)
        ensures
            texts(r@) == export_row(*self),
    {
        let s = &self.sale;
        let mut v: Vec<String> = Vec::new();
        v.push(s.when.to_text());
        v.push(opt_string(&s.buyer_email));
        v.push(opt_string(&s.buyer_username));
        v.push(cents_text(s.value));
        v.push(String::from_str(s.sale_kind.label()));
        v.push(opt_string(&s.seller_name));
        v.push(opt_string(&s.seller_id));
        v.push(opt_string(&s.seller_email));
        v.push(s.token.clone());
        v.push(s.sale_id.clone());
        v.push(opt_string(&s.card_name));
        v.push(opt_string(&s.card_pfx));
        v.push(opt_string(&s.card_sfx));
        let resolved = if self.pricematch.is_some() {
            String::from_str("sim")
        } else {
            String::from_str("não")
        };
        v.push(resolved);
        let dec = match self.pricematch {
            Some(m) => m.describe(),
            None => match &self.pricecand {
                PricingCandidate::Precise(m) => m.describe(),
                PricingCandidate::Ambiguous(hs) => describe_all(hs),
                PricingCandidate::NoMatch => String::from_str("TRAGÉDIA"),
            },
        };
        v.push(dec);
        assert(texts(v@) =~= export_row(*self));
        v
    }

    /// The header of the enriched export.
    pub fn better_csv_header() -> (r: Vec<String>)
        ensures
            texts(r@) == export_header(),
    {
        let mut v: Vec<String> = Vec::new();
        v.push(String::from_str("DataCompra"));
        v.push(String::from_str("EmailUsuarioAssociado"));
        v.push(String::from_str("NomeUsuarioAssociado"));
        v.push(String::from_str("ValorDaCompra"));
        v.push(String::from_str("Status"));
        v.push(String::from_str("NomeVendedor"));
        v.push(String::from_str("IDVendedor"));
        v.push(String::from_str("EmailVendedor"));
        v.push(String::from_str("Token"));
        v.push(String::from_str("ID"));
        v.push(String::from_str("NomeCartao"));
        v.push(String::from_str("PrimDigitosCartao"));
        v.push(String::from_str("UltDigitosCartao"));
        v.push(String::from_str("Resolvido?"));
        v.push(String::from_str("Decodificação de preço"));
        assert(texts(v@) =~= export_header());
        v
    }
}

impl AsRef<Sale> for SalePlus {
    fn as_ref(&self) -> &Sale {
        &self.sale
    }
}

impl From<(Sale, PricingCandidate)> for SalePlus {
    fn from(p: (Sale, PricingCandidate)) -> (r: SalePlus) {
        SalePlus::from_parts(p.0, p.1)
    }
}

impl vstd::std_specs::convert::FromSpecImpl<(Sale, PricingCandidate)> for SalePlus {
    open spec fn obeys_from_spec() -> bool {
        true
    }

    open spec fn from_spec(p: (Sale, PricingCandidate)) -> SalePlus {
        SalePlus {
            sale: p.0,
            pricecand: p.1,
            pricematch: match p.1 {
                PricingCandidate::Precise(m) => Some(m),
                _ => None::<PricingMatch>,
            },
        }
    }
}

/// The ledger of a run: sales in time order with their inferences, and the context.
pub struct SalesPlus {
    /// The sales, ascending by time.
    pub sales: Vec<SalePlus>,
    /// The context of the run.
    pub context: SalesContext,
}

impl AsRef<Vec<SalePlus>> for SalesPlus {
    fn as_ref(&self) -> &Vec<SalePlus> {
        &self.sales
    }
}

/// The sales of a ledger, in order.
pub open spec fn sales_of(items: Seq<SalePlus>) -> Seq<Sale> {
    items.map_values(|p: SalePlus| p.sale)
}

impl SalesPlus {
    /// Every sale is well formed and the sales are in time order.
    pub open spec fn wf(&self) -> bool {
        &&& forall|i: int| 0 <= i < self.sales@.len() ==> (#[trigger] self.sales@[i]).wf()
        &&& sorted_by_date(sales_of(self.sales@))
    }

    /// A ledger for a list of sales: the sales sorted by time, each with the
    /// collapsed enumeration of its real price, settled where it is precise.
    pub fn from_sales(sales: Vec<Sale>, ctx: SalesContext) -> (r: SalesPlus)
        requires
            forall|i: int| 0 <= i < sales@.len() ==> (#[trigger] sales@[i]).priceable(),
        ensures
            r.wf(),
            r.context == ctx,
            sales_of(r.sales@).to_multiset() == sales@.to_multiset(),
            sorted_by_date(sales@) ==> sales_of(r.sales@) == sales@,
            forall|i: int| 0 <= i < r.sales@.len() ==> (#[trigger] r.sales@[i]).pricecand.set() == candidate_set(
                r.sales@[i].sale.real_price_spec() as usize,
                ctx.batches@,
                ctx.promo_limit,
            ),
            forall|i: int| 0 <= i < r.sales@.len() ==> (#[trigger] r.sales@[i]).pricematch == (
            match r.sales@[i].pricecand {
                PricingCandidate::Precise(m) => Some(m),
                _ => None::<PricingMatch>,
            }),
    {
        proof {
            assert forall|s: Sale| sales@.to_multiset().count(s) > 0 implies s.priceable() by {
                assert(sales@.contains(s));
            }
        }
        let sorted = sort_by_date(sales);
        proof {
            assert forall|i: int| 0 <= i < sorted@.len() implies (#[trigger] sorted@[i]).priceable() by {
                assert(sorted@.contains(sorted@[i]));
                assert(sorted@.to_multiset().count(sorted@[i]) > 0);
            }
        }
        let ghost all = sorted@;
        let n = sorted.len();
        let mut sorted = sorted;
        let mut rev: Vec<Sale> = Vec::new();
        while sorted.len() > 0
            invariant
                sorted@ == all.subrange(0, sorted@.len() as int),
                n == all.len(),
                rev@.len() == n - sorted@.len(),
                forall|j: int| 0 <= j < rev@.len() ==> #[trigger] rev@[j] == all[n - 1 - j],
            decreases sorted@.len(),
        {
            let s = sorted.pop().unwrap();
            rev.push(s);
        }
        let mut dude = PricingCandidateCache::from_context(ctx.duplicate());
        let mut items: Vec<SalePlus> = Vec::new();
        while rev.len() > 0
            invariant
                n == all.len(),
                rev@.len() + items@.len() == n,
                forall|j: int| 0 <= j < rev@.len() ==> #[trigger] rev@[j] == all[n - 1 - j],
                forall|j: int| 0 <= j < all.len() ==> (#[trigger] all[j]).priceable(),
                dude.wf(),
                dude.prices() == ctx.batches@,
                dude.limit() == ctx.promo_limit,
                forall|j: int| 0 <= j < items@.len() ==> (#[trigger] items@[j]).sale == all[j],
                forall|j: int| 0 <= j < items@.len() ==> (#[trigger] items@[j]).wf(),
                forall|j: int| 0 <= j < items@.len() ==> (#[trigger] items@[j]).pricecand.set() == candidate_set(
                    items@[j].sale.real_price_spec() as usize,
                    ctx.batches@,
                    ctx.promo_limit,
                ),
                forall|j: int| 0 <= j < items@.len() ==> (#[trigger] items@[j]).pricematch == (
                match items@[j].pricecand {
                    PricingCandidate::Precise(m) => Some(m),
                    _ => None::<PricingMatch>,
                }),
            decreases rev@.len(),
        {
            let s = rev.pop().unwrap();
            assert(s == all[items@.len() as int]);
            let pc = dude.from_price(s.real_price());
            let sp = SalePlus::from_parts(s, pc);
            proof {
                if let Some(m) = sp.pricematch {
                    assert(sp.pricecand@ == seq![m]);
                    assert(sp.pricecand@[0] == m);
                }
            }
            items.push(sp);
        }
        proof {
            assert(sales_of(items@) =~= all);
        }
        SalesPlus { sales: items, context: ctx }
    }
}

/// A class of sales, by what is known of their price.
pub enum SaleClass {
    /// Candidate with two or more matches.
    Ambiguous,
    /// No candidate match at all.
    NoMatch,
    /// Settled on a match.
    Settled,
}

impl SaleClass {
    /// Whether a sale is in the class.
    pub open spec fn holds(&self, p: SalePlus) -> bool {
        match self {
            SaleClass::Ambiguous => p.pricecand is Ambiguous,
            SaleClass::NoMatch => p.pricecand is NoMatch,
            SaleClass::Settled => p.pricematch is Some,
        }
    }

    fn test(&self, p: &SalePlus) -> (r: bool)
        ensures
            r == self.holds(*p),
    {
        match self {
            SaleClass::Ambiguous => match p.pricecand {
                PricingCandidate::Ambiguous(_) => true,
                _ => false,
            },
            SaleClass::NoMatch => match p.pricecand {
                PricingCandidate::NoMatch => true,
                _ => false,
            },
            SaleClass::Settled => p.pricematch.is_some(),
        }
    }
}

/// Number of sales of a class among the first `n`.
pub open spec fn class_count(items: Seq<SalePlus>, n: int, class: SaleClass) -> nat
    decreases n,
{
    if n <= 0 {
        0
    } else {
        class_count(items, n - 1, class) + if class.holds(items[n - 1]) {
            1nat
        } else {
            0nat
        }
    }
}

/// The positions, ascending, of the sales of a class.
pub open spec fn positions_ok(r: Seq<usize>, items: Seq<SalePlus>, class: SaleClass) -> bool {
    &&& forall|a: int, b: int| 0 <= a < b < r.len() ==> r[a] < r[b]
    &&& forall|k: usize| #[trigger] r.contains(k) <==> (k < items.len() && class.holds(items[k as int]))
    &&& r.len() == class_count(items, items.len() as int, class)
}

impl SalesPlus {
    /// The positions, ascending, of the sales of a class.
    pub fn positions(&self, class: SaleClass) -> (r: Vec<usize>)
        ensures
            positions_ok(r@, self.sales@, class),
    {
        let mut v: Vec<usize> = Vec::new();
        let mut i: usize = 0;
        while i < self.sales.len()
            invariant
                i <= self.sales@.len(),
                forall|a: int, b: int| 0 <= a < b < v@.len() ==> v@[a] < v@[b],
                forall|a: int| 0 <= a < v@.len() ==> v@[a] < i,
                forall|k: usize| #[trigger] v@.contains(k) <==> (k < i && class.holds(self.sales@[k as int])),
                v@.len() == class_count(self.sales@, i as int, class),
            decreases self.sales@.len() - i,
        {
            if class.test(&self.sales[i]) {
                let ghost pre = v@;
                v.push(i);
                proof {
                    assert forall|k: usize| #[trigger] v@.contains(k) <==> (k < i + 1 && class.holds(self.sales@[k as int])) by {
                        if k == i {
                            assert(v@[v@.len() - 1] == k);
                        }
                        if v@.contains(k) && k != i {
                            let j = choose|j: int| 0 <= j < v@.len() && v@[j] == k;
                            assert(pre[j] == k);
                        }
                        if pre.contains(k) {
                            let j = choose|j: int| 0 <= j < pre.len() && pre[j] == k;
                            assert(v@[j] == k);
                        }
                    }
                }
            } else {
                assert forall|k: usize| #[trigger] v@.contains(k) <==> (k < i + 1 && class.holds(self.sales@[k as int])) by {
                    if v@.contains(k) {
                        let j = choose|j: int| 0 <= j < v@.len() && v@[j] == k;
                    }
                }
            }
            i = i + 1;
        }
        v
    }

    /// Positions of the sales with ambiguous pricing.
    pub fn ambiguous(&self) -> (r: Vec<usize>)
        ensures
            positions_ok(r@, self.sales@, SaleClass::Ambiguous),
    {
        self.positions(SaleClass::Ambiguous)
    }

    /// Positions of the sales with no pricing match.
    pub fn villains(&self) -> (r: Vec<usize>)
        ensures
            positions_ok(r@, self.sales@, SaleClass::NoMatch),
    {
        self.positions(SaleClass::NoMatch)
    }

    /// Positions of the sales settled on a match.
    pub fn oks(&self) -> (r: Vec<usize>)
        ensures
            positions_ok(r@, self.sales@, SaleClass::Settled),
    {
        self.positions(SaleClass::Settled)
    }

    /// One pass of the temporal solver; returns the number of sales settled.
    pub fn comb_simple(&mut self) -> (r: usize)
        requires
            old(self).wf(),
        ensures
            final(self).wf(),
            final(self).context == old(self).context,
            temporal_pass(old(self).sales@, final(self).sales@),
            r == temporal_count(old(self).sales@, old(self).sales@.len() as int),
    {
        temporal_lookbehind(self)
    }

    /// Runs the context's solver until a pass settles nothing. Returns the
    /// number of passes that settled something, and how many sales they
    /// settled in all. Every sale is only narrowed, and at most as many passes
    /// settle something as there were unsettled sales.
    pub fn solve_ambiguities(&mut self) -> (r: (usize, usize))
        requires
            old(self).wf(),
        ensures
            final(self).wf(),
            final(self).context == old(self).context,
            narrows_all(old(self).sales@, final(self).sales@),
            r.1 + unsettled(final(self).sales@, final(self).sales@.len() as int) == unsettled(
                old(self).sales@,
                old(self).sales@.len() as int,
            ),
            r.0 <= r.1,
            r.0 <= unsettled(old(self).sales@, old(self).sales@.len() as int),
            r.0 <= old(self).sales@.len(),
            exists|states: Seq<Seq<SalePlus>>| #[trigger] pass_chain(old(self).context.solver, states, old(self).sales@, final(self).sales@)
                && states.len() == r.0 + 2,
            pass_count(old(self).context.solver, final(self).sales@) == 0,
    {
        let ghost orig = self.sales@;
        let ghost n = orig.len() as int;
        let solver = self.context.solver;
        let mut passes: usize = 0;
        let mut total: usize = 0;
        let mut done = false;
        let ghost mut last_before = self.sales@;
        let ghost mut states: Seq<Seq<SalePlus>> = seq![self.sales@];
        assert(n == self.sales.len());
        proof {
            lemma_unsettled_bound(orig, n);
            assert(narrows_all(orig, self.sales@));
        }
        while !done
            invariant
                self.wf(),
                self.context == old(self).context,
                solver == self.context.solver,
                self.sales@.len() == n,
                orig.len() == n,
                narrows_all(orig, self.sales@),
                total + unsettled(self.sales@, n) == unsettled(orig, n),
                unsettled(orig, n) <= n,
                n <= usize::MAX,
                passes <= total,
                done ==> pass_ok(solver, last_before, self.sales@) && pass_count(solver, last_before) == 0,
                states.len() >= 1,
                states[0] == orig,
                states.last() == self.sales@,
                forall|j: int| 0 <= j < states.len() - 1 ==> pass_ok(solver, #[trigger] states[j], states[j + 1]),
                !done ==> states.len() == passes + 1,
                !done ==> forall|j: int| 0 <= j < states.len() - 1 ==> pass_count(solver, #[trigger] states[j]) > 0,
                done ==> pass_chain(solver, states, orig, self.sales@) && states.len() == passes + 2,
            decreases unsettled(self.sales@, n) + if done { 0int } else { 1int },
        {
            let ghost before = self.sales@;
            let ghost pre_states = states;
            let c = solver.apply(self);
            proof {
                states = pre_states.push(self.sales@);
                assert forall|j: int| 0 <= j < states.len() - 1 implies pass_ok(solver, #[trigger] states[j], states[j + 1]) by {
                    if j < pre_states.len() - 1 {
                        assert(states[j] == pre_states[j] && states[j + 1] == pre_states[j + 1]);
                    } else {
                        assert(states[j] == before);
                    }
                }
                lemma_pass_narrows(solver, before, self.sales@);
                lemma_narrows_trans(orig, before, self.sales@);
                lemma_pass_settles_count(solver, before, self.sales@, n);
                assert(c + unsettled(self.sales@, n) == unsettled(before, n));
            }
            if c == 0 {
                done = true;
                proof {
                    last_before = before;
                    assert(states[states.len() - 2] == before);
                    assert forall|j: int| 0 <= j < states.len() - 2 implies pass_count(solver, #[trigger] states[j]) > 0 by {
                        assert(states[j] == pre_states[j]);
                    }
                }
            } else {
                passes = passes + 1;
                total = total + c;
                proof {
                    assert forall|j: int| 0 <= j < states.len() - 1 implies pass_count(solver, #[trigger] states[j]) > 0 by {
                        if j < pre_states.len() - 1 {
                            assert(states[j] == pre_states[j]);
                        } else {
                            assert(states[j] == before);
                        }
                    }
                }
            }
        }
        proof {
            lemma_zero_pass_is_fixpoint(solver, last_before, self.sales@);
        }
        (passes, total)
    }
}

impl SalesPlus {
    /// The rows of the enriched export, one per sale, in order.
    pub fn gen_csv(&self) -> (r: Vec<Vec<String>>)
        ensures
            r@.len() == self.sales@.len(),
            forall|i: int| 0 <= i < r@.len() ==> texts(#[trigger] r@[i]@) == export_row(self.sales@[i]),
    {
        let mut rows: Vec<Vec<String>> = Vec::new();
        let mut i: usize = 0;
        while i < self.sales.len()
            invariant
                i <= self.sales@.len(),
                rows@.len() == i,
                forall|k: int| 0 <= k < i ==> texts(#[trigger] rows@[k]@) == export_row(self.sales@[k]),
            decreases self.sales@.len() - i,
        {
            rows.push(self.sales[i].gen_better_csv_line());
            i = i + 1;
        }
        rows
    }
}

/// A sale of a loaded ledger: priceable, with candidates among those of its
/// real price.
pub open spec fn loaded_under(p: SalePlus, ctx: SalesContext) -> bool {
    &&& p.sale.priceable()
    &&& p.pricecand.set().subset_of(candidate_set(p.sale.real_price_spec() as usize, ctx.batches@, ctx.promo_limit))
}

impl SalesPlus {
    /// Loads a sales export under a context: reads its records, builds the
    /// ledger of the sales that read and can be priced (one per such record),
    /// and runs the context's solver until a pass settles nothing. Returns the
    /// ledger and the errors of the other records, in order.
    pub fn try_load(text: &str, ctx: SalesContext) -> (r: (SalesPlus, Vec<SaleError>))
        ensures
            r.0.wf(),
            r.0.context == ctx,
            r.0.sales@.len() + r.1@.len() == csv_records_of(text@).len(),
            r.1@ == errors_of(csv_records_of(text@), ctx, true),
            exists|u: Seq<Sale>| #[trigger] reads_all(u, csv_records_of(text@).filter(kept(ctx, true)), ctx)
                && u.to_multiset() == sales_of(r.0.sales@).to_multiset(),
            forall|i: int| 0 <= i < r.0.sales@.len() ==> #[trigger] loaded_under(r.0.sales@[i], ctx),
            pass_count(ctx.solver, r.0.sales@) == 0,
    {
        let records = read_records(text);
        let ghost recs = crate::sale::record_views(records@);
        let (sales, errs) = read_sales(&records, &ctx, true);
        let ghost oks = sales@;
        proof {
            assert(recs == csv_records_of(text@));
            lemma_filter_split(recs, kept(ctx, true), dropped(ctx, true));
            assert(recs.filter(dropped(ctx, true)).map_values(|rec: Option<Seq<Seq<char>>>| crate::sale::record_error(rec)).len()
                == recs.filter(dropped(ctx, true)).len());
        }
        let mut sp = SalesPlus::from_sales(sales, ctx.duplicate());
        let ghost built = sp.sales@;
        proof {
            assert(sales_of(built).len() == built.len());
            assert(sales_of(built).to_multiset().len() == sales_of(built).len());
            assert(oks.to_multiset().len() == oks.len());
            assert forall|i: int| 0 <= i < built.len() implies #[trigger] loaded_under(built[i], ctx) by {
                let s = built[i].sale;
                assert(sales_of(built)[i] == s);
                assert(sales_of(built).contains(s));
                assert(sales_of(built).to_multiset().count(s) > 0);
                assert(oks.to_multiset().count(s) > 0);
                assert(oks.contains(s));
                let k = choose|k: int| 0 <= k < oks.len() && oks[k] == s;
                assert(oks[k].priceable());
            }
        }
        sp.solve_ambiguities();
        proof {
            assert forall|i: int| 0 <= i < sp.sales@.len() implies #[trigger] loaded_under(sp.sales@[i], ctx) by {
                assert(narrows(built[i], sp.sales@[i]));
                assert(loaded_under(built[i], ctx));
            }
            assert(sales_of(sp.sales@) =~= sales_of(built)) by {
                assert forall|i: int| 0 <= i < built.len() implies sales_of(sp.sales@)[i] == sales_of(built)[i] by {
                    assert(narrows(built[i], sp.sales@[i]));
                }
            }
            assert(reads_all(oks, recs.filter(kept(ctx, true)), ctx));
        }
        let sp = SalesPlus { sales: sp.sales, context: ctx };
        (sp, errs)
    }
}

} // verus!
