//! Ticket sale records, as read from the sales export.

use vstd::prelude::*;
use vstd::multiset::Multiset;
use crate::kind::{SaleKind, Seller, SellerId};
use crate::context::SalesContext;
use crate::fields::{amount_cents, contains_text, field_or_na, na_field, occurs, parse_cents};
use crate::timefmt::rfc3339_instant;

verus! {

broadcast use vstd::seq_lib::group_to_multiset_ensures;

/// An instant in time: seconds since the Unix epoch and nanoseconds within the second.
#[derive(Copy, Clone, Debug, PartialEq, Eq, Structural)]
pub struct Timestamp {
    pub secs: i64,
    pub nanos: u32,
}

impl Timestamp {
    /// `self` is not later than `other`.
    pub open spec fn no_later(self, other: Timestamp) -> bool {
        self.secs < other.secs || (self.secs == other.secs && self.nanos <= other.nanos)
    }

    /// Whether `self` is not later than `other`.
    pub fn no_later_than(&self, other: &Timestamp) -> (r: bool)
        ensures
            r == self.no_later(*other),
    {
        self.secs < other.secs || (self.secs == other.secs && self.nanos <= other.nanos)
    }
}

/// A sale, as from the export.
#[derive(Debug)]
pub struct Sale {
    /// Sale date and time.
    pub when: Timestamp,
    /// Buyer e-mail address.
    pub buyer_email: Option<String>,
    /// Buyer username.
    pub buyer_username: Option<String>,
    /// Sale value in cents, as paid.
    pub value: usize,
    /// Sale channel (online or offline).
    pub sale_kind: SaleKind,
    /// Seller name (absent when online).
    pub seller_name: Option<String>,
    /// Seller ID string.
    pub seller_id: Option<String>,
    /// Seller e-mail (absent when online).
    pub seller_email: Option<String>,
    /// Payment token.
    pub token: String,
    /// Sale ID.
    pub sale_id: String,
    /// Card name.
    pub card_name: Option<String>,
    /// Card prefix.
    pub card_pfx: Option<String>,
    /// Card suffix.
    pub card_sfx: Option<String>,
}

/// Sales in ascending order of time.
pub open spec fn sorted_by_date(s: Seq<Sale>) -> bool {
    forall|i: int, j: int| 0 <= i < j < s.len() ==> (#[trigger] s[i]).when.no_later((#[trigger] s[j]).when)
}

impl Sale {
    /// The selling point a sale can be attributed to: every online sale to the
    /// online channel, an offline one to its named point of sale, if named.
    pub open spec fn seller_spec(&self) -> Option<SellerId> {
        match (self.sale_kind, self.seller_name) {
            (SaleKind::Online(_), _) => Some(SellerId::Online),
            (SaleKind::Offline, None) => None,
            (SaleKind::Offline, Some(s)) => Some(SellerId::Offline(s@)),
        }
    }

    /// The fee can be undone on the value paid.
    pub open spec fn priceable(&self) -> bool {
        self.sale_kind.can_undo(self.value)
    }

    /// The price before fees.
    pub open spec fn real_price_spec(&self) -> int {
        self.sale_kind.undone(self.value)
    }

    /// Compare sales' dates.
    pub fn cmp_dates(&self, other: &Sale) -> (r: core::cmp::Ordering)
        ensures
            r == (if self.when == other.when {
                core::cmp::Ordering::Equal
            } else if self.when.no_later(other.when) {
                core::cmp::Ordering::Less
            } else {
                core::cmp::Ordering::Greater
            }),
    {
        if self.when == other.when {
            core::cmp::Ordering::Equal
        } else if self.when.no_later_than(&other.when) {
            core::cmp::Ordering::Less
        } else {
            core::cmp::Ordering::Greater
        }
    }

    /// Whether the fee can be undone on the value paid.
    pub fn can_price(&self) -> (r: bool)
        ensures
            r == self.priceable(),
    {
        match self.sale_kind {
            SaleKind::Online((k, d)) => {
                if k == 0 {
                    false
                } else if d == 0 {
                    assert(self.value as int * d as int == 0) by (nonlinear_arith)
                        requires d == 0;
                    true
                } else {
                    proof {
                        if self.value <= usize::MAX / d {
                            assert(self.value as int * d as int <= usize::MAX) by (nonlinear_arith)
                                requires self.value <= usize::MAX / d, d > 0;
                        } else {
                            assert(self.value as int * d as int > usize::MAX) by (nonlinear_arith)
                                requires self.value > usize::MAX / d, d > 0;
                        }
                    }
                    self.value <= usize::MAX / d
                }
            },
            SaleKind::Offline => true,
        }
    }

    /// The "real price", after undoing fees.
    pub fn real_price(&self) -> (r: usize)
        requires
            self.priceable(),
        ensures
            r == self.real_price_spec(),
    {
        self.sale_kind.undo_fee(self.value)
    }

    /// Infer the seller, if at all possible.
    pub fn seller(&self) -> (r: Option<Seller>)
        ensures
            match r {
                Some(s) => self.seller_spec() == Some(s@),
                None => self.seller_spec() is None,
            },
    {
        match (&self.sale_kind, &self.seller_name) {
            (SaleKind::Online(_), _) => Some(Seller::Online),
            (SaleKind::Offline, None) => None,
            (SaleKind::Offline, Some(s)) => Some(Seller::Offline(s.clone())),
        }
    }
}

/// Sorts sales by date, keeping every sale.
pub fn sort_by_date(v: Vec<Sale>) -> (r: Vec<Sale>)
    ensures
        sorted_by_date(r@),
        r@.to_multiset() == v@.to_multiset(),
        sorted_by_date(v@) ==> r@ == v@,
{
    let ghost v0 = v@;
    let mut rest = v;
    let mut out: Vec<Sale> = Vec::new();
    while rest.len() > 0
        invariant
            sorted_by_date(out@),
            out@.to_multiset().add(rest@.to_multiset()) == v@.to_multiset(),
            forall|i: int, j: int| 0 <= i < out@.len() && 0 <= j < rest@.len() ==> (#[trigger] out@[i]).when.no_later(
                (#[trigger] rest@[j]).when,
            ),
            v0 == v@,
            out@.len() + rest@.len() == v0.len(),
            sorted_by_date(v0) ==> out@ == v0.subrange(0, out@.len() as int) && rest@ == v0.subrange(
                out@.len() as int,
                v0.len() as int,
            ),
        decreases rest@.len(),
    {
        proof {
            if sorted_by_date(v0) {
                assert(sorted_by_date(rest@)) by {
                    assert forall|a: int, b: int| 0 <= a < b < rest@.len() implies (#[trigger] rest@[a]).when.no_later(
                        (#[trigger] rest@[b]).when,
                    ) by {
                        assert(v0.subrange(out@.len() as int, v0.len() as int)[a] == v0[out@.len() + a]);
                        assert(v0.subrange(out@.len() as int, v0.len() as int)[b] == v0[out@.len() + b]);
                    }
                }
            }
        }
        let mut k: usize = 0;
        let mut i: usize = 1;
        while i < rest.len()
            invariant
                1 <= i <= rest@.len(),
                k < i,
                forall|j: int| 0 <= j < i ==> rest@[k as int].when.no_later(#[trigger] rest@[j].when),
                sorted_by_date(rest@) ==> k == 0,
            decreases rest@.len() - i,
        {
            if !rest[k].when.no_later_than(&rest[i].when) {
                k = i;
            }
            i = i + 1;
        }
        let ghost pre_rest = rest@;
        let ghost pre_out = out@;
        let s = rest.remove(k);
        proof {
            assert(pre_rest.remove(k as int).to_multiset() == pre_rest.to_multiset().remove(s));
            assert(pre_out.push(s).to_multiset() == pre_out.to_multiset().insert(s));
            assert(pre_rest.to_multiset().count(s) > 0);
            assert(pre_out.to_multiset().insert(s).add(pre_rest.to_multiset().remove(s)) =~= pre_out.to_multiset().add(
                pre_rest.to_multiset(),
            ));
            assert forall|j: int| 0 <= j < rest@.len() implies s.when.no_later(#[trigger] rest@[j].when) by {
                if j < k {
                    assert(rest@[j] == pre_rest[j]);
                } else {
                    assert(rest@[j] == pre_rest[j + 1]);
                }
            }
        }
        out.push(s);
        proof {
            assert(out@ == pre_out.push(s));
            assert forall|a: int, b: int| 0 <= a < out@.len() && 0 <= b < rest@.len() implies (#[trigger] out@[a]).when.no_later(
                (#[trigger] rest@[b]).when,
            ) by {
                if a < pre_out.len() {
                    if b < k {
                        assert(rest@[b] == pre_rest[b]);
                    } else {
                        assert(rest@[b] == pre_rest[b + 1]);
                    }
                }
            }
            if sorted_by_date(v0) {
                assert(k == 0);
                assert(s == v0[pre_out.len() as int]);
                assert(out@ =~= v0.subrange(0, out@.len() as int));
                assert(rest@ =~= v0.subrange(out@.len() as int, v0.len() as int));
            }
        }
    }
    assert(rest@.to_multiset() =~= Multiset::empty());
    proof {
        if sorted_by_date(v0) {
            assert(v0.subrange(out@.len() as int, v0.len() as int).len() == 0);
            assert(out@ =~= v0);
        }
    }
    assert(out@.to_multiset().add(Multiset::empty()) =~= out@.to_multiset());
    out
}

/// Number of fields of a sales row.
pub const RECORD_LEN: usize = 13;

/// Why a sales row was not read.
#[derive(Copy, Clone, Debug, PartialEq, Eq, Structural)]
pub enum SaleError {
    /// The row has this many fields instead of thirteen.
    WrongColumns(usize),
    /// The amount field is not an amount of money.
    BadAmount,
    /// The date field is not an RFC 3339 date-time.
    BadDate,
    /// The row could not be read at all.
    Unreadable,
    /// The fee cannot be undone on the amount (it is too large, or the fee is void).
    Unpriceable,
}

/// The text of an optional string.
pub open spec fn opt_view(o: Option<String>) -> Option<Seq<char>> {
    match o {
        Some(s) => Some(s@),
        None => None,
    }
}

/// The cents of the amount field, when it is an amount that fits.
pub open spec fn row_cents(f: Seq<char>) -> Option<usize> {
    match amount_cents(f) {
        Some(c) => if c <= usize::MAX { Some(c as usize) } else { None },
        None => None,
    }
}

/// The error a row of fields gives, if any: a wrong number of fields, then a
/// bad amount, then a bad date.
pub open spec fn row_error(f: Seq<Seq<char>>) -> Option<SaleError> {
    if f.len() != 13 {
        Some(SaleError::WrongColumns(f.len() as usize))
    } else if row_cents(f[3]) is None {
        Some(SaleError::BadAmount)
    } else if rfc3339_instant(f[0]) is None {
        Some(SaleError::BadDate)
    } else {
        None
    }
}

/// `s` is the sale a well-formed row of fields describes under a context.
pub open spec fn sale_of_row(s: Sale, f: Seq<Seq<char>>, ctx: SalesContext) -> bool {
    let t = rfc3339_instant(f[0]).unwrap();
    &&& s.when == Timestamp { secs: t.0, nanos: t.1 }
    &&& opt_view(s.buyer_email) == na_field(f[1])
    &&& opt_view(s.buyer_username) == na_field(f[2])
    &&& s.value == row_cents(f[3]).unwrap()
    &&& (if occurs(f[4], "Online"@) {
        s.sale_kind == SaleKind::Online(ctx.online_fee)
    } else {
        s.sale_kind == SaleKind::Offline
    })
    &&& opt_view(s.seller_name) == na_field(f[5])
    &&& opt_view(s.seller_id) == na_field(f[6])
    &&& opt_view(s.seller_email) == na_field(f[7])
    &&& s.token@ == f[8]
    &&& s.sale_id@ == f[9]
    &&& opt_view(s.card_name) == na_field(f[10])
    &&& opt_view(s.card_pfx) == na_field(f[11])
    &&& opt_view(s.card_sfx) == na_field(f[12])
}

/// The fields of a row, as texts.
pub open spec fn row_view(v: Seq<String>) -> Seq<Seq<char>> {
    v.map_values(|s: String| s@)
}

impl Sale {
    /// Reads a sale from the thirteen fields of a row: date, buyer e-mail and
    /// username, amount, channel, seller name, id and e-mail, token, sale id,
    /// card name, prefix and suffix.
    pub fn try_from(v: &Vec<String>, ctx: &SalesContext) -> (r: Result<Sale, SaleError>)
        ensures
            match r {
                Ok(s) => row_error(row_view(v@)) is None && sale_of_row(s, row_view(v@), *ctx),
                Err(e) => row_error(row_view(v@)) == Some(e),
            },
    {
        let ghost f = row_view(v@);
        if v.len() != RECORD_LEN {
            return Err(SaleError::WrongColumns(v.len()));
        }
        assert(forall|k: int| 0 <= k < 13 ==> f[k] == (#[trigger] v@[k])@);
        let value = match parse_cents(v[3].as_str()) {
            Some(c) => c,
            None => return Err(SaleError::BadAmount),
        };
        let when = match Timestamp::parse(v[0].as_str()) {
            Some(t) => t,
            None => return Err(SaleError::BadDate),
        };
        let sale_kind = if contains_text(v[4].as_str(), "Online") {
            SaleKind::Online(ctx.online_fee)
        } else {
            SaleKind::Offline
        };
        Ok(Sale {
            when,
            buyer_email: field_or_na(Some(v[1].as_str())),
            buyer_username: field_or_na(Some(v[2].as_str())),
            value,
            sale_kind,
            seller_name: field_or_na(Some(v[5].as_str())),
            seller_id: field_or_na(Some(v[6].as_str())),
            seller_email: field_or_na(Some(v[7].as_str())),
            token: v[8].clone(),
            sale_id: v[9].clone(),
            card_name: field_or_na(Some(v[10].as_str())),
            card_pfx: field_or_na(Some(v[11].as_str())),
            card_sfx: field_or_na(Some(v[12].as_str())),
        })
    }
}

/// The fields of a record as texts; `None` for a record that could not be read.
pub open spec fn record_view(rec: Option<Vec<String>>) -> Option<Seq<Seq<char>>> {
    match rec {
        Some(v) => Some(row_view(v@)),
        None => None,
    }
}

/// The fields of each record, as texts.
pub open spec fn record_views(r: Seq<Option<Vec<String>>>) -> Seq<Option<Seq<Seq<char>>>> {
    r.map_values(|rec: Option<Vec<String>>| record_view(rec))
}

/// The sale that a well-formed row reads as can be priced under a context.
pub open spec fn row_priceable(f: Seq<Seq<char>>, ctx: SalesContext) -> bool {
    let kind = if occurs(f[4], "Online"@) {
        SaleKind::Online(ctx.online_fee)
    } else {
        SaleKind::Offline
    };
    kind.can_undo(row_cents(f[3]).unwrap())
}

/// A record yields a sale: it reads as one and, when `priced`, the sale can be priced.
pub open spec fn record_kept(rec: Option<Seq<Seq<char>>>, ctx: SalesContext, priced: bool) -> bool {
    match rec {
        Some(f) => row_error(f) is None && (!priced || row_priceable(f, ctx)),
        None => false,
    }
}

/// Records that yield a sale.
pub open spec fn kept(ctx: SalesContext, priced: bool) -> spec_fn(Option<Seq<Seq<char>>>) -> bool {
    |rec: Option<Seq<Seq<char>>>| record_kept(rec, ctx, priced)
}

/// Records that yield an error.
pub open spec fn dropped(ctx: SalesContext, priced: bool) -> spec_fn(Option<Seq<Seq<char>>>) -> bool {
    |rec: Option<Seq<Seq<char>>>| !record_kept(rec, ctx, priced)
}

/// The error of a record that yields no sale: unreadable, the row's error,
/// or, for a row that reads, that its sale cannot be priced.
pub open spec fn record_error(rec: Option<Seq<Seq<char>>>) -> SaleError {
    match rec {
        Some(f) => match row_error(f) {
            Some(e) => e,
            None => SaleError::Unpriceable,
        },
        None => SaleError::Unreadable,
    }
}

/// `s` is the sale that record `rec` reads as.
pub open spec fn record_reads(s: Sale, rec: Option<Seq<Seq<char>>>, ctx: SalesContext) -> bool {
    match rec {
        Some(f) => row_error(f) is None && sale_of_row(s, f, ctx),
        None => false,
    }
}

/// `sales` are the sales of `recs`, one per record, in order.
pub open spec fn reads_all(sales: Seq<Sale>, recs: Seq<Option<Seq<Seq<char>>>>, ctx: SalesContext) -> bool {
    sales.len() == recs.len() && forall|k: int| 0 <= k < sales.len() ==> #[trigger] record_reads(sales[k], recs[k], ctx)
}

/// The errors of the records that yield none, in order.
pub open spec fn errors_of(recs: Seq<Option<Seq<Seq<char>>>>, ctx: SalesContext, priced: bool) -> Seq<SaleError> {
    recs.filter(dropped(ctx, priced)).map_values(|rec: Option<Seq<Seq<char>>>| record_error(rec))
}

/// A record splits into what a filter keeps and what it drops.
pub proof fn lemma_filter_split<A>(s: Seq<A>, p: spec_fn(A) -> bool, q: spec_fn(A) -> bool)
    requires
        forall|a: A| #[trigger] p(a) == !q(a),
    ensures
        s.filter(p).len() + s.filter(q).len() == s.len(),
    decreases s.len(),
{
    reveal(Seq::filter);
    if s.len() > 0 {
        lemma_filter_split(s.drop_last(), p, q);
        assert(p(s.last()) == !q(s.last()));
    }
}

/// Reads every record: the sales of the records that yield one, in order,
/// and the errors of the others, in order. When `priced`, a sale that cannot
/// be priced gives `Unpriceable` instead.
pub fn read_sales(records: &Vec<Option<Vec<String>>>, ctx: &SalesContext, priced: bool) -> (r: (Vec<Sale>, Vec<SaleError>))
    ensures
        reads_all(r.0@, record_views(records@).filter(kept(*ctx, priced)), *ctx),
        r.1@ == errors_of(record_views(records@), *ctx, priced),
        forall|k: int| 0 <= k < r.0@.len() ==> (priced ==> (#[trigger] r.0@[k]).priceable()),
{
    let ghost recs = record_views(records@);
    let mut sv: Vec<Sale> = Vec::new();
    let mut ev: Vec<SaleError> = Vec::new();
    let mut i: usize = 0;
    while i < records.len()
        invariant
            i <= records@.len(),
            recs == record_views(records@),
            reads_all(sv@, recs.subrange(0, i as int).filter(kept(*ctx, priced)), *ctx),
            ev@ == errors_of(recs.subrange(0, i as int), *ctx, priced),
            forall|k: int| 0 <= k < sv@.len() ==> (priced ==> (#[trigger] sv@[k]).priceable()),
        decreases records@.len() - i,
    {
        proof {
            assert(recs.subrange(0, i + 1).drop_last() =~= recs.subrange(0, i as int));
            assert(recs.subrange(0, i + 1).last() == recs[i as int]);
            assert(recs[i as int] == record_view(records@[i as int]));
            reveal(Seq::filter);
        }
        let ghost pre_s = sv@;
        let ghost pre_e = ev@;
        match &records[i] {
            Some(fields) => match Sale::try_from(fields, ctx) {
                Ok(s) => {
                    assert(record_reads(s, recs[i as int], *ctx));
                    if priced && !s.can_price() {
                        ev.push(SaleError::Unpriceable);
                        assert(ev@ =~= errors_of(recs.subrange(0, i + 1), *ctx, priced));
                    } else {
                        sv.push(s);
                        proof {
                            assert forall|k: int| 0 <= k < sv@.len() implies #[trigger] record_reads(
                                sv@[k],
                                recs.subrange(0, i + 1).filter(kept(*ctx, priced))[k],
                                *ctx,
                            ) by {
                                if k < pre_s.len() {
                                    assert(sv@[k] == pre_s[k]);
                                }
                            }
                        }
                    }
                },
                Err(e) => {
                    ev.push(e);
                    assert(ev@ =~= errors_of(recs.subrange(0, i + 1), *ctx, priced));
                },
            },
            None => {
                ev.push(SaleError::Unreadable);
                assert(ev@ =~= errors_of(recs.subrange(0, i + 1), *ctx, priced));
            },
        }
        i = i + 1;
    }
    assert(recs.subrange(0, records@.len() as int) =~= recs);
    (sv, ev)
}

impl Sale {
    /// Reads every record of an export (`None` for one that could not be
    /// read): the sales, sorted by date, are one per record that reads, and
    /// the errors of the other records come in order.
    pub fn parse_csv(records: Vec<Option<Vec<String>>>, ctx: &SalesContext) -> (r: (Vec<Sale>, Vec<SaleError>))
        ensures
            sorted_by_date(r.0@),
            r.0@.len() + r.1@.len() == records@.len(),
            r.1@ == errors_of(record_views(records@), *ctx, false),
            exists|u: Seq<Sale>| #[trigger] reads_all(u, record_views(records@).filter(kept(*ctx, false)), *ctx)
                && u.to_multiset() == r.0@.to_multiset(),
    {
        let ghost recs = record_views(records@);
        let (sv, ev) = read_sales(&records, ctx, false);
        let ghost unsorted = sv@;
        let sorted = sort_by_date(sv);
        proof {
            lemma_filter_split(recs, kept(*ctx, false), dropped(*ctx, false));
            assert(sorted@.to_multiset().len() == sorted@.len());
            assert(unsorted.to_multiset().len() == unsorted.len());
            assert(reads_all(unsorted, recs.filter(kept(*ctx, false)), *ctx));
        }
        (sorted, ev)
    }
}

} // verus!
